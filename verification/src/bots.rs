//! The text commands that the node's bots answer on channels and in
//! direct messages: a message `user: command` on a channel the bot listens
//! to, and a bus stop number sent directly.
use vstd::prelude::*;

use crate::filedb::push_char;

verus! {

/// Whether `c` is white space, as Unicode defines it.
pub open spec fn is_ws(c: char) -> bool {
    let v = c as u32;
    v == 9 || v == 10 || v == 11 || v == 12 || v == 13 || v == 32 || v == 0x85 || v == 0xA0 || v
        == 0x1680 || (0x2000 <= v <= 0x200A) || v == 0x2028 || v == 0x2029 || v == 0x202F || v
        == 0x205F || v == 0x3000
}

/// Whether `c` is white space.
pub fn is_whitespace(c: char) -> (r: bool)
    ensures
        r == is_ws(c),
{
    let v = c as u32;
    v == 9 || v == 10 || v == 11 || v == 12 || v == 13 || v == 32 || v == 0x85 || v == 0xA0 || v
        == 0x1680 || (0x2000 <= v && v <= 0x200A) || v == 0x2028 || v == 0x2029 || v == 0x202F
        || v == 0x205F || v == 0x3000
}

/// `s` without its leading white space.
pub open spec fn trim_start(s: Seq<char>) -> Seq<char>
    decreases s.len(),
{
    if s.len() > 0 && is_ws(s[0]) {
        trim_start(s.drop_first())
    } else {
        s
    }
}

/// `s` without its trailing white space.
pub open spec fn trim_end(s: Seq<char>) -> Seq<char>
    decreases s.len(),
{
    if s.len() > 0 && is_ws(s.last()) {
        trim_end(s.drop_last())
    } else {
        s
    }
}

/// `s` without white space at either end.
pub open spec fn trim(s: Seq<char>) -> Seq<char> {
    trim_end(trim_start(s))
}

/// `s` without its trailing NUL characters.
pub open spec fn trim_nul_end(s: Seq<char>) -> Seq<char>
    decreases s.len(),
{
    if s.len() > 0 && s.last() == '\0' {
        trim_nul_end(s.drop_last())
    } else {
        s
    }
}

/// The text of a received message as the bots read it: trailing NULs
/// removed, then white space at both ends.
pub open spec fn message_text(s: Seq<char>) -> Seq<char> {
    trim(trim_nul_end(s))
}

/// The position of the first `c` in `s`, if any.
pub open spec fn first_char(s: Seq<char>, c: char) -> Option<int>
    decreases s.len(),
{
    if s.len() == 0 {
        None
    } else if s[0] == c {
        Some(0)
    } else {
        match first_char(s.drop_first(), c) {
            Some(i) => Some(i + 1),
            None => None,
        }
    }
}

/// The first `c` of `s` is a `c`, and no `c` comes before it; when there is
/// none, no character of `s` is `c`.
pub proof fn lemma_first_char(s: Seq<char>, c: char)
    ensures
        first_char(s, c) matches Some(i) ==> 0 <= i < s.len() && s[i] == c && forall|j: int|
            0 <= j < i ==> s[j] != c,
        first_char(s, c) is None ==> forall|j: int| 0 <= j < s.len() ==> s[j] != c,
    decreases s.len(),
{
    if s.len() > 0 {
        lemma_first_char(s.drop_first(), c);
        if s[0] != c {
            assert forall|j: int| 1 <= j < s.len() implies s[j] == s.drop_first()[j - 1] by {}
        }
    }
}

/// A channel message `user: command`, split at its first colon: the user,
/// and the command with white space trimmed.
pub open spec fn spec_bot_command(s: Seq<char>) -> Option<(Seq<char>, Seq<char>)> {
    let t = message_text(s);
    match first_char(t, ':') {
        Some(i) => Some((t.subrange(0, i), trim(t.subrange(i + 1, t.len() as int)))),
        None => None,
    }
}

/// The characters of `s`.
pub(crate) fn chars_of(s: &str) -> (r: Vec<char>)
    ensures
        r@ == s@,
{
    let n = s.unicode_len();
    let mut out: Vec<char> = Vec::new();
    let mut i: usize = 0;
    while i < n
        invariant
            n == s@.len(),
            i <= n,
            out@ == s@.subrange(0, i as int),
        decreases n - i,
    {
        out.push(s.get_char(i));
        i = i + 1;
        assert(out@ =~= s@.subrange(0, i as int));
    }
    assert(out@ =~= s@);
    out
}

/// The end of `v` once its trailing NULs are removed.
fn nul_end(v: &Vec<char>) -> (n: usize)
    ensures
        n <= v@.len(),
        trim_nul_end(v@) == v@.subrange(0, n as int),
{
    let mut n = v.len();
    assert(v@.subrange(0, n as int) =~= v@);
    while n > 0 && v[n - 1] == '\0'
        invariant
            n <= v@.len(),
            trim_nul_end(v@) == trim_nul_end(v@.subrange(0, n as int)),
        decreases n,
    {
        assert(v@.subrange(0, n as int).drop_last() =~= v@.subrange(0, n - 1));
        n = n - 1;
    }
    n
}

/// The bounds of `v[from..to]` once white space is trimmed from both ends.
pub(crate) fn trim_bounds(v: &Vec<char>, from: usize, to: usize) -> (r: (usize, usize))
    requires
        from <= to <= v@.len(),
    ensures
        from <= r.0 <= r.1 <= to,
        trim(v@.subrange(from as int, to as int)) == v@.subrange(r.0 as int, r.1 as int),
{
    let mut a = from;
    while a < to && is_whitespace(v[a])
        invariant
            from <= a <= to <= v@.len(),
            trim_start(v@.subrange(from as int, to as int)) == trim_start(
                v@.subrange(a as int, to as int),
            ),
        decreases to - a,
    {
        assert(v@.subrange(a as int, to as int).drop_first() =~= v@.subrange(a + 1, to as int));
        a = a + 1;
    }
    let mut b = to;
    while b > a && is_whitespace(v[b - 1])
        invariant
            a <= b <= to <= v@.len(),
            trim_end(v@.subrange(a as int, to as int)) == trim_end(v@.subrange(a as int, b as int)),
        decreases b,
    {
        assert(v@.subrange(a as int, b as int).drop_last() =~= v@.subrange(a as int, b - 1));
        b = b - 1;
    }
    (a, b)
}

/// The end of `v` once white space is trimmed from its end.
pub(crate) fn trim_end_bound(v: &Vec<char>) -> (b: usize)
    ensures
        b <= v@.len(),
        trim_end(v@) == v@.subrange(0, b as int),
{
    let mut b = v.len();
    assert(v@.subrange(0, b as int) =~= v@);
    while b > 0 && is_whitespace(v[b - 1])
        invariant
            b <= v@.len(),
            trim_end(v@) == trim_end(v@.subrange(0, b as int)),
        decreases b,
    {
        assert(v@.subrange(0, b as int).drop_last() =~= v@.subrange(0, b - 1));
        b = b - 1;
    }
    b
}

/// The first colon of `v[from..to]`, as a position in `v`.
fn find_colon(v: &Vec<char>, from: usize, to: usize) -> (r: Option<usize>)
    requires
        from <= to <= v@.len(),
    ensures
        r == match first_char(v@.subrange(from as int, to as int), ':') {
            Some(i) => Some((from + i) as usize),
            None => None,
        },
{
    let ghost t = v@.subrange(from as int, to as int);
    let mut i = from;
    while i < to
        invariant
            from <= i <= to <= v@.len(),
            t == v@.subrange(from as int, to as int),
            first_char(t, ':') == match first_char(v@.subrange(i as int, to as int), ':') {
                Some(j) => Some(j + (i - from)),
                None => None,
            },
        decreases to - i,
    {
        if v[i] == ':' {
            return Some(i);
        }
        assert(v@.subrange(i as int, to as int).drop_first() =~= v@.subrange(i + 1, to as int));
        i = i + 1;
    }
    None
}

/// Splits a channel message `user: command`: the user as written before the
/// first colon, and the command with white space trimmed; `None` when the
/// message has no colon.
pub fn bot_command(text: &str) -> (r: Option<(&str, &str)>)
    ensures
        r matches Some((u, c)) ==> spec_bot_command(text@) == Some((u@, c@)),
        r is None ==> spec_bot_command(text@) is None,
{
    let v = chars_of(text);
    let n = nul_end(&v);
    let (a, b) = trim_bounds(&v, 0, n);
    proof {
        assert(v@.subrange(0, n as int) =~= trim_nul_end(text@));
    }
    let found = find_colon(&v, a, b);
    proof {
        lemma_first_char(v@.subrange(a as int, b as int), ':');
    }
    match found {
        Some(k) => {
            let (c0, c1) = trim_bounds(&v, k + 1, b);
            let user = text.substring_char(a, k);
            let command = text.substring_char(c0, c1);
            proof {
                let t = v@.subrange(a as int, b as int);
                assert(t.subrange(0, k - a) =~= v@.subrange(a as int, k as int));
                assert(t.subrange(k - a + 1, t.len() as int) =~= v@.subrange(k + 1, b as int));
            }
            Some((user, command))
        },
        None => None,
    }
}

/// The command that asks a bot to answer.
pub open spec fn ping_command() -> Seq<char> {
    seq!['!', 'p', 'i', 'n', 'g']
}

/// The command that asks the café bot to send an advert.
pub open spec fn cafe_advert_command() -> Seq<char> {
    seq!['!', 'c', 'a', 'f', 'e', '_', 'a', 'd', 'v', 'e', 'r', 't']
}

/// Whether `s` holds exactly the characters of `expected`.
fn text_is(s: &str, expected: &[char]) -> (r: bool)
    ensures
        r <==> s@ == expected@,
{
    let v = chars_of(s);
    if v.len() != expected.len() {
        return false;
    }
    let mut i: usize = 0;
    while i < v.len()
        invariant
            v@ == s@,
            v@.len() == expected@.len(),
            i <= v@.len(),
            forall|j: int| 0 <= j < i ==> v@[j] == expected@[j],
        decreases v@.len() - i,
    {
        if v[i] != expected[i] {
            return false;
        }
        i = i + 1;
    }
    assert(v@ =~= expected@);
    true
}

/// The user a ping bot answers: the one who wrote `user: !ping`.
pub fn ping_user(text: &str) -> (r: Option<&str>)
    ensures
        r matches Some(u) ==> spec_bot_command(text@) matches Some((user, c)) && c == ping_command()
            && u@ == user,
        r is None ==> !(spec_bot_command(text@) matches Some((user, c)) && c == ping_command()),
{
    let ping: [char; 5] = ['!', 'p', 'i', 'n', 'g'];
    assert(ping@ =~= ping_command());
    match bot_command(text) {
        Some((user, command)) => {
            if text_is(command, ping.as_slice()) {
                Some(user)
            } else {
                None
            }
        },
        None => None,
    }
}

/// Whether a channel message asks the café bot to send an advert.
pub fn wants_cafe_advert(text: &str) -> (r: bool)
    ensures
        r <==> (spec_bot_command(text@) matches Some((user, c)) && c == cafe_advert_command()),
{
    let cmd: [char; 12] = ['!', 'c', 'a', 'f', 'e', '_', 'a', 'd', 'v', 'e', 'r', 't'];
    assert(cmd@ =~= cafe_advert_command());
    match bot_command(text) {
        Some((_user, command)) => text_is(command, cmd.as_slice()),
        None => false,
    }
}

/// Whether a channel message is a ping: `user: !ping`.
pub open spec fn is_ping(text: Seq<char>) -> bool {
    spec_bot_command(text) matches Some((user, c)) && c == ping_command()
}

/// The answer a ping bot named `name` gives to `user`, with the text of the
/// path the ping came over.
pub open spec fn pong_reply(name: Seq<char>, user: Seq<char>, path: Seq<char>) -> Seq<char> {
    name + seq![':', ' ', 'p', 'o', 'n', 'g', ' ', '@', '['] + user + seq![
        ']',
        ' ',
        '\u{FF3C}',
        '(',
        '\u{2267}',
        '\u{25BD}',
        '\u{2266}',
        ')',
        '\u{FF0F}',
        '\n',
        'p',
        'a',
        't',
        'h',
        ':',
        ' ',
    ] + path
}

/// Appends the characters of `chars` to `out`.
fn push_chars(out: &mut String, chars: &[char])
    ensures
        final(out)@ == old(out)@ + chars@,
{
    let mut i: usize = 0;
    while i < chars.len()
        invariant
            i <= chars@.len(),
            out@ == old(out)@ + chars@.subrange(0, i as int),
        decreases chars@.len() - i,
    {
        push_char(out, chars[i]);
        i = i + 1;
        assert(out@ =~= old(out)@ + chars@.subrange(0, i as int));
    }
    assert(chars@.subrange(0, chars@.len() as int) =~= chars@);
}

/// A bot that answers `user: !ping` on the channels it listens on.
pub struct PingBot {
    pub name: String,
    pub channels: Vec<String>,
}

impl PingBot {
    /// The answer to the channel message `text` on the channel named
    /// `channel`, which came over the path written `path`: a pong to the
    /// user who pinged, when the bot listens on that channel and the message
    /// is a ping; else nothing.
    pub fn group_text(&self, channel: &String, text: &str, path: &str) -> (r: Option<String>)
        ensures
            r is Some <==> ((exists|i: int|
                0 <= i < self.channels@.len() && self.channels@[i]@ == channel@) && is_ping(
                text@,
            )),
            r matches Some(reply) ==> (spec_bot_command(text@) matches Some((user, c))
                && reply@ == pong_reply(self.name@, user, path@)),
    {
        if !listens_on(&self.channels, channel) {
            return None;
        }
        let user = match ping_user(text) {
            Some(u) => u,
            None => {
                return None;
            },
        };
        let mut reply = String::new();
        let name = chars_of(self.name.as_str());
        push_chars(&mut reply, name.as_slice());
        let head: [char; 9] = [':', ' ', 'p', 'o', 'n', 'g', ' ', '@', '['];
        push_chars(&mut reply, head.as_slice());
        let who = chars_of(user);
        push_chars(&mut reply, who.as_slice());
        let tail: [char; 16] = [
            ']',
            ' ',
            '\u{FF3C}',
            '(',
            '\u{2267}',
            '\u{25BD}',
            '\u{2266}',
            ')',
            '\u{FF0F}',
            '\n',
            'p',
            'a',
            't',
            'h',
            ':',
            ' ',
        ];
        push_chars(&mut reply, tail.as_slice());
        let way = chars_of(path);
        push_chars(&mut reply, way.as_slice());
        proof {
            assert(head@ =~= seq![':', ' ', 'p', 'o', 'n', 'g', ' ', '@', '[']);
        }
        Some(reply)
    }
}

/// Whether a bot listens on the channel named `name`.
pub fn listens_on(channels: &Vec<String>, name: &String) -> (r: bool)
    ensures
        r <==> exists|i: int| 0 <= i < channels@.len() && channels@[i]@ == name@,
{
    let mut i: usize = 0;
    while i < channels.len()
        invariant
            i <= channels@.len(),
            forall|j: int| 0 <= j < i ==> channels@[j]@ != name@,
        decreases channels@.len() - i,
    {
        if channels[i] == *name {
            return true;
        }
        i = i + 1;
    }
    false
}

/// The value of a string of decimal digits.
pub open spec fn digits_value(s: Seq<char>) -> int
    decreases s.len(),
{
    if s.len() == 0 {
        0
    } else {
        digits_value(s.drop_last()) * 10 + (s.last() as u32 - 48)
    }
}

/// Every character of `s` is a decimal digit.
pub open spec fn all_digits(s: Seq<char>) -> bool {
    forall|i: int| 0 <= i < s.len() ==> '0' <= #[trigger] s[i] <= '9'
}

/// A `u16` written in decimal, with an optional leading `+`, as Rust reads
/// one: `None` for anything else or a value that does not fit.
pub open spec fn spec_parse_u16(s: Seq<char>) -> Option<u16> {
    let d = if s.len() > 0 && s[0] == '+' {
        s.drop_first()
    } else {
        s
    };
    if d.len() > 0 && all_digits(d) && digits_value(d) <= u16::MAX {
        Some(digits_value(d) as u16)
    } else {
        None
    }
}

/// Reads `v[from..to]` as a `u16` the way Rust's `parse` does.
pub(crate) fn parse_u16_range(v: &Vec<char>, from: usize, to: usize) -> (r: Option<u16>)
    requires
        from <= to <= v@.len(),
    ensures
        r == spec_parse_u16(v@.subrange(from as int, to as int)),
{
    let ghost s = v@.subrange(from as int, to as int);
    let mut start = from;
    if start < to && v[start] == '+' {
        start = start + 1;
    }
    let ghost d = v@.subrange(start as int, to as int);
    assert(d =~= (if s.len() > 0 && s[0] == '+' {
        s.drop_first()
    } else {
        s
    }));
    if start == to {
        return None;
    }
    let mut value: u32 = 0;
    let mut i = start;
    while i < to
        invariant
            from <= start < to <= v@.len(),
            start <= i <= to,
            s == v@.subrange(from as int, to as int),
            d == v@.subrange(start as int, to as int),
            d == (if s.len() > 0 && s[0] == '+' {
                s.drop_first()
            } else {
                s
            }),
            value == digits_value(v@.subrange(start as int, i as int)),
            value <= u16::MAX,
            all_digits(v@.subrange(start as int, i as int)),
        decreases to - i,
    {
        let c = v[i];
        if c < '0' || c > '9' {
            assert(d[i - start] == c);
            assert(!all_digits(d));
            return None;
        }
        let digit = (c as u32) - 48;
        assert(v@.subrange(start as int, i + 1).drop_last() =~= v@.subrange(start as int, i as int));
        let next = value * 10 + digit;
        if next > 65535 {
            proof {
                if all_digits(d) {
                    lemma_digits_grow(d, (i + 1 - start) as int);
                    assert(v@.subrange(start as int, i + 1) =~= d.subrange(0, i + 1 - start));
                }
            }
            return None;
        }
        value = next;
        i = i + 1;
    }
    assert(v@.subrange(start as int, to as int) =~= d);
    Some(value as u16)
}

/// A longer run of digits is worth at least as much as its beginning.
proof fn lemma_digits_grow(d: Seq<char>, k: int)
    requires
        0 <= k <= d.len(),
        all_digits(d),
    ensures
        digits_value(d) >= digits_value(d.subrange(0, k)),
    decreases d.len() - k,
{
    if k < d.len() {
        lemma_digits_grow(d, k + 1);
        assert(d.subrange(0, k + 1).drop_last() =~= d.subrange(0, k));
        assert(digits_value(d.subrange(0, k)) >= 0) by {
            lemma_digits_nonneg(d.subrange(0, k));
        }
    } else {
        assert(d.subrange(0, k) =~= d);
    }
}

/// The value of digits is never negative.
proof fn lemma_digits_nonneg(d: Seq<char>)
    requires
        all_digits(d),
    ensures
        digits_value(d) >= 0,
    decreases d.len(),
{
    if d.len() > 0 {
        lemma_digits_nonneg(d.drop_last());
    }
}

/// The bus stop a direct message asks about: the message text, trimmed, read
/// as a `u16`.
pub fn stop_request(text: &str) -> (r: Option<u16>)
    ensures
        r == spec_parse_u16(message_text(text@)),
{
    let v = chars_of(text);
    let n = nul_end(&v);
    let (a, b) = trim_bounds(&v, 0, n);
    proof {
        assert(v@.subrange(0, n as int) =~= trim_nul_end(text@));
    }
    parse_u16_range(&v, a, b)
}

} // verus!
