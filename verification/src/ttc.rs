//! The transit bot: from the arrival predictions of a bus stop, the text
//! that answers a stop request, and how that text is split into messages.
use vstd::prelude::*;

use crate::bots::{
    chars_of, first_char, lemma_first_char, parse_u16_range, spec_parse_u16, trim_end,
};
use crate::wire::push_slice;

verus! {

/// The longest answer the bot composes, in bytes.
pub const SUMMARY_CAPACITY: usize = 328;

/// The longest answer sent as one message, in bytes.
pub const SINGLE_MESSAGE_LIMIT: usize = 120;

/// One predicted arrival of a vehicle in some direction.
#[derive(Clone, Debug)]
pub struct TtcDirectionalPrediction {
    pub minutes: String,
    pub vehicle: String,
}

/// The predictions for one direction of a route.
#[derive(Clone, Debug)]
pub struct TtcDirection {
    pub title: String,
    pub prediction: Vec<TtcDirectionalPrediction>,
}

/// The predictions for one route at the stop.
#[derive(Clone, Debug)]
pub struct TtcPrediction {
    pub direction: Option<TtcDirection>,
}

/// An arrival the bot reports: the direction, the minutes until the first
/// vehicle, and that vehicle.
#[derive(Clone, Copy, Debug, PartialEq, Eq)]
pub struct Arrival<'a> {
    pub route: &'a str,
    pub minutes: u16,
    pub vehicle: &'a str,
}

/// The arrival a route's predictions give: its direction's first
/// prediction, when there is a direction, a prediction, and its minutes read
/// as a number.
pub open spec fn spec_arrival(p: TtcPrediction) -> Option<(Seq<char>, u16, Seq<char>)> {
    match p.direction {
        None => None,
        Some(d) => if d.prediction@.len() == 0 {
            None
        } else {
            match spec_parse_u16(d.prediction@[0].minutes@) {
                Some(m) => Some((d.title@, m, d.prediction@[0].vehicle@)),
                None => None,
            }
        },
    }
}

/// The arrivals of all routes, in the order of the routes.
pub open spec fn spec_arrivals(ps: Seq<TtcPrediction>) -> Seq<(Seq<char>, u16, Seq<char>)>
    decreases ps.len(),
{
    if ps.len() == 0 {
        Seq::empty()
    } else {
        match spec_arrival(ps.last()) {
            Some(a) => spec_arrivals(ps.drop_last()).push(a),
            None => spec_arrivals(ps.drop_last()),
        }
    }
}

/// What an arrival says.
pub open spec fn arrival_view(a: Arrival) -> (Seq<char>, u16, Seq<char>) {
    (a.route@, a.minutes, a.vehicle@)
}

/// What a list of arrivals says.
pub open spec fn arrivals_view(s: Seq<Arrival>) -> Seq<(Seq<char>, u16, Seq<char>)> {
    s.map_values(|a: Arrival| arrival_view(a))
}

/// The arrivals are in order of minutes.
pub open spec fn by_minutes(s: Seq<Arrival>) -> bool {
    forall|i: int, j: int| 0 <= i < j < s.len() ==> #[trigger] s[i].minutes <= #[trigger] s[j].minutes
}

/// Reads `s` as a `u16`.
fn parse_u16(s: &str) -> (r: Option<u16>)
    ensures
        r == spec_parse_u16(s@),
{
    let v = chars_of(s);
    assert(v@.subrange(0, v@.len() as int) =~= s@);
    parse_u16_range(&v, 0, v.len())
}

/// Puts `a` after every arrival of fewer or as many minutes.
fn insert_by_minutes<'a>(v: &mut Vec<Arrival<'a>>, a: Arrival<'a>)
    requires
        by_minutes(old(v)@),
    ensures
        by_minutes(final(v)@),
        arrivals_view(final(v)@).to_multiset() == arrivals_view(old(v)@).to_multiset().insert(
            arrival_view(a),
        ),
{
    let ghost start = v@;
    let mut pos: usize = 0;
    while pos < v.len() && v[pos].minutes <= a.minutes
        invariant
            v@ == start,
            pos <= v@.len(),
            by_minutes(start),
            forall|j: int| 0 <= j < pos ==> #[trigger] start[j].minutes <= a.minutes,
        decreases v@.len() - pos,
    {
        pos = pos + 1;
    }
    proof {
        assert forall|j: int| pos <= j < start.len() implies #[trigger] start[j].minutes > a.minutes by {
            if j > pos {
                assert(start[pos as int].minutes <= start[j].minutes);
            }
        }
        assert(arrivals_view(start.insert(pos as int, a)) =~= arrivals_view(start).insert(
            pos as int,
            arrival_view(a),
        ));
        vstd::seq_lib::to_multiset_insert(arrivals_view(start), pos as int, arrival_view(a));
    }
    v.insert(pos, a);
    proof {
        let nv = v@;
        assert forall|i: int, j: int| 0 <= i < j < nv.len() implies #[trigger] nv[i].minutes
            <= #[trigger] nv[j].minutes by {
            if j < pos {
                assert(start[i].minutes <= start[j].minutes);
            } else if j == pos {
            } else if i < pos {
            } else if i == pos {
            } else {
                assert(start[i - 1].minutes <= start[j - 1].minutes);
            }
        }
    }
}

/// The arrivals the bot reports for a stop, soonest first: one per route
/// that has a direction, a first prediction and readable minutes.
pub fn arrivals<'a>(predictions: &'a Vec<TtcPrediction>) -> (r: Vec<Arrival<'a>>)
    ensures
        by_minutes(r@),
        arrivals_view(r@).to_multiset() == spec_arrivals(predictions@).to_multiset(),
{
    let mut out: Vec<Arrival<'a>> = Vec::new();
    let mut i: usize = 0;
    assert(arrivals_view(out@) =~= spec_arrivals(predictions@.subrange(0, 0)));
    while i < predictions.len()
        invariant
            i <= predictions@.len(),
            by_minutes(out@),
            arrivals_view(out@).to_multiset() == spec_arrivals(
                predictions@.subrange(0, i as int),
            ).to_multiset(),
        decreases predictions@.len() - i,
    {
        let p = &predictions[i];
        proof {
            assert(predictions@.subrange(0, i + 1).drop_last() =~= predictions@.subrange(
                0,
                i as int,
            ));
        }
        match &p.direction {
            Some(d) => {
                if d.prediction.len() > 0 {
                    let first = &d.prediction[0];
                    match parse_u16(first.minutes.as_str()) {
                        Some(m) => {
                            let a = Arrival {
                                route: d.title.as_str(),
                                minutes: m,
                                vehicle: first.vehicle.as_str(),
                            };
                            insert_by_minutes(&mut out, a);
                            proof {
                                vstd::seq_lib::to_multiset_build(
                                    spec_arrivals(predictions@.subrange(0, i as int)),
                                    arrival_view(a),
                                );
                            }
                        },
                        None => {},
                    }
                }
            },
            None => {},
        }
        i = i + 1;
    }
    assert(predictions@.subrange(0, predictions@.len() as int) =~= predictions@);
    out
}

/// The decimal text of a `u16`.
pub open spec fn decimal_bytes(x: u16) -> Seq<u8>
    decreases x,
{
    if x < 10 {
        seq![(48 + x) as u8]
    } else {
        decimal_bytes(x / 10).push((48 + x % 10) as u8)
    }
}

/// The decimal text of `x`.
fn decimal_of(x: u16) -> (r: Vec<u8>)
    ensures
        r@ == decimal_bytes(x),
    decreases x,
{
    if x < 10 {
        let mut out: Vec<u8> = Vec::new();
        out.push(48 + x as u8);
        assert(out@ =~= decimal_bytes(x));
        out
    } else {
        let mut out = decimal_of(x / 10);
        out.push(48 + (x % 10) as u8);
        assert(out@ =~= decimal_bytes(x));
        out
    }
}

/// The UTF-8 bytes of a text.
pub open spec fn utf8_of(s: Seq<char>) -> Seq<u8> {
    vstd::utf8::encode_utf8(s)
}

/// The pieces a line of the answer is written in: the direction, ` - `, the
/// minutes, a space, `MINUTE` or `MINUTES`, and a line break.
pub open spec fn line_pieces(a: (Seq<char>, u16, Seq<char>)) -> Seq<Seq<u8>> {
    seq![
        utf8_of(a.0),
        seq![32u8, 45, 32],
        decimal_bytes(a.1),
        seq![32u8],
        if a.1 == 1 {
            seq![77u8, 73, 78, 85, 84, 69]
        } else {
            seq![77u8, 73, 78, 85, 84, 69, 83]
        },
        seq![10u8],
    ]
}

/// Writes `pieces` in order into a text of at most `cap` bytes: each piece
/// whole or not at all, stopping at the first that does not fit.
pub open spec fn write_pieces(out: Seq<u8>, pieces: Seq<Seq<u8>>, cap: nat) -> Seq<u8>
    decreases pieces.len(),
{
    if pieces.len() == 0 {
        out
    } else if out.len() + pieces[0].len() <= cap {
        write_pieces(out + pieces[0], pieces.drop_first(), cap)
    } else {
        out
    }
}

/// The answer for a list of arrivals: a line per arrival, as much of each
/// as fits in the answer's capacity.
pub open spec fn spec_summary(arrivals: Seq<(Seq<char>, u16, Seq<char>)>) -> Seq<u8>
    decreases arrivals.len(),
{
    if arrivals.len() == 0 {
        Seq::empty()
    } else {
        write_pieces(
            spec_summary(arrivals.drop_last()),
            line_pieces(arrivals.last()),
            SUMMARY_CAPACITY as nat,
        )
    }
}

/// Appends `piece` when it fits in `cap` bytes, and says whether it did.
fn write_piece(out: &mut Vec<u8>, piece: &[u8], cap: usize) -> (r: bool)
    requires
        old(out)@.len() <= cap,
    ensures
        r <==> old(out)@.len() + piece@.len() <= cap,
        r ==> final(out)@ == old(out)@ + piece@,
        !r ==> final(out)@ == old(out)@,
        final(out)@.len() <= cap,
{
    if piece.len() > cap - out.len() {
        false
    } else {
        push_slice(out, piece);
        true
    }
}

/// Writes the line of one arrival into `out`.
fn write_line(out: &mut Vec<u8>, a: &Arrival)
    requires
        old(out)@.len() <= SUMMARY_CAPACITY,
    ensures
        final(out)@ == write_pieces(old(out)@, line_pieces(arrival_view(*a)), SUMMARY_CAPACITY as nat),
        final(out)@.len() <= SUMMARY_CAPACITY,
{
    let ghost ps = line_pieces(arrival_view(*a));
    let sep: [u8; 3] = [32u8, 45, 32];
    let space: [u8; 1] = [32u8];
    let one: [u8; 6] = [77u8, 73, 78, 85, 84, 69];
    let many: [u8; 7] = [77u8, 73, 78, 85, 84, 69, 83];
    let newline: [u8; 1] = [10u8];
    let digits = decimal_of(a.minutes);
    let plural: &[u8] = if a.minutes == 1 {
        one.as_slice()
    } else {
        many.as_slice()
    };
    proof {
        assert(sep@ =~= ps[1]);
        assert(space@ =~= ps[3]);
        assert(plural@ =~= ps[4]);
        assert(newline@ =~= ps[5]);
        assert(ps.drop_first().drop_first().drop_first().drop_first().drop_first().drop_first()
            =~= Seq::<Seq<u8>>::empty());
    }
    let route = a.route.as_bytes();
    let ghost o0 = out@;
    proof {
        assert(route@ == ps[0]);
        lemma_write_step(o0, ps, 0);
    }
    if !write_piece(out, route, SUMMARY_CAPACITY) {
        return;
    }
    proof {
        lemma_write_step(o0, ps, 1);
    }
    if !write_piece(out, sep.as_slice(), SUMMARY_CAPACITY) {
        return;
    }
    proof {
        lemma_write_step(o0, ps, 2);
    }
    if !write_piece(out, digits.as_slice(), SUMMARY_CAPACITY) {
        return;
    }
    proof {
        lemma_write_step(o0, ps, 3);
    }
    if !write_piece(out, space.as_slice(), SUMMARY_CAPACITY) {
        return;
    }
    proof {
        lemma_write_step(o0, ps, 4);
    }
    if !write_piece(out, plural, SUMMARY_CAPACITY) {
        return;
    }
    proof {
        lemma_write_step(o0, ps, 5);
    }
    write_piece(out, newline.as_slice(), SUMMARY_CAPACITY);
}

/// The text written so far after the first `k` pieces fitted.
pub open spec fn written(out: Seq<u8>, pieces: Seq<Seq<u8>>, k: int) -> Seq<u8>
    decreases k,
{
    if k <= 0 {
        out
    } else {
        written(out, pieces, k - 1) + pieces[k - 1]
    }
}

/// Writing pieces after the first `k` of them fitted is writing the rest
/// after what they wrote.
proof fn lemma_write_step(out: Seq<u8>, pieces: Seq<Seq<u8>>, k: int)
    requires
        0 <= k < pieces.len(),
    ensures
        write_pieces(written(out, pieces, k), pieces.skip(k), SUMMARY_CAPACITY as nat) == if written(
            out,
            pieces,
            k,
        ).len() + pieces[k].len() <= SUMMARY_CAPACITY {
            write_pieces(written(out, pieces, k + 1), pieces.skip(k + 1), SUMMARY_CAPACITY as nat)
        } else {
            written(out, pieces, k)
        },
{
    assert(pieces.skip(k)[0] == pieces[k]);
    assert(pieces.skip(k).drop_first() =~= pieces.skip(k + 1));
}

/// The answer to a stop request: a line `direction - N MINUTES` per
/// arrival, in order, within the answer's capacity.
pub fn summary(arrivals: &Vec<Arrival>) -> (r: Vec<u8>)
    ensures
        r@ == spec_summary(arrivals_view(arrivals@)),
        r@.len() <= SUMMARY_CAPACITY,
{
    let mut out: Vec<u8> = Vec::new();
    let mut i: usize = 0;
    assert(arrivals_view(arrivals@).subrange(0, 0) =~= Seq::<(Seq<char>, u16, Seq<char>)>::empty());
    while i < arrivals.len()
        invariant
            i <= arrivals@.len(),
            out@.len() <= SUMMARY_CAPACITY,
            out@ == spec_summary(arrivals_view(arrivals@).subrange(0, i as int)),
        decreases arrivals@.len() - i,
    {
        write_line(&mut out, &arrivals[i]);
        proof {
            let pre = arrivals_view(arrivals@).subrange(0, i + 1);
            assert(pre.drop_last() =~= arrivals_view(arrivals@).subrange(0, i as int));
            assert(pre.last() == arrival_view(arrivals@[i as int]));
        }
        i = i + 1;
    }
    assert(arrivals_view(arrivals@).subrange(0, arrivals@.len() as int) =~= arrivals_view(
        arrivals@,
    ));
    out
}

/// The parts of `s` between line breaks, the last one included even when
/// empty.
pub open spec fn lines_from(s: Seq<char>) -> Seq<Seq<char>>
    decreases s.len(),
{
    match first_char(s, '\n') {
        Some(i) => {
            proof {
                lemma_first_char(s, '\n');
            }
            seq![s.subrange(0, i)] + lines_from(s.subrange(i + 1, s.len() as int))
        },
        None => seq![s],
    }
}

/// The lines of `s`: the parts between line breaks, without an empty part
/// after a final line break, and none for an empty text.
pub open spec fn split_lines(s: Seq<char>) -> Seq<Seq<char>> {
    if s.len() == 0 {
        Seq::empty()
    } else if s.last() == '\n' {
        lines_from(s.drop_last())
    } else {
        lines_from(s)
    }
}

/// The messages an answer is sent in: the answer without trailing white
/// space, whole when it is at most 120 bytes long, else line by line.
pub open spec fn spec_reply_parts(s: Seq<char>) -> Seq<Seq<char>> {
    let t = trim_end(s);
    if utf8_of(t).len() as usize > SINGLE_MESSAGE_LIMIT {
        split_lines(t)
    } else {
        seq![t]
    }
}

/// What a list of texts says.
pub open spec fn texts_view(parts: Seq<&str>) -> Seq<Seq<char>> {
    parts.map_values(|p: &str| p@)
}

/// The first line break of `t[start..end]` is at `i`.
proof fn lemma_newline_at(t: Seq<char>, start: int, i: int, end: int)
    requires
        0 <= start <= i < end <= t.len(),
        t[i] == '\n',
        forall|j: int| start <= j < i ==> t[j] != '\n',
    ensures
        first_char(t.subrange(start, end), '\n') == Some(i - start),
        lines_from(t.subrange(start, end)) == seq![t.subrange(start, i)] + lines_from(
            t.subrange(i + 1, end),
        ),
{
    let u = t.subrange(start, end);
    lemma_first_char(u, '\n');
    assert(u[i - start] == '\n');
    match first_char(u, '\n') {
        Some(k) => {
            if k < i - start {
                assert(u[k] == t[start + k]);
            }
        },
        None => {},
    }
    assert(u.subrange(0, i - start) =~= t.subrange(start, i));
    assert(u.subrange(i - start + 1, u.len() as int) =~= t.subrange(i + 1, end));
}

/// No line break in `t[start..end]`: it is one line.
proof fn lemma_no_newline(t: Seq<char>, start: int, end: int)
    requires
        0 <= start <= end <= t.len(),
        forall|j: int| start <= j < end ==> t[j] != '\n',
    ensures
        lines_from(t.subrange(start, end)) == seq![t.subrange(start, end)],
{
    let u = t.subrange(start, end);
    lemma_first_char(u, '\n');
    match first_char(u, '\n') {
        Some(k) => {
            assert(u[k] == t[start + k]);
        },
        None => {},
    }
}

/// The messages an answer is sent in: the answer without trailing white
/// space, whole when it is at most 120 bytes long, else line by line.
pub fn reply_parts(res: &str) -> (r: Vec<&str>)
    ensures
        texts_view(r@) == spec_reply_parts(res@),
{
    let v = chars_of(res);
    let b = crate::bots::trim_end_bound(&v);
    let trimmed = res.substring_char(0, b);
    let mut parts: Vec<&str> = Vec::new();
    if trimmed.len() <= SINGLE_MESSAGE_LIMIT {
        parts.push(trimmed);
        proof {
            assert(texts_view(parts@) =~= seq![trimmed@]);
        }
        return parts;
    }
    let ghost t = v@.subrange(0, b as int);
    let end = if b > 0 && v[b - 1] == '\n' {
        b - 1
    } else {
        b
    };
    let mut start: usize = 0;
    let mut i: usize = 0;
    while i < end
        invariant
            end <= b <= v@.len(),
            start <= i <= end,
            v@ == res@,
            forall|j: int| start <= j < i ==> v@[j] != '\n',
            texts_view(parts@) + lines_from(v@.subrange(start as int, end as int)) == lines_from(
                v@.subrange(0, end as int),
            ),
        decreases end - i,
    {
        if v[i] == '\n' {
            let line = res.substring_char(start, i);
            proof {
                lemma_newline_at(v@, start as int, i as int, end as int);
                assert(texts_view(parts@.push(line)) =~= texts_view(parts@).push(line@));
                assert(texts_view(parts@).push(line@) + lines_from(v@.subrange(i + 1, end as int))
                    =~= texts_view(parts@) + (seq![v@.subrange(start as int, i as int)] + lines_from(
                    v@.subrange(i + 1, end as int),
                )));
            }
            parts.push(line);
            start = i + 1;
        }
        i = i + 1;
    }
    let last = res.substring_char(start, end);
    proof {
        lemma_no_newline(v@, start as int, end as int);
        assert(texts_view(parts@.push(last)) =~= texts_view(parts@) + seq![last@]);
        if b > 0 && v@[b - 1] == '\n' {
            assert(t.drop_last() =~= v@.subrange(0, end as int));
        } else {
            assert(t =~= v@.subrange(0, end as int));
        }
    }
    parts.push(last);
    parts
}

} // verus!
