//! The node's settings that the companion app reads and writes as custom
//! variables, the node's default name, and the flash partition table
//! entries.
use vstd::prelude::*;

use crate::protocol::{var_list_of, CustomVars};
use crate::wire::push_slice;

verus! {

/// The lowercase hexadecimal digit for `d`.
pub open spec fn hex_digit(d: u8) -> char {
    if d < 10 {
        (48 + d) as char
    } else {
        (87 + d) as char
    }
}

/// The lowercase hexadecimal text of `bytes`: two digits per byte, high
/// digit first.
pub open spec fn hex_lower(bytes: Seq<u8>) -> Seq<char>
    decreases bytes.len(),
{
    if bytes.len() == 0 {
        Seq::empty()
    } else {
        hex_lower(bytes.drop_last()) + seq![
            hex_digit(bytes.last() / 16),
            hex_digit(bytes.last() % 16),
        ]
    }
}

/// `hex::encode`: the lowercase hexadecimal text of `data`, as the crate
/// documents it.
#[verifier::external_body]
fn hex_encode(data: &[u8]) -> (r: String)
    ensures
        r@ == hex_lower(data@),
{
    hex::encode(data)
}

/// The name a new node gets: the hex text of the first eight bytes of its
/// public key.
pub fn identity_name(public_key: &[u8; 32]) -> (r: String)
    ensures
        r@ == hex_lower(public_key@.subrange(0, 8)),
{
    let mut head: Vec<u8> = Vec::new();
    let mut i: usize = 0;
    while i < 8
        invariant
            i <= 8,
            head@ == public_key@.subrange(0, i as int),
        decreases 8 - i,
    {
        head.push(public_key[i]);
        i = i + 1;
        assert(head@ =~= public_key@.subrange(0, i as int));
    }
    hex_encode(head.as_slice())
}

/// The name of the Wi-Fi network variable.
pub open spec fn wifi_ssid_key() -> Seq<u8> {
    seq![119u8, 105, 102, 105, 95, 115, 115, 105, 100]
}

/// The name of the Wi-Fi password variable.
pub open spec fn wifi_password_key() -> Seq<u8> {
    seq![119u8, 105, 102, 105, 95, 112, 97, 115, 115, 119, 111, 114, 100]
}

/// The UTF-8 bytes of a text.
pub open spec fn utf8(s: Seq<char>) -> Seq<u8> {
    vstd::utf8::encode_utf8(s)
}

/// Whether two byte strings are equal.
fn bytes_equal(a: &[u8], b: &[u8]) -> (r: bool)
    ensures
        r <==> a@ == b@,
{
    if a.len() != b.len() {
        return false;
    }
    let mut i: usize = 0;
    while i < a.len()
        invariant
            a@.len() == b@.len(),
            i <= a@.len(),
            forall|j: int| 0 <= j < i ==> a@[j] == b@[j],
        decreases a@.len() - i,
    {
        if a[i] != b[i] {
            return false;
        }
        i = i + 1;
    }
    assert(a@ =~= b@);
    true
}

/// The settings the companion app can change.
#[derive(Clone, Debug, PartialEq, Eq)]
pub struct CompanionConfig {
    pub wifi_ssid: String,
    pub wifi_password: String,
}

impl CompanionConfig {
    /// Settings with both texts empty.
    pub fn new() -> (r: CompanionConfig)
        ensures
            r.wifi_ssid@ == Seq::<char>::empty(),
            r.wifi_password@ == Seq::<char>::empty(),
    {
        CompanionConfig { wifi_ssid: String::new(), wifi_password: String::new() }
    }

    /// Sets the variable named `key` to `val`; a name that is not a
    /// variable changes nothing.
    pub fn set(&mut self, key: &str, val: &str)
        ensures
            utf8(key@) == wifi_ssid_key() ==> final(self).wifi_ssid@ == val@
                && final(self).wifi_password == old(self).wifi_password,
            utf8(key@) == wifi_password_key() ==> final(self).wifi_password@ == val@
                && final(self).wifi_ssid == old(self).wifi_ssid,
            utf8(key@) != wifi_ssid_key() && utf8(key@) != wifi_password_key() ==> *final(self)
                == *old(self),
    {
        let ssid_key: [u8; 9] = [119u8, 105, 102, 105, 95, 115, 115, 105, 100];
        let password_key: [u8; 13] = [119u8, 105, 102, 105, 95, 112, 97, 115, 115, 119, 111, 114, 100];
        assert(ssid_key@ =~= wifi_ssid_key());
        assert(password_key@ =~= wifi_password_key());
        let k = key.as_bytes();
        if bytes_equal(k, ssid_key.as_slice()) {
            self.wifi_ssid = val.to_owned();
        } else if bytes_equal(k, password_key.as_slice()) {
            self.wifi_password = val.to_owned();
        }
    }

    /// The variables, in order: the Wi-Fi network, then the Wi-Fi password,
    /// each with its name, as the custom variables response carries them.
    pub fn as_vars(&self) -> (r: CustomVars)
        ensures
            var_list_of(r.0).len() == 2,
            var_list_of(r.0)[0].0@ == wifi_ssid_key(),
            var_list_of(r.0)[0].1@ == utf8(self.wifi_ssid@),
            var_list_of(r.0)[1].0@ == wifi_password_key(),
            var_list_of(r.0)[1].1@ == utf8(self.wifi_password@),
    {
        let ssid_key: [u8; 9] = [119u8, 105, 102, 105, 95, 115, 115, 105, 100];
        let password_key: [u8; 13] = [119u8, 105, 102, 105, 95, 112, 97, 115, 115, 119, 111, 114, 100];
        let mut k1: Vec<u8> = Vec::new();
        push_slice(&mut k1, ssid_key.as_slice());
        let mut v1: Vec<u8> = Vec::new();
        push_slice(&mut v1, self.wifi_ssid.as_str().as_bytes());
        let mut k2: Vec<u8> = Vec::new();
        push_slice(&mut k2, password_key.as_slice());
        let mut v2: Vec<u8> = Vec::new();
        push_slice(&mut v2, self.wifi_password.as_str().as_bytes());
        assert(k1@ =~= wifi_ssid_key());
        assert(k2@ =~= wifi_password_key());
        let mut vars = CustomVars::new();
        vars.push(k1, v1);
        vars.push(k2, v2);
        vars
    }
}

/// An entry of the flash partition table.
pub struct Partition {
    pub label: &'static str,
    pub kind: &'static str,
    pub subkind: &'static str,
    pub offset: u32,
    pub size: u32,
}

} // verus!
