//! The responses that the node sends to a companion app, and their wire
//! encoding.
//!
//! Every response starts with its response code, then its fields in order,
//! integers little-endian, fixed-size text fields padded with zero bytes.
use vstd::prelude::*;

use smallvec::SmallVec;

use crate::command::{spec_text_type, TextType};
use crate::wire::{
    le16, le32, lemma_le16_roundtrip, lemma_le32_roundtrip, u16_of_le, push_slice, push_u16_le, push_u32_le, push_zeros, u32_of_le, zeros,
};

verus! {

/// A value that can be sent to the companion app.
pub trait CompanionSer {
    /// The bytes this value is sent as.
    spec fn spec_encoding(&self) -> Seq<u8>;

    /// The size this value announces, computed field by field.
    spec fn spec_size(&self) -> nat;

    /// Every bounded field of this value fits its bound.
    spec fn spec_well_formed(&self) -> bool;

    /// The announced size is the length of the encoding.
    proof fn lemma_size_matches_encoding(&self)
        requires
            self.spec_well_formed(),
        ensures
            self.spec_size() == self.spec_encoding().len(),
    ;

    /// The number of bytes `companion_serialize` produces.
    fn ser_size(&self) -> (r: usize)
        requires
            self.spec_size() <= usize::MAX,
        ensures
            r == self.spec_size(),
    ;

    /// The bytes this value is sent as.
    fn companion_serialize(&self) -> (r: Vec<u8>)
        requires
            self.spec_well_formed(),
        ensures
            r@ == self.spec_encoding(),
    ;
}

/// The first byte of every response.
#[derive(Clone, Copy, Debug, PartialEq, Eq, Structural)]
pub enum ResponseCodes {
    OkCode,
    ErrCode,
    ContactsStart,
    Contact,
    EndOfContacts,
    SelfInfo,
    MsgSent,
    ContactMsgRecv,
    ChannelMsgRecv,
    ContactMsgRecvV3,
    ChannelMsgRecvV3,
    CurrTime,
    NoMoreMessages,
    Battery,
    DeviceInfo,
    ChannelInfo,
    Advertisement,
    Ack,
    MessagesWaiting,
    LogData,
    LoginSuccess,
    SignStart,
    Signature,
    ExportPrivateKey,
    CustomVars,
}

impl ResponseCodes {
    pub open spec fn spec_code(self) -> u8 {
        match self {
            ResponseCodes::OkCode => 0x00,
            ResponseCodes::ErrCode => 0x01,
            ResponseCodes::ContactsStart => 0x02,
            ResponseCodes::Contact => 0x03,
            ResponseCodes::EndOfContacts => 0x04,
            ResponseCodes::SelfInfo => 0x05,
            ResponseCodes::MsgSent => 0x06,
            ResponseCodes::ContactMsgRecv => 0x07,
            ResponseCodes::ChannelMsgRecv => 0x08,
            ResponseCodes::ContactMsgRecvV3 => 0x10,
            ResponseCodes::ChannelMsgRecvV3 => 0x11,
            ResponseCodes::CurrTime => 0x09,
            ResponseCodes::NoMoreMessages => 0x0A,
            ResponseCodes::Battery => 0x0C,
            ResponseCodes::DeviceInfo => 0x0D,
            ResponseCodes::ChannelInfo => 0x12,
            ResponseCodes::Advertisement => 0x80,
            ResponseCodes::Ack => 0x82,
            ResponseCodes::MessagesWaiting => 0x83,
            ResponseCodes::LogData => 0x88,
            ResponseCodes::LoginSuccess => 0x85,
            ResponseCodes::SignStart => 0x13,
            ResponseCodes::Signature => 0x20,
            ResponseCodes::ExportPrivateKey => 0x0e,
            ResponseCodes::CustomVars => 0x15,
        }
    }

    /// The byte of this response code.
    pub fn code(self) -> (r: u8)
        ensures
            r == self.spec_code(),
    {
        match self {
            ResponseCodes::OkCode => 0x00,
            ResponseCodes::ErrCode => 0x01,
            ResponseCodes::ContactsStart => 0x02,
            ResponseCodes::Contact => 0x03,
            ResponseCodes::EndOfContacts => 0x04,
            ResponseCodes::SelfInfo => 0x05,
            ResponseCodes::MsgSent => 0x06,
            ResponseCodes::ContactMsgRecv => 0x07,
            ResponseCodes::ChannelMsgRecv => 0x08,
            ResponseCodes::ContactMsgRecvV3 => 0x10,
            ResponseCodes::ChannelMsgRecvV3 => 0x11,
            ResponseCodes::CurrTime => 0x09,
            ResponseCodes::NoMoreMessages => 0x0A,
            ResponseCodes::Battery => 0x0C,
            ResponseCodes::DeviceInfo => 0x0D,
            ResponseCodes::ChannelInfo => 0x12,
            ResponseCodes::Advertisement => 0x80,
            ResponseCodes::Ack => 0x82,
            ResponseCodes::MessagesWaiting => 0x83,
            ResponseCodes::LogData => 0x88,
            ResponseCodes::LoginSuccess => 0x85,
            ResponseCodes::SignStart => 0x13,
            ResponseCodes::Signature => 0x20,
            ResponseCodes::ExportPrivateKey => 0x0e,
            ResponseCodes::CustomVars => 0x15,
        }
    }
}

/// The first byte of every response, as the companion protocol numbers
/// them: 0x00 to 0x0A for success, failure, the contact listing, self info,
/// sent and received messages, the time and the end of messages; 0x0C to
/// 0x15 for battery, device and channel info, the private key, signatures
/// and the custom variables; 0x20 for a signature; 0x80 and above for
/// pushed notices. Each byte names one response and each response has one
/// byte.
pub proof fn lemma_response_codes(t: ResponseCodes, b: u8)
    ensures
        t.spec_code() == b <==> ({
            ||| (b == 0x00u8 && t == ResponseCodes::OkCode)
            ||| (b == 0x01u8 && t == ResponseCodes::ErrCode)
            ||| (b == 0x02u8 && t == ResponseCodes::ContactsStart)
            ||| (b == 0x03u8 && t == ResponseCodes::Contact)
            ||| (b == 0x04u8 && t == ResponseCodes::EndOfContacts)
            ||| (b == 0x05u8 && t == ResponseCodes::SelfInfo)
            ||| (b == 0x06u8 && t == ResponseCodes::MsgSent)
            ||| (b == 0x07u8 && t == ResponseCodes::ContactMsgRecv)
            ||| (b == 0x08u8 && t == ResponseCodes::ChannelMsgRecv)
            ||| (b == 0x09u8 && t == ResponseCodes::CurrTime)
            ||| (b == 0x0Au8 && t == ResponseCodes::NoMoreMessages)
            ||| (b == 0x0Cu8 && t == ResponseCodes::Battery)
            ||| (b == 0x0Du8 && t == ResponseCodes::DeviceInfo)
            ||| (b == 0x0eu8 && t == ResponseCodes::ExportPrivateKey)
            ||| (b == 0x10u8 && t == ResponseCodes::ContactMsgRecvV3)
            ||| (b == 0x11u8 && t == ResponseCodes::ChannelMsgRecvV3)
            ||| (b == 0x12u8 && t == ResponseCodes::ChannelInfo)
            ||| (b == 0x13u8 && t == ResponseCodes::SignStart)
            ||| (b == 0x15u8 && t == ResponseCodes::CustomVars)
            ||| (b == 0x20u8 && t == ResponseCodes::Signature)
            ||| (b == 0x80u8 && t == ResponseCodes::Advertisement)
            ||| (b == 0x82u8 && t == ResponseCodes::Ack)
            ||| (b == 0x83u8 && t == ResponseCodes::MessagesWaiting)
            ||| (b == 0x85u8 && t == ResponseCodes::LoginSuccess)
            ||| (b == 0x88u8 && t == ResponseCodes::LogData)
        }),
{
}

/// The wire codes of the text types, as the mesh protocol numbers them:
/// plain text 0, CLI data 1, signed plain text 2; these bytes and no other
/// decode to a text type.
pub proof fn lemma_text_type_codes(t: TextType, b: u8)
    ensures
        t.spec_code() == b <==> ({
            ||| (b == 0u8 && t == TextType::PlainText)
            ||| (b == 1u8 && t == TextType::CliData)
            ||| (b == 2u8 && t == TextType::SignedPlainText)
        }),
        spec_text_type(b) == Some(t) <==> t.spec_code() == b,
{
}

/// The encoding of a byte that holds a signed value.
pub open spec fn signed_byte(x: i8) -> u8 {
    x as u8
}

/// The encoding of an optional little-endian `u32`: nothing when absent.
pub open spec fn opt_le32(x: Option<u32>) -> Seq<u8> {
    match x {
        Some(v) => le32(v),
        None => Seq::empty(),
    }
}

/// Appends `bytes`, then zero bytes up to `size` bytes in all.
pub fn push_padded(out: &mut Vec<u8>, bytes: &[u8], size: usize)
    requires
        bytes@.len() <= size,
    ensures
        final(out)@ == old(out)@ + padded(bytes@, size as nat),
        padded(bytes@, size as nat).len() == size,
{
    let to_pad = size - bytes.len();
    push_slice(out, bytes);
    push_zeros(out, to_pad);
    assert(final(out)@ =~= old(out)@ + padded(bytes@, size as nat));
}

/// A text field of `SIZE` bytes: the text, then zero bytes up to `SIZE`.
#[derive(Clone, Debug, PartialEq, Eq)]
pub struct NullPaddedSlice<const SIZE: usize>(pub Vec<u8>);

/// The padded encoding of `bytes` in a field of `size` bytes.
pub open spec fn padded(bytes: Seq<u8>, size: nat) -> Seq<u8> {
    bytes + zeros((size - bytes.len()) as nat)
}

impl<const SIZE: usize> NullPaddedSlice<SIZE> {
    /// The text fits its field.
    pub open spec fn fits(&self) -> bool {
        self.0@.len() <= SIZE
    }

    /// Wraps `value`, which must fit in `SIZE` bytes.
    pub fn from(value: Vec<u8>) -> (r: Self)
        requires
            value@.len() <= SIZE,
        ensures
            r.0@ == value@,
            r.fits(),
    {
        NullPaddedSlice(value)
    }

    /// Appends the text and its zero padding.
    pub fn encode_to(&self, out: &mut Vec<u8>)
        requires
            self.fits(),
        ensures
            final(out)@ == old(out)@ + padded(self.0@, SIZE as nat),
            padded(self.0@, SIZE as nat).len() == SIZE,
    {
        push_padded(out, self.0.as_slice(), SIZE);
    }
}

/// Success, with an optional numeric code.
#[derive(Clone, Copy, Debug, PartialEq, Eq)]
pub struct OkResponse {
    pub code: Option<u32>,
}

impl CompanionSer for OkResponse {
    open spec fn spec_encoding(&self) -> Seq<u8> {
        seq![ResponseCodes::OkCode.spec_code()] + opt_le32(self.code)
    }

    open spec fn spec_size(&self) -> nat {
        1 + if self.code is Some {
            4nat
        } else {
            0nat
        }
    }

    open spec fn spec_well_formed(&self) -> bool {
        true
    }

    proof fn lemma_size_matches_encoding(&self) {
    }

    fn ser_size(&self) -> (r: usize) {
        1 + if self.code.is_some() {
            4
        } else {
            0
        }
    }

    fn companion_serialize(&self) -> (r: Vec<u8>) {
        let mut out: Vec<u8> = Vec::new();
        out.push(ResponseCodes::OkCode.code());
        if let Some(code) = self.code {
            push_u32_le(&mut out, code);
        }
        assert(out@ =~= self.spec_encoding());
        out
    }
}

/// Failure, with an optional error code. It goes out under the success
/// response code.
#[derive(Clone, Copy, Debug, PartialEq, Eq)]
pub struct ErrResponse {
    pub code: Option<u8>,
}

impl CompanionSer for ErrResponse {
    open spec fn spec_encoding(&self) -> Seq<u8> {
        seq![ResponseCodes::OkCode.spec_code()] + match self.code {
            Some(c) => seq![c],
            None => Seq::empty(),
        }
    }

    open spec fn spec_size(&self) -> nat {
        1 + if self.code is Some {
            1nat
        } else {
            0nat
        }
    }

    open spec fn spec_well_formed(&self) -> bool {
        true
    }

    proof fn lemma_size_matches_encoding(&self) {
    }

    fn ser_size(&self) -> (r: usize) {
        1 + if self.code.is_some() {
            1
        } else {
            0
        }
    }

    fn companion_serialize(&self) -> (r: Vec<u8>) {
        let mut out: Vec<u8> = Vec::new();
        out.push(ResponseCodes::OkCode.code());
        if let Some(code) = self.code {
            out.push(code);
        }
        assert(out@ =~= self.spec_encoding());
        out
    }
}

/// A response, or the error sent in its place.
impl<T: CompanionSer> CompanionSer for Result<T, ErrResponse> {
    open spec fn spec_encoding(&self) -> Seq<u8> {
        match self {
            Result::Ok(r) => r.spec_encoding(),
            Result::Err(e) => e.spec_encoding(),
        }
    }

    open spec fn spec_size(&self) -> nat {
        match self {
            Result::Ok(r) => r.spec_size(),
            Result::Err(e) => e.spec_size(),
        }
    }

    open spec fn spec_well_formed(&self) -> bool {
        match self {
            Result::Ok(r) => r.spec_well_formed(),
            Result::Err(e) => e.spec_well_formed(),
        }
    }

    proof fn lemma_size_matches_encoding(&self) {
        match self {
            Result::Ok(r) => r.lemma_size_matches_encoding(),
            Result::Err(e) => e.lemma_size_matches_encoding(),
        }
    }

    fn ser_size(&self) -> (r: usize) {
        match self {
            Result::Ok(r) => r.ser_size(),
            Result::Err(e) => e.ser_size(),
        }
    }

    fn companion_serialize(&self) -> (r: Vec<u8>) {
        match self {
            Result::Ok(r) => r.companion_serialize(),
            Result::Err(e) => e.companion_serialize(),
        }
    }
}

/// The node's own identity and radio settings.
#[derive(Clone, Debug, PartialEq, Eq)]
pub struct SelfInfo {
    pub advertisement_type: u8,
    pub tx_power: u8,
    pub max_tx_power: u8,
    pub public_key: [u8; 32],
    pub lat: u32,
    pub long: u32,
    pub multi_acks: u8,
    pub adv_loc_policy: u8,
    pub telemetry_mode: u8,
    pub manual_add_contacts: bool,
    pub radio_freq: u32,
    pub radio_bandwidth: u32,
    pub radio_sf: u8,
    pub radio_cr: u8,
    pub device_name: Vec<u8>,
}

impl CompanionSer for SelfInfo {
    open spec fn spec_encoding(&self) -> Seq<u8> {
        seq![
            ResponseCodes::SelfInfo.spec_code(),
            self.advertisement_type,
            self.tx_power,
            self.max_tx_power,
        ] + self.public_key@ + le32(self.lat) + le32(self.long) + seq![
            self.multi_acks,
            self.adv_loc_policy,
            self.telemetry_mode,
            if self.manual_add_contacts {
                1u8
            } else {
                0u8
            },
        ] + le32(self.radio_freq) + le32(self.radio_bandwidth) + seq![self.radio_sf, self.radio_cr]
            + self.device_name@
    }

    open spec fn spec_size(&self) -> nat {
        4 + 32 + 4 * 2 + 4 + 4 * 2 + 2 + self.device_name@.len()
    }

    open spec fn spec_well_formed(&self) -> bool {
        true
    }

    proof fn lemma_size_matches_encoding(&self) {
    }

    fn ser_size(&self) -> (r: usize) {
        4 + 32 + 4 * 2 + 4 + 4 * 2 + 2 + self.device_name.len()
    }

    fn companion_serialize(&self) -> (r: Vec<u8>) {
        let mut out: Vec<u8> = Vec::new();
        out.push(ResponseCodes::SelfInfo.code());
        out.push(self.advertisement_type);
        out.push(self.tx_power);
        out.push(self.max_tx_power);
        push_slice(&mut out, self.public_key.as_slice());
        push_u32_le(&mut out, self.lat);
        push_u32_le(&mut out, self.long);
        out.push(self.multi_acks);
        out.push(self.adv_loc_policy);
        out.push(self.telemetry_mode);
        out.push(
            if self.manual_add_contacts {
                1u8
            } else {
                0u8
            },
        );
        push_u32_le(&mut out, self.radio_freq);
        push_u32_le(&mut out, self.radio_bandwidth);
        out.push(self.radio_sf);
        out.push(self.radio_cr);
        push_slice(&mut out, self.device_name.as_slice());
        assert(out@ =~= self.spec_encoding());
        out
    }
}

/// Firmware and hardware description.
#[derive(Clone, Debug, PartialEq, Eq)]
pub struct DeviceInfo {
    pub fw_version: u8,
    pub max_contacts: u8,
    pub max_channels: u8,
    pub ble_pin: u32,
    pub firmware_build: NullPaddedSlice<12>,
    pub model: NullPaddedSlice<40>,
    pub version: NullPaddedSlice<20>,
    pub client_repeat_enabled: bool,
    pub path_hash_mode: u8,
}

impl DeviceInfo {
    /// Every text field fits its padded width.
    pub open spec fn fits(&self) -> bool {
        self.firmware_build.fits() && self.model.fits() && self.version.fits()
    }
}

impl CompanionSer for DeviceInfo {
    open spec fn spec_encoding(&self) -> Seq<u8> {
        seq![
            ResponseCodes::DeviceInfo.spec_code(),
            self.fw_version,
            self.max_contacts,
            self.max_channels,
        ] + le32(self.ble_pin) + padded(self.firmware_build.0@, 12) + padded(self.model.0@, 40)
            + padded(self.version.0@, 20) + seq![
            if self.client_repeat_enabled {
                1u8
            } else {
                0u8
            },
            self.path_hash_mode,
        ]
    }

    open spec fn spec_size(&self) -> nat {
        4 + 4 + 12 + 40 + 20 + 1 + 1
    }

    open spec fn spec_well_formed(&self) -> bool {
        self.fits()
    }

    proof fn lemma_size_matches_encoding(&self) {
    }

    fn ser_size(&self) -> (r: usize) {
        4 + 4 + 12 + 40 + 20 + 1 + 1
    }

    fn companion_serialize(&self) -> (r: Vec<u8>) {
        let mut out: Vec<u8> = Vec::new();
        out.push(ResponseCodes::DeviceInfo.code());
        out.push(self.fw_version);
        out.push(self.max_contacts);
        out.push(self.max_channels);
        push_u32_le(&mut out, self.ble_pin);
        push_padded(&mut out, self.firmware_build.0.as_slice(), 12);
        push_padded(&mut out, self.model.0.as_slice(), 40);
        push_padded(&mut out, self.version.0.as_slice(), 20);
        out.push(
            if self.client_repeat_enabled {
                1u8
            } else {
                0u8
            },
        );
        out.push(self.path_hash_mode);
        assert(out@ =~= self.spec_encoding());
        out
    }
}


/// One channel slot: its index, name and secret.
#[derive(Clone, Debug, PartialEq, Eq)]
pub struct ChannelInfo {
    pub idx: u8,
    pub name: NullPaddedSlice<32>,
    pub secret: [u8; 16],
}

impl CompanionSer for ChannelInfo {
    open spec fn spec_encoding(&self) -> Seq<u8> {
        seq![ResponseCodes::ChannelInfo.spec_code(), self.idx] + padded(self.name.0@, 32)
            + self.secret@
    }

    open spec fn spec_size(&self) -> nat {
        2 + 32 + 16
    }

    open spec fn spec_well_formed(&self) -> bool {
        self.name.fits()
    }

    proof fn lemma_size_matches_encoding(&self) {
    }

    fn ser_size(&self) -> (r: usize) {
        2 + 32 + 16
    }

    fn companion_serialize(&self) -> (r: Vec<u8>) {
        let mut out: Vec<u8> = Vec::new();
        out.push(ResponseCodes::ChannelInfo.code());
        out.push(self.idx);
        self.name.encode_to(&mut out);
        push_slice(&mut out, self.secret.as_slice());
        assert(out@ =~= self.spec_encoding());
        out
    }
}

/// Battery voltage and storage use.
#[derive(Clone, Copy, Debug, PartialEq, Eq)]
pub struct Battery {
    pub battery_voltage: u16,
    pub used_storage: u32,
    pub total_storage: u32,
}

impl CompanionSer for Battery {
    open spec fn spec_encoding(&self) -> Seq<u8> {
        seq![ResponseCodes::Battery.spec_code()] + le16(self.battery_voltage) + le32(
            self.used_storage,
        ) + le32(self.total_storage)
    }

    open spec fn spec_size(&self) -> nat {
        1 + 2 + 4 + 4
    }

    open spec fn spec_well_formed(&self) -> bool {
        true
    }

    proof fn lemma_size_matches_encoding(&self) {
    }

    fn ser_size(&self) -> (r: usize) {
        1 + 2 + 4 + 4
    }

    fn companion_serialize(&self) -> (r: Vec<u8>) {
        let mut out: Vec<u8> = Vec::new();
        out.push(ResponseCodes::Battery.code());
        push_u16_le(&mut out, self.battery_voltage);
        push_u32_le(&mut out, self.used_storage);
        push_u32_le(&mut out, self.total_storage);
        assert(out@ =~= self.spec_encoding());
        out
    }
}

/// A message went out: how, which acknowledgement to expect, and how long to
/// wait for it.
#[derive(Clone, Copy, Debug, PartialEq, Eq)]
pub struct MsgSent {
    pub is_flood: bool,
    pub expected_ack: [u8; 4],
    pub suggested_timeout: u32,
}

impl CompanionSer for MsgSent {
    open spec fn spec_encoding(&self) -> Seq<u8> {
        seq![
            ResponseCodes::MsgSent.spec_code(),
            if self.is_flood {
                1u8
            } else {
                0u8
            },
        ] + self.expected_ack@ + le32(self.suggested_timeout)
    }

    open spec fn spec_size(&self) -> nat {
        1 + 1 + 4 + 4
    }

    open spec fn spec_well_formed(&self) -> bool {
        true
    }

    proof fn lemma_size_matches_encoding(&self) {
    }

    fn ser_size(&self) -> (r: usize) {
        1 + 1 + 4 + 4
    }

    fn companion_serialize(&self) -> (r: Vec<u8>) {
        let mut out: Vec<u8> = Vec::new();
        out.push(ResponseCodes::MsgSent.code());
        out.push(
            if self.is_flood {
                1u8
            } else {
                0u8
            },
        );
        push_slice(&mut out, self.expected_ack.as_slice());
        push_u32_le(&mut out, self.suggested_timeout);
        assert(out@ =~= self.spec_encoding());
        out
    }
}

/// A direct message received from a contact.
#[derive(Clone, Debug, PartialEq, Eq)]
pub struct ContactMsgRecv {
    pub snr: i8,
    pub reserved: [u8; 2],
    pub pk_prefix: [u8; 6],
    pub path_len: u8,
    pub text_ty: TextType,
    pub timestamp: u32,
    pub signature: Option<[u8; 4]>,
    pub data: Vec<u8>,
}

impl CompanionSer for ContactMsgRecv {
    open spec fn spec_encoding(&self) -> Seq<u8> {
        seq![ResponseCodes::ContactMsgRecvV3.spec_code(), signed_byte(self.snr)] + self.reserved@
            + self.pk_prefix@ + seq![self.path_len, self.text_ty.spec_code()] + le32(self.timestamp)
            + match self.signature {
            Some(sig) => sig@,
            None => Seq::empty(),
        } + self.data@
    }

    open spec fn spec_size(&self) -> nat {
        1 + 1 + 2 + 6 + 1 + 1 + 4 + (if self.signature is Some {
            4nat
        } else {
            0nat
        }) + self.data@.len()
    }

    open spec fn spec_well_formed(&self) -> bool {
        true
    }

    proof fn lemma_size_matches_encoding(&self) {
    }

    fn ser_size(&self) -> (r: usize) {
        1 + 1 + 2 + 6 + 1 + 1 + 4 + (if self.signature.is_some() {
            4
        } else {
            0
        }) + self.data.len()
    }

    fn companion_serialize(&self) -> (r: Vec<u8>) {
        let mut out: Vec<u8> = Vec::new();
        out.push(ResponseCodes::ContactMsgRecvV3.code());
        out.push(self.snr as u8);
        push_slice(&mut out, self.reserved.as_slice());
        push_slice(&mut out, self.pk_prefix.as_slice());
        out.push(self.path_len);
        out.push(self.text_ty.code());
        push_u32_le(&mut out, self.timestamp);
        if let Some(signature) = self.signature {
            push_slice(&mut out, signature.as_slice());
        }
        push_slice(&mut out, self.data.as_slice());
        assert(out@ =~= self.spec_encoding());
        out
    }
}

/// A message received on a channel.
#[derive(Clone, Debug, PartialEq, Eq)]
pub struct ChannelMsgRecv {
    pub snr: i8,
    pub reserved: [u8; 2],
    pub idx: u8,
    pub path_len: u8,
    pub text_ty: TextType,
    pub timestamp: u32,
    pub data: Vec<u8>,
}

impl CompanionSer for ChannelMsgRecv {
    open spec fn spec_encoding(&self) -> Seq<u8> {
        seq![ResponseCodes::ChannelMsgRecvV3.spec_code(), signed_byte(self.snr)] + self.reserved@
            + seq![self.idx, self.path_len, self.text_ty.spec_code()] + le32(self.timestamp)
            + self.data@
    }

    open spec fn spec_size(&self) -> nat {
        1 + 1 + 2 + 1 + 1 + 1 + 4 + self.data@.len()
    }

    open spec fn spec_well_formed(&self) -> bool {
        true
    }

    proof fn lemma_size_matches_encoding(&self) {
    }

    fn ser_size(&self) -> (r: usize) {
        1 + 1 + 2 + 1 + 1 + 1 + 4 + self.data.len()
    }

    fn companion_serialize(&self) -> (r: Vec<u8>) {
        let mut out: Vec<u8> = Vec::new();
        out.push(ResponseCodes::ChannelMsgRecvV3.code());
        out.push(self.snr as u8);
        push_slice(&mut out, self.reserved.as_slice());
        out.push(self.idx);
        out.push(self.path_len);
        out.push(self.text_ty.code());
        push_u32_le(&mut out, self.timestamp);
        push_slice(&mut out, self.data.as_slice());
        assert(out@ =~= self.spec_encoding());
        out
    }
}

/// The next stored message, or word that there are none.
#[derive(Clone, Debug, PartialEq, Eq)]
pub enum GetMessageRes {
    Contact(ContactMsgRecv),
    Channel(ChannelMsgRecv),
    NoMoreMessages,
}

impl CompanionSer for GetMessageRes {
    open spec fn spec_encoding(&self) -> Seq<u8> {
        match self {
            GetMessageRes::Contact(m) => m.spec_encoding(),
            GetMessageRes::Channel(m) => m.spec_encoding(),
            GetMessageRes::NoMoreMessages => seq![ResponseCodes::NoMoreMessages.spec_code()],
        }
    }

    open spec fn spec_size(&self) -> nat {
        match self {
            GetMessageRes::Contact(m) => m.spec_size(),
            GetMessageRes::Channel(m) => m.spec_size(),
            GetMessageRes::NoMoreMessages => 1,
        }
    }

    open spec fn spec_well_formed(&self) -> bool {
        true
    }

    proof fn lemma_size_matches_encoding(&self) {
        match self {
            GetMessageRes::Contact(m) => m.lemma_size_matches_encoding(),
            GetMessageRes::Channel(m) => m.lemma_size_matches_encoding(),
            GetMessageRes::NoMoreMessages => {},
        }
    }

    fn ser_size(&self) -> (r: usize) {
        match self {
            GetMessageRes::Contact(m) => m.ser_size(),
            GetMessageRes::Channel(m) => m.ser_size(),
            GetMessageRes::NoMoreMessages => 1,
        }
    }

    fn companion_serialize(&self) -> (r: Vec<u8>) {
        match self {
            GetMessageRes::Contact(m) => m.companion_serialize(),
            GetMessageRes::Channel(m) => m.companion_serialize(),
            GetMessageRes::NoMoreMessages => {
                let mut out: Vec<u8> = Vec::new();
                out.push(ResponseCodes::NoMoreMessages.code());
                assert(out@ =~= self.spec_encoding());
                out
            },
        }
    }
}

/// The start of a contact listing, with the number of contacts to follow.
#[derive(Clone, Copy, Debug, PartialEq, Eq)]
pub struct ContactStart {
    pub contacts: u32,
}

impl CompanionSer for ContactStart {
    open spec fn spec_encoding(&self) -> Seq<u8> {
        seq![ResponseCodes::ContactsStart.spec_code()] + le32(self.contacts)
    }

    open spec fn spec_size(&self) -> nat {
        1 + 4
    }

    open spec fn spec_well_formed(&self) -> bool {
        true
    }

    proof fn lemma_size_matches_encoding(&self) {
    }

    fn ser_size(&self) -> (r: usize) {
        1 + 4
    }

    fn companion_serialize(&self) -> (r: Vec<u8>) {
        let mut out: Vec<u8> = Vec::new();
        out.push(ResponseCodes::ContactsStart.code());
        push_u32_le(&mut out, self.contacts);
        assert(out@ =~= self.spec_encoding());
        out
    }
}

/// The end of a contact listing.
#[derive(Clone, Copy, Debug, PartialEq, Eq)]
pub struct ContactEnd {
    pub last_mod: u32,
}

impl CompanionSer for ContactEnd {
    open spec fn spec_encoding(&self) -> Seq<u8> {
        seq![ResponseCodes::EndOfContacts.spec_code()] + le32(self.last_mod)
    }

    open spec fn spec_size(&self) -> nat {
        1 + 4
    }

    open spec fn spec_well_formed(&self) -> bool {
        true
    }

    proof fn lemma_size_matches_encoding(&self) {
    }

    fn ser_size(&self) -> (r: usize) {
        1 + 4
    }

    fn companion_serialize(&self) -> (r: Vec<u8>) {
        let mut out: Vec<u8> = Vec::new();
        out.push(ResponseCodes::EndOfContacts.code());
        push_u32_le(&mut out, self.last_mod);
        assert(out@ =~= self.spec_encoding());
        out
    }
}

/// An acknowledgement code heard on the mesh.
#[derive(Clone, Copy, Debug, PartialEq, Eq)]
pub struct Ack {
    pub code: [u8; 4],
}

impl CompanionSer for Ack {
    open spec fn spec_encoding(&self) -> Seq<u8> {
        seq![ResponseCodes::Ack.spec_code()] + self.code@
    }

    open spec fn spec_size(&self) -> nat {
        1 + 4
    }

    open spec fn spec_well_formed(&self) -> bool {
        true
    }

    proof fn lemma_size_matches_encoding(&self) {
    }

    fn ser_size(&self) -> (r: usize) {
        1 + 4
    }

    fn companion_serialize(&self) -> (r: Vec<u8>) {
        let mut out: Vec<u8> = Vec::new();
        out.push(ResponseCodes::Ack.code());
        push_slice(&mut out, self.code.as_slice());
        assert(out@ =~= self.spec_encoding());
        out
    }
}

/// A raw packet heard by the radio, with its signal quality.
#[derive(Clone, Debug, PartialEq, Eq)]
pub struct RfLogData {
    pub snr: i8,
    pub rssi: i8,
    pub data: Vec<u8>,
}

impl RfLogData {
    /// The log entry for a packet received with signal-to-noise ratio `snr`
    /// and signal strength `rssi`; each keeps its low byte.
    pub fn new(rssi: i16, snr: i16, data: Vec<u8>) -> (r: RfLogData)
        ensures
            r.snr == snr as i8,
            r.rssi == rssi as i8,
            r.data@ == data@,
    {
        RfLogData { snr: snr as i8, rssi: rssi as i8, data }
    }
}

impl CompanionSer for RfLogData {
    open spec fn spec_encoding(&self) -> Seq<u8> {
        seq![ResponseCodes::LogData.spec_code(), signed_byte(self.snr), signed_byte(self.rssi)]
            + self.data@
    }

    open spec fn spec_size(&self) -> nat {
        3 + self.data@.len()
    }

    open spec fn spec_well_formed(&self) -> bool {
        true
    }

    proof fn lemma_size_matches_encoding(&self) {
    }

    fn ser_size(&self) -> (r: usize) {
        3 + self.data.len()
    }

    fn companion_serialize(&self) -> (r: Vec<u8>) {
        let mut out: Vec<u8> = Vec::new();
        out.push(ResponseCodes::LogData.code());
        out.push(self.snr as u8);
        out.push(self.rssi as u8);
        push_slice(&mut out, self.data.as_slice());
        assert(out@ =~= self.spec_encoding());
        out
    }
}

/// The node's clock, in seconds.
#[derive(Clone, Copy, Debug, PartialEq, Eq)]
pub struct CurrentTime {
    pub time: u32,
}

impl CompanionSer for CurrentTime {
    open spec fn spec_encoding(&self) -> Seq<u8> {
        seq![ResponseCodes::CurrTime.spec_code()] + le32(self.time)
    }

    open spec fn spec_size(&self) -> nat {
        5
    }

    open spec fn spec_well_formed(&self) -> bool {
        true
    }

    proof fn lemma_size_matches_encoding(&self) {
    }

    fn ser_size(&self) -> (r: usize) {
        5
    }

    fn companion_serialize(&self) -> (r: Vec<u8>) {
        let mut out: Vec<u8> = Vec::new();
        out.push(ResponseCodes::CurrTime.code());
        push_u32_le(&mut out, self.time);
        assert(out@ =~= self.spec_encoding());
        out
    }
}

/// A room or repeater accepted a login.
#[derive(Clone, Copy, Debug, PartialEq, Eq)]
pub struct LoginSuccess {
    pub reserved: u8,
    pub prefix: [u8; 6],
}

impl CompanionSer for LoginSuccess {
    open spec fn spec_encoding(&self) -> Seq<u8> {
        seq![ResponseCodes::LoginSuccess.spec_code(), self.reserved] + self.prefix@
    }

    open spec fn spec_size(&self) -> nat {
        8
    }

    open spec fn spec_well_formed(&self) -> bool {
        true
    }

    proof fn lemma_size_matches_encoding(&self) {
    }

    fn ser_size(&self) -> (r: usize) {
        8
    }

    fn companion_serialize(&self) -> (r: Vec<u8>) {
        let mut out: Vec<u8> = Vec::new();
        out.push(ResponseCodes::LoginSuccess.code());
        out.push(self.reserved);
        push_slice(&mut out, self.prefix.as_slice());
        assert(out@ =~= self.spec_encoding());
        out
    }
}

/// A signing session started; at most `max_len` bytes may be signed.
#[derive(Clone, Copy, Debug, PartialEq, Eq)]
pub struct SignStart {
    pub reserved: u8,
    pub max_len: u32,
}

impl CompanionSer for SignStart {
    open spec fn spec_encoding(&self) -> Seq<u8> {
        seq![ResponseCodes::SignStart.spec_code(), self.reserved] + le32(self.max_len)
    }

    open spec fn spec_size(&self) -> nat {
        6
    }

    open spec fn spec_well_formed(&self) -> bool {
        true
    }

    proof fn lemma_size_matches_encoding(&self) {
    }

    fn ser_size(&self) -> (r: usize) {
        6
    }

    fn companion_serialize(&self) -> (r: Vec<u8>) {
        let mut out: Vec<u8> = Vec::new();
        out.push(ResponseCodes::SignStart.code());
        out.push(self.reserved);
        push_u32_le(&mut out, self.max_len);
        assert(out@ =~= self.spec_encoding());
        out
    }
}

/// The signature over the bytes of a signing session.
#[derive(Clone, Copy, Debug, PartialEq, Eq)]
pub struct SignatureResponse {
    pub signature: [u8; 64],
}

impl CompanionSer for SignatureResponse {
    open spec fn spec_encoding(&self) -> Seq<u8> {
        seq![ResponseCodes::Signature.spec_code()] + self.signature@
    }

    open spec fn spec_size(&self) -> nat {
        65
    }

    open spec fn spec_well_formed(&self) -> bool {
        true
    }

    proof fn lemma_size_matches_encoding(&self) {
    }

    fn ser_size(&self) -> (r: usize) {
        65
    }

    fn companion_serialize(&self) -> (r: Vec<u8>) {
        let mut out: Vec<u8> = Vec::new();
        out.push(ResponseCodes::Signature.code());
        push_slice(&mut out, self.signature.as_slice());
        assert(out@ =~= self.spec_encoding());
        out
    }
}

/// The node's private key.
#[derive(Clone, Copy, Debug, PartialEq, Eq)]
pub struct PrivateKeyResponse {
    pub key: [u8; 64],
}

impl CompanionSer for PrivateKeyResponse {
    open spec fn spec_encoding(&self) -> Seq<u8> {
        seq![ResponseCodes::ExportPrivateKey.spec_code()] + self.key@
    }

    open spec fn spec_size(&self) -> nat {
        65
    }

    open spec fn spec_well_formed(&self) -> bool {
        true
    }

    proof fn lemma_size_matches_encoding(&self) {
    }

    fn ser_size(&self) -> (r: usize) {
        65
    }

    fn companion_serialize(&self) -> (r: Vec<u8>) {
        let mut out: Vec<u8> = Vec::new();
        out.push(ResponseCodes::ExportPrivateKey.code());
        push_slice(&mut out, self.key.as_slice());
        assert(out@ =~= self.spec_encoding());
        out
    }
}


/// The `key:value` text of one custom variable.
pub open spec fn var_entry(p: (Vec<u8>, Vec<u8>)) -> Seq<u8> {
    p.0@ + seq![58u8] + p.1@
}

/// The custom variables as `key:value` entries joined by `,`.
pub open spec fn vars_body(s: Seq<(Vec<u8>, Vec<u8>)>) -> Seq<u8>
    decreases s.len(),
{
    if s.len() == 0 {
        Seq::empty()
    } else if s.len() == 1 {
        var_entry(s.last())
    } else {
        vars_body(s.drop_last()) + seq![44u8] + var_entry(s.last())
    }
}

/// The summed lengths of the keys and values, plus one `:` per entry.
pub open spec fn vars_entries_len(s: Seq<(Vec<u8>, Vec<u8>)>) -> nat
    decreases s.len(),
{
    if s.len() == 0 {
        0
    } else {
        vars_entries_len(s.drop_last()) + s.last().0@.len() + s.last().1@.len() + 1
    }
}

proof fn lemma_vars_body_len(s: Seq<(Vec<u8>, Vec<u8>)>)
    ensures
        vars_body(s).len() == vars_entries_len(s) + if s.len() == 0 {
            0
        } else {
            s.len() - 1
        },
    decreases s.len(),
{
    if s.len() > 0 {
        lemma_vars_body_len(s.drop_last());
    }
}

proof fn lemma_vars_entries_len_prefix(s: Seq<(Vec<u8>, Vec<u8>)>, i: int)
    requires
        0 <= i <= s.len(),
    ensures
        vars_entries_len(s.take(i)) <= vars_entries_len(s),
    decreases s.len() - i,
{
    if i < s.len() {
        lemma_vars_entries_len_prefix(s, i + 1);
        assert(s.take(i + 1).drop_last() =~= s.take(i));
    } else {
        assert(s.take(i) =~= s);
    }
}

/// A short list of named settings: smallvec's `SmallVec`, which keeps up to
/// eight pairs inline. Verus does not take a declaration of `SmallVec`
/// itself (its parameter is bound by smallvec's `Array` trait), so the list
/// is held here, and read through the wrappers below.
#[verifier::external_body]
#[derive(Debug, PartialEq, Eq)]
pub struct VarList {
    items: SmallVec<[(Vec<u8>, Vec<u8>); 8]>,
}

/// What a list of named settings holds: its `(key, value)` pairs, in order.
pub uninterp spec fn var_list_of(v: VarList) -> Seq<(Vec<u8>, Vec<u8>)>;

/// `SmallVec::new`: an empty list.
#[verifier::external_body]
fn new_var_list() -> (r: VarList)
    ensures
        var_list_of(r) == Seq::<(Vec<u8>, Vec<u8>)>::empty(),
{
    VarList { items: SmallVec::new() }
}

/// `SmallVec::push`: appends the pair `(key, value)`.
#[verifier::external_body]
fn var_list_push(v: &mut VarList, key: Vec<u8>, value: Vec<u8>)
    ensures
        var_list_of(*final(v)) == var_list_of(*old(v)).push((key, value)),
{
    v.items.push((key, value));
}

/// `SmallVec::len`: the number of pairs.
#[verifier::external_body]
fn var_list_len(v: &VarList) -> (r: usize)
    ensures
        r == var_list_of(*v).len(),
{
    v.items.len()
}

/// Indexing a `SmallVec` (through its slice): the pair at `i`.
#[verifier::external_body]
fn var_list_get(v: &VarList, i: usize) -> (r: &(Vec<u8>, Vec<u8>))
    requires
        i < var_list_of(*v).len(),
    ensures
        *r == var_list_of(*v)[i as int],
{
    &v.items[i]
}

/// The node's named settings, as `(key, value)` pairs.
#[derive(Debug, PartialEq, Eq)]
pub struct CustomVars(pub VarList);

impl CustomVars {
    /// No settings.
    pub fn new() -> (r: CustomVars)
        ensures
            var_list_of(r.0) == Seq::<(Vec<u8>, Vec<u8>)>::empty(),
    {
        CustomVars(new_var_list())
    }

    /// Adds the setting `key` with `value` after the others.
    pub fn push(&mut self, key: Vec<u8>, value: Vec<u8>)
        ensures
            var_list_of(final(self).0) == var_list_of(old(self).0).push((key, value)),
    {
        var_list_push(&mut self.0, key, value);
    }
}

impl CompanionSer for CustomVars {
    open spec fn spec_encoding(&self) -> Seq<u8> {
        seq![ResponseCodes::CustomVars.spec_code()] + vars_body(var_list_of(self.0))
    }

    open spec fn spec_size(&self) -> nat {
        1 + vars_entries_len(var_list_of(self.0)) + if var_list_of(self.0).len() == 0 {
            0
        } else {
            (var_list_of(self.0).len() - 1) as nat
        }
    }

    open spec fn spec_well_formed(&self) -> bool {
        true
    }

    proof fn lemma_size_matches_encoding(&self) {
        lemma_vars_body_len(var_list_of(self.0));
    }

    fn ser_size(&self) -> (r: usize) {
        let ghost s = var_list_of(self.0);
        let mut sum: usize = 0;
        let mut i: usize = 0;
        while i < var_list_len(&self.0)
            invariant
                i <= s.len(),
                s == var_list_of(self.0),
                sum == vars_entries_len(s.take(i as int)),
                1 + vars_entries_len(s) <= usize::MAX,
            decreases s.len() - i,
        {
            proof {
                lemma_vars_entries_len_prefix(s, i + 1);
                assert(s.take(i + 1).drop_last() =~= s.take(i as int));
            }
            let (k, v) = var_list_get(&self.0, i);
            sum = sum + k.len() + v.len() + 1;
            i = i + 1;
        }
        assert(s.take(s.len() as int) =~= s);
        1 + sum + if var_list_len(&self.0) == 0 {
            0
        } else {
            var_list_len(&self.0) - 1
        }
    }

    fn companion_serialize(&self) -> (r: Vec<u8>) {
        let ghost s = var_list_of(self.0);
        let mut out: Vec<u8> = Vec::new();
        out.push(ResponseCodes::CustomVars.code());
        let mut i: usize = 0;
        while i < var_list_len(&self.0)
            invariant
                i <= s.len(),
                s == var_list_of(self.0),
                out@ == seq![ResponseCodes::CustomVars.spec_code()] + vars_body(s.take(i as int)),
            decreases s.len() - i,
        {
            let ghost before = out@;
            if i > 0 {
                out.push(44u8);
            }
            let (k, v) = var_list_get(&self.0, i);
            push_slice(&mut out, k.as_slice());
            out.push(58u8);
            push_slice(&mut out, v.as_slice());
            proof {
                let t = s.take(i + 1);
                assert(t.drop_last() =~= s.take(i as int));
                assert(t.last() == s[i as int]);
            }
            i = i + 1;
            assert(out@ =~= seq![ResponseCodes::CustomVars.spec_code()] + vars_body(
                s.take(i as int),
            ));
        }
        assert(s.take(s.len() as int) =~= s);
        out
    }
}

/// The text type written as `b` in a message, as the app reads it back.
proof fn lemma_text_type_code(t: TextType)
    ensures
        spec_text_type(t.spec_code()) == Some(t),
{
}

/// Where each field of a channel message sits in what the app receives:
/// the response code 0x11, the signal-to-noise byte, the two reserved
/// bytes, the channel index at byte 4, the path length at byte 5, the text
/// type at byte 6, the timestamp in bytes 7 to 10, then the text.
pub proof fn lemma_channel_msg_layout(m: ChannelMsgRecv)
    ensures
        ({
            let e = m.spec_encoding();
            &&& e.len() == 11 + m.data@.len()
            &&& e[0] == 0x11u8
            &&& e[1] == m.snr as u8
            &&& e[2] == m.reserved[0] && e[3] == m.reserved[1]
            &&& e[4] == m.idx
            &&& e[5] == m.path_len
            &&& spec_text_type(e[6]) == Some(m.text_ty)
            &&& u32_of_le(e.subrange(7, 11)) == m.timestamp
            &&& e.subrange(11, e.len() as int) == m.data@
        }),
{
    let e = m.spec_encoding();
    lemma_le32_roundtrip(m.timestamp);
    lemma_text_type_code(m.text_ty);
    assert(e.subrange(7, 11) =~= le32(m.timestamp));
    assert(e.subrange(11, e.len() as int) =~= m.data@);
}

/// Where each field of a direct message sits in what the app receives: the
/// response code 0x10, the signal-to-noise byte, the two reserved bytes,
/// the sender's key prefix in bytes 4 to 9, the path length at byte 10, the
/// text type at byte 11, the timestamp in bytes 12 to 15, the four signature
/// bytes when there are any, then the text.
pub proof fn lemma_contact_msg_layout(m: ContactMsgRecv)
    ensures
        ({
            let e = m.spec_encoding();
            let sig_len: int = if m.signature is Some { 4 } else { 0 };
            &&& e.len() == 16 + sig_len + m.data@.len()
            &&& e[0] == 0x10u8
            &&& e[1] == m.snr as u8
            &&& e[2] == m.reserved[0] && e[3] == m.reserved[1]
            &&& e.subrange(4, 10) == m.pk_prefix@
            &&& e[10] == m.path_len
            &&& spec_text_type(e[11]) == Some(m.text_ty)
            &&& u32_of_le(e.subrange(12, 16)) == m.timestamp
            &&& (m.signature matches Some(sig) ==> e.subrange(16, 20) == sig@)
            &&& e.subrange(16 + sig_len, e.len() as int) == m.data@
        }),
{
    let e = m.spec_encoding();
    let sig_len: int = if m.signature is Some { 4 } else { 0 };
    lemma_le32_roundtrip(m.timestamp);
    lemma_text_type_code(m.text_ty);
    assert(e.subrange(4, 10) =~= m.pk_prefix@);
    assert(e.subrange(12, 16) =~= le32(m.timestamp));
    if let Some(sig) = m.signature {
        assert(e.subrange(16, 20) =~= sig@);
    }
    assert(e.subrange(16 + sig_len, e.len() as int) =~= m.data@);
}

/// Where each field of the node's self info sits in what the app receives:
/// the response code 0x05, the advert type, the transmit power and its
/// maximum, the public key in bytes 4 to 35, the latitude in bytes 36 to
/// 39, the longitude in bytes 40 to 43, the multi-ack, advert location and
/// telemetry settings, the manual-add flag at byte 47, the radio frequency
/// in bytes 48 to 51, the bandwidth in bytes 52 to 55, the spreading factor
/// and coding rate, then the device name from byte 58 on.
pub proof fn lemma_self_info_layout(s: SelfInfo)
    ensures
        ({
            let e = s.spec_encoding();
            &&& e.len() == 58 + s.device_name@.len()
            &&& e[0] == 0x05u8
            &&& e[1] == s.advertisement_type
            &&& e[2] == s.tx_power
            &&& e[3] == s.max_tx_power
            &&& e.subrange(4, 36) == s.public_key@
            &&& u32_of_le(e.subrange(36, 40)) == s.lat
            &&& u32_of_le(e.subrange(40, 44)) == s.long
            &&& e[44] == s.multi_acks
            &&& e[45] == s.adv_loc_policy
            &&& e[46] == s.telemetry_mode
            &&& (e[47] == 1u8 <==> s.manual_add_contacts) && e[47] <= 1
            &&& u32_of_le(e.subrange(48, 52)) == s.radio_freq
            &&& u32_of_le(e.subrange(52, 56)) == s.radio_bandwidth
            &&& e[56] == s.radio_sf
            &&& e[57] == s.radio_cr
            &&& e.subrange(58, e.len() as int) == s.device_name@
        }),
{
    let e = s.spec_encoding();
    lemma_le32_roundtrip(s.lat);
    lemma_le32_roundtrip(s.long);
    lemma_le32_roundtrip(s.radio_freq);
    lemma_le32_roundtrip(s.radio_bandwidth);
    assert(e.subrange(4, 36) =~= s.public_key@);
    assert(e.subrange(36, 40) =~= le32(s.lat));
    assert(e.subrange(40, 44) =~= le32(s.long));
    assert(e.subrange(48, 52) =~= le32(s.radio_freq));
    assert(e.subrange(52, 56) =~= le32(s.radio_bandwidth));
    assert(e.subrange(58, e.len() as int) =~= s.device_name@);
}

/// Where each field of the device info sits in what the app receives: the
/// response code 0x0D, the firmware version, the most contacts at byte 2,
/// the most channels at byte 3, the pairing pin in bytes 4 to 7, the build,
/// model and version texts zero-padded to 12, 40 and 20 bytes, the
/// client-repeat flag at byte 80 and the path hash mode at byte 81.
pub proof fn lemma_device_info_layout(d: DeviceInfo)
    requires
        d.spec_well_formed(),
    ensures
        ({
            let e = d.spec_encoding();
            &&& e.len() == 82
            &&& e[0] == 0x0Du8
            &&& e[1] == d.fw_version
            &&& e[2] == d.max_contacts
            &&& e[3] == d.max_channels
            &&& u32_of_le(e.subrange(4, 8)) == d.ble_pin
            &&& e.subrange(8, 8 + d.firmware_build.0@.len() as int) == d.firmware_build.0@
            &&& (forall|i: int| 8 + d.firmware_build.0@.len() <= i < 20 ==> e[i] == 0u8)
            &&& e.subrange(20, 20 + d.model.0@.len() as int) == d.model.0@
            &&& (forall|i: int| 20 + d.model.0@.len() <= i < 60 ==> e[i] == 0u8)
            &&& e.subrange(60, 60 + d.version.0@.len() as int) == d.version.0@
            &&& (forall|i: int| 60 + d.version.0@.len() <= i < 80 ==> e[i] == 0u8)
            &&& (e[80] == 1u8 <==> d.client_repeat_enabled) && e[80] <= 1
            &&& e[81] == d.path_hash_mode
        }),
{
    let e = d.spec_encoding();
    lemma_le32_roundtrip(d.ble_pin);
    let b = padded(d.firmware_build.0@, 12);
    let m = padded(d.model.0@, 40);
    let v = padded(d.version.0@, 20);
    assert(b.len() == 12 && m.len() == 40 && v.len() == 20);
    assert(e.subrange(4, 8) =~= le32(d.ble_pin));
    assert(e.subrange(8, 20) =~= b);
    assert(e.subrange(20, 60) =~= m);
    assert(e.subrange(60, 80) =~= v);
    assert(e.subrange(8, 8 + d.firmware_build.0@.len() as int) =~= d.firmware_build.0@);
    assert(e.subrange(20, 20 + d.model.0@.len() as int) =~= d.model.0@);
    assert(e.subrange(60, 60 + d.version.0@.len() as int) =~= d.version.0@);
    assert forall|i: int| 8 + d.firmware_build.0@.len() <= i < 20 implies e[i] == 0u8 by {
        assert(e[i] == e.subrange(8, 20)[i - 8]);
    }
    assert forall|i: int| 20 + d.model.0@.len() <= i < 60 implies e[i] == 0u8 by {
        assert(e[i] == e.subrange(20, 60)[i - 20]);
    }
    assert forall|i: int| 60 + d.version.0@.len() <= i < 80 implies e[i] == 0u8 by {
        assert(e[i] == e.subrange(60, 80)[i - 60]);
    }
}

/// Where each field of a channel's info sits in what the app receives: the
/// response code 0x12, the slot at byte 1, the name zero-padded to 32 bytes
/// from byte 2, then the 16-byte secret from byte 34.
pub proof fn lemma_channel_info_layout(c: ChannelInfo)
    requires
        c.spec_well_formed(),
    ensures
        ({
            let e = c.spec_encoding();
            &&& e.len() == 50
            &&& e[0] == 0x12u8
            &&& e[1] == c.idx
            &&& e.subrange(2, 2 + c.name.0@.len() as int) == c.name.0@
            &&& (forall|i: int| 2 + c.name.0@.len() <= i < 34 ==> e[i] == 0u8)
            &&& e.subrange(34, 50) == c.secret@
        }),
{
    let e = c.spec_encoding();
    assert(padded(c.name.0@, 32).len() == 32);
    assert(e.subrange(2, 34) =~= padded(c.name.0@, 32));
    assert(e.subrange(2, 2 + c.name.0@.len() as int) =~= c.name.0@);
    assert(e.subrange(34, 50) =~= c.secret@);
    assert forall|i: int| 2 + c.name.0@.len() <= i < 34 implies e[i] == 0u8 by {
        assert(e[i] == e.subrange(2, 34)[i - 2]);
    }
}

/// Where each field of the battery report sits: the response code 0x0C,
/// the voltage in bytes 1 and 2, the used storage in bytes 3 to 6 and the
/// total storage in bytes 7 to 10.
pub proof fn lemma_battery_layout(b: Battery)
    ensures
        ({
            let e = b.spec_encoding();
            &&& e.len() == 11
            &&& e[0] == 0x0Cu8
            &&& u16_of_le(e.subrange(1, 3)) == b.battery_voltage
            &&& u32_of_le(e.subrange(3, 7)) == b.used_storage
            &&& u32_of_le(e.subrange(7, 11)) == b.total_storage
        }),
{
    let e = b.spec_encoding();
    lemma_le16_roundtrip(b.battery_voltage);
    lemma_le32_roundtrip(b.used_storage);
    lemma_le32_roundtrip(b.total_storage);
    assert(e.subrange(1, 3) =~= le16(b.battery_voltage));
    assert(e.subrange(3, 7) =~= le32(b.used_storage));
    assert(e.subrange(7, 11) =~= le32(b.total_storage));
}

/// Where each field of a sent-message answer sits: the response code 0x06,
/// the flood flag at byte 1, the expected acknowledgement in bytes 2 to 5
/// and the suggested timeout in bytes 6 to 9.
pub proof fn lemma_msg_sent_layout(m: MsgSent)
    ensures
        ({
            let e = m.spec_encoding();
            &&& e.len() == 10
            &&& e[0] == 0x06u8
            &&& (e[1] == 1u8 <==> m.is_flood) && e[1] <= 1
            &&& e.subrange(2, 6) == m.expected_ack@
            &&& u32_of_le(e.subrange(6, 10)) == m.suggested_timeout
        }),
{
    let e = m.spec_encoding();
    lemma_le32_roundtrip(m.suggested_timeout);
    assert(e.subrange(2, 6) =~= m.expected_ack@);
    assert(e.subrange(6, 10) =~= le32(m.suggested_timeout));
}

/// Where each field of a received-packet log entry sits: the response code
/// 0x88, the signal-to-noise byte, the signal strength byte, then the
/// packet.
pub proof fn lemma_rf_log_layout(l: RfLogData)
    ensures
        ({
            let e = l.spec_encoding();
            &&& e.len() == 3 + l.data@.len()
            &&& e[0] == 0x88u8
            &&& e[1] == l.snr as u8
            &&& e[2] == l.rssi as u8
            &&& e.subrange(3, e.len() as int) == l.data@
        }),
{
    let e = l.spec_encoding();
    assert(e.subrange(3, e.len() as int) =~= l.data@);
}

} // verus!
