//! Decoding of the requests that a companion app sends to the node.
//!
//! A request is one frame's payload: a command byte followed by that
//! command's fields, little-endian, with text fields as UTF-8.
use vstd::prelude::*;
use vstd::utf8::valid_utf8;

use crate::bytes::{find_first, first_index_of, is_utf8, trim_nils, trim_slice_nils};
use crate::wire::{copy_range, read_array, read_u32_le, u32_of_le};

verus! {

/// Why a request could not be decoded.
#[derive(Clone, Copy, Debug, PartialEq, Eq, Structural)]
pub enum DecodeError {
    /// The request ended before a field it needs.
    UnexpectedEnd,
    /// A byte that must name a command or a text type names none.
    InvalidBitPattern,
    /// A text field is not well-formed UTF-8.
    InvalidUtf8,
}

/// The kind of text a message carries.
#[derive(Clone, Copy, Debug, PartialEq, Eq, Structural)]
pub enum TextType {
    PlainText,
    CliData,
    SignedPlainText,
}

/// The text type with wire code `b`, if any.
pub open spec fn spec_text_type(b: u8) -> Option<TextType> {
    if b == 0 {
        Some(TextType::PlainText)
    } else if b == 1 {
        Some(TextType::CliData)
    } else if b == 2 {
        Some(TextType::SignedPlainText)
    } else {
        None
    }
}

impl TextType {
    /// The text type with wire code `b`, if any.
    pub fn from_code(b: u8) -> (r: Option<TextType>)
        ensures
            r == spec_text_type(b),
    {
        if b == 0 {
            Some(TextType::PlainText)
        } else if b == 1 {
            Some(TextType::CliData)
        } else if b == 2 {
            Some(TextType::SignedPlainText)
        } else {
            None
        }
    }

    pub open spec fn spec_code(self) -> u8 {
        match self {
            TextType::PlainText => 0,
            TextType::CliData => 1,
            TextType::SignedPlainText => 2,
        }
    }

    /// The wire code of this text type.
    pub fn code(self) -> (r: u8)
        ensures
            r == self.spec_code(),
            spec_text_type(r) == Some(self),
    {
        match self {
            TextType::PlainText => 0,
            TextType::CliData => 1,
            TextType::SignedPlainText => 2,
        }
    }
}

/// The command byte of a companion request.
#[derive(Clone, Copy, Debug, PartialEq, Eq, Structural)]
pub enum HostCommandType {
    AppStart,
    SendTxtMsg,
    SendChannelTxtMsg,
    GetContacts,
    GetDeviceTime,
    SetDeviceTime,
    SendSelfAdvert,
    SetAdvertName,
    AddUpdateContact,
    SyncNextMessage,
    SetRadioParams,
    SetTxPower,
    ResetPath,
    SetAdvertLatLon,
    RemoveContact,
    ShareContact,
    ExportContact,
    ImportContact,
    Reboot,
    GetBatteryVoltage,
    SetTuningParams,
    DeviceQuery,
    ExportPrivateKey,
    ImportPrivateKey,
    SendRawData,
    SendLogin,
    SendStatusReq,
    GetChannel,
    SetChannel,
    SignStart,
    SignData,
    SignFinish,
    SendTracePath,
    SetOtherParams,
    SendTelemtryReq,
    SendBinaryReq,
    SetFloodScope,
    GetCustomVars,
    SetCustomVar,
}

/// The command byte of every request, as the companion protocol numbers
/// them: 1 to 27 from app start to status request, 31 to 36 from get channel
/// to trace path, 38 to 41 for other parameters, telemetry request and the
/// custom variables, 50 for a binary request and 54 for the flood scope.
/// Each byte names one command and each command has one byte.
pub proof fn lemma_command_codes(t: HostCommandType, b: u8)
    ensures
        t.spec_code() == b <==> ({
            ||| (b == 1 && t == HostCommandType::AppStart)
            ||| (b == 2 && t == HostCommandType::SendTxtMsg)
            ||| (b == 3 && t == HostCommandType::SendChannelTxtMsg)
            ||| (b == 4 && t == HostCommandType::GetContacts)
            ||| (b == 5 && t == HostCommandType::GetDeviceTime)
            ||| (b == 6 && t == HostCommandType::SetDeviceTime)
            ||| (b == 7 && t == HostCommandType::SendSelfAdvert)
            ||| (b == 8 && t == HostCommandType::SetAdvertName)
            ||| (b == 9 && t == HostCommandType::AddUpdateContact)
            ||| (b == 10 && t == HostCommandType::SyncNextMessage)
            ||| (b == 11 && t == HostCommandType::SetRadioParams)
            ||| (b == 12 && t == HostCommandType::SetTxPower)
            ||| (b == 13 && t == HostCommandType::ResetPath)
            ||| (b == 14 && t == HostCommandType::SetAdvertLatLon)
            ||| (b == 15 && t == HostCommandType::RemoveContact)
            ||| (b == 16 && t == HostCommandType::ShareContact)
            ||| (b == 17 && t == HostCommandType::ExportContact)
            ||| (b == 18 && t == HostCommandType::ImportContact)
            ||| (b == 19 && t == HostCommandType::Reboot)
            ||| (b == 20 && t == HostCommandType::GetBatteryVoltage)
            ||| (b == 21 && t == HostCommandType::SetTuningParams)
            ||| (b == 22 && t == HostCommandType::DeviceQuery)
            ||| (b == 23 && t == HostCommandType::ExportPrivateKey)
            ||| (b == 24 && t == HostCommandType::ImportPrivateKey)
            ||| (b == 25 && t == HostCommandType::SendRawData)
            ||| (b == 26 && t == HostCommandType::SendLogin)
            ||| (b == 27 && t == HostCommandType::SendStatusReq)
            ||| (b == 31 && t == HostCommandType::GetChannel)
            ||| (b == 32 && t == HostCommandType::SetChannel)
            ||| (b == 33 && t == HostCommandType::SignStart)
            ||| (b == 34 && t == HostCommandType::SignData)
            ||| (b == 35 && t == HostCommandType::SignFinish)
            ||| (b == 36 && t == HostCommandType::SendTracePath)
            ||| (b == 38 && t == HostCommandType::SetOtherParams)
            ||| (b == 39 && t == HostCommandType::SendTelemtryReq)
            ||| (b == 40 && t == HostCommandType::GetCustomVars)
            ||| (b == 41 && t == HostCommandType::SetCustomVar)
            ||| (b == 50 && t == HostCommandType::SendBinaryReq)
            ||| (b == 54 && t == HostCommandType::SetFloodScope)
        }),
{
}

/// Whether `b` is the byte of a known command.
pub open spec fn is_command_code(b: u8) -> bool {
    (1 <= b <= 27) || (31 <= b <= 36) || (38 <= b <= 41) || b == 50 || b == 54
}

impl HostCommandType {
    pub open spec fn spec_code(self) -> u8 {
        match self {
            HostCommandType::AppStart => 1,
            HostCommandType::SendTxtMsg => 2,
            HostCommandType::SendChannelTxtMsg => 3,
            HostCommandType::GetContacts => 4,
            HostCommandType::GetDeviceTime => 5,
            HostCommandType::SetDeviceTime => 6,
            HostCommandType::SendSelfAdvert => 7,
            HostCommandType::SetAdvertName => 8,
            HostCommandType::AddUpdateContact => 9,
            HostCommandType::SyncNextMessage => 10,
            HostCommandType::SetRadioParams => 11,
            HostCommandType::SetTxPower => 12,
            HostCommandType::ResetPath => 13,
            HostCommandType::SetAdvertLatLon => 14,
            HostCommandType::RemoveContact => 15,
            HostCommandType::ShareContact => 16,
            HostCommandType::ExportContact => 17,
            HostCommandType::ImportContact => 18,
            HostCommandType::Reboot => 19,
            HostCommandType::GetBatteryVoltage => 20,
            HostCommandType::SetTuningParams => 21,
            HostCommandType::DeviceQuery => 22,
            HostCommandType::ExportPrivateKey => 23,
            HostCommandType::ImportPrivateKey => 24,
            HostCommandType::SendRawData => 25,
            HostCommandType::SendLogin => 26,
            HostCommandType::SendStatusReq => 27,
            HostCommandType::GetChannel => 31,
            HostCommandType::SetChannel => 32,
            HostCommandType::SignStart => 33,
            HostCommandType::SignData => 34,
            HostCommandType::SignFinish => 35,
            HostCommandType::SendTracePath => 36,
            HostCommandType::SetOtherParams => 38,
            HostCommandType::SendTelemtryReq => 39,
            HostCommandType::SendBinaryReq => 50,
            HostCommandType::SetFloodScope => 54,
            HostCommandType::GetCustomVars => 40,
            HostCommandType::SetCustomVar => 41,
        }
    }

    /// The command byte of this command.
    pub fn code(self) -> (r: u8)
        ensures
            r == self.spec_code(),
    {
        match self {
            HostCommandType::AppStart => 1,
            HostCommandType::SendTxtMsg => 2,
            HostCommandType::SendChannelTxtMsg => 3,
            HostCommandType::GetContacts => 4,
            HostCommandType::GetDeviceTime => 5,
            HostCommandType::SetDeviceTime => 6,
            HostCommandType::SendSelfAdvert => 7,
            HostCommandType::SetAdvertName => 8,
            HostCommandType::AddUpdateContact => 9,
            HostCommandType::SyncNextMessage => 10,
            HostCommandType::SetRadioParams => 11,
            HostCommandType::SetTxPower => 12,
            HostCommandType::ResetPath => 13,
            HostCommandType::SetAdvertLatLon => 14,
            HostCommandType::RemoveContact => 15,
            HostCommandType::ShareContact => 16,
            HostCommandType::ExportContact => 17,
            HostCommandType::ImportContact => 18,
            HostCommandType::Reboot => 19,
            HostCommandType::GetBatteryVoltage => 20,
            HostCommandType::SetTuningParams => 21,
            HostCommandType::DeviceQuery => 22,
            HostCommandType::ExportPrivateKey => 23,
            HostCommandType::ImportPrivateKey => 24,
            HostCommandType::SendRawData => 25,
            HostCommandType::SendLogin => 26,
            HostCommandType::SendStatusReq => 27,
            HostCommandType::GetChannel => 31,
            HostCommandType::SetChannel => 32,
            HostCommandType::SignStart => 33,
            HostCommandType::SignData => 34,
            HostCommandType::SignFinish => 35,
            HostCommandType::SendTracePath => 36,
            HostCommandType::SetOtherParams => 38,
            HostCommandType::SendTelemtryReq => 39,
            HostCommandType::SendBinaryReq => 50,
            HostCommandType::SetFloodScope => 54,
            HostCommandType::GetCustomVars => 40,
            HostCommandType::SetCustomVar => 41,
        }
    }

    /// The command whose byte is `b`, if any.
    pub fn from_repr(b: u8) -> (r: Option<HostCommandType>)
        ensures
            match r {
                Some(t) => t.spec_code() == b,
                None => !is_command_code(b) && forall|t: HostCommandType| #[trigger] t.spec_code() != b,
            },
            r is Some <==> is_command_code(b),
    {
        match b {
            1 => Some(HostCommandType::AppStart),
            2 => Some(HostCommandType::SendTxtMsg),
            3 => Some(HostCommandType::SendChannelTxtMsg),
            4 => Some(HostCommandType::GetContacts),
            5 => Some(HostCommandType::GetDeviceTime),
            6 => Some(HostCommandType::SetDeviceTime),
            7 => Some(HostCommandType::SendSelfAdvert),
            8 => Some(HostCommandType::SetAdvertName),
            9 => Some(HostCommandType::AddUpdateContact),
            10 => Some(HostCommandType::SyncNextMessage),
            11 => Some(HostCommandType::SetRadioParams),
            12 => Some(HostCommandType::SetTxPower),
            13 => Some(HostCommandType::ResetPath),
            14 => Some(HostCommandType::SetAdvertLatLon),
            15 => Some(HostCommandType::RemoveContact),
            16 => Some(HostCommandType::ShareContact),
            17 => Some(HostCommandType::ExportContact),
            18 => Some(HostCommandType::ImportContact),
            19 => Some(HostCommandType::Reboot),
            20 => Some(HostCommandType::GetBatteryVoltage),
            21 => Some(HostCommandType::SetTuningParams),
            22 => Some(HostCommandType::DeviceQuery),
            23 => Some(HostCommandType::ExportPrivateKey),
            24 => Some(HostCommandType::ImportPrivateKey),
            25 => Some(HostCommandType::SendRawData),
            26 => Some(HostCommandType::SendLogin),
            27 => Some(HostCommandType::SendStatusReq),
            31 => Some(HostCommandType::GetChannel),
            32 => Some(HostCommandType::SetChannel),
            33 => Some(HostCommandType::SignStart),
            34 => Some(HostCommandType::SignData),
            35 => Some(HostCommandType::SignFinish),
            36 => Some(HostCommandType::SendTracePath),
            38 => Some(HostCommandType::SetOtherParams),
            39 => Some(HostCommandType::SendTelemtryReq),
            50 => Some(HostCommandType::SendBinaryReq),
            54 => Some(HostCommandType::SetFloodScope),
            40 => Some(HostCommandType::GetCustomVars),
            41 => Some(HostCommandType::SetCustomVar),
            _ => None,
        }
    }

    /// Whether the node answers this command; the others are not built yet.
    pub open spec fn spec_is_implemented(self) -> bool {
        !(self is ShareContact || self is ExportContact || self is ImportContact || self is Reboot
            || self is SetTuningParams || self is ImportPrivateKey || self is SendStatusReq
            || self is SendTracePath || self is SendTelemtryReq || self is SendBinaryReq)
    }
}

/// A decoded companion request. Text fields hold well-formed UTF-8.
#[derive(Clone, Debug, PartialEq, Eq)]
#[allow(inconsistent_fields)]
pub enum HostCommand {
    AppStart { app_ver: u8, reserved: [u8; 6], app_name: Vec<u8> },
    SendTxtMsg {
        txt_type: TextType,
        attempt: u8,
        timestamp: u32,
        destination: [u8; 6],
        text: Vec<u8>,
    },
    SendChannelTxtMsg { txt_type: TextType, idx: u8, timestamp: u32, text: Vec<u8> },
    GetContacts,
    GetCustomVars,
    SetCustomVar { key: Vec<u8>, value: Vec<u8> },
    /// A custom-variable assignment that is not UTF-8 or has no `:`; the node
    /// answers it with an error.
    MalformedCustomVar,
    GetDeviceTime,
    SetDeviceTime { timestamp: u32 },
    SendSelfAdvert { flood: bool },
    SetAdvertName { name: Vec<u8> },
    AddUpdateContact {
        key: [u8; 32],
        flags: u8,
        path: Vec<u8>,
        name: Vec<u8>,
        last_advert: u32,
        latitude: u32,
        longitude: u32,
    },
    SyncNextMessage,
    SetRadioParams { freq: u32, bandwidth: u32, spreading_factor: u8, coding_rate: u8 },
    SetTxPower { power: u8 },
    ResetPath { key: [u8; 32] },
    SetAdvertLatLon { latitude: u32, longitude: u32 },
    RemoveContact { key: [u8; 32] },
    GetBatteryVoltage,
    DeviceQuery { app_ver: u8 },
    ExportPrivateKey,
    SendRawData,
    SendLogin { key: [u8; 32], password: Vec<u8> },
    GetChannel { idx: u8 },
    SetChannel { idx: u8, name: Vec<u8>, secret: [u8; 16] },
    SignStart,
    SignData { data: Vec<u8> },
    SignFinish,
    SetOtherParams,
    SetFloodScope,
    /// A known command that the node does not implement.
    Unimplemented { command: HostCommandType },
}

/// The bytes `p[a..b]`.
pub open spec fn field(p: Seq<u8>, a: int, b: int) -> Seq<u8> {
    p.subrange(a, b)
}

/// The little-endian `u32` at `p[a..a + 4]`.
pub open spec fn field_u32(p: Seq<u8>, a: int) -> u32 {
    u32_of_le(p.subrange(a, a + 4))
}

/// The error that decoding request `p` stops on, or `None` when it succeeds.
pub open spec fn request_error(p: Seq<u8>) -> Option<DecodeError> {
    let n = p.len();
    if n == 0 {
        Some(DecodeError::UnexpectedEnd)
    } else {
        let c = p[0];
        if c == 1 {
            if n < 8 {
                Some(DecodeError::UnexpectedEnd)
            } else if !valid_utf8(field(p, 8, n as int)) {
                Some(DecodeError::InvalidUtf8)
            } else {
                None
            }
        } else if c == 2 {
            if n < 2 {
                Some(DecodeError::UnexpectedEnd)
            } else if spec_text_type(p[1]) is None {
                Some(DecodeError::InvalidBitPattern)
            } else if n < 13 {
                Some(DecodeError::UnexpectedEnd)
            } else if !valid_utf8(field(p, 13, n as int)) {
                Some(DecodeError::InvalidUtf8)
            } else {
                None
            }
        } else if c == 3 {
            if n < 2 {
                Some(DecodeError::UnexpectedEnd)
            } else if spec_text_type(p[1]) is None {
                Some(DecodeError::InvalidBitPattern)
            } else if n < 7 {
                Some(DecodeError::UnexpectedEnd)
            } else if !valid_utf8(field(p, 7, n as int)) {
                Some(DecodeError::InvalidUtf8)
            } else {
                None
            }
        } else if c == 6 {
            if n < 5 {
                Some(DecodeError::UnexpectedEnd)
            } else {
                None
            }
        } else if c == 8 {
            if !valid_utf8(field(p, 1, n as int)) {
                Some(DecodeError::InvalidUtf8)
            } else {
                None
            }
        } else if c == 9 {
            if n < 36 {
                Some(DecodeError::UnexpectedEnd)
            } else if n < 68 + p[35] {
                Some(DecodeError::UnexpectedEnd)
            } else if !valid_utf8(field(p, 36 + p[35], 68 + p[35])) {
                Some(DecodeError::InvalidUtf8)
            } else if n < 80 + p[35] {
                Some(DecodeError::UnexpectedEnd)
            } else {
                None
            }
        } else if c == 11 {
            if n < 11 {
                Some(DecodeError::UnexpectedEnd)
            } else {
                None
            }
        } else if c == 12 || c == 22 || c == 31 {
            if n < 2 {
                Some(DecodeError::UnexpectedEnd)
            } else {
                None
            }
        } else if c == 13 || c == 15 || c == 26 {
            if n < 33 {
                Some(DecodeError::UnexpectedEnd)
            } else {
                None
            }
        } else if c == 14 {
            if n < 9 {
                Some(DecodeError::UnexpectedEnd)
            } else {
                None
            }
        } else if c == 32 {
            if n < 34 {
                Some(DecodeError::UnexpectedEnd)
            } else if !valid_utf8(field(p, 2, 34)) {
                Some(DecodeError::InvalidUtf8)
            } else if n < 50 {
                Some(DecodeError::UnexpectedEnd)
            } else {
                None
            }
        } else if is_command_code(c) {
            None
        } else {
            Some(DecodeError::InvalidBitPattern)
        }
    }
}

/// `c` is what request `p` decodes to: every field of `c` is the field the
/// request carries. Only meaningful when `request_error(p)` is `None`.
pub open spec fn describes(p: Seq<u8>, c: HostCommand) -> bool {
    let n = p.len() as int;
    match c {
        HostCommand::AppStart { app_ver, reserved, app_name } => p[0] == 1 && app_ver == p[1]
            && reserved@ == field(p, 2, 8) && app_name@ == field(p, 8, n),
        HostCommand::SendTxtMsg { txt_type, attempt, timestamp, destination, text } => p[0] == 2
            && spec_text_type(p[1]) == Some(txt_type) && attempt == p[2] && timestamp == field_u32(
            p,
            3,
        ) && destination@ == field(p, 7, 13) && text@ == field(p, 13, n),
        HostCommand::SendChannelTxtMsg { txt_type, idx, timestamp, text } => p[0] == 3
            && spec_text_type(p[1]) == Some(txt_type) && idx == p[2] && timestamp == field_u32(p, 3)
            && text@ == field(p, 7, n),
        HostCommand::GetContacts => p[0] == 4,
        HostCommand::GetCustomVars => p[0] == 40,
        HostCommand::SetCustomVar { key, value } => p[0] == 41 && valid_utf8(field(p, 1, n))
            && match find_first(field(p, 1, n), 58u8) {
            Some(i) => key@ == field(p, 1, 1 + i as int) && value@ == field(p, 2 + i as int, n),
            None => false,
        },
        HostCommand::MalformedCustomVar => p[0] == 41 && (!valid_utf8(field(p, 1, n)) || find_first(
            field(p, 1, n),
            58u8,
        ) is None),
        HostCommand::GetDeviceTime => p[0] == 5,
        HostCommand::SetDeviceTime { timestamp } => p[0] == 6 && timestamp == field_u32(p, 1),
        HostCommand::SendSelfAdvert { flood } => p[0] == 7 && flood == (n > 1 && p[1] > 0),
        HostCommand::SetAdvertName { name } => p[0] == 8 && name@ == field(p, 1, n),
        HostCommand::AddUpdateContact {
            key,
            flags,
            path,
            name,
            last_advert,
            latitude,
            longitude,
        } => {
            let l = p[35] as int;
            p[0] == 9 && key@ == field(p, 1, 33) && flags == p[34] && path@ == field(p, 36, 36 + l)
                && name@ == trim_nils(field(p, 36 + l, 68 + l)) && last_advert == field_u32(
                p,
                68 + l,
            ) && latitude == field_u32(p, 72 + l) && longitude == field_u32(p, 76 + l)
        },
        HostCommand::SyncNextMessage => p[0] == 10,
        HostCommand::SetRadioParams { freq, bandwidth, spreading_factor, coding_rate } => p[0] == 11
            && freq == field_u32(p, 1) && bandwidth == field_u32(p, 5) && spreading_factor == p[9]
            && coding_rate == p[10],
        HostCommand::SetTxPower { power } => p[0] == 12 && power == p[1],
        HostCommand::ResetPath { key } => p[0] == 13 && key@ == field(p, 1, 33),
        HostCommand::SetAdvertLatLon { latitude, longitude } => p[0] == 14 && latitude == field_u32(
            p,
            1,
        ) && longitude == field_u32(p, 5),
        HostCommand::RemoveContact { key } => p[0] == 15 && key@ == field(p, 1, 33),
        HostCommand::GetBatteryVoltage => p[0] == 20,
        HostCommand::DeviceQuery { app_ver } => p[0] == 22 && app_ver == p[1],
        HostCommand::ExportPrivateKey => p[0] == 23,
        HostCommand::SendRawData => p[0] == 25,
        HostCommand::SendLogin { key, password } => p[0] == 26 && key@ == field(p, 1, 33)
            && password@ == field(p, 33, n),
        HostCommand::GetChannel { idx } => p[0] == 31 && idx == p[1],
        HostCommand::SetChannel { idx, name, secret } => p[0] == 32 && idx == p[1] && name@
            == trim_nils(field(p, 2, 34)) && secret@ == field(p, 34, 50),
        HostCommand::SignStart => p[0] == 33,
        HostCommand::SignData { data } => p[0] == 34 && data@ == field(p, 1, n),
        HostCommand::SignFinish => p[0] == 35,
        HostCommand::SetOtherParams => p[0] == 38,
        HostCommand::SetFloodScope => p[0] == 54,
        HostCommand::Unimplemented { command } => p[0] == command.spec_code()
            && !command.spec_is_implemented(),
    }
}

/// Decodes one companion request.
///
/// On success the command describes the request field by field; on failure
/// the error is the first problem met while reading the fields in order.
/// Commands that the node does not implement decode to `Unimplemented`
/// without reading their fields.
pub fn parse_host_command(packet: &[u8]) -> (r: Result<HostCommand, DecodeError>)
    ensures
        match r {
            Ok(c) => request_error(packet@) is None && describes(packet@, c),
            Err(e) => request_error(packet@) == Some(e),
        },
{
    let n = packet.len();
    if n == 0 {
        return Err(DecodeError::UnexpectedEnd);
    }
    let Some(command) = HostCommandType::from_repr(packet[0]) else {
        return Err(DecodeError::InvalidBitPattern);
    };
    match command {
        HostCommandType::AppStart => {
            if n < 8 {
                return Err(DecodeError::UnexpectedEnd);
            }
            let name = vstd::slice::slice_subrange(packet, 8, n);
            if !is_utf8(name) {
                return Err(DecodeError::InvalidUtf8);
            }
            Ok(
                HostCommand::AppStart {
                    app_ver: packet[1],
                    reserved: read_array::<6>(packet, 2),
                    app_name: copy_range(packet, 8, n),
                },
            )
        },
        HostCommandType::SendTxtMsg => {
            if n < 2 {
                return Err(DecodeError::UnexpectedEnd);
            }
            let Some(txt_type) = TextType::from_code(packet[1]) else {
                return Err(DecodeError::InvalidBitPattern);
            };
            if n < 13 {
                return Err(DecodeError::UnexpectedEnd);
            }
            if !is_utf8(vstd::slice::slice_subrange(packet, 13, n)) {
                return Err(DecodeError::InvalidUtf8);
            }
            Ok(
                HostCommand::SendTxtMsg {
                    txt_type,
                    attempt: packet[2],
                    timestamp: read_u32_le(packet, 3),
                    destination: read_array::<6>(packet, 7),
                    text: copy_range(packet, 13, n),
                },
            )
        },
        HostCommandType::SendChannelTxtMsg => {
            if n < 2 {
                return Err(DecodeError::UnexpectedEnd);
            }
            let Some(txt_type) = TextType::from_code(packet[1]) else {
                return Err(DecodeError::InvalidBitPattern);
            };
            if n < 7 {
                return Err(DecodeError::UnexpectedEnd);
            }
            if !is_utf8(vstd::slice::slice_subrange(packet, 7, n)) {
                return Err(DecodeError::InvalidUtf8);
            }
            Ok(
                HostCommand::SendChannelTxtMsg {
                    txt_type,
                    idx: packet[2],
                    timestamp: read_u32_le(packet, 3),
                    text: copy_range(packet, 7, n),
                },
            )
        },
        HostCommandType::GetContacts => Ok(HostCommand::GetContacts),
        HostCommandType::GetCustomVars => Ok(HostCommand::GetCustomVars),
        HostCommandType::SetCustomVar => {
            let rest = vstd::slice::slice_subrange(packet, 1, n);
            if !is_utf8(rest) {
                return Ok(HostCommand::MalformedCustomVar);
            }
            match first_index_of(rest, 58u8) {
                Some(i) => {
                    proof {
                        crate::bytes::lemma_find_first(rest@, 58u8);
                    }
                    Ok(
                        HostCommand::SetCustomVar {
                            key: copy_range(packet, 1, 1 + i),
                            value: copy_range(packet, 2 + i, n),
                        },
                    )
                },
                None => Ok(HostCommand::MalformedCustomVar),
            }
        },
        HostCommandType::GetDeviceTime => Ok(HostCommand::GetDeviceTime),
        HostCommandType::SetDeviceTime => {
            if n < 5 {
                return Err(DecodeError::UnexpectedEnd);
            }
            Ok(HostCommand::SetDeviceTime { timestamp: read_u32_le(packet, 1) })
        },
        HostCommandType::SendSelfAdvert => {
            let flood = n > 1 && packet[1] > 0;
            Ok(HostCommand::SendSelfAdvert { flood })
        },
        HostCommandType::SetAdvertName => {
            if !is_utf8(vstd::slice::slice_subrange(packet, 1, n)) {
                return Err(DecodeError::InvalidUtf8);
            }
            Ok(HostCommand::SetAdvertName { name: copy_range(packet, 1, n) })
        },
        HostCommandType::AddUpdateContact => {
            if n < 36 {
                return Err(DecodeError::UnexpectedEnd);
            }
            let l = packet[35] as usize;
            if n < 68 + l {
                return Err(DecodeError::UnexpectedEnd);
            }
            let raw_name = vstd::slice::slice_subrange(packet, 36 + l, 68 + l);
            if !is_utf8(raw_name) {
                return Err(DecodeError::InvalidUtf8);
            }
            if n < 80 + l {
                return Err(DecodeError::UnexpectedEnd);
            }
            let trimmed = trim_slice_nils(raw_name);
            assert(trimmed@.subrange(0, trimmed@.len() as int) =~= trimmed@);
            Ok(
                HostCommand::AddUpdateContact {
                    key: read_array::<32>(packet, 1),
                    flags: packet[34],
                    path: copy_range(packet, 36, 36 + l),
                    name: copy_range(trimmed, 0, trimmed.len()),
                    last_advert: read_u32_le(packet, 68 + l),
                    latitude: read_u32_le(packet, 72 + l),
                    longitude: read_u32_le(packet, 76 + l),
                },
            )
        },
        HostCommandType::SyncNextMessage => Ok(HostCommand::SyncNextMessage),
        HostCommandType::SetRadioParams => {
            if n < 11 {
                return Err(DecodeError::UnexpectedEnd);
            }
            Ok(
                HostCommand::SetRadioParams {
                    freq: read_u32_le(packet, 1),
                    bandwidth: read_u32_le(packet, 5),
                    spreading_factor: packet[9],
                    coding_rate: packet[10],
                },
            )
        },
        HostCommandType::SetTxPower => {
            if n < 2 {
                return Err(DecodeError::UnexpectedEnd);
            }
            Ok(HostCommand::SetTxPower { power: packet[1] })
        },
        HostCommandType::ResetPath => {
            if n < 33 {
                return Err(DecodeError::UnexpectedEnd);
            }
            Ok(HostCommand::ResetPath { key: read_array::<32>(packet, 1) })
        },
        HostCommandType::SetAdvertLatLon => {
            if n < 9 {
                return Err(DecodeError::UnexpectedEnd);
            }
            Ok(
                HostCommand::SetAdvertLatLon {
                    latitude: read_u32_le(packet, 1),
                    longitude: read_u32_le(packet, 5),
                },
            )
        },
        HostCommandType::RemoveContact => {
            if n < 33 {
                return Err(DecodeError::UnexpectedEnd);
            }
            Ok(HostCommand::RemoveContact { key: read_array::<32>(packet, 1) })
        },
        HostCommandType::GetBatteryVoltage => Ok(HostCommand::GetBatteryVoltage),
        HostCommandType::DeviceQuery => {
            if n < 2 {
                return Err(DecodeError::UnexpectedEnd);
            }
            Ok(HostCommand::DeviceQuery { app_ver: packet[1] })
        },
        HostCommandType::ExportPrivateKey => Ok(HostCommand::ExportPrivateKey),
        HostCommandType::SendRawData => Ok(HostCommand::SendRawData),
        HostCommandType::SendLogin => {
            if n < 33 {
                return Err(DecodeError::UnexpectedEnd);
            }
            Ok(
                HostCommand::SendLogin {
                    key: read_array::<32>(packet, 1),
                    password: copy_range(packet, 33, n),
                },
            )
        },
        HostCommandType::GetChannel => {
            if n < 2 {
                return Err(DecodeError::UnexpectedEnd);
            }
            Ok(HostCommand::GetChannel { idx: packet[1] })
        },
        HostCommandType::SetChannel => {
            if n < 34 {
                return Err(DecodeError::UnexpectedEnd);
            }
            let raw_name = vstd::slice::slice_subrange(packet, 2, 34);
            if !is_utf8(raw_name) {
                return Err(DecodeError::InvalidUtf8);
            }
            if n < 50 {
                return Err(DecodeError::UnexpectedEnd);
            }
            let trimmed = trim_slice_nils(raw_name);
            assert(trimmed@.subrange(0, trimmed@.len() as int) =~= trimmed@);
            Ok(
                HostCommand::SetChannel {
                    idx: packet[1],
                    name: copy_range(trimmed, 0, trimmed.len()),
                    secret: read_array::<16>(packet, 34),
                },
            )
        },
        HostCommandType::SignStart => Ok(HostCommand::SignStart),
        HostCommandType::SignData => Ok(HostCommand::SignData { data: copy_range(packet, 1, n) }),
        HostCommandType::SignFinish => Ok(HostCommand::SignFinish),
        HostCommandType::SetOtherParams => Ok(HostCommand::SetOtherParams),
        HostCommandType::SetFloodScope => Ok(HostCommand::SetFloodScope),
        _ => Ok(HostCommand::Unimplemented { command }),
    }
}

} // verus!
