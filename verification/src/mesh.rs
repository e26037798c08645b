//! The mesh layer's decisions on a received packet: which kind of payload
//! it carries, whether it was seen before, which handler takes it, and which
//! cached contacts may have sent a direct message.
use vstd::prelude::*;

use crate::contacts::{first_with_prefix, none_with_prefix, ContactStorage};
use crate::hash_log::{
    contact_hash_input, keep_first, HashLog, HashableContactMessage, HashableMessage, MessageHash,
};

verus! {

/// How a packet is routed: the low two bits of its header.
#[derive(Clone, Copy, Debug, PartialEq, Eq, Structural)]
pub enum RouteType {
    TransportFlood,
    Flood,
    Direct,
    TransportDirect,
}

/// What a packet carries: bits 2 to 5 of its header.
#[derive(Clone, Copy, Debug, PartialEq, Eq, Structural)]
pub enum PayloadType {
    Request,
    Response,
    TxtMsg,
    Ack,
    Advert,
    GrpTxt,
    GrpData,
    AnonReq,
    Path,
    Trace,
    Multipart,
    Control,
    RawCustom,
}

/// The payload type with code `code`, if any.
pub open spec fn spec_payload_type(code: u8) -> Option<PayloadType> {
    if code == 0 {
        Some(PayloadType::Request)
    } else if code == 1 {
        Some(PayloadType::Response)
    } else if code == 2 {
        Some(PayloadType::TxtMsg)
    } else if code == 3 {
        Some(PayloadType::Ack)
    } else if code == 4 {
        Some(PayloadType::Advert)
    } else if code == 5 {
        Some(PayloadType::GrpTxt)
    } else if code == 6 {
        Some(PayloadType::GrpData)
    } else if code == 7 {
        Some(PayloadType::AnonReq)
    } else if code == 8 {
        Some(PayloadType::Path)
    } else if code == 9 {
        Some(PayloadType::Trace)
    } else if code == 10 {
        Some(PayloadType::Multipart)
    } else if code == 11 {
        Some(PayloadType::Control)
    } else if code == 15 {
        Some(PayloadType::RawCustom)
    } else {
        None
    }
}

/// The route type of a packet header.
pub fn route_type(header: u8) -> (r: RouteType)
    ensures
        header % 4 == 0 ==> r == RouteType::TransportFlood,
        header % 4 == 1 ==> r == RouteType::Flood,
        header % 4 == 2 ==> r == RouteType::Direct,
        header % 4 == 3 ==> r == RouteType::TransportDirect,
{
    let code = header % 4;
    if code == 0 {
        RouteType::TransportFlood
    } else if code == 1 {
        RouteType::Flood
    } else if code == 2 {
        RouteType::Direct
    } else {
        RouteType::TransportDirect
    }
}

/// Whether a route floods the packet through every repeater.
pub fn is_flood(route: RouteType) -> (r: bool)
    ensures
        r <==> (route == RouteType::Flood || route == RouteType::TransportFlood),
{
    match route {
        RouteType::TransportFlood => true,
        RouteType::Flood => true,
        RouteType::Direct => false,
        RouteType::TransportDirect => false,
    }
}

/// The payload type of a packet header, or `None` for an unknown code.
pub fn payload_type(header: u8) -> (r: Option<PayloadType>)
    ensures
        r == spec_payload_type((header / 4) % 16),
{
    let code = (header / 4) % 16;
    if code == 0 {
        Some(PayloadType::Request)
    } else if code == 1 {
        Some(PayloadType::Response)
    } else if code == 2 {
        Some(PayloadType::TxtMsg)
    } else if code == 3 {
        Some(PayloadType::Ack)
    } else if code == 4 {
        Some(PayloadType::Advert)
    } else if code == 5 {
        Some(PayloadType::GrpTxt)
    } else if code == 6 {
        Some(PayloadType::GrpData)
    } else if code == 7 {
        Some(PayloadType::AnonReq)
    } else if code == 8 {
        Some(PayloadType::Path)
    } else if code == 9 {
        Some(PayloadType::Trace)
    } else if code == 10 {
        Some(PayloadType::Multipart)
    } else if code == 11 {
        Some(PayloadType::Control)
    } else if code == 15 {
        Some(PayloadType::RawCustom)
    } else {
        None
    }
}

/// The handler of the mesh layer that takes a packet.
#[derive(Clone, Copy, Debug, PartialEq, Eq, Structural)]
pub enum MeshHandler {
    Request,
    Response,
    TextMessage,
    Ack,
    Advert,
    GroupText,
    AnonymousRequest,
    ReturnedPath,
    TracePacket,
    ControlPacket,
    Ignored,
}

/// The handler for each payload type: group data, multipart and raw custom
/// payloads are not handled.
pub open spec fn spec_mesh_handler(t: PayloadType) -> MeshHandler {
    match t {
        PayloadType::Request => MeshHandler::Request,
        PayloadType::Response => MeshHandler::Response,
        PayloadType::TxtMsg => MeshHandler::TextMessage,
        PayloadType::Ack => MeshHandler::Ack,
        PayloadType::Advert => MeshHandler::Advert,
        PayloadType::GrpTxt => MeshHandler::GroupText,
        PayloadType::GrpData => MeshHandler::Ignored,
        PayloadType::AnonReq => MeshHandler::AnonymousRequest,
        PayloadType::Path => MeshHandler::ReturnedPath,
        PayloadType::Trace => MeshHandler::TracePacket,
        PayloadType::Multipart => MeshHandler::Ignored,
        PayloadType::Control => MeshHandler::ControlPacket,
        PayloadType::RawCustom => MeshHandler::Ignored,
    }
}

/// The handler for a payload type.
pub fn mesh_handler(t: PayloadType) -> (r: MeshHandler)
    ensures
        r == spec_mesh_handler(t),
{
    match t {
        PayloadType::Request => MeshHandler::Request,
        PayloadType::Response => MeshHandler::Response,
        PayloadType::TxtMsg => MeshHandler::TextMessage,
        PayloadType::Ack => MeshHandler::Ack,
        PayloadType::Advert => MeshHandler::Advert,
        PayloadType::GrpTxt => MeshHandler::GroupText,
        PayloadType::GrpData => MeshHandler::Ignored,
        PayloadType::AnonReq => MeshHandler::AnonymousRequest,
        PayloadType::Path => MeshHandler::ReturnedPath,
        PayloadType::Trace => MeshHandler::TracePacket,
        PayloadType::Multipart => MeshHandler::Ignored,
        PayloadType::Control => MeshHandler::ControlPacket,
        PayloadType::RawCustom => MeshHandler::Ignored,
    }
}

/// What happens to a received packet.
#[derive(Clone, Copy, Debug, PartialEq, Eq, Structural)]
pub enum PacketFate {
    /// It was seen before and is dropped.
    Duplicate,
    /// Its header names no known payload type.
    Undecodable,
    /// It is handed to the layers, then to this handler.
    Handle(MeshHandler),
}

/// What happens to a packet not seen before whose header is `header`: it
/// goes to the handler of its payload type, or is undecodable.
pub open spec fn fresh_fate(header: u8) -> PacketFate {
    match spec_payload_type((header / 4) % 16) {
        Some(t) => PacketFate::Handle(spec_mesh_handler(t)),
        None => PacketFate::Undecodable,
    }
}

/// Which handler takes a new packet, by the payload code in bits 2 to 5 of
/// its header: 0 requests, 1 responses, 2 text messages, 3 acknowledgements,
/// 4 adverts, 5 group texts, 7 anonymous requests, 8 returned paths, 9
/// traces and 11 control packets each go to their own handler; group data
/// (6), multipart (10) and raw custom (15) payloads are taken by none; the
/// codes 12 to 14 are undecodable.
pub proof fn lemma_fresh_packet_dispatch(header: u8)
    ensures
        ({
            let code = (header / 4) % 16;
            let f = fresh_fate(header);
            &&& code == 0 ==> f == PacketFate::Handle(MeshHandler::Request)
            &&& code == 1 ==> f == PacketFate::Handle(MeshHandler::Response)
            &&& code == 2 ==> f == PacketFate::Handle(MeshHandler::TextMessage)
            &&& code == 3 ==> f == PacketFate::Handle(MeshHandler::Ack)
            &&& code == 4 ==> f == PacketFate::Handle(MeshHandler::Advert)
            &&& code == 5 ==> f == PacketFate::Handle(MeshHandler::GroupText)
            &&& code == 7 ==> f == PacketFate::Handle(MeshHandler::AnonymousRequest)
            &&& code == 8 ==> f == PacketFate::Handle(MeshHandler::ReturnedPath)
            &&& code == 9 ==> f == PacketFate::Handle(MeshHandler::TracePacket)
            &&& code == 11 ==> f == PacketFate::Handle(MeshHandler::ControlPacket)
            &&& (f == PacketFate::Handle(MeshHandler::Ignored) <==> (code == 6 || code == 10 || code
                == 15))
            &&& (f == PacketFate::Undecodable <==> (12 <= code <= 14))
        }),
{
}

/// Each handled payload type has a handler of its own, and only group
/// data, multipart and raw custom payloads are left unhandled.
pub proof fn lemma_handlers_distinct(a: PayloadType, b: PayloadType)
    ensures
        spec_mesh_handler(a) == spec_mesh_handler(b) && spec_mesh_handler(a)
            != MeshHandler::Ignored ==> a == b,
        spec_mesh_handler(a) == MeshHandler::Ignored <==> (a == PayloadType::GrpData || a
            == PayloadType::Multipart || a == PayloadType::RawCustom),
{
}

/// Decides what happens to a received packet whose hash is `hash`: a packet
/// seen before is dropped and leaves the log as it was; a new one is logged
/// first, then handed on by its payload type.
pub fn packet_fate(log: &mut HashLog<32>, hash: MessageHash, header: u8) -> (r: PacketFate)
    requires
        old(log).wf(),
    ensures
        final(log).wf(),
        old(log)@.contains(hash) ==> r == PacketFate::Duplicate && final(log)@ == old(log)@,
        !old(log)@.contains(hash) ==> final(log)@ == keep_first(seq![hash] + old(log)@, 32) && r
            == match spec_payload_type((header / 4) % 16) {
            Some(t) => PacketFate::Handle(spec_mesh_handler(t)),
            None => PacketFate::Undecodable,
        },
        !old(log)@.contains(hash) ==> r == fresh_fate(header),
{
    if !log.push_hash(hash) {
        return PacketFate::Duplicate;
    }
    match payload_type(header) {
        Some(t) => PacketFate::Handle(mesh_handler(t)),
        None => PacketFate::Undecodable,
    }
}

/// Whether the companion firmware handles a payload type: text messages,
/// acknowledgements, adverts, group texts and returned paths.
pub fn companion_handles(t: PayloadType) -> (r: bool)
    ensures
        r <==> (t == PayloadType::TxtMsg || t == PayloadType::Ack || t == PayloadType::Advert || t
            == PayloadType::GrpTxt || t == PayloadType::Path),
{
    match t {
        PayloadType::TxtMsg => true,
        PayloadType::Ack => true,
        PayloadType::Advert => true,
        PayloadType::GrpTxt => true,
        PayloadType::Path => true,
        _ => false,
    }
}

/// The contacts that may have sent a direct message whose source hash is
/// `source_hash`, in the order they are tried: the cached contacts whose key
/// starts with that byte, from the first on.
pub fn sender_candidates(contacts: &ContactStorage, source_hash: u8) -> (r: Vec<usize>)
    requires
        contacts.wf(),
    ensures
        r@.len() == 0 <==> none_with_prefix(contacts.hot_cache@, seq![source_hash]),
        forall|i: int| 0 <= i < r@.len() ==> r@[i] < contacts.hot_cache@.len() && contacts.hot_cache@[r@[i] as int].key[0] == source_hash,
        r@.len() > 0 ==> first_with_prefix(contacts.hot_cache@, seq![source_hash], r@[0] as int),
        forall|i: int| 0 <= i < r@.len() ==> #[trigger] r@[i] == r@[0] + i,
        r@.len() > 0 ==> (r@.last() + 1 == contacts.hot_cache@.len() || contacts.hot_cache@[r@.last() + 1].key[0] != source_hash),
{
    let prefix: [u8; 1] = [source_hash];
    assert(prefix@ =~= seq![source_hash]);
    let mut out: Vec<usize> = Vec::new();
    match contacts.find_idx(prefix.as_slice()) {
        None => out,
        Some(first) => {
            proof {
                assert(contacts.hot_cache@[first as int].key@.subrange(0, 1)[0] == source_hash);
            }
            let mut i = first;
            while i < contacts.hot_cache.len() && contacts.hot_cache[i].key[0] == source_hash
                invariant
                    first <= i <= contacts.hot_cache@.len(),
                    first < contacts.hot_cache@.len(),
                    first_with_prefix(contacts.hot_cache@, seq![source_hash], first as int),
                    out@.len() == i - first,
                    forall|k: int| 0 <= k < out@.len() ==> out@[k] == first + k,
                    forall|k: int| first <= k < i ==> contacts.hot_cache@[k].key[0] == source_hash,
                decreases contacts.hot_cache@.len() - i,
            {
                out.push(i);
                i = i + 1;
            }
            proof {
                assert(contacts.hot_cache@[first as int].key@.subrange(0, 1)[0]
                    == contacts.hot_cache@[first as int].key[0]);
                assert(out@.len() > 0);
                assert(!none_with_prefix(contacts.hot_cache@, seq![source_hash]));
            }
            out
        },
    }
}

/// Why the node could not send what the app asked it to.
#[derive(Clone, Copy, Debug, PartialEq, Eq, Structural)]
pub enum CompanionError {
    /// No cached contact has a key that starts with the destination.
    NoKnownContact,
}

/// What a direct message needs before it is encrypted and sent: the index
/// of the cached contact it goes to, its timestamp, and the bytes hashed to
/// mark it as seen, so that the node does not take its own message back.
pub struct DirectSend {
    pub contact: usize,
    pub timestamp: u32,
    pub seen_input: Vec<u8>,
}

/// Prepares a direct message with text `text` to the contact whose key
/// starts with `destination`, from the node whose public key is
/// `own_public`: the first such cached contact, the given timestamp or else
/// the time now, and the seen-message hash input of the node's key prefix,
/// that timestamp and the text. Fails with `NoKnownContact` when no cached
/// key starts with `destination`.
pub fn direct_message_plan(
    contacts: &ContactStorage,
    own_public: &[u8; 32],
    destination: &[u8],
    text: &[u8],
    timestamp: Option<u32>,
    now_secs: u32,
) -> (r: Result<DirectSend, CompanionError>)
    requires
        contacts.wf(),
    ensures
        r is Err <==> none_with_prefix(contacts.hot_cache@, destination@),
        r matches Err(e) ==> e == CompanionError::NoKnownContact,
        r matches Ok(p) ==> {
            &&& first_with_prefix(contacts.hot_cache@, destination@, p.contact as int)
            &&& p.timestamp == match timestamp {
                Some(t) => t,
                None => now_secs,
            }
            &&& p.seen_input@ == contact_hash_input(own_public@.subrange(0, 6), p.timestamp, text@)
        },
{
    let contact = match contacts.find_idx(destination) {
        Some(i) => i,
        None => {
            return Err(CompanionError::NoKnownContact);
        },
    };
    proof {
        assert(!none_with_prefix(contacts.hot_cache@, destination@));
    }
    let stamp = match timestamp {
        Some(t) => t,
        None => now_secs,
    };
    let prefix: [u8; 6] = [
        own_public[0],
        own_public[1],
        own_public[2],
        own_public[3],
        own_public[4],
        own_public[5],
    ];
    assert(prefix@ =~= own_public@.subrange(0, 6));
    let message = HashableContactMessage { pk_prefix: &prefix, timestamp: stamp, data: text };
    let seen_input = message.hash_input();
    Ok(DirectSend { contact, timestamp: stamp, seen_input })
}

} // verus!
