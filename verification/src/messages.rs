//! Messages kept for the companion app until it fetches them: how a
//! received message becomes a stored one, how it is sent, and what it is
//! hashed over to keep it from being stored twice.
use vstd::prelude::*;

use crate::bytes::{trim_nils, trim_slice_nils};
use crate::channels::Channel;
use crate::command::TextType;
use crate::contacts::CachedContact;
use crate::hash_log::{channel_hash_input, contact_hash_input, HashableMessage};
use crate::protocol::{ChannelMsgRecv, CompanionSer, ContactMsgRecv};
use crate::wire::{push_slice, push_u32_le};

verus! {

/// A message stored for the app: from a contact or on a channel.
#[derive(Clone, Debug, PartialEq, Eq)]
pub enum SavedMessage {
    Contact(ContactMsgRecv),
    Channel(ChannelMsgRecv),
}

impl CompanionSer for SavedMessage {
    open spec fn spec_encoding(&self) -> Seq<u8> {
        match self {
            SavedMessage::Contact(m) => m.spec_encoding(),
            SavedMessage::Channel(m) => m.spec_encoding(),
        }
    }

    open spec fn spec_size(&self) -> nat {
        match self {
            SavedMessage::Contact(m) => m.spec_size(),
            SavedMessage::Channel(m) => m.spec_size(),
        }
    }

    open spec fn spec_well_formed(&self) -> bool {
        true
    }

    proof fn lemma_size_matches_encoding(&self) {
        match self {
            SavedMessage::Contact(m) => m.lemma_size_matches_encoding(),
            SavedMessage::Channel(m) => m.lemma_size_matches_encoding(),
        }
    }

    fn ser_size(&self) -> (r: usize) {
        match self {
            SavedMessage::Contact(m) => m.ser_size(),
            SavedMessage::Channel(m) => m.ser_size(),
        }
    }

    fn companion_serialize(&self) -> (r: Vec<u8>) {
        match self {
            SavedMessage::Contact(m) => m.companion_serialize(),
            SavedMessage::Channel(m) => m.companion_serialize(),
        }
    }
}

impl HashableMessage for SavedMessage {
    open spec fn spec_hash_input(&self) -> Seq<u8> {
        match self {
            SavedMessage::Contact(m) => contact_hash_input(m.pk_prefix@, m.timestamp, m.data@),
            SavedMessage::Channel(m) => channel_hash_input(m.idx, m.timestamp, m.data@),
        }
    }

    fn hash_input(&self) -> (r: Vec<u8>) {
        let mut out: Vec<u8> = Vec::new();
        match self {
            SavedMessage::Contact(m) => {
                out.push(0u8);
                push_u32_le(&mut out, m.timestamp);
                push_slice(&mut out, m.pk_prefix.as_slice());
                push_slice(&mut out, m.data.as_slice());
            },
            SavedMessage::Channel(m) => {
                out.push(1u8);
                out.push(m.idx);
                push_u32_le(&mut out, m.timestamp);
                push_slice(&mut out, m.data.as_slice());
            },
        }
        assert(out@ =~= self.spec_hash_input());
        out
    }
}

/// Copies `data` into a new vector.
fn to_vec(data: &[u8]) -> (r: Vec<u8>)
    ensures
        r@ == data@,
{
    let mut out: Vec<u8> = Vec::new();
    push_slice(&mut out, data);
    out
}

impl SavedMessage {
    /// The message received on `channel` over a path of `path_len` hops:
    /// its text without trailing zero bytes, no SNR, the path length as one
    /// byte.
    pub fn channel_msg(
        channel: &Channel,
        path_len: usize,
        text_ty: TextType,
        timestamp: u32,
        message: &[u8],
    ) -> (r: SavedMessage)
        ensures
            r == SavedMessage::Channel(
                ChannelMsgRecv {
                    snr: 0,
                    reserved: r->Channel_0.reserved,
                    idx: channel.idx,
                    path_len: path_len as u8,
                    text_ty,
                    timestamp,
                    data: r->Channel_0.data,
                },
            ),
            r->Channel_0.reserved@ == seq![0u8, 0u8],
            r->Channel_0.data@ == trim_nils(message@),
    {
        let reserved: [u8; 2] = [0u8; 2];
        assert(reserved@ =~= seq![0u8, 0u8]);
        SavedMessage::Channel(
            ChannelMsgRecv {
                snr: 0,
                reserved,
                idx: channel.idx,
                path_len: path_len as u8,
                text_ty,
                timestamp,
                data: to_vec(trim_slice_nils(message)),
            },
        )
    }

    /// The message received from `contact` over a path of `path_len` hops:
    /// the first six bytes of the contact's key, its text without trailing
    /// zero bytes, no SNR and no signature.
    pub fn contact_msg(
        contact: &CachedContact,
        path_len: usize,
        text_ty: TextType,
        timestamp: u32,
        message: &[u8],
    ) -> (r: SavedMessage)
        ensures
            r == SavedMessage::Contact(
                ContactMsgRecv {
                    snr: 0,
                    reserved: r->Contact_0.reserved,
                    pk_prefix: r->Contact_0.pk_prefix,
                    path_len: path_len as u8,
                    text_ty,
                    timestamp,
                    signature: None,
                    data: r->Contact_0.data,
                },
            ),
            r->Contact_0.reserved@ == seq![0u8, 0u8],
            r->Contact_0.pk_prefix@ == contact.key@.subrange(0, 6),
            r->Contact_0.data@ == trim_nils(message@),
    {
        let reserved: [u8; 2] = [0u8; 2];
        assert(reserved@ =~= seq![0u8, 0u8]);
        let pk_prefix: [u8; 6] = [
            contact.key[0],
            contact.key[1],
            contact.key[2],
            contact.key[3],
            contact.key[4],
            contact.key[5],
        ];
        assert(pk_prefix@ =~= contact.key@.subrange(0, 6));
        SavedMessage::Contact(
            ContactMsgRecv {
                snr: 0,
                reserved,
                pk_prefix,
                path_len: path_len as u8,
                text_ty,
                timestamp,
                signature: None,
                data: to_vec(trim_slice_nils(message)),
            },
        )
    }
}

} // verus!
