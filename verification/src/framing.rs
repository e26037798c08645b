//! Framing of the companion protocol over a byte stream.
//!
//! The app sends frames `'<' len_lo len_hi payload`; the node answers with
//! frames `'>' len_lo len_hi payload`.
use vstd::prelude::*;

use crate::bytes::{find_first, first_index_of};
use crate::protocol::CompanionSer;
use crate::wire::{le16, push_u16_le, push_slice, read_u16_le, u16_of_le};

verus! {

/// The byte that starts a frame from the app.
pub const FRAME_START_IN: u8 = 0x3c;

/// The byte that starts a frame to the app.
pub const FRAME_START_OUT: u8 = 0x3e;

/// The outgoing frame for a payload whose announced size is `size`.
pub open spec fn out_frame(size: nat, payload: Seq<u8>) -> Seq<u8> {
    seq![FRAME_START_OUT] + le16(size as u16) + payload
}

/// The frame that carries `packet` to the app: the start byte, the payload
/// size as a little-endian `u16` (its low 16 bits), then the payload.
pub fn frame_response<T: CompanionSer>(packet: &T) -> (r: Vec<u8>)
    requires
        packet.spec_well_formed(),
        packet.spec_size() <= usize::MAX,
    ensures
        r@ == out_frame(packet.spec_size(), packet.spec_encoding()),
{
    let size = packet.ser_size();
    let data = packet.companion_serialize();
    let mut out: Vec<u8> = Vec::new();
    out.push(FRAME_START_OUT);
    push_u16_le(&mut out, size as u16);
    push_slice(&mut out, data.as_slice());
    assert(out@ =~= out_frame(packet.spec_size(), packet.spec_encoding()));
    out
}

/// What the next incoming frame in a read buffer is.
#[derive(Clone, Copy, Debug, PartialEq, Eq, Structural)]
pub enum FrameScan {
    /// No start byte is left in the buffer.
    NoFrame,
    /// A start byte at `start`, but the buffer ends before its length field
    /// or its payload.
    Truncated { start: usize },
    /// A whole frame: its payload is `buf[data_start..data_end]`, and the
    /// next frame is looked for from `data_end` on.
    Frame { start: usize, data_start: usize, data_end: usize },
}

/// The scan result that `next_frame` gives for buffer `b`.
pub open spec fn spec_next_frame(b: Seq<u8>) -> FrameScan {
    match find_first(b, FRAME_START_IN) {
        None => FrameScan::NoFrame,
        Some(i) => if i + 3 > b.len() {
            FrameScan::Truncated { start: i as usize }
        } else {
            let len = u16_of_le(b.subrange(i as int + 1, i as int + 3)) as int;
            if i + 3 + len > b.len() {
                FrameScan::Truncated { start: i as usize }
            } else {
                FrameScan::Frame {
                    start: i as usize,
                    data_start: (i + 3) as usize,
                    data_end: (i + 3 + len) as usize,
                }
            }
        },
    }
}

/// Finds the next frame in `buf`: the first start byte, the little-endian
/// length after it, and that many payload bytes.
pub fn next_frame(buf: &[u8]) -> (r: FrameScan)
    ensures
        r == spec_next_frame(buf@),
        r matches FrameScan::Frame { start, data_start, data_end } ==> start < data_start
            <= data_end <= buf@.len(),
{
    match first_index_of(buf, FRAME_START_IN) {
        None => FrameScan::NoFrame,
        Some(i) => {
            proof {
                crate::bytes::lemma_find_first(buf@, FRAME_START_IN);
            }
            if buf.len() - i < 3 {
                FrameScan::Truncated { start: i }
            } else {
                let len = read_u16_le(buf, i + 1) as usize;
                if buf.len() - i - 3 < len {
                    FrameScan::Truncated { start: i }
                } else {
                    FrameScan::Frame { start: i, data_start: i + 3, data_end: i + 3 + len }
                }
            }
        },
    }
}

} // verus!
