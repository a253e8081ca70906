//! The frames of a received netlink buffer: each is read in turn; those of
//! the awaited sequence number (or all, when none is awaited) are kept, until
//! the end of a dump or of the buffer.  A kept frame is handed back as the
//! place of its bytes in the buffer.

use vstd::prelude::*;
use vstd::string::*;
use crate::common::Error;

verus! {

/// The header of the netlink frame at the start of `bytes` as
/// `NetlinkMessage::deserialize` reads it — its length, its sequence number
/// and whether it ends a dump — or none where that fails.
pub uninterp spec fn netlink_frame(bytes: Seq<u8>) -> Option<(u32, u32, bool)>;

/// Reads the frame at the start of `bytes` with netlink_packet_core's
/// `NetlinkMessage::<RtnlMessage>::deserialize` and hands back its header's
/// length and sequence number and whether its payload ends a dump.  Claims
/// that these are `netlink_frame(bytes)`, that it fails exactly where that is
/// none, and that a frame read is at least the 16 bytes of a header and no
/// longer than `bytes` (the crate's `NetlinkBuffer::new_checked` refuses
/// anything else).  The error's text is the crate's debug rendering of it.
#[verifier::external_body]
fn deserialize_frame(bytes: &[u8]) -> (r: Result<(u32, u32, bool), String>)
    ensures
        match r {
            Ok((length, sequence_number, done)) => netlink_frame(bytes@) == Some((length, sequence_number, done))
                && 16 <= length <= bytes@.len(),
            Err(_) => netlink_frame(bytes@) is None,
        },
{
    match netlink_packet_core::NetlinkMessage::<netlink_packet_route::RtnlMessage>::deserialize(bytes) {
        Ok(message) => {
            let done = matches!(message.payload, netlink_packet_core::NetlinkPayload::Done);
            Ok((message.header.length, message.header.sequence_number, done))
        },
        Err(e) => Err(format!("{:?}", e)),
    }
}

/// Whether a frame of sequence number `s` is one that is awaited.
pub open spec fn awaited(sequence_number: Option<u32>, s: u32) -> bool {
    match sequence_number {
        Some(n) => n == s,
        None => true,
    }
}

/// Walking the frames of `buffer` from `offset` on: `Some(true)` when an
/// awaited frame ends the dump, `Some(false)` when the buffer ends first,
/// `None` when a frame cannot be read; and the frames kept on the way, in
/// buffer order, each as its offset and length.
pub open spec fn frame_walk(sequence_number: Option<u32>, buffer: Seq<u8>, offset: int) -> (
    Option<bool>,
    Seq<(int, int)>,
)
    decreases buffer.len() - offset,
{
    if offset < 0 || offset > buffer.len() {
        (None, Seq::empty())
    } else {
        match netlink_frame(buffer.skip(offset)) {
            None => (None, Seq::empty()),
            Some((length, s, done)) => if length < 16 || offset + length > buffer.len() {
                (None, Seq::empty())
            } else if awaited(sequence_number, s) && done {
                (Some(true), Seq::empty())
            } else {
                let kept = if awaited(sequence_number, s) {
                    seq![(offset, length as int)]
                } else {
                    Seq::empty()
                };
                if offset + length == buffer.len() {
                    (Some(false), kept)
                } else {
                    let (outcome, rest) = frame_walk(sequence_number, buffer, offset + length);
                    (outcome, kept + rest)
                }
            },
        }
    }
}

/// Every frame that a walk from `offset` keeps is an awaited frame that does
/// not end the dump, read at its place: it starts at or after `offset`, lies
/// within the buffer, is at least a header long, and the frames kept follow
/// one another in buffer order without overlapping.
pub proof fn lemma_frame_walk_kept(sequence_number: Option<u32>, buffer: Seq<u8>, offset: int)
    ensures
        forall|k: int|
            0 <= k < frame_walk(sequence_number, buffer, offset).1.len() ==> {
                let (o, l) = #[trigger] frame_walk(sequence_number, buffer, offset).1[k];
                &&& offset <= o
                &&& 16 <= l
                &&& o + l <= buffer.len()
                &&& netlink_frame(buffer.skip(o)) matches Some((len, s, done)) && len == l && !done && awaited(
                    sequence_number,
                    s,
                )
            },
        forall|k: int|
            0 <= k < frame_walk(sequence_number, buffer, offset).1.len() - 1 ==> frame_walk(
                sequence_number,
                buffer,
                offset,
            ).1[k].0 + frame_walk(sequence_number, buffer, offset).1[k].1 <= #[trigger] frame_walk(
                sequence_number,
                buffer,
                offset,
            ).1[k + 1].0,
    decreases buffer.len() - offset,
{
    if 0 <= offset <= buffer.len() {
        if let Some((length, s, done)) = netlink_frame(buffer.skip(offset)) {
            if !(length < 16 || offset + length > buffer.len()) && !(awaited(sequence_number, s) && done)
                && offset + length != buffer.len() {
                lemma_frame_walk_kept(sequence_number, buffer, offset + length);
                let rest = frame_walk(sequence_number, buffer, offset + length).1;
                let kept = if awaited(sequence_number, s) {
                    seq![(offset, length as int)]
                } else {
                    Seq::empty()
                };
                let all = frame_walk(sequence_number, buffer, offset).1;
                assert(all == kept + rest);
                assert forall|k: int| 0 <= k < all.len() implies {
                    let (o, l) = #[trigger] all[k];
                    &&& offset <= o
                    &&& 16 <= l
                    &&& o + l <= buffer.len()
                    &&& netlink_frame(buffer.skip(o)) matches Some((len, s2, done2)) && len == l && !done2 && awaited(
                        sequence_number,
                        s2,
                    )
                } by {
                    if k < kept.len() {
                        assert(all[k] == (offset, length as int));
                        assert(!done);
                    } else {
                        assert(all[k] == rest[k - kept.len()]);
                    }
                }
                assert forall|k: int| 0 <= k < all.len() - 1 implies all[k].0 + all[k].1 <= #[trigger] all[k + 1].0 by {
                    if k < kept.len() {
                        assert(k == 0);
                        assert(all[k + 1] == rest[0]);
                        let (o1, l1) = frame_walk(sequence_number, buffer, offset + length).1[0];
                        assert(offset + length <= o1);
                    } else {
                        let j = k - kept.len();
                        assert(all[k] == rest[j]);
                        assert(all[k + 1] == rest[j + 1]);
                        assert(rest[j].0 + rest[j].1 <= rest[j + 1].0);
                    }
                }
            }
        }
    }
}

/// Frame places as integers.
pub open spec fn frame_places(kept: Seq<(usize, usize)>) -> Seq<(int, int)> {
    kept.map_values(|f: (usize, usize)| (f.0 as int, f.1 as int))
}

/// Walks the frames of a received buffer.  Returns whether the dump ended,
/// or the error of a frame that cannot be read; and the awaited frames read
/// before that, in buffer order, each as its offset and length.
pub fn receive_frames(sequence_number: Option<u32>, buffer: &[u8]) -> (r: (Result<bool, Error>, Vec<(usize, usize)>))
    ensures
        match r.0 {
            Ok(done) => frame_walk(sequence_number, buffer@, 0).0 == Some(done),
            Err(Error::Communication(m)) => frame_walk(sequence_number, buffer@, 0).0 is None
                && exists|t: Seq<char>| m@ == "Failed to deserialize netlink message: "@ + t,
            Err(_) => false,
        },
        frame_places(r.1@) == frame_walk(sequence_number, buffer@, 0).1,
{
    let mut kept: Vec<(usize, usize)> = Vec::new();
    let mut offset: usize = 0;
    let total = buffer.len();
    loop
        invariant
            total == buffer@.len(),
            offset <= buffer@.len(),
            offset < buffer@.len() || buffer@.len() == 0,
            frame_walk(sequence_number, buffer@, 0).0 == frame_walk(sequence_number, buffer@, offset as int).0,
            frame_places(kept@) + frame_walk(sequence_number, buffer@, offset as int).1 == frame_walk(
                sequence_number,
                buffer@,
                0,
            ).1,
        decreases buffer@.len() - offset,
    {
        let rest = slice_from(buffer, offset);
        let (length, s, done) = match deserialize_frame(rest) {
            Ok(frame) => frame,
            Err(e) => {
                let mut text = String::new();
                text.append("Failed to deserialize netlink message: ");
                text.append(e.as_str());
                proof {
                    assert(frame_places(kept@) + Seq::<(int, int)>::empty() =~= frame_places(kept@));
                }
                return (Err(Error::Communication(text)), kept);
            },
        };
        let wanted = match sequence_number {
            Some(n) => n == s,
            None => true,
        };
        if wanted && done {
            proof {
                assert(frame_places(kept@) + Seq::<(int, int)>::empty() =~= frame_places(kept@));
            }
            return (Ok(true), kept);
        }
        let step = length as usize;
        assert(step <= total - offset);
        let ghost before = kept@;
        if wanted {
            kept.push((offset, step));
        }
        let next = offset + step;
        proof {
            let here: Seq<(int, int)> = if wanted {
                seq![(offset as int, step as int)]
            } else {
                Seq::empty()
            };
            assert(frame_places(kept@) =~= frame_places(before) + here);
            if next < total {
                let (o, k) = frame_walk(sequence_number, buffer@, next as int);
                assert(frame_walk(sequence_number, buffer@, offset as int) == (o, here + k));
                assert(frame_places(kept@) + k =~= frame_places(before) + (here + k));
            } else {
                assert(frame_places(kept@) + Seq::<(int, int)>::empty() =~= frame_places(before) + here);
            }
        }
        if next == total {
            return (Ok(false), kept);
        }
        offset = next;
    }
}

/// The bytes of `buffer` from `offset` on.
fn slice_from(buffer: &[u8], offset: usize) -> (r: &[u8])
    requires
        offset <= buffer@.len(),
    ensures
        r@ == buffer@.skip(offset as int),
{
    let (_, rest) = buffer.split_at(offset);
    rest
}

} // verus!
