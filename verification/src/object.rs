//! Binary object codec: variable-length integers in the QUIC style, the
//! object status enumeration and the object header, with encode and decode
//! proved inverse of each other.

use vstd::prelude::*;

use crate::varint::{
    decode_varint, encode_varint, lemma_varint_bytes_len, lemma_varint_decode_concat,
    varint_bytes, varint_decode, VARINT_MAX,
};

verus! {

/// Error returned when decoding runs out of bytes or meets a status code
/// outside the protocol's set.
#[derive(Clone, Copy, Debug, PartialEq, Eq, Structural)]
pub enum DecodeError {
    /// The buffer ends before the field is complete.
    UnexpectedEnd,
    /// The object status field holds a code outside {0, 1, 3, 4, 5}.
    InvalidObjectStatus,
}

/// Error returned when a value does not fit the variable-length encoding.
#[derive(Clone, Copy, Debug, PartialEq, Eq, Structural)]
pub enum EncodeError {
    /// The value is at or above 2^62 and has no variable-length form.
    BoundsExceeded,
}

/// Marker or payload role of one object on the wire.
#[derive(Clone, Copy, Debug, PartialEq, Eq, Structural)]
pub enum ObjectStatus {
    Object,
    ObjectDoesNotExist,
    EndOfGroup,
    EndOfTrack,
    EndOfSubgroup,
}

impl ObjectStatus {
    /// The fixed wire code of each status. Code 2 is reserved and never used.
    pub open spec fn spec_code(self) -> u64 {
        match self {
            ObjectStatus::Object => 0,
            ObjectStatus::ObjectDoesNotExist => 1,
            ObjectStatus::EndOfGroup => 3,
            ObjectStatus::EndOfTrack => 4,
            ObjectStatus::EndOfSubgroup => 5,
        }
    }

    /// Executable wire code.
    pub fn code(&self) -> (c: u64)
        ensures
            c == self.spec_code(),
    {
        match self {
            ObjectStatus::Object => 0,
            ObjectStatus::ObjectDoesNotExist => 1,
            ObjectStatus::EndOfGroup => 3,
            ObjectStatus::EndOfTrack => 4,
            ObjectStatus::EndOfSubgroup => 5,
        }
    }
}

/// Whether a wire code denotes a status: exactly {0, 1, 3, 4, 5}.
pub open spec fn valid_status_code(c: u64) -> bool {
    c == 0 || c == 1 || c == 3 || c == 4 || c == 5
}

/// The status denoted by a valid wire code.
pub open spec fn status_of_code(c: u64) -> ObjectStatus
    recommends
        valid_status_code(c),
{
    if c == 0 {
        ObjectStatus::Object
    } else if c == 1 {
        ObjectStatus::ObjectDoesNotExist
    } else if c == 3 {
        ObjectStatus::EndOfGroup
    } else if c == 4 {
        ObjectStatus::EndOfTrack
    } else {
        ObjectStatus::EndOfSubgroup
    }
}

/// What decoding a status field reads at `pos`: a status and the position
/// just past it, `UnexpectedEnd` on a truncated field, `InvalidObjectStatus`
/// on any code outside {0, 1, 3, 4, 5}.
pub open spec fn status_decode(s: Seq<u8>, pos: int) -> Result<(ObjectStatus, int), DecodeError> {
    match varint_decode(s, pos) {
        Option::None => Err(DecodeError::UnexpectedEnd),
        Option::Some((c, p)) => if valid_status_code(c) {
            Ok((status_of_code(c), p))
        } else {
            Err(DecodeError::InvalidObjectStatus)
        },
    }
}

impl ObjectStatus {
    /// Appends the status's wire code, as a variable-length integer, to `w`.
    pub fn encode(&self, w: &mut Vec<u8>) -> (r: Result<(), EncodeError>)
        ensures
            r is Ok,
            final(w)@ == old(w)@ + varint_bytes(self.spec_code()),
    {
        let c = self.code();
        encode_varint(c, w)
    }

    /// Reads one status field from `buf` at `pos`.
    pub fn decode(buf: &[u8], pos: usize) -> (r: Result<(ObjectStatus, usize), DecodeError>)
        ensures
            status_decode(buf@, pos as int) is Ok ==> r is Ok && r->Ok_0.0 == status_decode(
                buf@,
                pos as int,
            )->Ok_0.0 && r->Ok_0.1 == status_decode(buf@, pos as int)->Ok_0.1,
            status_decode(buf@, pos as int) is Err ==> r is Err && r->Err_0 == status_decode(
                buf@,
                pos as int,
            )->Err_0,
    {
        let (c, p) = match decode_varint(buf, pos) {
            Ok(v) => v,
            Err(e) => {
                return Err(e);
            },
        };
        let status = if c == 0 {
            ObjectStatus::Object
        } else if c == 1 {
            ObjectStatus::ObjectDoesNotExist
        } else if c == 3 {
            ObjectStatus::EndOfGroup
        } else if c == 4 {
            ObjectStatus::EndOfTrack
        } else if c == 5 {
            ObjectStatus::EndOfSubgroup
        } else {
            return Err(DecodeError::InvalidObjectStatus);
        };
        Ok((status, p))
    }
}

/// One addressable chunk's identity on the wire: its session-scoped ids, its
/// place within the track, its send priority and its status.
#[derive(Clone, Copy, Debug, PartialEq, Eq, Structural)]
pub struct ObjectHeader {
    /// The subscribe ID.
    pub subscribe_id: u64,
    /// The track alias.
    pub track_alias: u64,
    /// The sequence number within the track.
    pub group_id: u64,
    /// The sequence number within the group.
    pub object_id: u64,
    /// Publisher priority: smaller values are sent first.
    pub publisher_priority: u8,
    /// The object status.
    pub object_status: ObjectStatus,
}

/// What decoding a header reads at `pos`: the six fields in wire order, or
/// the first error met.
pub open spec fn header_decode(s: Seq<u8>, pos: int) -> Result<(ObjectHeader, int), DecodeError> {
    match varint_decode(s, pos) {
        Option::None => Err(DecodeError::UnexpectedEnd),
        Option::Some((subscribe_id, p1)) => match varint_decode(s, p1) {
            Option::None => Err(DecodeError::UnexpectedEnd),
            Option::Some((track_alias, p2)) => match varint_decode(s, p2) {
                Option::None => Err(DecodeError::UnexpectedEnd),
                Option::Some((group_id, p3)) => match varint_decode(s, p3) {
                    Option::None => Err(DecodeError::UnexpectedEnd),
                    Option::Some((object_id, p4)) => if p4 >= s.len() {
                        Err(DecodeError::UnexpectedEnd)
                    } else {
                        match status_decode(s, p4 + 1) {
                            Err(e) => Err(e),
                            Ok((object_status, p5)) => Ok(
                                (
                                    ObjectHeader {
                                        subscribe_id,
                                        track_alias,
                                        group_id,
                                        object_id,
                                        publisher_priority: s[p4],
                                        object_status,
                                    },
                                    p5,
                                ),
                            ),
                        }
                    },
                },
            },
        },
    }
}

/// Where the status field starts, when the five fields before it decode.
pub open spec fn status_field_pos(s: Seq<u8>, pos: int) -> Option<int> {
    match varint_decode(s, pos) {
        Option::None => Option::None,
        Option::Some((_, p1)) => match varint_decode(s, p1) {
            Option::None => Option::None,
            Option::Some((_, p2)) => match varint_decode(s, p2) {
                Option::None => Option::None,
                Option::Some((_, p3)) => match varint_decode(s, p3) {
                    Option::None => Option::None,
                    Option::Some((_, p4)) => if p4 < s.len() {
                        Option::Some(p4 + 1)
                    } else {
                        Option::None
                    },
                },
            },
        },
    }
}

impl ObjectHeader {
    /// All variable-length fields fit the wire encoding.
    pub open spec fn encodable(self) -> bool {
        self.subscribe_id <= VARINT_MAX && self.track_alias <= VARINT_MAX && self.group_id
            <= VARINT_MAX && self.object_id <= VARINT_MAX
    }

    /// The full wire image of the header.
    pub open spec fn spec_bytes(self) -> Seq<u8>
        recommends
            self.encodable(),
    {
        varint_bytes(self.subscribe_id) + varint_bytes(self.track_alias) + varint_bytes(
            self.group_id,
        ) + varint_bytes(self.object_id) + seq![self.publisher_priority] + varint_bytes(
            self.object_status.spec_code(),
        )
    }

    /// Appends the header's wire image to `w`; rejects a header whose fields
    /// do not fit, writing nothing.
    pub fn encode(&self, w: &mut Vec<u8>) -> (r: Result<(), EncodeError>)
        ensures
            self.encodable() ==> r is Ok && final(w)@ == old(w)@ + self.spec_bytes(),
            !self.encodable() ==> r == Err::<(), EncodeError>(EncodeError::BoundsExceeded)
                && final(w)@ == old(w)@,
    {
        if self.subscribe_id > VARINT_MAX || self.track_alias > VARINT_MAX || self.group_id
            > VARINT_MAX || self.object_id > VARINT_MAX {
            return Err(EncodeError::BoundsExceeded);
        }
        match encode_varint(self.subscribe_id, w) {
            Ok(()) => (),
            Err(e) => {
                return Err(e);
            },
        }
        match encode_varint(self.track_alias, w) {
            Ok(()) => (),
            Err(e) => {
                return Err(e);
            },
        }
        match encode_varint(self.group_id, w) {
            Ok(()) => (),
            Err(e) => {
                return Err(e);
            },
        }
        match encode_varint(self.object_id, w) {
            Ok(()) => (),
            Err(e) => {
                return Err(e);
            },
        }
        w.push(self.publisher_priority);
        match self.object_status.encode(w) {
            Ok(()) => (),
            Err(e) => {
                return Err(e);
            },
        }
        proof {
            assert(w@ =~= old(w)@ + self.spec_bytes());
        }
        Ok(())
    }

    /// Reads one header from `buf` at `pos`.
    pub fn decode(buf: &[u8], pos: usize) -> (r: Result<(ObjectHeader, usize), DecodeError>)
        ensures
            header_decode(buf@, pos as int) is Ok ==> r is Ok && r->Ok_0.0 == header_decode(
                buf@,
                pos as int,
            )->Ok_0.0 && r->Ok_0.1 == header_decode(buf@, pos as int)->Ok_0.1,
            header_decode(buf@, pos as int) is Err ==> r is Err && r->Err_0 == header_decode(
                buf@,
                pos as int,
            )->Err_0,
    {
        let (subscribe_id, p1) = match decode_varint(buf, pos) {
            Ok(v) => v,
            Err(e) => {
                return Err(e);
            },
        };
        let (track_alias, p2) = match decode_varint(buf, p1) {
            Ok(v) => v,
            Err(e) => {
                return Err(e);
            },
        };
        let (group_id, p3) = match decode_varint(buf, p2) {
            Ok(v) => v,
            Err(e) => {
                return Err(e);
            },
        };
        let (object_id, p4) = match decode_varint(buf, p3) {
            Ok(v) => v,
            Err(e) => {
                return Err(e);
            },
        };
        if p4 >= buf.len() {
            return Err(DecodeError::UnexpectedEnd);
        }
        let publisher_priority = buf[p4];
        let (object_status, p5) = match ObjectStatus::decode(buf, p4 + 1) {
            Ok(v) => v,
            Err(e) => {
                return Err(e);
            },
        };
        Ok(
            (
                ObjectHeader {
                    subscribe_id,
                    track_alias,
                    group_id,
                    object_id,
                    publisher_priority,
                    object_status,
                },
                p5,
            ),
        )
    }
}

/// Round-trip for a bare status field: decoding its encoding yields the
/// status back and consumes exactly its bytes.
pub proof fn lemma_status_round_trip(st: ObjectStatus)
    ensures
        status_decode(varint_bytes(st.spec_code()), 0) == Ok::<(ObjectStatus, int), DecodeError>(
            (st, varint_bytes(st.spec_code()).len() as int),
        ),
{
    let c = st.spec_code();
    lemma_varint_bytes_len(c);
    assert(varint_bytes(c) =~= Seq::<u8>::empty() + varint_bytes(c) + Seq::<u8>::empty());
    lemma_varint_decode_concat(varint_bytes(c), Seq::<u8>::empty(), c, Seq::<u8>::empty());
}

/// Round-trip: decoding the wire image of any encodable header yields the
/// header itself, bit for bit, and consumes exactly its bytes.
#[verifier::rlimit(100)]
#[verifier::spinoff_prover]
pub proof fn lemma_header_round_trip(h: ObjectHeader)
    requires
        h.encodable(),
    ensures
        header_decode(h.spec_bytes(), 0) == Ok::<(ObjectHeader, int), DecodeError>(
            (h, h.spec_bytes().len() as int),
        ),
{
    let s = h.spec_bytes();
    let c = h.object_status.spec_code();
    let a = varint_bytes(h.subscribe_id);
    let b = varint_bytes(h.track_alias);
    let g = varint_bytes(h.group_id);
    let o = varint_bytes(h.object_id);
    let e = seq![h.publisher_priority];
    let f = varint_bytes(c);
    lemma_varint_bytes_len(h.subscribe_id);
    lemma_varint_bytes_len(h.track_alias);
    lemma_varint_bytes_len(h.group_id);
    lemma_varint_bytes_len(h.object_id);
    lemma_varint_bytes_len(c);
    let p1 = a.len() as int;
    let p2 = p1 + b.len();
    let p3 = p2 + g.len();
    let p4 = p3 + o.len();
    let p5 = p4 + 1;
    let p6 = p5 + f.len();
    assert(varint_decode(s, 0) == Some((h.subscribe_id, p1))) by {
        assert(s =~= Seq::<u8>::empty() + a + (b + g + o + e + f));
        lemma_varint_decode_concat(s, Seq::<u8>::empty(), h.subscribe_id, b + g + o + e + f);
    }
    assert(varint_decode(s, p1) == Some((h.track_alias, p2))) by {
        assert(s =~= a + b + (g + o + e + f));
        lemma_varint_decode_concat(s, a, h.track_alias, g + o + e + f);
    }
    assert(varint_decode(s, p2) == Some((h.group_id, p3))) by {
        assert(s =~= (a + b) + g + (o + e + f));
        lemma_varint_decode_concat(s, a + b, h.group_id, o + e + f);
    }
    assert(varint_decode(s, p3) == Some((h.object_id, p4))) by {
        assert(s =~= (a + b + g) + o + (e + f));
        lemma_varint_decode_concat(s, a + b + g, h.object_id, e + f);
    }
    assert(p4 < s.len() && s[p4] == h.publisher_priority) by {
        assert(s =~= (a + b + g + o) + (e + f));
        assert(s[p4] == (e + f)[0]);
    }
    assert(varint_decode(s, p5) == Some((c, p6))) by {
        assert(s =~= (a + b + g + o + e) + f + Seq::<u8>::empty());
        lemma_varint_decode_concat(s, a + b + g + o + e, c, Seq::<u8>::empty());
    }
    assert(valid_status_code(c));
    assert(status_of_code(c) == h.object_status);
    assert(s.len() == p6);
}

/// Invalid status rejection: wherever the five leading fields decode and the
/// status field holds a code outside {0, 1, 3, 4, 5}, the whole header is
/// rejected with `InvalidObjectStatus`.
pub proof fn lemma_invalid_status_rejected(s: Seq<u8>, pos: int)
    requires
        status_field_pos(s, pos) is Some,
        varint_decode(s, status_field_pos(s, pos)->Some_0) is Some,
        !valid_status_code(varint_decode(s, status_field_pos(s, pos)->Some_0)->Some_0.0),
    ensures
        header_decode(s, pos) == Err::<(ObjectHeader, int), DecodeError>(
            DecodeError::InvalidObjectStatus,
        ),
{
}

} // verus!
