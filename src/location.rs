//! A position in a track: a group and an object within it.

use crate::coding::{decoded, DecodeError};
use crate::varint::{
    decode_varint, encode_varint, lemma_varint_round_trip, parse_varint, varint_bytes,
    VARINT_LIMIT,
};
use vstd::prelude::*;

verus! {

/// A group and an object within it.
#[derive(Debug, Clone, Copy, PartialEq, Eq, Structural)]
pub struct Location {
    pub group: u64,
    pub object: u64,
}

impl View for Location {
    type V = Location;

    open spec fn view(&self) -> Location {
        *self
    }
}

/// A Location that can be encoded.
pub open spec fn location_wf(m: Location) -> bool {
    m.group < VARINT_LIMIT && m.object < VARINT_LIMIT
}

pub open spec fn location_bytes(m: Location) -> Seq<u8> {
    varint_bytes(m.group) + varint_bytes(m.object)
}

#[verifier::opaque]
pub open spec fn parse_location(s: Seq<u8>) -> Result<(Location, int), DecodeError> {
    match parse_varint(s) {
        Err(e) => Err(e),
        Ok((group, n1)) => {
            let s2 = s.skip(n1);
            match parse_varint(s2) {
                Err(e) => Err(e),
                Ok((object, n2)) => {
                    Ok((Location { group, object }, n1 + n2))
                },
            }
        },
    }
}

/// Decoding the encoding of a Location gives it back.
pub proof fn lemma_location_round_trip(m: Location, rest: Seq<u8>)
    requires
        location_wf(m),
    ensures
        parse_location(location_bytes(m) + rest) == Ok::<(Location, int), DecodeError>(
            (m, location_bytes(m).len() as int),
        ),
{
    reveal(parse_location);
    let b1 = varint_bytes(m.group);
    let b2 = varint_bytes(m.object);
    let t3 = rest;
    let t2 = b2 + t3;
    let t1 = b1 + t2;
    assert(location_bytes(m) + rest =~= t1);
    lemma_varint_round_trip(m.group, t2);
    assert(t1.skip(b1.len() as int) =~= t2);
    lemma_varint_round_trip(m.object, t3);
}

impl Location {
    pub fn encode(&self, w: &mut Vec<u8>)
        requires
            location_wf(self@),
        ensures
            final(w)@ == old(w)@ + location_bytes(self@),
    {
        encode_varint(self.group, w);
        encode_varint(self.object, w);
        assert(final(w)@ =~= old(w)@ + location_bytes(self@));
    }

    pub fn decode(buf: &[u8], pos: usize) -> (r: Result<(Location, usize), DecodeError>)
        requires
            pos <= buf@.len(),
        ensures
            decoded(r, pos, parse_location(buf@.skip(pos as int))),
            r matches Ok((_, p)) ==> pos <= p <= buf@.len(),
    {
        proof {
            reveal(parse_location);
        }
        let (group, p1) = match decode_varint(buf, pos) {
            Ok(x) => x,
            Err(e) => return Err(e),
        };
        assert(buf@.skip(p1 as int) =~= buf@.skip(pos as int).skip(p1 - pos));
        let (object, p2) = match decode_varint(buf, p1) {
            Ok(x) => x,
            Err(e) => return Err(e),
        };
        Ok((Location { group, object }, p2))
    }
}

} // verus!
