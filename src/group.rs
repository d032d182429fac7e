//! Data streams: group order, the group header that opens each stream, and
//! the header of each object (frame) on it.

use crate::coding::{
    copy_range, decode_u8, decoded, encode_u8, lemma_u8_round_trip, parse_u8, DecodeError,
};
use crate::varint::{
    decode_varint, encode_varint, lemma_varint_bound, lemma_varint_round_trip, lemma_varint_zero,
    parse_varint, varint_bytes, VARINT_LIMIT,
};
use vstd::prelude::*;

verus! {

/// The only subgroup id in use.
pub const SUBGROUP_ID: u8 = 0;

#[derive(Debug, Clone, Copy, PartialEq, Eq, Structural)]
pub enum GroupOrder {
    Ascending,
    Descending,
}

impl View for GroupOrder {
    type V = GroupOrder;

    open spec fn view(&self) -> GroupOrder {
        *self
    }
}

pub open spec fn group_order_code(g: GroupOrder) -> u8 {
    match g {
        GroupOrder::Ascending => 1,
        GroupOrder::Descending => 2,
    }
}

pub open spec fn group_order_bytes(g: GroupOrder) -> Seq<u8> {
    seq![group_order_code(g)]
}

/// One byte: 1 for ascending, 2 for descending.
pub open spec fn parse_group_order(s: Seq<u8>) -> Result<(GroupOrder, int), DecodeError> {
    match parse_u8(s) {
        Err(e) => Err(e),
        Ok((b, n)) => if b == 1 {
            Ok((GroupOrder::Ascending, n))
        } else if b == 2 {
            Ok((GroupOrder::Descending, n))
        } else {
            Err(DecodeError::InvalidValue)
        },
    }
}

pub proof fn lemma_group_order_round_trip(g: GroupOrder, rest: Seq<u8>)
    ensures
        parse_group_order(group_order_bytes(g) + rest) == Ok::<(GroupOrder, int), DecodeError>(
            (g, 1),
        ),
{
    lemma_u8_round_trip(group_order_code(g), rest);
}

impl GroupOrder {
    pub fn encode(&self, w: &mut Vec<u8>)
        ensures
            final(w)@ == old(w)@ + group_order_bytes(*self),
    {
        match self {
            GroupOrder::Ascending => encode_u8(1, w),
            GroupOrder::Descending => encode_u8(2, w),
        }
    }

    pub fn decode(buf: &[u8], pos: usize) -> (r: Result<(GroupOrder, usize), DecodeError>)
        requires
            pos <= buf@.len(),
        ensures
            decoded(r, pos, parse_group_order(buf@.skip(pos as int))),
            r matches Ok((_, p)) ==> pos <= p <= buf@.len(),
    {
        let (b, p) = match decode_u8(buf, pos) {
            Ok(x) => x,
            Err(e) => return Err(e),
        };
        if b == 1 {
            Ok((GroupOrder::Ascending, p))
        } else if b == 2 {
            Ok((GroupOrder::Descending, p))
        } else {
            Err(DecodeError::InvalidValue)
        }
    }
}

/// The flags carried in the type id of a group stream.
#[derive(Debug, Clone, Copy, PartialEq, Eq, Structural)]
pub struct GroupFlags {
    /// Each object carries extensions.
    pub has_extensions: bool,
    /// The header carries an explicit subgroup id.
    pub has_subgroup: bool,
    /// The first object id doubles as the subgroup id; excludes `has_subgroup`.
    pub has_subgroup_object: bool,
    /// The stream's end marks the end of the group; without it an object
    /// status marks it.
    pub has_end: bool,
}

/// The first type id of a group stream.
pub const GROUP_START: u64 = 0x10;
/// The last type id of a group stream.
pub const GROUP_END: u64 = 0x1d;

pub open spec fn bit(b: bool, v: u64) -> u64 {
    if b {
        v
    } else {
        0
    }
}

/// The type id that announces these flags.
pub open spec fn flags_id(f: GroupFlags) -> u64 {
    (GROUP_START + bit(f.has_extensions, 1) + bit(f.has_subgroup, 2) + bit(f.has_subgroup_object, 4)
        + bit(f.has_end, 8)) as u64
}

/// Flags that can be announced: not both kinds of subgroup.
pub open spec fn flags_wf(f: GroupFlags) -> bool {
    !(f.has_subgroup && f.has_subgroup_object)
}

/// The flags of a type id: it must lie in `GROUP_START..=GROUP_END` and not
/// announce both kinds of subgroup.
pub open spec fn flags_of(id: u64) -> Result<GroupFlags, DecodeError> {
    if id < GROUP_START || id > GROUP_END {
        Err(DecodeError::InvalidValue)
    } else {
        let f = GroupFlags {
            has_extensions: id % 2 == 1,
            has_subgroup: (id / 2) % 2 == 1,
            has_subgroup_object: (id / 4) % 2 == 1,
            has_end: (id / 8) % 2 == 1,
        };
        if f.has_subgroup && f.has_subgroup_object {
            Err(DecodeError::InvalidValue)
        } else {
            Ok(f)
        }
    }
}

impl GroupFlags {
    pub const START: u64 = GROUP_START;
    pub const END: u64 = GROUP_END;

    /// The type id of a stream with these flags.
    pub fn encode(&self) -> (r: u64)
        requires
            flags_wf(*self),
        ensures
            r == flags_id(*self),
            GROUP_START <= r <= GROUP_END,
    {
        let mut id: u64 = GROUP_START;
        if self.has_extensions {
            id = id + 1;
        }
        if self.has_subgroup {
            id = id + 2;
        }
        if self.has_subgroup_object {
            id = id + 4;
        }
        if self.has_end {
            id = id + 8;
        }
        id
    }

    /// The flags of a stream type id; see `flags_of`.
    pub fn decode(id: u64) -> (r: Result<GroupFlags, DecodeError>)
        ensures
            r == flags_of(id),
    {
        if id < GROUP_START || id > GROUP_END {
            return Err(DecodeError::InvalidValue);
        }
        let has_extensions = id % 2 == 1;
        let has_subgroup = (id / 2) % 2 == 1;
        let has_subgroup_object = (id / 4) % 2 == 1;
        let has_end = (id / 8) % 2 == 1;
        if has_subgroup && has_subgroup_object {
            return Err(DecodeError::InvalidValue);
        }
        Ok(GroupFlags { has_extensions, has_subgroup, has_subgroup_object, has_end })
    }
}

/// No extensions, no subgroups, an explicit end.
impl Default for GroupFlags {
    fn default() -> (r: GroupFlags)
        ensures
            r == (GroupFlags {
                has_extensions: false,
                has_subgroup: false,
                has_subgroup_object: false,
                has_end: true,
            }),
    {
        GroupFlags {
            has_extensions: false,
            has_subgroup: false,
            has_subgroup_object: false,
            has_end: true,
        }
    }
}

/// Announcing flags and reading them back gives the same flags, and every
/// type id accepted is announced by the flags read from it.
pub proof fn lemma_flags_round_trip(f: GroupFlags, id: u64)
    ensures
        flags_wf(f) ==> flags_of(flags_id(f)) == Ok::<GroupFlags, DecodeError>(f),
        flags_of(id) is Ok ==> flags_wf(flags_of(id)->Ok_0) && flags_id(flags_of(id)->Ok_0) == id,
{
}

/// A type id outside the group range, or one announcing both kinds of
/// subgroup, is an invalid value.
pub proof fn lemma_flags_rejected(id: u64)
    ensures
        id < GROUP_START || id > GROUP_END ==> flags_of(id) == Err::<GroupFlags, DecodeError>(
            DecodeError::InvalidValue,
        ),
        GROUP_START <= id <= GROUP_END && (id / 2) % 2 == 1 && (id / 4) % 2 == 1 ==> flags_of(id)
            == Err::<GroupFlags, DecodeError>(DecodeError::InvalidValue),
{
}

/// The header that opens a group stream.
#[derive(Debug, Clone, Copy, PartialEq, Eq, Structural)]
pub struct GroupHeader {
    pub track_alias: u64,
    pub group_id: u64,
    pub flags: GroupFlags,
}

impl View for GroupHeader {
    type V = GroupHeader;

    open spec fn view(&self) -> GroupHeader {
        *self
    }
}

pub open spec fn group_header_wf(h: GroupHeader) -> bool {
    &&& flags_wf(h.flags)
    &&& h.track_alias < VARINT_LIMIT
    &&& h.group_id < VARINT_LIMIT
}

/// The type id, the track alias, the group id, the subgroup id when the
/// flags call for one, and a publisher priority of zero.
pub open spec fn group_header_bytes(h: GroupHeader) -> Seq<u8> {
    varint_bytes(flags_id(h.flags)) + varint_bytes(h.track_alias) + varint_bytes(h.group_id) + (
    if h.flags.has_subgroup {
        seq![SUBGROUP_ID]
    } else {
        Seq::empty()
    }) + seq![0u8]
}

pub open spec fn parse_group_header(s: Seq<u8>) -> Result<(GroupHeader, int), DecodeError> {
    match parse_varint(s) {
        Err(e) => Err(e),
        Ok((id, n1)) => match flags_of(id) {
            Err(e) => Err(e),
            Ok(flags) => {
                let s2 = s.skip(n1);
                match parse_varint(s2) {
                    Err(e) => Err(e),
                    Ok((track_alias, n2)) => {
                        let s3 = s2.skip(n2);
                        match parse_varint(s3) {
                            Err(e) => Err(e),
                            Ok((group_id, n3)) => {
                                let s4 = s3.skip(n3);
                                let sub: Result<int, DecodeError> = if flags.has_subgroup {
                                    match parse_u8(s4) {
                                        Err(e) => Err(e),
                                        Ok((b, n)) => if b != SUBGROUP_ID {
                                            Err(DecodeError::Unsupported)
                                        } else {
                                            Ok(n)
                                        },
                                    }
                                } else {
                                    Ok(0)
                                };
                                match sub {
                                    Err(e) => Err(e),
                                    Ok(n4) => match parse_u8(s4.skip(n4)) {
                                        Err(e) => Err(e),
                                        Ok((_, n5)) => Ok(
                                            (
                                                GroupHeader { track_alias, group_id, flags },
                                                n1 + n2 + n3 + n4 + n5,
                                            ),
                                        ),
                                    },
                                }
                            },
                        }
                    },
                }
            },
        },
    }
}

pub proof fn lemma_group_header_round_trip(h: GroupHeader, rest: Seq<u8>)
    requires
        group_header_wf(h),
    ensures
        parse_group_header(group_header_bytes(h) + rest) == Ok::<(GroupHeader, int), DecodeError>(
            (h, group_header_bytes(h).len() as int),
        ),
{
    let b1 = varint_bytes(flags_id(h.flags));
    let b2 = varint_bytes(h.track_alias);
    let b3 = varint_bytes(h.group_id);
    let b4: Seq<u8> = if h.flags.has_subgroup {
        seq![SUBGROUP_ID]
    } else {
        Seq::empty()
    };
    let b5 = seq![0u8];
    let t5 = b5 + rest;
    let t4 = b4 + t5;
    let t3 = b3 + t4;
    let t2 = b2 + t3;
    let t1 = b1 + t2;
    assert(group_header_bytes(h) + rest =~= t1);
    lemma_flags_round_trip(h.flags, 0);
    lemma_varint_round_trip(flags_id(h.flags), t2);
    lemma_varint_round_trip(h.track_alias, t3);
    lemma_varint_round_trip(h.group_id, t4);
    lemma_u8_round_trip(0u8, rest);
    assert(t1.skip(b1.len() as int) =~= t2);
    assert(t2.skip(b2.len() as int) =~= t3);
    assert(t3.skip(b3.len() as int) =~= t4);
    assert(t4.skip(b4.len() as int) =~= t5);
    if h.flags.has_subgroup {
        lemma_u8_round_trip(SUBGROUP_ID, t5);
    }
}

impl GroupHeader {
    pub fn encode(&self, w: &mut Vec<u8>)
        requires
            group_header_wf(*self),
        ensures
            final(w)@ == old(w)@ + group_header_bytes(*self),
    {
        let id = self.flags.encode();
        encode_varint(id, w);
        encode_varint(self.track_alias, w);
        encode_varint(self.group_id, w);
        if self.flags.has_subgroup {
            encode_u8(SUBGROUP_ID, w);
        }
        encode_u8(0, w);
        assert(final(w)@ =~= old(w)@ + group_header_bytes(*self));
    }

    pub fn decode(buf: &[u8], pos: usize) -> (r: Result<(GroupHeader, usize), DecodeError>)
        requires
            pos <= buf@.len(),
        ensures
            decoded(r, pos, parse_group_header(buf@.skip(pos as int))),
    {
        let ghost s = buf@.skip(pos as int);
        let (id, p1) = match decode_varint(buf, pos) {
            Ok(x) => x,
            Err(e) => return Err(e),
        };
        let flags = match GroupFlags::decode(id) {
            Ok(f) => f,
            Err(e) => return Err(e),
        };
        assert(buf@.skip(p1 as int) =~= s.skip(p1 - pos));
        let (track_alias, p2) = match decode_varint(buf, p1) {
            Ok(x) => x,
            Err(e) => return Err(e),
        };
        assert(buf@.skip(p2 as int) =~= s.skip(p1 - pos).skip(p2 - p1));
        let (group_id, p3) = match decode_varint(buf, p2) {
            Ok(x) => x,
            Err(e) => return Err(e),
        };
        let ghost s4 = s.skip(p1 - pos).skip(p2 - p1).skip(p3 - p2);
        assert(buf@.skip(p3 as int) =~= s4);
        let mut p4 = p3;
        if flags.has_subgroup {
            let (sub, q) = match decode_u8(buf, p3) {
                Ok(x) => x,
                Err(e) => return Err(e),
            };
            if sub != SUBGROUP_ID {
                return Err(DecodeError::Unsupported);
            }
            p4 = q;
        }
        assert(buf@.skip(p4 as int) =~= s4.skip(p4 - p3));
        let (_, p5) = match decode_u8(buf, p4) {
            Ok(x) => x,
            Err(e) => return Err(e),
        };
        Ok((GroupHeader { track_alias, group_id, flags }, p5))
    }
}

/// The object status that ends a group when the stream does not.
pub const END_OF_GROUP: u64 = 3;

/// What the header of an object announces.
#[derive(Debug, Clone, Copy, PartialEq, Eq, Structural)]
pub enum ObjectHeader {
    /// A frame of this many bytes follows.
    Frame(u64),
    /// An empty frame.
    Empty,
    /// The group is over.
    EndOfGroup,
}

impl View for ObjectHeader {
    type V = ObjectHeader;

    open spec fn view(&self) -> ObjectHeader {
        *self
    }
}

/// An object header on a stream with these flags: a zero id delta, the
/// extensions' length when the flags call for them, and the payload size;
/// a zero size is followed by a status, 0 for an empty frame and 3 for the
/// end of the group (only without an explicit end).
pub open spec fn parse_object_header(flags: GroupFlags, s: Seq<u8>) -> Result<
    (ObjectHeader, int),
    DecodeError,
> {
    match parse_varint(s) {
        Err(e) => Err(e),
        Ok((delta, n1)) => if delta != 0 {
            Err(DecodeError::Unsupported)
        } else {
            let s2 = s.skip(n1);
            let ext: Result<int, DecodeError> = if flags.has_extensions {
                match parse_varint(s2) {
                    Err(e) => Err(e),
                    Ok((len, n)) => if s2.len() - n < len {
                        Err(DecodeError::Short)
                    } else {
                        Ok(n + len)
                    },
                }
            } else {
                Ok(0)
            };
            match ext {
                Err(e) => Err(e),
                Ok(n2) => {
                    let s3 = s2.skip(n2);
                    match parse_varint(s3) {
                        Err(e) => Err(e),
                        Ok((size, n3)) => if size != 0 {
                            Ok((ObjectHeader::Frame(size), n1 + n2 + n3))
                        } else {
                            match parse_varint(s3.skip(n3)) {
                                Err(e) => Err(e),
                                Ok((status, n4)) => if status == 0 {
                                    Ok((ObjectHeader::Empty, n1 + n2 + n3 + n4))
                                } else if status == END_OF_GROUP && !flags.has_end {
                                    Ok((ObjectHeader::EndOfGroup, n1 + n2 + n3 + n4))
                                } else {
                                    Err(DecodeError::Unsupported)
                                },
                            }
                        },
                    }
                },
            }
        },
    }
}

/// The header a publisher writes before a frame of `size` bytes.
pub open spec fn object_header_bytes(flags: GroupFlags, size: u64) -> Seq<u8> {
    seq![0u8] + (if flags.has_extensions {
        seq![0u8]
    } else {
        Seq::empty()
    }) + varint_bytes(size) + (if size == 0 {
        seq![0u8]
    } else {
        Seq::empty()
    })
}

/// Writes the header of a frame of `size` bytes; an empty frame gets an
/// explicit status.
pub fn encode_object_header(flags: GroupFlags, size: u64, w: &mut Vec<u8>)
    requires
        size < VARINT_LIMIT,
    ensures
        final(w)@ == old(w)@ + object_header_bytes(flags, size),
{
    encode_u8(0, w);
    if flags.has_extensions {
        encode_u8(0, w);
    }
    encode_varint(size, w);
    if size == 0 {
        encode_u8(0, w);
    }
    assert(final(w)@ =~= old(w)@ + object_header_bytes(flags, size));
}

/// The header a publisher writes reads back as the frame it announced.
pub proof fn lemma_object_header_round_trip(flags: GroupFlags, size: u64, rest: Seq<u8>)
    requires
        size < VARINT_LIMIT,
    ensures
        parse_object_header(flags, object_header_bytes(flags, size) + rest) == Ok::<
            (ObjectHeader, int),
            DecodeError,
        >(
            (
                if size == 0 {
                    ObjectHeader::Empty
                } else {
                    ObjectHeader::Frame(size)
                },
                object_header_bytes(flags, size).len() as int,
            ),
        ),
{
    let b1 = seq![0u8];
    let b2: Seq<u8> = if flags.has_extensions {
        seq![0u8]
    } else {
        Seq::empty()
    };
    let b3 = varint_bytes(size);
    let b4: Seq<u8> = if size == 0 {
        seq![0u8]
    } else {
        Seq::empty()
    };
    let t4 = b4 + rest;
    let t3 = b3 + t4;
    let t2 = b2 + t3;
    let t1 = b1 + t2;
    assert(object_header_bytes(flags, size) + rest =~= t1);
    lemma_varint_round_trip(0, t2);
    lemma_varint_zero();
    assert(t1.skip(1) =~= t2);
    if flags.has_extensions {
        lemma_varint_round_trip(0, t3);

    }
    assert(t2.skip(b2.len() as int) =~= t3);
    lemma_varint_round_trip(size, t4);
    assert(t3.skip(b3.len() as int) =~= t4);
    if size == 0 {
        lemma_varint_round_trip(0, rest);

    }
}

/// Reads an object header at `pos`; see `parse_object_header`. The
/// extensions are skipped.
#[verifier::rlimit(60)]
pub fn decode_object_header(flags: GroupFlags, buf: &[u8], pos: usize) -> (r: Result<
    (ObjectHeader, usize),
    DecodeError,
>)
    requires
        pos <= buf@.len(),
    ensures
        decoded(r, pos, parse_object_header(flags, buf@.skip(pos as int))),
{
    let ghost s = buf@.skip(pos as int);
    let (delta, p1) = match decode_varint(buf, pos) {
        Ok(x) => x,
        Err(e) => return Err(e),
    };
    if delta != 0 {
        return Err(DecodeError::Unsupported);
    }
    let ghost s2 = s.skip(p1 - pos);
    assert(buf@.skip(p1 as int) =~= s2);
    let mut p2 = p1;
    if flags.has_extensions {
        let (len, q) = match decode_varint(buf, p1) {
            Ok(x) => x,
            Err(e) => return Err(e),
        };
        if ((buf.len() - q) as u64) < len {
            return Err(DecodeError::Short);
        }
        p2 = q + len as usize;
    }
    let ghost s3 = s2.skip(p2 - p1);
    assert(buf@.skip(p2 as int) =~= s3);
    let (size, p3) = match decode_varint(buf, p2) {
        Ok(x) => x,
        Err(e) => return Err(e),
    };
    if size != 0 {
        return Ok((ObjectHeader::Frame(size), p3));
    }
    assert(buf@.skip(p3 as int) =~= s3.skip(p3 - p2));
    let (status, p4) = match decode_varint(buf, p3) {
        Ok(x) => x,
        Err(e) => return Err(e),
    };
    if status == 0 {
        Ok((ObjectHeader::Empty, p4))
    } else if status == END_OF_GROUP && !flags.has_end {
        Ok((ObjectHeader::EndOfGroup, p4))
    } else {
        Err(DecodeError::Unsupported)
    }
}

/// The objects of a group as a publisher writes them: each frame's header,
/// then its payload.
pub open spec fn objects_bytes(flags: GroupFlags, frames: Seq<Seq<u8>>) -> Seq<u8> {
    frames.map_values(|f: Seq<u8>| object_header_bytes(flags, f.len() as u64) + f).flatten()
}

/// The frames of a group stream after its header, up to the end of the
/// stream or an end-of-group status.
pub open spec fn parse_objects(flags: GroupFlags, s: Seq<u8>) -> Result<Seq<Seq<u8>>, DecodeError>
    decreases s.len(),
{
    if s.len() == 0 {
        Ok(Seq::empty())
    } else {
        match parse_object_header(flags, s) {
            Err(e) => Err(e),
            Ok((h, k)) => if k < 1 || k > s.len() {
                Err(DecodeError::Short)
            } else {
                match h {
                    ObjectHeader::EndOfGroup => Ok(Seq::empty()),
                    ObjectHeader::Empty => match parse_objects(flags, s.skip(k)) {
                        Err(e) => Err(e),
                        Ok(fs) => Ok(seq![Seq::empty()] + fs),
                    },
                    ObjectHeader::Frame(n) => if s.len() - k < n {
                        Err(DecodeError::Short)
                    } else {
                        match parse_objects(flags, s.skip(k + n)) {
                            Err(e) => Err(e),
                            Ok(fs) => Ok(seq![s.subrange(k, k + n)] + fs),
                        }
                    },
                }
            },
        }
    }
}

/// An object header takes at least one byte and no more than there are.
pub proof fn lemma_object_header_advances(flags: GroupFlags, s: Seq<u8>)
    requires
        parse_object_header(flags, s) is Ok,
    ensures
        1 <= parse_object_header(flags, s)->Ok_0.1 <= s.len(),
{
    lemma_varint_bound(s);
    let n1 = parse_varint(s)->Ok_0.1;
    let s2 = s.skip(n1);
    let n2: int = if flags.has_extensions {
        lemma_varint_bound(s2);
        parse_varint(s2)->Ok_0.1 + parse_varint(s2)->Ok_0.0
    } else {
        0
    };
    let s3 = s2.skip(n2);
    lemma_varint_bound(s3);
    let n3 = parse_varint(s3)->Ok_0.1;
    if parse_varint(s3)->Ok_0.0 == 0 {
        lemma_varint_bound(s3.skip(n3));
    }
}

/// Every frame a publisher writes reads back, in order and byte for byte.
#[verifier::rlimit(80)]
pub proof fn lemma_no_frame_loss(flags: GroupFlags, frames: Seq<Seq<u8>>)
    requires
        forall|i: int| 0 <= i < frames.len() ==> (#[trigger] frames[i]).len() < VARINT_LIMIT,
    ensures
        parse_objects(flags, objects_bytes(flags, frames)) == Ok::<Seq<Seq<u8>>, DecodeError>(
            frames,
        ),
    decreases frames.len(),
{
    if frames.len() == 0 {
        assert(frames =~= Seq::<Seq<u8>>::empty());
        assert(objects_bytes(flags, frames) =~= Seq::<u8>::empty());
    } else {
        let f = frames[0];
        let t = frames.drop_first();
        assert forall|i: int| 0 <= i < t.len() implies (#[trigger] t[i]).len() < VARINT_LIMIT by {
            assert(t[i] == frames[i + 1]);
        }
        lemma_no_frame_loss(flags, t);
        let m = frames.map_values(|g: Seq<u8>| object_header_bytes(flags, g.len() as u64) + g);
        assert(m.drop_first() =~= t.map_values(
            |g: Seq<u8>| object_header_bytes(flags, g.len() as u64) + g,
        ));
        let h = object_header_bytes(flags, f.len() as u64);
        let tail = objects_bytes(flags, t);
        assert(m.first() == h + f);
        let s = objects_bytes(flags, frames);
        assert(s == (h + f) + tail);
        assert(s =~= h + (f + tail));
        lemma_object_header_round_trip(flags, f.len() as u64, f + tail);
        let k = h.len() as int;
        assert(s.len() > 0) by {
            assert(h.len() >= 1);
        }
        if f.len() == 0 {
            assert(s.skip(k) =~= tail);
            assert(f =~= Seq::<u8>::empty());
        } else {
            assert(s.subrange(k, k + f.len()) =~= f);
            assert(s.skip(k + f.len()) =~= tail);
        }
        assert(seq![f] + t =~= frames);
    }
}

/// Writes a group stream: its header, then each frame with its object
/// header.
pub fn encode_group(header: &GroupHeader, frames: &Vec<Vec<u8>>, w: &mut Vec<u8>)
    requires
        group_header_wf(*header),
        forall|i: int| 0 <= i < frames@.len() ==> (#[trigger] frames@[i])@.len() < VARINT_LIMIT,
    ensures
        final(w)@ == old(w)@ + group_header_bytes(*header) + objects_bytes(
            header.flags,
            frames@.map_values(|f: Vec<u8>| f@),
        ),
{
    header.encode(w);
    let ghost start = w@;
    let ghost fs = frames@.map_values(|f: Vec<u8>| f@);
    let mut i: usize = 0;
    while i < frames.len()
        invariant
            i <= frames@.len(),
            fs == frames@.map_values(|f: Vec<u8>| f@),
            forall|j: int| 0 <= j < frames@.len() ==> (#[trigger] frames@[j])@.len() < VARINT_LIMIT,
            w@ == start + objects_bytes(header.flags, fs.take(i as int)),
        decreases frames@.len() - i,
    {
        let f = &frames[i];
        assert(f@.len() < VARINT_LIMIT);
        encode_object_header(header.flags, f.len() as u64, w);
        crate::coding::append_bytes(w, f.as_slice());
        proof {
            let t = fs.take(i as int);
            let g = fs[i as int];
            assert(g == f@);
            assert(fs.take(i + 1) =~= t.push(g));
            assert(fs.take(i + 1).map_values(
                |x: Seq<u8>| object_header_bytes(header.flags, x.len() as u64) + x,
            ) =~= t.map_values(|x: Seq<u8>| object_header_bytes(header.flags, x.len() as u64) + x).push(
                object_header_bytes(header.flags, g.len() as u64) + g,
            ));
            t.map_values(|x: Seq<u8>| object_header_bytes(header.flags, x.len() as u64) + x).lemma_flatten_push(
                object_header_bytes(header.flags, g.len() as u64) + g,
            );
        }
        i = i + 1;
    }
    assert(fs.take(i as int) =~= fs);
    assert(final(w)@ =~= old(w)@ + group_header_bytes(*header) + objects_bytes(header.flags, fs));
}

/// Reads the frames of a group stream from `pos` to the end of `buf`, or
/// to an end-of-group status; see `parse_objects`.
pub fn decode_objects(flags: GroupFlags, buf: &[u8], pos: usize) -> (r: Result<
    Vec<Vec<u8>>,
    DecodeError,
>)
    requires
        pos <= buf@.len(),
    ensures
        match (r, parse_objects(flags, buf@.skip(pos as int))) {
            (Ok(fs), Ok(gs)) => fs@.map_values(|f: Vec<u8>| f@) == gs,
            (Err(e1), Err(e2)) => e1 == e2,
            _ => false,
        },
{
    let ghost s0 = buf@.skip(pos as int);
    let mut frames: Vec<Vec<u8>> = Vec::new();
    let mut p = pos;
    while p < buf.len()
        invariant
            pos <= p <= buf@.len(),
            s0 == buf@.skip(pos as int),
            parse_objects(flags, s0) == match parse_objects(flags, buf@.skip(p as int)) {
                Ok(gs) => Ok::<Seq<Seq<u8>>, DecodeError>(frames@.map_values(|f: Vec<u8>| f@) + gs),
                Err(e) => Err(e),
            },
        decreases buf@.len() - p,
    {
        let ghost s = buf@.skip(p as int);
        let ghost before = frames@.map_values(|f: Vec<u8>| f@);
        let (h, q) = match decode_object_header(flags, buf, p) {
            Ok(x) => x,
            Err(e) => {
                assert(parse_objects(flags, s) == Err::<Seq<Seq<u8>>, DecodeError>(e));
                return Err(e);
            },
        };
        proof {
            lemma_object_header_advances(flags, s);
        }
        match h {
            ObjectHeader::EndOfGroup => {
                assert(parse_objects(flags, s) == Ok::<Seq<Seq<u8>>, DecodeError>(Seq::empty()));
                assert(before + Seq::<Seq<u8>>::empty() =~= before);
                return Ok(frames);
            },
            ObjectHeader::Empty => {
                assert(buf@.skip(q as int) =~= s.skip(q - p));
                frames.push(Vec::new());
                proof {
                    assert(frames@.map_values(|f: Vec<u8>| f@) =~= before.push(Seq::empty()));
                    assert forall|gs: Seq<Seq<u8>>| before + (seq![Seq::<u8>::empty()] + gs) =~= before.push(
                        Seq::empty(),
                    ) + gs by {}
                }
                p = q;
            },
            ObjectHeader::Frame(n) => {
                if ((buf.len() - q) as u64) < n {
                    assert(parse_objects(flags, s) == Err::<Seq<Seq<u8>>, DecodeError>(
                        DecodeError::Short,
                    ));
                    return Err(DecodeError::Short);
                }
                let end = q + n as usize;
                let payload = copy_range(buf, q, end);
                assert(payload@ =~= s.subrange(q - p, q - p + n));
                assert(buf@.skip(end as int) =~= s.skip(end - p));
                let ghost g = payload@;
                frames.push(payload);
                proof {
                    assert(frames@.map_values(|f: Vec<u8>| f@) =~= before.push(g));
                    assert forall|gs: Seq<Seq<u8>>| before + (seq![g] + gs) =~= before.push(g) + gs by {}
                }
                p = end;
            },
        }
    }
    assert(buf@.skip(p as int).len() == 0);
    assert(frames@.map_values(|f: Vec<u8>| f@) + Seq::<Seq<u8>>::empty() =~= frames@.map_values(
        |f: Vec<u8>| f@,
    ));
    Ok(frames)
}

} // verus!
