//! Broadcast paths, and their wire form: a tuple of the `/`-separated
//! segments, each prefixed by its length.

use crate::coding::{
    append_bytes, bytes_bytes, decode_bytes, decoded, encode_bytes, lemma_bytes_round_trip,
    parse_bytes, string_from_utf8, DecodeError,
};
use crate::varint::{
    decode_varint, encode_varint, lemma_varint_round_trip, parse_varint, varint_bytes,
    VARINT_LIMIT,
};
use vstd::prelude::*;
use vstd::utf8::{decode_utf8, encode_utf8, valid_utf8};

verus! {

/// The byte of `/`.
pub const SLASH: u8 = 0x2f;

/// The pieces of `b` between slashes, empty ones included: `n` slashes give
/// `n + 1` pieces.
pub open spec fn split_slash(b: Seq<u8>) -> Seq<Seq<u8>>
    decreases b.len(),
{
    if b.len() == 0 {
        seq![Seq::empty()]
    } else if b.last() == SLASH {
        split_slash(b.drop_last()).push(Seq::empty())
    } else {
        let ss = split_slash(b.drop_last());
        ss.update(ss.len() - 1, ss.last().push(b.last()))
    }
}

/// The pieces `ss` with a slash between each two.
pub open spec fn join_slash(ss: Seq<Seq<u8>>) -> Seq<u8>
    decreases ss.len(),
{
    if ss.len() == 0 {
        Seq::empty()
    } else if ss.len() == 1 {
        ss[0]
    } else {
        join_slash(ss.drop_last()) + seq![SLASH] + ss.last()
    }
}

/// Splitting at the slashes and joining again gives the bytes back, and
/// no piece is longer than the whole.
pub proof fn lemma_split_join(b: Seq<u8>)
    ensures
        split_slash(b).len() >= 1,
        split_slash(b).len() <= b.len() + 1,
        join_slash(split_slash(b)) == b,
        forall|i: int| 0 <= i < split_slash(b).len() ==> #[trigger] split_slash(b)[i].len() <= b.len(),
    decreases b.len(),
{
    if b.len() > 0 {
        let b2 = b.drop_last();
        lemma_split_join(b2);
        let ss = split_slash(b2);
        if b.last() == SLASH {
            assert(split_slash(b).drop_last() =~= ss);
            assert(join_slash(split_slash(b)) =~= b2 + seq![SLASH] + Seq::<u8>::empty());
            assert(b =~= b2.push(SLASH));
        } else {
            let ss2 = split_slash(b);
            if ss.len() == 1 {
                assert(ss2[0] =~= b2.push(b.last()));
                assert(b =~= b2.push(b.last()));
            } else {
                assert(ss2.drop_last() =~= ss.drop_last());
                assert(join_slash(ss2) =~= join_slash(ss.drop_last()) + seq![SLASH] + ss.last().push(
                    b.last(),
                ));
                assert(b =~= b2.push(b.last()));
            }
        }
    }
}

/// The segments of a path's text as they go on the wire: none for the
/// empty path.
pub open spec fn path_pieces(c: Seq<char>) -> Seq<Seq<u8>> {
    let b = encode_utf8(c);
    if b.len() == 0 {
        Seq::empty()
    } else {
        split_slash(b)
    }
}

pub open spec fn pieces_bytes(ss: Seq<Seq<u8>>) -> Seq<u8> {
    ss.map_values(|p: Seq<u8>| bytes_bytes(p)).flatten()
}

/// The wire form of a path: the number of segments, then each segment.
pub open spec fn path_bytes(c: Seq<char>) -> Seq<u8> {
    varint_bytes(path_pieces(c).len() as u64) + pieces_bytes(path_pieces(c))
}

/// A path whose wire form can be written.
pub open spec fn path_fits(c: Seq<char>) -> bool {
    encode_utf8(c).len() + 1 < VARINT_LIMIT
}

/// `n` length-prefixed pieces from the front of `s`.
pub open spec fn parse_pieces(s: Seq<u8>, n: nat) -> Result<(Seq<Seq<u8>>, int), DecodeError>
    decreases n,
{
    if n == 0 {
        Ok((Seq::empty(), 0))
    } else {
        match parse_bytes(s) {
            Err(e) => Err(e),
            Ok((p, a)) => match parse_pieces(s.skip(a), (n - 1) as nat) {
                Err(e) => Err(e),
                Ok((ps, b)) => Ok((seq![p] + ps, a + b)),
            },
        }
    }
}

/// A path from the front of `s`: its segments joined by slashes, which must
/// be valid UTF-8.
#[verifier::opaque]
pub open spec fn parse_path(s: Seq<u8>) -> Result<(Seq<char>, int), DecodeError> {
    match parse_varint(s) {
        Err(e) => Err(e),
        Ok((n, a)) => match parse_pieces(s.skip(a), n as nat) {
            Err(e) => Err(e),
            Ok((ps, b)) => {
                let joined = join_slash(ps);
                if valid_utf8(joined) {
                    Ok((decode_utf8(joined), a + b))
                } else {
                    Err(DecodeError::InvalidString)
                }
            },
        },
    }
}

#[verifier::rlimit(40)]
pub proof fn lemma_pieces_round_trip(ss: Seq<Seq<u8>>, rest: Seq<u8>)
    requires
        forall|i: int| 0 <= i < ss.len() ==> #[trigger] ss[i].len() < VARINT_LIMIT,
    ensures
        parse_pieces(pieces_bytes(ss) + rest, ss.len()) == Ok::<(Seq<Seq<u8>>, int), DecodeError>(
            (ss, pieces_bytes(ss).len() as int),
        ),
    decreases ss.len(),
{
    if ss.len() == 0 {
        assert(ss =~= Seq::<Seq<u8>>::empty());
    } else {
        let t = ss.drop_first();
        assert forall|i: int| 0 <= i < t.len() implies #[trigger] t[i].len() < VARINT_LIMIT by {
            assert(t[i] == ss[i + 1]);
        }
        lemma_pieces_round_trip(t, rest);
        let m = ss.map_values(|p: Seq<u8>| bytes_bytes(p));
        assert(m.drop_first() =~= t.map_values(|p: Seq<u8>| bytes_bytes(p)));
        assert(m.first() == bytes_bytes(ss[0]));
        let head = bytes_bytes(ss[0]);
        let tail = pieces_bytes(t);
        assert(pieces_bytes(ss) == head + tail);
        lemma_bytes_round_trip(ss[0], tail + rest);
        let s = pieces_bytes(ss) + rest;
        assert(s =~= head + (tail + rest));
        assert(s.skip(head.len() as int) =~= tail + rest);
        assert(seq![ss[0]] + t =~= ss);
    }
}

/// Decoding the wire form of a path gives the path back.
pub proof fn lemma_path_round_trip(c: Seq<char>, rest: Seq<u8>)
    requires
        path_fits(c),
    ensures
        parse_path(path_bytes(c) + rest) == Ok::<(Seq<char>, int), DecodeError>(
            (c, path_bytes(c).len() as int),
        ),
{
    reveal(parse_path);
    let b = encode_utf8(c);
    let ss = path_pieces(c);
    lemma_split_join(b);
    assert forall|i: int| 0 <= i < ss.len() implies #[trigger] ss[i].len() < VARINT_LIMIT by {}
    lemma_pieces_round_trip(ss, rest);
    lemma_varint_round_trip(ss.len() as u64, pieces_bytes(ss) + rest);
    assert(path_bytes(c) + rest =~= varint_bytes(ss.len() as u64) + (pieces_bytes(ss) + rest));
    let a = varint_bytes(ss.len() as u64).len() as int;
    assert((path_bytes(c) + rest).skip(a) =~= pieces_bytes(ss) + rest);
    assert(join_slash(ss) == b);
    vstd::utf8::encode_utf8_valid_utf8(c);
    vstd::utf8::encode_utf8_decode_utf8(c);
}

/// A broadcast path such as `room/alice`.
#[derive(Debug, Clone)]
pub struct Path {
    text: String,
}

impl View for Path {
    type V = Seq<char>;

    closed spec fn view(&self) -> Seq<char> {
        self.text@
    }
}

impl Path {
    pub fn new(s: &str) -> (r: Path)
        ensures
            r@ == s@,
    {
        Path { text: s.to_owned() }
    }

    pub fn from_string(text: String) -> (r: Path)
        ensures
            r@ == text@,
    {
        Path { text }
    }

    /// Whether two paths have the same text.
    pub fn same(&self, other: &Path) -> (r: bool)
        ensures
            r == (self@ == other@),
    {
        self.text == other.text
    }

    /// A copy of the path.
    pub fn clone_path(&self) -> (r: Path)
        ensures
            r@ == self@,
    {
        Path { text: self.text.clone() }
    }

    pub fn as_str(&self) -> (r: &str)
        ensures
            r@ == self@,
    {
        self.text.as_str()
    }

    /// Appends the wire form.
    pub fn encode(&self, w: &mut Vec<u8>)
        requires
            path_fits(self@),
        ensures
            final(w)@ == old(w)@ + path_bytes(self@),
    {
        let b = self.text.as_str().as_bytes();
        let ghost bs = b@;
        proof {
            lemma_split_join(bs);
        }
        let mut pieces: Vec<Vec<u8>> = Vec::new();
        if b.len() > 0 {
            let mut cur: Vec<u8> = Vec::new();
            let mut i: usize = 0;
            while i < b.len()
                invariant
                    i <= b@.len(),
                    bs == b@,
                    pieces@.map_values(|p: Vec<u8>| p@).push(cur@) == split_slash(bs.take(i as int)),
                decreases b@.len() - i,
            {
                let ghost before = pieces@.map_values(|p: Vec<u8>| p@).push(cur@);
                assert(bs.take(i + 1).drop_last() =~= bs.take(i as int));
                if b[i] == SLASH {
                    pieces.push(cur);
                    cur = Vec::new();
                    assert(pieces@.map_values(|p: Vec<u8>| p@).push(cur@) =~= before.push(
                        Seq::empty(),
                    ));
                } else {
                    let ghost old_pieces = pieces@;
                    cur.push(b[i]);
                    assert(pieces@.map_values(|p: Vec<u8>| p@).push(cur@) =~= before.update(
                        before.len() - 1,
                        before.last().push(b@[i as int]),
                    ));
                }
                i = i + 1;
            }
            pieces.push(cur);
            assert(bs.take(i as int) =~= bs);
        }
        let ghost ss = pieces@.map_values(|p: Vec<u8>| p@);
        assert(ss =~= path_pieces(self@));
        encode_varint(pieces.len() as u64, w);
        let ghost start = w@;
        let mut k: usize = 0;
        while k < pieces.len()
            invariant
                k <= pieces@.len(),
                ss == pieces@.map_values(|p: Vec<u8>| p@),
                ss == path_pieces(self@),
                path_fits(self@),
                forall|i: int| 0 <= i < ss.len() ==> #[trigger] ss[i].len() <= encode_utf8(self@).len(),
                w@ == start + pieces_bytes(ss.take(k as int)),
            decreases pieces@.len() - k,
        {
            assert(ss[k as int] == pieces@[k as int]@);
            encode_bytes(pieces[k].as_slice(), w);
            proof {
                let t = ss.take(k as int);
                assert(ss.take(k + 1) =~= t.push(ss[k as int]));
                assert(ss.take(k + 1).map_values(|p: Seq<u8>| bytes_bytes(p)) =~= t.map_values(
                    |p: Seq<u8>| bytes_bytes(p),
                ).push(bytes_bytes(ss[k as int])));
                t.map_values(|p: Seq<u8>| bytes_bytes(p)).lemma_flatten_push(bytes_bytes(ss[k as int]));
            }
            k = k + 1;
        }
        assert(ss.take(k as int) =~= ss);
        assert(final(w)@ =~= old(w)@ + path_bytes(self@));
    }

    /// Reads a path at `pos`; its segments must join into valid UTF-8.
    pub fn decode(buf: &[u8], pos: usize) -> (r: Result<(Path, usize), DecodeError>)
        requires
            pos <= buf@.len(),
        ensures
            decoded(r, pos, parse_path(buf@.skip(pos as int))),
        r matches Ok((_, p)) ==> pos <= p <= buf@.len(),
    {
        reveal(parse_path);
        let (n, p0) = match decode_varint(buf, pos) {
            Ok(x) => x,
            Err(e) => return Err(e),
        };
        let ghost s0 = buf@.skip(p0 as int);
        assert(s0 =~= buf@.skip(pos as int).skip(p0 - pos));
        let mut joined: Vec<u8> = Vec::new();
        let ghost mut acc: Seq<Seq<u8>> = Seq::empty();
        let mut p = p0;
        let mut i: u64 = 0;
        while i < n
            invariant
                i <= n,
                p0 <= p <= buf@.len(),
                s0 == buf@.skip(p0 as int),
                acc.len() == i,
                joined@ == join_slash(acc),
                parse_varint(buf@.skip(pos as int)) == Ok::<(u64, int), DecodeError>((n, p0 - pos)),
                s0 == buf@.skip(pos as int).skip(p0 - pos),
                parse_pieces(s0, n as nat) == match parse_pieces(buf@.skip(p as int), (n - i) as nat) {
                    Ok((ps, b)) => Ok::<(Seq<Seq<u8>>, int), DecodeError>((acc + ps, (p - p0) + b)),
                    Err(e) => Err(e),
                },
            decreases n - i,
        {
            let ghost s = buf@.skip(p as int);
            let (piece, p1) = match decode_bytes(buf, p) {
                Ok(x) => x,
                Err(e) => {
                    assert(parse_pieces(s, (n - i) as nat) == Err::<(Seq<Seq<u8>>, int), DecodeError>(e));
                    proof {
                        reveal(parse_path);
                    }
                    return Err(e);
                },
            };
            assert(buf@.skip(p1 as int) =~= s.skip(p1 - p));
            let ghost before = joined@;
            if i > 0 {
                joined.push(SLASH);
            }
            append_bytes(&mut joined, piece.as_slice());
            proof {
                let acc2 = acc.push(piece@);
                assert(acc2.drop_last() =~= acc);
                if i == 0 {
                    assert(joined@ =~= join_slash(acc2));
                } else {
                    assert(joined@ =~= join_slash(acc2));
                }
                assert forall|ps: Seq<Seq<u8>>| acc + (seq![piece@] + ps) =~= acc2 + ps by {}
                acc = acc2;
            }
            p = p1;
            i = i + 1;
        }
        assert(acc + Seq::<Seq<u8>>::empty() =~= acc);
        match string_from_utf8(joined) {
            Some(text) => Ok((Path { text }, p)),
            None => Err(DecodeError::InvalidString),
        }
    }
}

} // verus!
