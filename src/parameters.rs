//! The parameters block: a count, then that many key / byte-string pairs,
//! with at most `MAX_PARAMS` entries and no key twice.

use crate::coding::{
    bytes_bytes, decode_bytes, decoded, encode_bytes, lemma_bytes_round_trip, parse_bytes,
    DecodeError,
};
use crate::varint::{
    decode_varint, encode_varint, lemma_varint_round_trip, parse_varint, varint_bytes,
    VARINT_LIMIT,
};
use vstd::prelude::*;

verus! {

/// The most entries a parameters block may hold.
pub const MAX_PARAMS: u64 = 64;

/// Whether `key` is among the keys of `es`.
pub open spec fn has_key(es: Seq<(u64, Seq<u8>)>, key: u64) -> bool {
    exists|i: int| 0 <= i < es.len() && #[trigger] es[i].0 == key
}

/// No key appears twice.
pub open spec fn unique_keys(es: Seq<(u64, Seq<u8>)>) -> bool {
    forall|i: int, j: int| 0 <= i < j < es.len() ==> #[trigger] es[i].0 != #[trigger] es[j].0
}

/// The entries of `s`, `n` of them, after the ones in `acc`.
pub open spec fn parse_entries(s: Seq<u8>, n: nat, acc: Seq<(u64, Seq<u8>)>) -> Result<
    (Seq<(u64, Seq<u8>)>, int),
    DecodeError,
>
    decreases n,
{
    if n == 0 {
        Ok((acc, 0))
    } else {
        match parse_varint(s) {
            Err(e) => Err(e),
            Ok((k, a)) => if has_key(acc, k) {
                Err(DecodeError::Duplicate)
            } else {
                match parse_bytes(s.skip(a)) {
                    Err(e) => Err(e),
                    Ok((v, b)) => match parse_entries(s.skip(a + b), (n - 1) as nat, acc.push((k, v))) {
                        Err(e) => Err(e),
                        Ok((r, c)) => Ok((r, a + b + c)),
                    },
                }
            }
        }
    }
}

/// A parameters block: its entries in wire order.
#[verifier::opaque]
pub open spec fn parse_params(s: Seq<u8>) -> Result<(Seq<(u64, Seq<u8>)>, int), DecodeError> {
    match parse_varint(s) {
        Err(e) => Err(e),
        Ok((n, a)) => if n > MAX_PARAMS {
            Err(DecodeError::TooMany)
        } else {
            match parse_entries(s.skip(a), n as nat, Seq::empty()) {
                Err(e) => Err(e),
                Ok((es, b)) => Ok((es, a + b)),
            }
        },
    }
}

/// One entry: its key, then its value prefixed by its length.
pub open spec fn entry_bytes(e: (u64, Seq<u8>)) -> Seq<u8> {
    varint_bytes(e.0) + bytes_bytes(e.1)
}

pub open spec fn entries_bytes(es: Seq<(u64, Seq<u8>)>) -> Seq<u8> {
    es.map_values(|e: (u64, Seq<u8>)| entry_bytes(e)).flatten()
}

pub open spec fn params_bytes(es: Seq<(u64, Seq<u8>)>) -> Seq<u8> {
    varint_bytes(es.len() as u64) + entries_bytes(es)
}

/// Entries that can be encoded: keys and lengths below the varint bound,
/// keys unique, and no more than `MAX_PARAMS` of them.
pub open spec fn params_wf(es: Seq<(u64, Seq<u8>)>) -> bool {
    &&& es.len() <= MAX_PARAMS
    &&& unique_keys(es)
    &&& forall|i: int| 0 <= i < es.len() ==> #[trigger] es[i].0 < VARINT_LIMIT && es[i].1.len() < VARINT_LIMIT
}

/// A block with no entries is the single byte zero.
pub proof fn lemma_no_params(rest: Seq<u8>)
    ensures
        parse_params(seq![0u8] + rest) == Ok::<(Seq<(u64, Seq<u8>)>, int), DecodeError>(
            (Seq::empty(), 1),
        ),
{
    reveal(parse_params);
    crate::varint::lemma_varint_zero();
    lemma_varint_round_trip(0, rest);
    assert((seq![0u8] + rest).skip(1) =~= rest);
}

/// Reading encoded entries after `acc` gives `acc` followed by them, when no
/// key repeats.
#[verifier::rlimit(40)]
pub proof fn lemma_entries_round_trip(es: Seq<(u64, Seq<u8>)>, acc: Seq<(u64, Seq<u8>)>, rest: Seq<u8>)
    requires
        unique_keys(acc + es),
        forall|i: int| 0 <= i < es.len() ==> #[trigger] es[i].0 < VARINT_LIMIT && es[i].1.len() < VARINT_LIMIT,
    ensures
        parse_entries(entries_bytes(es) + rest, es.len(), acc) == Ok::<
            (Seq<(u64, Seq<u8>)>, int),
            DecodeError,
        >((acc + es, entries_bytes(es).len() as int)),
    decreases es.len(),
{
    if es.len() == 0 {
        assert(acc + es =~= acc);
        assert(entries_bytes(es) =~= Seq::<u8>::empty());
        assert(entries_bytes(es) + rest =~= rest);
    } else {
        let e = es[0];
        let t = es.drop_first();
        let all = acc + es;
        assert(e.0 < VARINT_LIMIT && e.1.len() < VARINT_LIMIT);
        assert forall|i: int| 0 <= i < t.len() implies #[trigger] t[i].0 < VARINT_LIMIT && t[i].1.len()
            < VARINT_LIMIT by {
            assert(t[i] == es[i + 1]);
        }
        assert(acc.push(e) + t =~= all);
        assert(!has_key(acc, e.0)) by {
            assert forall|i: int| 0 <= i < acc.len() implies #[trigger] acc[i].0 != e.0 by {
                assert(all[i] == acc[i]);
                assert(all[acc.len() as int] == e);
            }
        }
        lemma_entries_round_trip(t, acc.push(e), rest);
        let m = es.map_values(|x: (u64, Seq<u8>)| entry_bytes(x));
        assert(m.drop_first() =~= t.map_values(|x: (u64, Seq<u8>)| entry_bytes(x)));
        assert(m.first() == entry_bytes(e));
        let tail = entries_bytes(t) + rest;
        assert(entries_bytes(es) == entry_bytes(e) + entries_bytes(t));
        let s = entries_bytes(es) + rest;
        assert(s =~= varint_bytes(e.0) + (bytes_bytes(e.1) + tail));
        lemma_varint_round_trip(e.0, bytes_bytes(e.1) + tail);
        let a = varint_bytes(e.0).len() as int;
        assert(s.skip(a) =~= bytes_bytes(e.1) + tail);
        lemma_bytes_round_trip(e.1, tail);
        let b = bytes_bytes(e.1).len() as int;
        assert(s.skip(a + b) =~= tail);
        assert(s.skip(a).skip(b) =~= tail);
    }
}

/// Decoding an encoded parameters block gives its entries back.
pub proof fn lemma_params_round_trip(es: Seq<(u64, Seq<u8>)>, rest: Seq<u8>)
    requires
        params_wf(es),
    ensures
        parse_params(params_bytes(es) + rest) == Ok::<(Seq<(u64, Seq<u8>)>, int), DecodeError>(
            (es, params_bytes(es).len() as int),
        ),
{
    reveal(parse_params);
    assert(Seq::<(u64, Seq<u8>)>::empty() + es =~= es);
    lemma_entries_round_trip(es, Seq::empty(), rest);
    let n = es.len() as u64;
    lemma_varint_round_trip(n, entries_bytes(es) + rest);
    assert(params_bytes(es) + rest =~= varint_bytes(n) + (entries_bytes(es) + rest));
    assert((params_bytes(es) + rest).skip(varint_bytes(n).len() as int) =~= entries_bytes(es) + rest);
}

/// A block that announces more than `MAX_PARAMS` entries is refused as too
/// many, whatever follows the count.
pub proof fn lemma_params_too_many(s: Seq<u8>)
    requires
        parse_varint(s) is Ok,
        parse_varint(s)->Ok_0.0 > MAX_PARAMS,
    ensures
        parse_params(s) == Err::<(Seq<(u64, Seq<u8>)>, int), DecodeError>(DecodeError::TooMany),
{
    reveal(parse_params);
}

/// Reading entries in which a key repeats (counting those already read) is
/// refused as a duplicate.
pub proof fn lemma_entries_duplicate(es: Seq<(u64, Seq<u8>)>, acc: Seq<(u64, Seq<u8>)>, rest: Seq<u8>)
    requires
        unique_keys(acc),
        !unique_keys(acc + es),
        forall|i: int| 0 <= i < es.len() ==> #[trigger] es[i].0 < VARINT_LIMIT && es[i].1.len() < VARINT_LIMIT,
    ensures
        parse_entries(entries_bytes(es) + rest, es.len(), acc) == Err::<
            (Seq<(u64, Seq<u8>)>, int),
            DecodeError,
        >(DecodeError::Duplicate),
    decreases es.len(),
{
    if es.len() == 0 {
        assert(acc + es =~= acc);
    } else {
        let e = es[0];
        let t = es.drop_first();
        assert(e.0 < VARINT_LIMIT && e.1.len() < VARINT_LIMIT);
        let m = es.map_values(|x: (u64, Seq<u8>)| entry_bytes(x));
        assert(m.drop_first() =~= t.map_values(|x: (u64, Seq<u8>)| entry_bytes(x)));
        assert(m.first() == entry_bytes(e));
        let tail = entries_bytes(t) + rest;
        assert(entries_bytes(es) == entry_bytes(e) + entries_bytes(t));
        let s = entries_bytes(es) + rest;
        assert(s =~= varint_bytes(e.0) + (bytes_bytes(e.1) + tail));
        lemma_varint_round_trip(e.0, bytes_bytes(e.1) + tail);
        let a = varint_bytes(e.0).len() as int;
        assert(s.skip(a) =~= bytes_bytes(e.1) + tail);
        if !has_key(acc, e.0) {
            lemma_bytes_round_trip(e.1, tail);
            let b = bytes_bytes(e.1).len() as int;
            assert(s.skip(a + b) =~= tail);
            assert(acc.push(e) + t =~= acc + es);
            assert(unique_keys(acc.push(e))) by {
                assert forall|i: int, j: int| 0 <= i < j < acc.push(e).len() implies #[trigger] acc.push(
                    e,
                )[i].0 != #[trigger] acc.push(e)[j].0 by {
                    if j == acc.len() {
                        assert(acc.push(e)[i] == acc[i]);
                    } else {
                        assert(acc.push(e)[i] == acc[i] && acc.push(e)[j] == acc[j]);
                    }
                }
            }
            assert forall|i: int| 0 <= i < t.len() implies #[trigger] t[i].0 < VARINT_LIMIT && t[i].1.len()
                < VARINT_LIMIT by {
                assert(t[i] == es[i + 1]);
            }
            lemma_entries_duplicate(t, acc.push(e), rest);
        }
    }
}

/// A block with a repeated key is refused as a duplicate.
pub proof fn lemma_params_duplicate(es: Seq<(u64, Seq<u8>)>, rest: Seq<u8>)
    requires
        es.len() <= MAX_PARAMS,
        !unique_keys(es),
        forall|i: int| 0 <= i < es.len() ==> #[trigger] es[i].0 < VARINT_LIMIT && es[i].1.len() < VARINT_LIMIT,
    ensures
        parse_params(params_bytes(es) + rest) == Err::<(Seq<(u64, Seq<u8>)>, int), DecodeError>(
            DecodeError::Duplicate,
        ),
{
    reveal(parse_params);
    assert(Seq::<(u64, Seq<u8>)>::empty() + es =~= es);
    lemma_entries_duplicate(es, Seq::empty(), rest);
    let n = es.len() as u64;
    lemma_varint_round_trip(n, entries_bytes(es) + rest);
    assert(params_bytes(es) + rest =~= varint_bytes(n) + (entries_bytes(es) + rest));
    assert((params_bytes(es) + rest).skip(varint_bytes(n).len() as int) =~= entries_bytes(es) + rest);
}

/// The value stored under key `k`: that of the last entry with this key.
pub open spec fn param_of(es: Seq<(u64, Seq<u8>)>, k: u64) -> Option<Seq<u8>>
    decreases es.len(),
{
    if es.len() == 0 {
        None
    } else if es.last().0 == k {
        Some(es.last().1)
    } else {
        param_of(es.drop_last(), k)
    }
}

/// A key has a value exactly when some entry holds it.
pub proof fn lemma_param_of_has_key(es: Seq<(u64, Seq<u8>)>, k: u64)
    ensures
        (param_of(es, k) is Some) == has_key(es, k),
    decreases es.len(),
{
    if es.len() > 0 {
        let d = es.drop_last();
        lemma_param_of_has_key(d, k);
        if es.last().0 == k {
            assert(es[es.len() - 1].0 == k);
        } else {
            if has_key(es, k) {
                let i = choose|i: int| 0 <= i < es.len() && #[trigger] es[i].0 == k;
                assert(d[i] == es[i]);
            }
            if has_key(d, k) {
                let i = choose|i: int| 0 <= i < d.len() && #[trigger] d[i].0 == k;
                assert(es[i] == d[i]);
            }
        }
    }
}

/// With unique keys, the value of an entry's key is that entry's value.
pub proof fn lemma_param_of_unique(es: Seq<(u64, Seq<u8>)>, i: int)
    requires
        unique_keys(es),
        0 <= i < es.len(),
    ensures
        param_of(es, es[i].0) == Some(es[i].1),
    decreases es.len(),
{
    if i < es.len() - 1 {
        assert(es[i].0 != es[es.len() - 1].0);
        let d = es.drop_last();
        assert(unique_keys(d)) by {
            assert forall|a: int, b: int| 0 <= a < b < d.len() implies #[trigger] d[a].0
                != #[trigger] d[b].0 by {
                assert(d[a] == es[a] && d[b] == es[b]);
            }
        }
        assert(d[i] == es[i]);
        lemma_param_of_unique(d, i);
    }
}

/// Replacing the value of one entry leaves every other key's value alone.
pub proof fn lemma_param_of_update(es: Seq<(u64, Seq<u8>)>, i: int, v: Seq<u8>, k: u64)
    requires
        0 <= i < es.len(),
        k != es[i].0,
    ensures
        param_of(es.update(i, (es[i].0, v)), k) == param_of(es, k),
    decreases es.len(),
{
    let u = es.update(i, (es[i].0, v));
    if i == es.len() - 1 {
        assert(u.drop_last() =~= es.drop_last());
    } else {
        let d = es.drop_last();
        assert(d[i] == es[i]);
        assert(u.drop_last() =~= d.update(i, (d[i].0, v)));
        lemma_param_of_update(d, i, v, k);
    }
}

/// Setting a key and reading it back gives the value set, and other keys
/// keep their values.
pub proof fn lemma_set_then_get(es: Seq<(u64, Seq<u8>)>, es2: Seq<(u64, Seq<u8>)>, kind: u64, v: Seq<u8>, k: u64)
    requires
        unique_keys(es),
        has_key(es, kind) ==> exists|i: int|
            0 <= i < es.len() && es[i].0 == kind && es2 == es.update(i, (kind, v)),
        !has_key(es, kind) ==> es2 == es.push((kind, v)),
    ensures
        unique_keys(es2),
        param_of(es2, kind) == Some(v),
        k != kind ==> param_of(es2, k) == param_of(es, k),
{
    if has_key(es, kind) {
        let i = choose|i: int| 0 <= i < es.len() && es[i].0 == kind && es2 == es.update(i, (kind, v));
        assert(unique_keys(es2)) by {
            assert forall|a: int, b: int| 0 <= a < b < es2.len() implies #[trigger] es2[a].0
                != #[trigger] es2[b].0 by {
                assert(es2[a].0 == es[a].0 && es2[b].0 == es[b].0);
            }
        }
        assert(es2[i] == (kind, v));
        lemma_param_of_unique(es2, i);
        if k != kind {
            lemma_param_of_update(es, i, v, k);
        }
    } else {
        assert(es2.drop_last() =~= es);
        assert(unique_keys(es2)) by {
            assert forall|a: int, b: int| 0 <= a < b < es2.len() implies #[trigger] es2[a].0
                != #[trigger] es2[b].0 by {
                if b == es.len() {
                    assert(es2[a] == es[a]);
                } else {
                    assert(es2[a] == es[a] && es2[b] == es[b]);
                }
            }
        }
    }
}

/// Parameters of a setup message, in the order they were set.
#[derive(Debug, Clone)]
pub struct Parameters {
    entries: Vec<(u64, Vec<u8>)>,
}

impl View for Parameters {
    type V = Seq<(u64, Seq<u8>)>;

    closed spec fn view(&self) -> Seq<(u64, Seq<u8>)> {
        self.entries@.map_values(|e: (u64, Vec<u8>)| (e.0, e.1@))
    }
}

impl Parameters {
    /// No key appears twice.
    pub open spec fn wf(&self) -> bool {
        unique_keys(self@)
    }

    pub fn new() -> (r: Parameters)
        ensures
            r@ == Seq::<(u64, Seq<u8>)>::empty(),
            r.wf(),
    {
        let r = Parameters { entries: Vec::new() };
        assert(r@ =~= Seq::<(u64, Seq<u8>)>::empty());
        r
    }

    /// The value stored under `kind`.
    pub fn get(&self, kind: u64) -> (r: Option<&Vec<u8>>)
        ensures
            match r {
                Some(v) => param_of(self@, kind) == Some(v@),
                None => param_of(self@, kind) is None,
            },
    {
        let mut i: usize = self.entries.len();
        assert(self@.take(i as int) =~= self@);
        while i > 0
            invariant
                i <= self.entries@.len(),
                param_of(self@, kind) == param_of(self@.take(i as int), kind),
            decreases i,
        {
            assert(self@.take(i as int).drop_last() =~= self@.take(i - 1));
            assert(self@.take(i as int).last() == self@[i - 1]);
            assert(self@[i - 1] == (self.entries@[i - 1].0, self.entries@[i - 1].1@));
            if self.entries[i - 1].0 == kind {
                return Some(&self.entries[i - 1].1);
            }
            i = i - 1;
        }
        assert(self@.take(0) =~= Seq::<(u64, Seq<u8>)>::empty());
        None
    }

    /// Stores `value` under `kind`, replacing the value that was there;
    /// a new key goes last.
    pub fn set(&mut self, kind: u64, value: Vec<u8>)
        requires
            old(self).wf(),
        ensures
            final(self).wf(),
            param_of(final(self)@, kind) == Some(value@),
            forall|k: u64| k != kind ==> #[trigger] param_of(final(self)@, k) == param_of(old(self)@, k),
            has_key(old(self)@, kind) ==> exists|i: int|
                0 <= i < old(self)@.len() && old(self)@[i].0 == kind && final(self)@ == old(
                    self,
                )@.update(i, (kind, value@)),
            !has_key(old(self)@, kind) ==> final(self)@ == old(self)@.push((kind, value@)),
    {
        let ghost v = value@;
        let mut i: usize = 0;
        while i < self.entries.len()
            invariant
                i <= self.entries@.len(),
                self == old(self),
                unique_keys(old(self)@),
                v == value@,
                forall|j: int| 0 <= j < i ==> #[trigger] self.entries@[j].0 != kind,
            decreases self.entries@.len() - i,
        {
            if self.entries[i].0 == kind {
                let ghost before = self.entries@;
                assert(old(self)@[i as int].0 == kind);
                self.entries.remove(i);
                self.entries.insert(i, (kind, value));
                assert(self.entries@[i as int].1@ == v);
                assert(forall|j: int| 0 <= j < before.len() && j != i ==> self.entries@[j] == before[j]);
                assert(self@ =~= old(self)@.update(i as int, (kind, v)));
                proof {
                    assert forall|k: u64| k != kind implies #[trigger] param_of(self@, k) == param_of(
                        old(self)@,
                        k,
                    ) by {
                        lemma_set_then_get(old(self)@, self@, kind, v, k);
                    }
                    lemma_set_then_get(old(self)@, self@, kind, v, kind);
                }
                return;
            }
            i = i + 1;
        }
        assert(!has_key(old(self)@, kind)) by {
            assert forall|j: int| 0 <= j < old(self)@.len() implies #[trigger] old(self)@[j].0
                != kind by {
                assert(old(self)@[j].0 == old(self).entries@[j].0);
            }
        }
        self.entries.push((kind, value));
        assert(self@ =~= old(self)@.push((kind, v)));
        proof {
                assert forall|k: u64| k != kind implies #[trigger] param_of(self@, k) == param_of(
                    old(self)@,
                    k,
                ) by {
                    lemma_set_then_get(old(self)@, self@, kind, v, k);
                }
                lemma_set_then_get(old(self)@, self@, kind, v, kind);
            }
    }

    /// Appends the block.
    pub fn encode(&self, w: &mut Vec<u8>)
        requires
            params_wf(self@),
        ensures
            final(w)@ == old(w)@ + params_bytes(self@),
    {
        let ghost es = self@;
        encode_varint(self.entries.len() as u64, w);
        let ghost start = w@;
        let mut i: usize = 0;
        while i < self.entries.len()
            invariant
                i <= self.entries@.len(),
                es == self@,
                params_wf(es),
                w@ == start + entries_bytes(es.take(i as int)),
            decreases self.entries@.len() - i,
        {
            assert(es[i as int] == (self.entries@[i as int].0, self.entries@[i as int].1@));
            assert(es[i as int].0 < VARINT_LIMIT && es[i as int].1.len() < VARINT_LIMIT);
            encode_varint(self.entries[i].0, w);
            encode_bytes(self.entries[i].1.as_slice(), w);
            proof {
                let t = es.take(i as int);
                assert(es.take(i + 1) =~= t.push(es[i as int]));
                assert(es.take(i + 1).map_values(|e: (u64, Seq<u8>)| entry_bytes(e)) =~= t.map_values(
                    |e: (u64, Seq<u8>)| entry_bytes(e),
                ).push(entry_bytes(es[i as int])));
                t.map_values(|e: (u64, Seq<u8>)| entry_bytes(e)).lemma_flatten_push(
                    entry_bytes(es[i as int]),
                );
            }
            i = i + 1;
            assert(w@ =~= start + entries_bytes(es.take(i as int)));
        }
        assert(es.take(i as int) =~= es);
        assert(w@ =~= old(w)@ + params_bytes(es));
    }

    /// Reads a block at `pos`, refusing more than `MAX_PARAMS` entries and
    /// repeated keys.
    pub fn decode(buf: &[u8], pos: usize) -> (r: Result<(Parameters, usize), DecodeError>)
        requires
            pos <= buf@.len(),
        ensures
            decoded(r, pos, parse_params(buf@.skip(pos as int))),
            r matches Ok((_, p)) ==> pos <= p <= buf@.len(),
            r matches Ok((v, _)) ==> v.wf(),
    {
        reveal(parse_params);
        let (n, p0) = match decode_varint(buf, pos) {
            Ok(x) => x,
            Err(e) => return Err(e),
        };
        if n > MAX_PARAMS {
            return Err(DecodeError::TooMany);
        }
        let ghost s0 = buf@.skip(p0 as int);
        assert(s0 =~= buf@.skip(pos as int).skip(p0 - pos));
        let mut out = Parameters { entries: Vec::new() };
        let mut p = p0;
        let mut i: u64 = 0;
        assert(out@ =~= Seq::<(u64, Seq<u8>)>::empty());
        while i < n
            invariant
                i <= n <= MAX_PARAMS,
                p0 <= p <= buf@.len(),
                unique_keys(out@),
                s0 == buf@.skip(p0 as int),
                parse_params(buf@.skip(pos as int)) == match parse_entries(s0, n as nat, Seq::empty()) {
                    Ok((es, b)) => Ok::<(Seq<(u64, Seq<u8>)>, int), DecodeError>((es, (p0 - pos) + b)),
                    Err(e) => Err(e),
                },
                parse_entries(s0, n as nat, Seq::empty()) == match parse_entries(
                    buf@.skip(p as int),
                    (n - i) as nat,
                    out@,
                ) {
                    Ok((es, c)) => Ok::<(Seq<(u64, Seq<u8>)>, int), DecodeError>((es, (p - p0) + c)),
                    Err(e) => Err(e),
                },
            decreases n - i,
        {
            let ghost s = buf@.skip(p as int);
            let (k, p1) = match decode_varint(buf, p) {
                Ok(x) => x,
                Err(e) => {
                    assert(parse_entries(s, (n - i) as nat, out@) == Err::<(Seq<(u64, Seq<u8>)>, int), DecodeError>(e));
                    return Err(e);
                },
            };
            match out.get(k) {
                Some(_) => {
                    proof {
                        lemma_param_of_has_key(out@, k);
                    }
                    assert(has_key(out@, k));
                    assert(parse_entries(s, (n - i) as nat, out@) == Err::<(Seq<(u64, Seq<u8>)>, int), DecodeError>(
                        DecodeError::Duplicate,
                    ));
                    return Err(DecodeError::Duplicate);
                },
                None => {
                    proof {
                        lemma_param_of_has_key(out@, k);
                    }
                },
            }
            assert(buf@.skip(p1 as int) =~= s.skip(p1 - p));
            let (v, p2) = match decode_bytes(buf, p1) {
                Ok(x) => x,
                Err(e) => {
                    assert(parse_entries(s, (n - i) as nat, out@) == Err::<(Seq<(u64, Seq<u8>)>, int), DecodeError>(e));
                    return Err(e);
                },
            };
            assert(buf@.skip(p2 as int) =~= s.skip(p2 - p));
            let ghost before = out@;
            out.entries.push((k, v));
            assert(out@ =~= before.push((k, v@)));
            assert(unique_keys(out@)) by {
                assert forall|a: int, b: int| 0 <= a < b < out@.len() implies #[trigger] out@[a].0
                    != #[trigger] out@[b].0 by {
                    if b == before.len() {
                        assert(out@[a] == before[a]);
                    } else {
                        assert(out@[a] == before[a] && out@[b] == before[b]);
                    }
                }
            }
            p = p2;
            i = i + 1;
        }
        Ok((out, p))
    }
}

} // verus!
