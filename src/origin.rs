//! The origin: a directory of the broadcasts published under a prefix.
//! A suffix holds at most one broadcast; publishing and withdrawing them
//! drives the announcements a session sends.

use crate::coding::{append_bytes, string_from_utf8};
use crate::path::Path;
use vstd::prelude::*;
use vstd::utf8::encode_utf8;

verus! {

/// Why the origin refused a broadcast.
#[derive(Debug, Clone, Copy, PartialEq, Eq, Structural)]
pub enum OriginError {
    /// A broadcast is already published under this suffix.
    Duplicate,
}

/// Whether some entry of `es` has this suffix.
pub open spec fn has_suffix(es: Seq<(Seq<char>, u64)>, s: Seq<char>) -> bool {
    exists|i: int| 0 <= i < es.len() && #[trigger] es[i].0 == s
}

/// No suffix appears twice.
pub open spec fn unique_suffixes(es: Seq<(Seq<char>, u64)>) -> bool {
    forall|i: int, j: int| 0 <= i < j < es.len() ==> #[trigger] es[i].0 != #[trigger] es[j].0
}

/// The broadcasts published under a prefix, each with the handle the
/// caller gave it, in the order they were published.
pub struct Origin {
    prefix: Path,
    entries: Vec<(Path, u64)>,
}

impl Origin {
    pub closed spec fn spec_prefix(&self) -> Seq<char> {
        self.prefix@
    }

    pub closed spec fn spec_entries(&self) -> Seq<(Seq<char>, u64)> {
        self.entries@.map_values(|e: (Path, u64)| (e.0@, e.1))
    }

    pub open spec fn wf(&self) -> bool {
        unique_suffixes(self.spec_entries())
    }

    pub fn new(prefix: Path) -> (r: Origin)
        ensures
            r.spec_prefix() == prefix@,
            r.spec_entries() == Seq::<(Seq<char>, u64)>::empty(),
            r.wf(),
    {
        let r = Origin { prefix, entries: Vec::new() };
        assert(r.spec_entries() =~= Seq::<(Seq<char>, u64)>::empty());
        r
    }

    fn position(&self, suffix: &Path) -> (r: Option<usize>)
        ensures
            match r {
                Some(i) => i < self.spec_entries().len() && self.spec_entries()[i as int].0 == suffix@,
                None => !has_suffix(self.spec_entries(), suffix@),
            },
    {
        let mut i: usize = 0;
        while i < self.entries.len()
            invariant
                i <= self.entries@.len(),
                forall|j: int| 0 <= j < i ==> #[trigger] self.entries@[j].0@ != suffix@,
            decreases self.entries@.len() - i,
        {
            if self.entries[i].0.same(suffix) {
                return Some(i);
            }
            i = i + 1;
        }
        assert forall|j: int| 0 <= j < self.spec_entries().len() implies #[trigger] self.spec_entries()[j].0
            != suffix@ by {
            assert(self.spec_entries()[j].0 == self.entries@[j].0@);
        }
        None
    }

    /// Publishes a broadcast under `suffix`; a suffix already in use is
    /// refused.
    pub fn publish_broadcast(&mut self, suffix: Path, broadcast: u64) -> (r: Result<(), OriginError>)
        requires
            old(self).wf(),
        ensures
            final(self).wf(),
            final(self).spec_prefix() == old(self).spec_prefix(),
            has_suffix(old(self).spec_entries(), suffix@) ==> r == Err::<(), OriginError>(
                OriginError::Duplicate,
            ) && final(self).spec_entries() == old(self).spec_entries(),
            !has_suffix(old(self).spec_entries(), suffix@) ==> r is Ok && final(self).spec_entries()
                == old(self).spec_entries().push((suffix@, broadcast)),
    {
        match self.position(&suffix) {
            Some(i) => {
                assert(has_suffix(old(self).spec_entries(), suffix@)) by {
                    assert(old(self).spec_entries()[i as int].0 == suffix@);
                }
                Err(OriginError::Duplicate)
            },
            None => {
                let ghost s = suffix@;
                let ghost before = self.spec_entries();
                self.entries.push((suffix, broadcast));
                assert(self.spec_entries() =~= before.push((s, broadcast)));
                Ok(())
            },
        }
    }

    /// Withdraws the broadcast under `suffix`, returning its handle.
    pub fn unpublish_broadcast(&mut self, suffix: &Path) -> (r: Option<u64>)
        requires
            old(self).wf(),
        ensures
            final(self).wf(),
            final(self).spec_prefix() == old(self).spec_prefix(),
            !has_suffix(old(self).spec_entries(), suffix@) ==> r is None && final(self).spec_entries()
                == old(self).spec_entries(),
            has_suffix(old(self).spec_entries(), suffix@) ==> exists|i: int|
                0 <= i < old(self).spec_entries().len() && old(self).spec_entries()[i].0 == suffix@
                    && r == Some(old(self).spec_entries()[i].1) && final(self).spec_entries() == old(
                    self,
                ).spec_entries().remove(i),
            !has_suffix(final(self).spec_entries(), suffix@),
    {
        match self.position(suffix) {
            Some(i) => {
                let ghost before = self.spec_entries();
                let (_, broadcast) = self.entries.remove(i);
                assert(self.spec_entries() =~= before.remove(i as int));
                assert(!has_suffix(self.spec_entries(), suffix@)) by {
                    assert forall|j: int| 0 <= j < self.spec_entries().len() implies #[trigger] self.spec_entries()[j].0
                        != suffix@ by {
                        if j < i {
                            assert(self.spec_entries()[j] == before[j]);
                        } else {
                            assert(self.spec_entries()[j] == before[j + 1]);
                        }
                    }
                }
                Some(broadcast)
            },
            None => None,
        }
    }

    /// The handle of the broadcast under `suffix`.
    pub fn consume_broadcast(&self, suffix: &Path) -> (r: Option<u64>)
        requires
            self.wf(),
        ensures
            !has_suffix(self.spec_entries(), suffix@) ==> r is None,
            has_suffix(self.spec_entries(), suffix@) ==> exists|i: int|
                0 <= i < self.spec_entries().len() && self.spec_entries()[i].0 == suffix@ && r == Some(
                    self.spec_entries()[i].1,
                ),
    {
        match self.position(suffix) {
            Some(i) => Some(self.entries[i].1),
            None => None,
        }
    }

    /// The broadcasts live now, in the order they were published: what a
    /// new listener is told before live updates.
    pub fn announced(&self) -> (r: Vec<Path>)
        ensures
            r@.map_values(|p: Path| p@) == self.spec_entries().map_values(|e: (Seq<char>, u64)| e.0),
    {
        let mut r: Vec<Path> = Vec::new();
        let mut i: usize = 0;
        while i < self.entries.len()
            invariant
                i <= self.entries@.len(),
                r@.map_values(|p: Path| p@) == self.spec_entries().take(i as int).map_values(
                    |e: (Seq<char>, u64)| e.0,
                ),
            decreases self.entries@.len() - i,
        {
            let ghost before = r@.map_values(|p: Path| p@);
            let p = self.entries[i].0.clone_path();
            assert(p@ == self.spec_entries()[i as int].0);
            r.push(p);
            assert(r@.map_values(|p: Path| p@) =~= before.push(self.spec_entries()[i as int].0));
            assert(r@.map_values(|p: Path| p@) =~= self.spec_entries().take(i + 1).map_values(
                |e: (Seq<char>, u64)| e.0,
            ));
            i = i + 1;
        }
        assert(self.spec_entries().take(i as int) =~= self.spec_entries());
        r
    }

    /// The full path of `suffix`: the prefix followed by it.
    pub fn absolute(&self, suffix: &Path) -> (r: Path)
        ensures
            encode_utf8(r@) == encode_utf8(self.spec_prefix()) + encode_utf8(suffix@),
    {
        let mut b: Vec<u8> = Vec::new();
        append_bytes(&mut b, self.prefix.as_str().as_bytes());
        append_bytes(&mut b, suffix.as_str().as_bytes());
        proof {
            vstd::utf8::encode_utf8_valid_utf8(self.prefix@);
            vstd::utf8::encode_utf8_valid_utf8(suffix@);
            vstd::utf8::valid_utf8_concat(encode_utf8(self.prefix@), encode_utf8(suffix@));
            vstd::utf8::decode_utf8_encode_utf8(b@);
        }
        match string_from_utf8(b) {
            Some(text) => Path::from_string(text),
            None => vstd::pervasive::unreached(),
        }
    }
}

} // verus!
