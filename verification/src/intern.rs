//! String interning: repeated path-segment and extension strings are
//! deduplicated into small shared handles backed by one append-only pool.

use vstd::prelude::*;

verus! {

/// Handle to an interned string. Within one pool, equal string content always
/// yields the same handle, so handles can be compared instead of contents.
#[derive(Debug, Clone, Copy, PartialEq, Eq, Hash, Structural)]
pub struct StringRef {
    pub id: usize,
}

/// Append-only pool of deduplicated strings. A handle returned by `intern`
/// stays valid for the pool's whole lifetime, which spans one scan.
#[derive(Debug)]
pub struct StringPool {
    strings: Vec<String>,
}

impl View for StringPool {
    type V = Seq<Seq<char>>;

    closed spec fn view(&self) -> Seq<Seq<char>> {
        self.strings.deep_view()
    }
}

impl StringPool {
    /// No two pool entries hold equal content.
    pub open spec fn wf(self) -> bool {
        forall|i: int, j: int|
            0 <= i < j < self@.len() ==> self@[i] != self@[j]
    }

    /// Whether some entry already holds the content `s`.
    pub open spec fn contains_str(self, s: Seq<char>) -> bool {
        exists|i: int| 0 <= i < self@.len() && self@[i] == s
    }

    /// Whether `r` is a handle this pool has handed out.
    pub open spec fn ref_valid(self, r: StringRef) -> bool {
        r.id < self@.len()
    }

    /// Content of the entry a handle points at.
    pub open spec fn content_of(self, r: StringRef) -> Seq<char> {
        self@[r.id as int]
    }

    pub fn new() -> (p: StringPool)
        ensures
            p@ == Seq::<Seq<char>>::empty(),
            p.wf(),
    {
        StringPool { strings: Vec::new() }
    }

    pub fn len(&self) -> (n: usize)
        ensures
            n == self@.len(),
    {
        self.strings.len()
    }

    /// Deduplicating insertion: returns the handle of the entry holding the
    /// content of `s`, appending a new entry only when none does. Handles
    /// already handed out keep their content.
    pub fn intern(&mut self, s: String) -> (r: StringRef)
        requires
            old(self).wf(),
        ensures
            final(self).wf(),
            final(self).ref_valid(r),
            final(self).content_of(r) == s@,
            old(self).contains_str(s@) ==> final(self)@ == old(self)@,
            !old(self).contains_str(s@) ==> final(self)@ == old(self)@.push(s@) && r.id
                == old(self)@.len(),
    {
        let n = self.strings.len();
        let mut i: usize = 0;
        while i < n
            invariant
                n == self@.len(),
                i <= n,
                self.wf(),
                forall|j: int| 0 <= j < i ==> self@[j] != s@,
            decreases n - i,
        {
            if self.strings[i] == s {
                assert(self@[i as int] == s@);
                return StringRef { id: i };
            }
            i += 1;
        }
        let id = self.strings.len();
        self.strings.push(s);
        assert(self@ == old(self)@.push(s@));
        StringRef { id }
    }

    /// Read back the content of a handle.
    pub fn resolve(&self, r: StringRef) -> (s: &String)
        requires
            self.ref_valid(r),
        ensures
            s@ == self.content_of(r),
    {
        &self.strings[r.id]
    }
}

/// Interning determinism: within a well-formed pool, the content of an entry
/// determines its handle, so interning two equal strings — in whatever order
/// the exploring tasks got to the pool — yields handles that compare equal
/// and point at the same pool entry.
pub proof fn lemma_intern_deterministic(p: StringPool, r1: StringRef, r2: StringRef)
    requires
        p.wf(),
        p.ref_valid(r1),
        p.ref_valid(r2),
        p.content_of(r1) == p.content_of(r2),
    ensures
        r1 == r2,
{
}

} // verus!
