//! The persistence port: the storage capability set the shortening and
//! resolution protocols depend on, and a verified in-memory implementation
//! of it.
//!
//! A store is modelled as a finite map from identifiers to the stored URL
//! strings, together with one counter per port operation, so that callers
//! can state exactly which operations a protocol run performs.

use vstd::prelude::*;

verus! {

/// A persistence-layer failure.
#[derive(Clone, Debug)]
pub enum StoreError {
    /// No row exists for the requested identifier.
    NotFound,
    /// The backend failed; carries a description of the cause.
    Backend(String),
}

/// Whether some row of `rows` holds exactly the string `url`.
pub open spec fn url_known(rows: Map<u64, Seq<char>>, url: Seq<char>) -> bool {
    exists|id: u64| #[trigger] rows.contains_pair(id, url)
}

/// The persistence port: insert a URL under a fresh identifier, look a URL
/// up by identifier, and look an identifier up by URL.
///
/// The `*_calls` counters say how often each operation has run; every
/// operation bumps its own counter by one and leaves the other two alone,
/// whether it succeeds or fails.  The `failures` counter says how many
/// operations reported an error: it rises by one exactly when the
/// operation returns `Err`, so a caller's contract can state that a
/// successful run saw no port failure, and that a reported storage error
/// stands for exactly one failed operation.
pub trait Store: Sized {
    /// The rows currently stored: identifier to URL.  The default model
    /// is unspecified; a verified implementation gives its own.
    open spec fn rows(&self) -> Map<u64, Seq<char>> {
        vstd::pervasive::arbitrary()
    }

    /// How many times `insert` has been called.
    open spec fn insert_calls(&self) -> nat {
        vstd::pervasive::arbitrary()
    }

    /// How many times `find_id_by_url` has been called.
    open spec fn find_id_calls(&self) -> nat {
        vstd::pervasive::arbitrary()
    }

    /// How many times `find_url_by_id` has been called.
    open spec fn find_url_calls(&self) -> nat {
        vstd::pervasive::arbitrary()
    }

    /// How many operations have returned an error.
    open spec fn failures(&self) -> nat {
        vstd::pervasive::arbitrary()
    }

    /// Stores `url` under a freshly assigned identifier and returns the
    /// identifier; on backend failure the rows are unchanged.
    fn insert(&mut self, url: &String) -> (r: Result<u64, StoreError>)
        ensures
            final(self).insert_calls() == old(self).insert_calls() + 1,
            final(self).find_id_calls() == old(self).find_id_calls(),
            final(self).find_url_calls() == old(self).find_url_calls(),
            (match r {
                Ok(id) => !old(self).rows().dom().contains(id) && final(self).rows() == old(self).rows().insert(id, url@) && final(self).failures() == old(self).failures(),
                Err(e) => final(self).rows() == old(self).rows() && (e matches
                StoreError::Backend(_)) && final(self).failures() == old(self).failures() + 1,
            }),
    ;

    /// Returns the URL stored under `id`, `NotFound` when no row has that
    /// identifier, or a backend failure; the rows are never changed.
    fn find_url_by_id(&mut self, id: u64) -> (r: Result<String, StoreError>)
        ensures
            final(self).rows() == old(self).rows(),
            final(self).insert_calls() == old(self).insert_calls(),
            final(self).find_id_calls() == old(self).find_id_calls(),
            final(self).find_url_calls() == old(self).find_url_calls() + 1,
            (match r {
                Ok(u) => old(self).rows().contains_pair(id, u@) && final(self).failures() == old(self).failures(),
                Err(StoreError::NotFound) => !old(self).rows().dom().contains(id) && final(self).failures() == old(self).failures() + 1,
                Err(StoreError::Backend(_)) => final(self).failures() == old(self).failures() + 1,
            }),
    ;

    /// Returns some identifier whose row holds exactly `url`, `None` when
    /// no row does, or a backend failure; the rows are never changed.
    fn find_id_by_url(&mut self, url: &String) -> (r: Result<Option<u64>, StoreError>)
        ensures
            final(self).rows() == old(self).rows(),
            final(self).insert_calls() == old(self).insert_calls(),
            final(self).find_id_calls() == old(self).find_id_calls() + 1,
            final(self).find_url_calls() == old(self).find_url_calls(),
            (match r {
                Ok(Some(id)) => old(self).rows().contains_pair(id, url@) && final(self).failures() == old(self).failures(),
                Ok(None) => !url_known(old(self).rows(), url@) && final(self).failures() == old(self).failures(),
                Err(e) => (e matches StoreError::Backend(_)) && final(self).failures() == old(self).failures() + 1,
            }),
    ;
}

/// An exact operation counter that can also be read at run time: the
/// readable value saturates at `u64::MAX` while the counted total stays
/// exact.
#[derive(Clone, Copy)]
pub struct CallCounter {
    seen: u64,
    count: Ghost<nat>,
}

impl CallCounter {
    #[verifier::type_invariant]
    spec fn wf(self) -> bool {
        self.seen == if self.count@ >= u64::MAX as nat {
            u64::MAX as nat
        } else {
            self.count@
        }
    }

    /// How many times the counted operation has run.
    pub closed spec fn total(self) -> nat {
        self.count@
    }

    /// A counter at zero.
    pub fn new() -> (c: Self)
        ensures
            c.total() == 0,
    {
        CallCounter { seen: 0, count: Ghost(0) }
    }

    /// This counter, one higher.
    pub fn bumped(self) -> (c: Self)
        ensures
            c.total() == self.total() + 1,
    {
        proof {
            use_type_invariant(&self);
        }
        let seen = if self.seen < u64::MAX {
            self.seen + 1
        } else {
            u64::MAX
        };
        CallCounter { seen, count: Ghost(self.count@ + 1) }
    }

    /// The counted total, capped at `u64::MAX`.
    pub fn read(&self) -> (n: u64)
        ensures
            self.total() <= u64::MAX ==> n == self.total(),
            self.total() > u64::MAX ==> n == u64::MAX,
    {
        proof {
            use_type_invariant(&*self);
        }
        self.seen
    }
}

/// The map denoted by a sequence of `(identifier, URL)` rows; a later row
/// with the same identifier would win, though a well-formed store never
/// holds two rows with one identifier.
pub open spec fn rows_map(s: Seq<(u64, String)>) -> Map<u64, Seq<char>>
    decreases s.len(),
{
    if s.len() == 0 {
        Map::empty()
    } else {
        rows_map(s.drop_last()).insert(s.last().0, s.last().1@)
    }
}

/// Whether some row of `s` carries the identifier `x`.
pub open spec fn seq_has_id(s: Seq<(u64, String)>, x: u64) -> bool {
    exists|k: int| 0 <= k < s.len() && (#[trigger] s[k]).0 == x
}

/// Whether the identifiers of `s` are pairwise distinct.
pub open spec fn ids_distinct(s: Seq<(u64, String)>) -> bool {
    forall|k: int, l: int| 0 <= k < l < s.len() ==> (#[trigger] s[k]).0 != (#[trigger] s[l]).0
}

/// The domain of the denoted map is exactly the set of row identifiers.
proof fn lemma_rows_map_dom(s: Seq<(u64, String)>)
    ensures
        forall|x: u64| #[trigger] rows_map(s).dom().contains(x) <==> seq_has_id(s, x),
    decreases s.len(),
{
    if s.len() > 0 {
        let t = s.drop_last();
        let p = s.last();
        lemma_rows_map_dom(t);
        assert forall|x: u64| #[trigger] rows_map(s).dom().contains(x) implies seq_has_id(s, x) by {
            if x == p.0 {
                assert((s[s.len() - 1]).0 == x);
            } else {
                assert(rows_map(t).dom().contains(x));
                assert(seq_has_id(t, x));
                let k = choose|k: int| 0 <= k < t.len() && (#[trigger] t[k]).0 == x;
                assert(s[k] == t[k]);
                assert((s[k]).0 == x);
            }
        }
        assert forall|x: u64| seq_has_id(s, x) implies #[trigger] rows_map(s).dom().contains(x) by {
            let k = choose|k: int| 0 <= k < s.len() && (#[trigger] s[k]).0 == x;
            if k < s.len() - 1 {
                assert((t[k]).0 == x);
                assert(seq_has_id(t, x));
                assert(rows_map(t).dom().contains(x));
            }
        }
    }
}

/// Under distinct identifiers, each row of `s` stands in the denoted map.
proof fn lemma_rows_map_at(s: Seq<(u64, String)>, k: int)
    requires
        ids_distinct(s),
        0 <= k < s.len(),
    ensures
        rows_map(s).contains_pair(s[k].0, s[k].1@),
    decreases s.len(),
{
    let t = s.drop_last();
    if k < s.len() - 1 {
        assert(ids_distinct(t));
        lemma_rows_map_at(t, k);
        assert(s[k] == t[k]);
    }
}

/// Every pair of the denoted map comes from some row of `s`.
proof fn lemma_rows_map_pairs(s: Seq<(u64, String)>)
    ensures
        forall|id: u64, u: Seq<char>|
            #[trigger] rows_map(s).contains_pair(id, u) ==> exists|k: int|
                0 <= k < s.len() && (#[trigger] s[k]).0 == id && s[k].1@ == u,
    decreases s.len(),
{
    if s.len() > 0 {
        let t = s.drop_last();
        lemma_rows_map_pairs(t);
        assert forall|id: u64, u: Seq<char>| #[trigger] rows_map(s).contains_pair(id, u) implies
        exists|k: int| 0 <= k < s.len() && (#[trigger] s[k]).0 == id && s[k].1@ == u by {
            if id == s.last().0 && u == s.last().1@ {
                assert((s[s.len() - 1]).0 == id && s[s.len() - 1].1@ == u);
            } else {
                assert(rows_map(t).contains_pair(id, u));
                let k = choose|k: int|
                    0 <= k < t.len() && (#[trigger] t[k]).0 == id && t[k].1@ == u;
                assert((s[k]).0 == id && s[k].1@ == u);
            }
        }
    }
}

/// Under distinct identifiers, the denoted map has one entry per row.
proof fn lemma_rows_map_len(s: Seq<(u64, String)>)
    requires
        ids_distinct(s),
    ensures
        rows_map(s).dom().finite(),
        rows_map(s).len() == s.len(),
    decreases s.len(),
{
    if s.len() > 0 {
        let t = s.drop_last();
        assert(ids_distinct(t));
        lemma_rows_map_len(t);
        lemma_rows_map_dom(t);
        assert(!seq_has_id(t, s.last().0));
        assert(rows_map(s).dom() =~= rows_map(t).dom().insert(s.last().0));
    }
}

/// An in-memory store: rows in a vector, identifiers minted from a counter
/// starting at 1, as an auto-incrementing backend would.  Never fails,
/// except when the identifier space is exhausted.
pub struct MemStore {
    entries: Vec<(u64, String)>,
    next_id: u64,
    inserts: CallCounter,
    id_lookups: CallCounter,
    url_lookups: CallCounter,
    fails: CallCounter,
}

impl MemStore {
    #[verifier::type_invariant]
    spec fn wf(self) -> bool {
        &&& ids_distinct(self.entries@)
        &&& forall|k: int|
            0 <= k < self.entries@.len() ==> (#[trigger] self.entries@[k]).0 < self.next_id
    }

    /// Whether the identifier space is used up; the one state in which
    /// `insert` fails.
    pub closed spec fn exhausted(&self) -> bool {
        self.next_id == u64::MAX
    }

    /// An empty store.
    pub fn new() -> (s: Self)
        ensures
            s.rows() == Map::<u64, Seq<char>>::empty(),
            s.insert_calls() == 0,
            s.find_id_calls() == 0,
            s.find_url_calls() == 0,
            s.failures() == 0,
            !s.exhausted(),
    {
        MemStore {
            entries: Vec::new(),
            next_id: 1,
            inserts: CallCounter::new(),
            id_lookups: CallCounter::new(),
            url_lookups: CallCounter::new(),
            fails: CallCounter::new(),
        }
    }

    /// How many rows the store holds.
    pub fn row_count(&self) -> (n: usize)
        ensures
            n == self.rows().len(),
    {
        proof {
            use_type_invariant(&*self);
            lemma_rows_map_len(self.entries@);
        }
        self.entries.len()
    }

    /// How many times `insert` has been called, capped at `u64::MAX`.
    pub fn insert_call_count(&self) -> (n: u64)
        ensures
            self.insert_calls() <= u64::MAX ==> n == self.insert_calls(),
    {
        self.inserts.read()
    }

    /// How many times `find_id_by_url` has been called, capped at
    /// `u64::MAX`.
    pub fn find_id_call_count(&self) -> (n: u64)
        ensures
            self.find_id_calls() <= u64::MAX ==> n == self.find_id_calls(),
    {
        self.id_lookups.read()
    }

    /// How many times `find_url_by_id` has been called, capped at
    /// `u64::MAX`.
    pub fn find_url_call_count(&self) -> (n: u64)
        ensures
            self.find_url_calls() <= u64::MAX ==> n == self.find_url_calls(),
    {
        self.url_lookups.read()
    }

    /// How many operations have returned an error, capped at `u64::MAX`.
    pub fn failure_count(&self) -> (n: u64)
        ensures
            self.failures() <= u64::MAX ==> n == self.failures(),
    {
        self.fails.read()
    }
}

impl Store for MemStore {
    closed spec fn rows(&self) -> Map<u64, Seq<char>> {
        rows_map(self.entries@)
    }

    closed spec fn insert_calls(&self) -> nat {
        self.inserts.total()
    }

    closed spec fn find_id_calls(&self) -> nat {
        self.id_lookups.total()
    }

    closed spec fn find_url_calls(&self) -> nat {
        self.url_lookups.total()
    }

    closed spec fn failures(&self) -> nat {
        self.fails.total()
    }

    fn insert(&mut self, url: &String) -> (r: Result<u64, StoreError>)
        ensures
            (r matches Err(_)) <==> old(self).exhausted(),
    {
        proof {
            use_type_invariant(&*self);
        }
        self.inserts = self.inserts.bumped();
        if self.next_id == u64::MAX {
            self.fails = self.fails.bumped();
            return Err(StoreError::Backend("identifier space exhausted".to_owned()));
        }
        let id = self.next_id;
        proof {
            lemma_rows_map_dom(self.entries@);
        }
        self.next_id = id + 1;
        let mut entries: Vec<(u64, String)> = Vec::new();
        core::mem::swap(&mut entries, &mut self.entries);
        let ghost prev = entries@;
        entries.push((id, url.clone()));
        proof {
            assert(entries@.drop_last() =~= prev);
        }
        core::mem::swap(&mut entries, &mut self.entries);
        Ok(id)
    }

    fn find_url_by_id(&mut self, id: u64) -> (r: Result<String, StoreError>)
        ensures
            (r matches Ok(_)) <==> old(self).rows().dom().contains(id),
            r matches Err(e) ==> e matches StoreError::NotFound,
    {
        proof {
            use_type_invariant(&*self);
        }
        self.url_lookups = self.url_lookups.bumped();
        let ghost s = self.entries@;
        let mut k: usize = 0;
        while k < self.entries.len()
            invariant
                k <= s.len(),
                s == old(self).entries@,
                self.entries@ == s,
                self.next_id == old(self).next_id,
                self.inserts == old(self).inserts,
                self.id_lookups == old(self).id_lookups,
                self.fails == old(self).fails,
                self.url_lookups.total() == old(self).url_lookups.total() + 1,
                ids_distinct(s),
                forall|j: int| 0 <= j < k ==> (#[trigger] s[j]).0 != id,
            decreases s.len() - k,
        {
            let row = &self.entries[k];
            if row.0 == id {
                proof {
                    lemma_rows_map_at(s, k as int);
                }
                return Ok(row.1.clone());
            }
            k = k + 1;
        }
        proof {
            lemma_rows_map_dom(s);
        }
        self.fails = self.fails.bumped();
        Err(StoreError::NotFound)
    }

    fn find_id_by_url(&mut self, url: &String) -> (r: Result<Option<u64>, StoreError>)
        ensures
            r matches Ok(_),
            (r matches Ok(Some(_))) <==> url_known(old(self).rows(), url@),
    {
        proof {
            use_type_invariant(&*self);
        }
        self.id_lookups = self.id_lookups.bumped();
        let ghost s = self.entries@;
        let mut k: usize = 0;
        while k < self.entries.len()
            invariant
                k <= s.len(),
                s == old(self).entries@,
                self.entries@ == s,
                self.next_id == old(self).next_id,
                self.inserts == old(self).inserts,
                self.url_lookups == old(self).url_lookups,
                self.fails == old(self).fails,
                self.id_lookups.total() == old(self).id_lookups.total() + 1,
                ids_distinct(s),
                forall|j: int| 0 <= j < k ==> (#[trigger] s[j]).1@ != url@,
            decreases s.len() - k,
        {
            let row = &self.entries[k];
            if row.1 == *url {
                proof {
                    lemma_rows_map_at(s, k as int);
                }
                return Ok(Some(row.0));
            }
            k = k + 1;
        }
        proof {
            lemma_rows_map_pairs(s);
        }
        Ok(None)
    }
}

} // verus!
