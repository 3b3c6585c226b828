//! The verification-status store: the per-identity workflow state.
//!
//! A record is a tagged union with exactly one active variant per
//! identity; the absence of a key means no workflow has started.  The
//! store offers the primitive operations only; all transition logic
//! lives in the engine, which keeps persistence concerns orthogonal to
//! workflow correctness.

use vstd::prelude::*;

verus! {

/// The per-identity verification workflow state.
pub enum VerificationRecord {
    /// A greeting was sent; the message reference allows an idempotent
    /// re-lookup.
    Greeted { message_ref: u64 },
    /// Mid-questionnaire: one answer per completed question so far, and
    /// the index of the next unanswered question.
    Pending { answers: Vec<String>, next_index: usize },
    /// Terminal success.
    Verified,
    /// Terminal failure; no further automatic action.
    Rejected,
}

/// The mathematical value of a record.
pub enum RecordV {
    Greeted { message_ref: u64 },
    Pending { answers: Seq<Seq<char>>, next_index: int },
    Verified,
    Rejected,
}

impl View for VerificationRecord {
    type V = RecordV;

    open spec fn view(&self) -> RecordV {
        match self {
            VerificationRecord::Greeted { message_ref } => RecordV::Greeted {
                message_ref: *message_ref,
            },
            VerificationRecord::Pending { answers, next_index } => RecordV::Pending {
                answers: answers.deep_view(),
                next_index: *next_index as int,
            },
            VerificationRecord::Verified => RecordV::Verified,
            VerificationRecord::Rejected => RecordV::Rejected,
        }
    }
}

/// An exact copy of a vector of strings.
pub(crate) fn clone_strings(v: &Vec<String>) -> (r: Vec<String>)
    ensures
        r.deep_view() == v.deep_view(),
{
    let n = v.len();
    let mut out: Vec<String> = Vec::new();
    let mut i: usize = 0;
    while i < n
        invariant
            i <= n,
            n == v@.len(),
            out@.len() == i,
            forall|j: int| 0 <= j < i ==> out@[j]@ == #[trigger] v@[j]@,
        decreases n - i,
    {
        out.push(v[i].clone());
        i += 1;
    }
    proof {
        assert(out.deep_view() =~= v.deep_view());
    }
    out
}

/// Whether two vectors of strings hold the same strings.
pub(crate) fn strings_eq(a: &Vec<String>, b: &Vec<String>) -> (r: bool)
    ensures
        r == (a.deep_view() == b.deep_view()),
{
    let n = a.len();
    if n != b.len() {
        proof {
            assert(a.deep_view().len() == a@.len());
            assert(b.deep_view().len() == b@.len());
        }
        return false;
    }
    let mut i: usize = 0;
    while i < n
        invariant
            i <= n,
            n == a@.len(),
            n == b@.len(),
            forall|j: int| 0 <= j < i ==> a@[j]@ == #[trigger] b@[j]@,
        decreases n - i,
    {
        if !(a[i] == b[i]) {
            proof {
                assert(a.deep_view()[i as int] != b.deep_view()[i as int]);
            }
            return false;
        }
        i += 1;
    }
    proof {
        assert(a.deep_view() =~= b.deep_view());
    }
    true
}

/// An exact copy of a record.
pub fn clone_record(r: &VerificationRecord) -> (res: VerificationRecord)
    ensures
        res@ == r@,
{
    match r {
        VerificationRecord::Greeted { message_ref } => VerificationRecord::Greeted {
            message_ref: *message_ref,
        },
        VerificationRecord::Pending { answers, next_index } => VerificationRecord::Pending {
            answers: clone_strings(answers),
            next_index: *next_index,
        },
        VerificationRecord::Verified => VerificationRecord::Verified,
        VerificationRecord::Rejected => VerificationRecord::Rejected,
    }
}

/// Whether two records hold the same workflow state.
pub fn record_eq(a: &VerificationRecord, b: &VerificationRecord) -> (r: bool)
    ensures
        r == (a@ == b@),
{
    match (a, b) {
        (
            VerificationRecord::Greeted { message_ref: x },
            VerificationRecord::Greeted { message_ref: y },
        ) => *x == *y,
        (
            VerificationRecord::Pending { answers: xa, next_index: xi },
            VerificationRecord::Pending { answers: ya, next_index: yi },
        ) => *xi == *yi && strings_eq(xa, ya),
        (VerificationRecord::Verified, VerificationRecord::Verified) => true,
        (VerificationRecord::Rejected, VerificationRecord::Rejected) => true,
        _ => false,
    }
}

/// No identity occurs twice among the entries.
pub open spec fn recs_keys_distinct(s: Seq<(u64, VerificationRecord)>) -> bool {
    forall|i: int, j: int| 0 <= i < j < s.len() ==> (#[trigger] s[i]).0 != (#[trigger] s[j]).0
}

/// The mapping that a sequence of entries denotes; a later entry for the
/// same identity wins.
pub open spec fn recs_map(s: Seq<(u64, VerificationRecord)>) -> Map<u64, RecordV>
    decreases s.len(),
{
    if s.len() == 0 {
        Map::empty()
    } else {
        recs_map(s.drop_last()).insert(s.last().0, s.last().1@)
    }
}

/// An identity is in the denoted mapping exactly when some entry carries it.
pub proof fn lemma_recs_map_domain(s: Seq<(u64, VerificationRecord)>, k: u64)
    ensures
        recs_map(s).contains_key(k) <==> exists|i: int| 0 <= i < s.len() && (#[trigger] s[i]).0 == k,
    decreases s.len(),
{
    if s.len() > 0 {
        lemma_recs_map_domain(s.drop_last(), k);
        if s.last().0 == k {
            assert(s[s.len() - 1].0 == k);
        } else {
            assert(forall|i: int| 0 <= i < s.len() - 1 ==> s.drop_last()[i] == s[i]);
        }
    }
}

/// With distinct keys, the entry holding an identity gives its record.
pub proof fn lemma_recs_map_at(s: Seq<(u64, VerificationRecord)>, i: int)
    requires
        recs_keys_distinct(s),
        0 <= i < s.len(),
    ensures
        recs_map(s).contains_key(s[i].0),
        recs_map(s)[s[i].0] == s[i].1@,
    decreases s.len(),
{
    if i == s.len() - 1 {
    } else {
        assert(recs_keys_distinct(s.drop_last()));
        assert(s.drop_last()[i] == s[i]);
        lemma_recs_map_at(s.drop_last(), i);
        assert(s.last().0 != s[i].0);
    }
}

/// Replacing the record of the entry that holds an identity updates the
/// denoted mapping at that identity alone.
proof fn lemma_recs_map_update(s: Seq<(u64, VerificationRecord)>, i: int, v: VerificationRecord)
    requires
        recs_keys_distinct(s),
        0 <= i < s.len(),
    ensures
        recs_keys_distinct(s.update(i, (s[i].0, v))),
        recs_map(s.update(i, (s[i].0, v))) == recs_map(s).insert(s[i].0, v@),
    decreases s.len(),
{
    let t = s.update(i, (s[i].0, v));
    assert(forall|j: int| 0 <= j < s.len() && j != i ==> t[j] == s[j]);
    if i == s.len() - 1 {
        assert(t.drop_last() =~= s.drop_last());
        assert(recs_map(t) =~= recs_map(s).insert(s[i].0, v@));
    } else {
        assert(t.drop_last() =~= s.drop_last().update(i, (s[i].0, v)));
        assert(recs_keys_distinct(s.drop_last()));
        assert(s.drop_last()[i] == s[i]);
        lemma_recs_map_update(s.drop_last(), i, v);
        assert(t.last() == s.last());
        assert(recs_map(t) =~= recs_map(s).insert(s[i].0, v@));
    }
}

/// Removing the entry that holds an identity removes that identity from
/// the denoted mapping and nothing else.
proof fn lemma_recs_map_remove(s: Seq<(u64, VerificationRecord)>, i: int)
    requires
        recs_keys_distinct(s),
        0 <= i < s.len(),
    ensures
        recs_keys_distinct(s.remove(i)),
        recs_map(s.remove(i)) == recs_map(s).remove(s[i].0),
    decreases s.len(),
{
    let t = s.remove(i);
    assert(forall|j: int| 0 <= j < i ==> t[j] == s[j]);
    assert(forall|j: int| i <= j < t.len() ==> t[j] == s[j + 1]);
    if i == s.len() - 1 {
        assert(t =~= s.drop_last());
        lemma_recs_map_domain(s.drop_last(), s[i].0);
        assert(!recs_map(s.drop_last()).contains_key(s[i].0));
        assert(recs_map(s.drop_last()).remove(s[i].0) =~= recs_map(s.drop_last()));
        assert(recs_map(s).remove(s[i].0) =~= recs_map(s.drop_last()));
    } else {
        assert(recs_keys_distinct(s.drop_last()));
        assert(s.drop_last()[i] == s[i]);
        lemma_recs_map_remove(s.drop_last(), i);
        assert(t.drop_last() =~= s.drop_last().remove(i));
        assert(t.last() == s.last());
        assert(recs_map(t) =~= recs_map(s).remove(s[i].0));
    }
}

/// The identity-to-record mapping.
pub struct StatusStore {
    entries: Vec<(u64, VerificationRecord)>,
}

impl StatusStore {
    /// The stored entries, in insertion order.
    pub closed spec fn pairs(&self) -> Seq<(u64, VerificationRecord)> {
        self.entries@
    }

    /// Each identity has at most one entry.
    pub open spec fn wf(&self) -> bool {
        recs_keys_distinct(self.pairs())
    }

    /// The mapping the store denotes.
    pub open spec fn as_map(&self) -> Map<u64, RecordV> {
        recs_map(self.pairs())
    }

    /// The record of an identity, or absence.
    pub open spec fn status_of(&self, identity: u64) -> Option<RecordV> {
        if self.as_map().contains_key(identity) {
            Some(self.as_map()[identity])
        } else {
            None
        }
    }

    /// Creates an empty store.
    pub fn new() -> (r: StatusStore)
        ensures
            r.wf(),
            r.as_map() == Map::<u64, RecordV>::empty(),
    {
        StatusStore { entries: Vec::new() }
    }

    /// The index of the entry holding an identity, if any.
    fn find(&self, identity: u64) -> (r: Option<usize>)
        ensures
            match r {
                Some(i) => i < self.pairs().len() && self.pairs()[i as int].0 == identity,
                None => forall|j: int|
                    0 <= j < self.pairs().len() ==> (#[trigger] self.pairs()[j]).0 != identity,
            },
    {
        let n = self.entries.len();
        let mut i: usize = 0;
        while i < n
            invariant
                i <= n,
                n == self.pairs().len(),
                forall|j: int| 0 <= j < i ==> (#[trigger] self.pairs()[j]).0 != identity,
            decreases n - i,
        {
            if self.entries[i].0 == identity {
                return Some(i);
            }
            i += 1;
        }
        None
    }

    /// Sets or overwrites the record of an identity.  Returns whether the
    /// stored record actually changed; only a change needs to be
    /// persisted.
    pub fn set_status(&mut self, identity: u64, record: VerificationRecord) -> (changed: bool)
        requires
            old(self).wf(),
        ensures
            final(self).wf(),
            final(self).as_map() == old(self).as_map().insert(identity, record@),
            changed == !(old(self).as_map().contains_key(identity)
                && old(self).as_map()[identity] == record@),
    {
        let found = self.find(identity);
        match found {
            Some(i) => {
                proof {
                    lemma_recs_map_at(self.pairs(), i as int);
                }
                if record_eq(&self.entries[i].1, &record) {
                    proof {
                        assert(old(self).as_map().insert(identity, record@)
                            =~= old(self).as_map());
                    }
                    false
                } else {
                    proof {
                        lemma_recs_map_update(self.pairs(), i as int, record);
                    }
                    self.entries.set(i, (identity, record));
                    true
                }
            },
            None => {
                proof {
                    lemma_recs_map_domain(self.pairs(), identity);
                }
                self.entries.push((identity, record));
                proof {
                    assert(self.pairs().drop_last() =~= old(self).pairs());
                    assert(forall|i: int, j: int|
                        0 <= i < j < self.pairs().len() ==> (#[trigger] self.pairs()[i]).0
                            != (#[trigger] self.pairs()[j]).0);
                }
                true
            },
        }
    }

    /// The record of an identity, if any.
    pub fn get_status(&self, identity: u64) -> (r: Option<VerificationRecord>)
        requires
            self.wf(),
        ensures
            r is Some <==> self.as_map().contains_key(identity),
            r is Some ==> r->0@ == self.as_map()[identity],
    {
        let found = self.find(identity);
        proof {
            lemma_recs_map_domain(self.pairs(), identity);
        }
        match found {
            Some(i) => {
                proof {
                    lemma_recs_map_at(self.pairs(), i as int);
                }
                Some(clone_record(&self.entries[i].1))
            },
            None => None,
        }
    }

    /// Removes the record of an identity, if present; a removal needs to
    /// be persisted.
    pub fn remove(&mut self, identity: u64) -> (removed: bool)
        requires
            old(self).wf(),
        ensures
            final(self).wf(),
            final(self).as_map() == old(self).as_map().remove(identity),
            removed == old(self).as_map().contains_key(identity),
    {
        let found = self.find(identity);
        proof {
            lemma_recs_map_domain(self.pairs(), identity);
        }
        match found {
            Some(i) => {
                proof {
                    lemma_recs_map_remove(self.pairs(), i as int);
                }
                self.entries.remove(i);
                true
            },
            None => {
                proof {
                    assert(old(self).as_map().remove(identity) =~= old(self).as_map());
                }
                false
            },
        }
    }

    /// The number of identities with a record.
    pub fn len(&self) -> (r: usize)
        ensures
            r == self.pairs().len(),
    {
        self.entries.len()
    }

    /// A snapshot of the entries, for writing the durable form.
    pub fn to_pairs(&self) -> (r: Vec<(u64, VerificationRecord)>)
        ensures
            r@.len() == self.pairs().len(),
            forall|i: int|
                0 <= i < r@.len() ==> (#[trigger] r@[i]).0 == self.pairs()[i].0 && r@[i].1@
                    == self.pairs()[i].1@,
    {
        let n = self.entries.len();
        let mut out: Vec<(u64, VerificationRecord)> = Vec::new();
        let mut i: usize = 0;
        while i < n
            invariant
                i <= n,
                n == self.pairs().len(),
                out@.len() == i,
                forall|j: int|
                    0 <= j < i ==> (#[trigger] out@[j]).0 == self.pairs()[j].0 && out@[j].1@
                        == self.pairs()[j].1@,
            decreases n - i,
        {
            out.push((self.entries[i].0, clone_record(&self.entries[i].1)));
            i += 1;
        }
        out
    }

    /// Builds a store from parsed durable entries; a later entry for the
    /// same identity wins, as in the structured map the file holds.
    pub fn from_pairs(pairs: &Vec<(u64, VerificationRecord)>) -> (r: StatusStore)
        ensures
            r.wf(),
            r.as_map() == recs_map(pairs@),
    {
        let mut store = StatusStore::new();
        let n = pairs.len();
        let mut i: usize = 0;
        while i < n
            invariant
                i <= n,
                n == pairs@.len(),
                store.wf(),
                store.as_map() == recs_map(pairs@.subrange(0, i as int)),
            decreases n - i,
        {
            let ghost pre = pairs@.subrange(0, i as int);
            let ghost cur = pairs@.subrange(0, i + 1);
            store.set_status(pairs[i].0, clone_record(&pairs[i].1));
            proof {
                assert(cur.drop_last() =~= pre);
                assert(cur.last() == pairs@[i as int]);
            }
            i += 1;
        }
        proof {
            assert(pairs@.subrange(0, n as int) =~= pairs@);
        }
        store
    }
}

} // verus!
