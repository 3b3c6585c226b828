//! The identity store: a bidirectional mapping between an external user
//! identity and an internal ckey.
//!
//! The store keeps its entries in insertion order with one entry per
//! identity.  It is persisted as a structured (RON) key-to-string map;
//! [`IdentityStore::render_text`] produces the durable form and
//! [`IdentityStore::load_text`] replaces the contents from it.  Reading
//! and writing the file itself is the embedding program's work.

use vstd::prelude::*;

use crate::ckey::{normalize, Ckey};

verus! {

/// No identity occurs twice among the entries.
pub open spec fn pairs_keys_distinct(s: Seq<(u64, String)>) -> bool {
    forall|i: int, j: int| 0 <= i < j < s.len() ==> (#[trigger] s[i]).0 != (#[trigger] s[j]).0
}

/// The mapping that a sequence of entries denotes; a later entry for the
/// same identity wins.
pub open spec fn pairs_map(s: Seq<(u64, String)>) -> Map<u64, Seq<char>>
    decreases s.len(),
{
    if s.len() == 0 {
        Map::empty()
    } else {
        pairs_map(s.drop_last()).insert(s.last().0, s.last().1@)
    }
}

/// An identity is in the denoted mapping exactly when some entry carries it.
pub proof fn lemma_pairs_map_domain(s: Seq<(u64, String)>, k: u64)
    ensures
        pairs_map(s).contains_key(k) <==> exists|i: int| 0 <= i < s.len() && (#[trigger] s[i]).0 == k,
    decreases s.len(),
{
    if s.len() > 0 {
        lemma_pairs_map_domain(s.drop_last(), k);
        if s.last().0 == k {
            assert(s[s.len() - 1].0 == k);
        } else {
            assert(forall|i: int| 0 <= i < s.len() - 1 ==> s.drop_last()[i] == s[i]);
        }
    }
}

/// With distinct keys, the entry holding an identity gives its mapped value.
pub proof fn lemma_pairs_map_at(s: Seq<(u64, String)>, i: int)
    requires
        pairs_keys_distinct(s),
        0 <= i < s.len(),
    ensures
        pairs_map(s).contains_key(s[i].0),
        pairs_map(s)[s[i].0] == s[i].1@,
    decreases s.len(),
{
    if i == s.len() - 1 {
    } else {
        assert(pairs_keys_distinct(s.drop_last()));
        assert(s.drop_last()[i] == s[i]);
        lemma_pairs_map_at(s.drop_last(), i);
        assert(s.last().0 != s[i].0);
    }
}

/// Replacing the value of the entry that holds an identity updates the
/// denoted mapping at that identity alone.
proof fn lemma_pairs_map_update(s: Seq<(u64, String)>, i: int, v: String)
    requires
        pairs_keys_distinct(s),
        0 <= i < s.len(),
    ensures
        pairs_keys_distinct(s.update(i, (s[i].0, v))),
        pairs_map(s.update(i, (s[i].0, v))) == pairs_map(s).insert(s[i].0, v@),
    decreases s.len(),
{
    let t = s.update(i, (s[i].0, v));
    assert(t.len() == s.len());
    assert(forall|j: int| 0 <= j < s.len() && j != i ==> t[j] == s[j]);
    if i == s.len() - 1 {
        assert(t.drop_last() =~= s.drop_last());
        assert(pairs_map(t) =~= pairs_map(s).insert(s[i].0, v@));
    } else {
        assert(t.drop_last() =~= s.drop_last().update(i, (s[i].0, v)));
        assert(pairs_keys_distinct(s.drop_last()));
        assert(s.drop_last()[i] == s[i]);
        lemma_pairs_map_update(s.drop_last(), i, v);
        assert(t.last() == s.last());
        assert(pairs_map(t) =~= pairs_map(s).insert(s[i].0, v@));
    }
}

/// Removing the entry that holds an identity removes that identity from
/// the denoted mapping and nothing else.
proof fn lemma_pairs_map_remove(s: Seq<(u64, String)>, i: int)
    requires
        pairs_keys_distinct(s),
        0 <= i < s.len(),
    ensures
        pairs_keys_distinct(s.remove(i)),
        pairs_map(s.remove(i)) == pairs_map(s).remove(s[i].0),
    decreases s.len(),
{
    let t = s.remove(i);
    assert(forall|j: int| 0 <= j < i ==> t[j] == s[j]);
    assert(forall|j: int| i <= j < t.len() ==> t[j] == s[j + 1]);
    if i == s.len() - 1 {
        assert(t =~= s.drop_last());
        lemma_pairs_map_domain(s.drop_last(), s[i].0);
        assert(!pairs_map(s.drop_last()).contains_key(s[i].0));
        assert(pairs_map(s.drop_last()).remove(s[i].0) =~= pairs_map(s.drop_last()));
        assert(pairs_map(s).remove(s[i].0) =~= pairs_map(s.drop_last()));
    } else {
        assert(pairs_keys_distinct(s.drop_last()));
        assert(s.drop_last()[i] == s[i]);
        lemma_pairs_map_remove(s.drop_last(), i);
        assert(t.drop_last() =~= s.drop_last().remove(i));
        assert(t.last() == s.last());
        assert(pairs_map(t) =~= pairs_map(s).remove(s[i].0));
    }
}

/// What can go wrong around the durable form of the identity store.
#[derive(Debug)]
pub enum IdentityStoreError {
    /// The durable text was malformed; the in-memory state is untouched.
    ParseFailure(ron::error::SpannedError),
    /// The durable text could not be produced.
    PersistFailure(ron::Error),
}

#[verifier::external_type_specification]
#[verifier::external_body]
pub struct ExRonError(ron::Error);

#[verifier::external_type_specification]
#[verifier::external_body]
pub struct ExRonSpannedError(ron::error::SpannedError);

/// The text ron::ser::to_string writes for an integer-to-string map: a
/// function of the denoted mapping alone, since the entries are keyed
/// into an ordered map before the call.
pub uninterp spec fn ron_map_text(m: Map<u64, Seq<char>>) -> Seq<char>;

/// What ron::de::from_str makes of a text read as an integer-to-string
/// map: the denoted mapping, or nothing where the text is malformed; a
/// function of the text alone.
pub uninterp spec fn ron_map_parse(text: Seq<char>) -> Option<Map<u64, Seq<char>>>;

/// Relies on ron::ser::to_string: serializes the entries as a RON map of
/// integer keys to strings.  The call cannot fail for this shape: with
/// no pretty configuration the serializer is built without a check, the
/// writer is a String, whose formatting never errors, integers and
/// strings serialize without an error path, and the nesting stays far
/// below the recursion limit.
#[verifier::external_body]
fn encode_pairs(entries: &Vec<(u64, String)>) -> (r: Result<String, ron::Error>)
    requires
        pairs_keys_distinct(entries@),
    ensures
        r is Ok,
        r matches Ok(text) ==> text@ == ron_map_text(pairs_map(entries@)),
{
    let map: std::collections::BTreeMap<u64, &String> =
        entries.iter().map(|e| (e.0, &e.1)).collect();
    ron::ser::to_string(&map)
}

/// Relies on ron::de::from_str: parses a RON map of integer keys to
/// strings.  The parse depends on the text alone and errors exactly on
/// text it does not accept as such a map; a map cannot hold a key
/// twice, so the returned entries have distinct keys and denote the
/// parsed mapping.
#[verifier::external_body]
fn decode_pairs(text: &str) -> (r: Result<Vec<(u64, String)>, ron::error::SpannedError>)
    ensures
        r is Ok <==> ron_map_parse(text@) is Some,
        r matches Ok(pairs) ==> pairs_keys_distinct(pairs@) && pairs_map(pairs@)
            == ron_map_parse(text@)->0,
{
    ron::de::from_str::<std::collections::BTreeMap<u64, String>>(text)
        .map(|m| m.into_iter().collect())
}

/// No entry among the first `n` maps to the value `v`.
pub open spec fn no_value_before(s: Seq<(u64, String)>, v: Seq<char>, n: int) -> bool {
    forall|j: int| 0 <= j < n ==> (#[trigger] s[j]).1@ != v
}

/// The identity-to-ckey mapping.
pub struct IdentityStore {
    entries: Vec<(u64, String)>,
}

impl IdentityStore {
    /// The stored entries, in insertion order.
    pub closed spec fn pairs(&self) -> Seq<(u64, String)> {
        self.entries@
    }

    /// Each identity has at most one entry.
    pub open spec fn wf(&self) -> bool {
        pairs_keys_distinct(self.pairs())
    }

    /// The mapping the store denotes.
    pub open spec fn as_map(&self) -> Map<u64, Seq<char>> {
        pairs_map(self.pairs())
    }

    /// Creates an empty store.
    pub fn new() -> (r: IdentityStore)
        ensures
            r.wf(),
            r.as_map() == Map::<u64, Seq<char>>::empty(),
    {
        IdentityStore { entries: Vec::new() }
    }

    /// The index of the entry holding an identity, if any.
    fn find(&self, identity: u64) -> (r: Option<usize>)
        ensures
            match r {
                Some(i) => i < self.pairs().len() && self.pairs()[i as int].0 == identity,
                None => forall|j: int|
                    0 <= j < self.pairs().len() ==> (#[trigger] self.pairs()[j]).0 != identity,
            },
    {
        let n = self.entries.len();
        let mut i: usize = 0;
        while i < n
            invariant
                i <= n,
                n == self.pairs().len(),
                forall|j: int| 0 <= j < i ==> (#[trigger] self.pairs()[j]).0 != identity,
            decreases n - i,
        {
            if self.entries[i].0 == identity {
                return Some(i);
            }
            i += 1;
        }
        None
    }

    /// Sets or overwrites the ckey an identity maps to.  Returns whether
    /// the stored value actually changed; only a change needs to be
    /// persisted.
    pub fn insert(&mut self, identity: u64, ckey: &Ckey) -> (changed: bool)
        requires
            old(self).wf(),
        ensures
            final(self).wf(),
            final(self).as_map() == old(self).as_map().insert(identity, ckey@),
            changed == !(old(self).as_map().contains_key(identity)
                && old(self).as_map()[identity] == ckey@),
            !old(self).as_map().contains_key(identity) ==> final(self).pairs()
                == old(self).pairs().push(final(self).pairs().last())
                && final(self).pairs().last().0 == identity
                && final(self).pairs().last().1@ == ckey@,
            old(self).as_map().contains_key(identity) ==> final(self).pairs().len()
                == old(self).pairs().len() && forall|j: int|
                0 <= j < old(self).pairs().len() ==> (#[trigger] final(self).pairs()[j]).0
                    == old(self).pairs()[j].0 && (old(self).pairs()[j].0 != identity
                    ==> final(self).pairs()[j] == old(self).pairs()[j]) && (old(self).pairs()[j].0
                    == identity ==> final(self).pairs()[j].1@ == ckey@),
    {
        let value = ckey.as_str().to_owned();
        let found = self.find(identity);
        match found {
            Some(i) => {
                proof {
                    lemma_pairs_map_at(self.pairs(), i as int);
                }
                if self.entries[i].1 == value {
                    proof {
                        assert(old(self).as_map().insert(identity, ckey@)
                            =~= old(self).as_map());
                    }
                    false
                } else {
                    proof {
                        lemma_pairs_map_update(self.pairs(), i as int, value);
                    }
                    self.entries.set(i, (identity, value));
                    true
                }
            },
            None => {
                proof {
                    lemma_pairs_map_domain(self.pairs(), identity);
                }
                self.entries.push((identity, value));
                proof {
                    assert(self.pairs().drop_last() =~= old(self).pairs());
                    assert(forall|i: int, j: int|
                        0 <= i < j < self.pairs().len() ==> (#[trigger] self.pairs()[i]).0
                            != (#[trigger] self.pairs()[j]).0);
                }
                true
            },
        }
    }

    /// Removes the entry for an identity, if present; a removal needs to
    /// be persisted.
    pub fn remove(&mut self, identity: u64) -> (removed: bool)
        requires
            old(self).wf(),
        ensures
            final(self).wf(),
            final(self).as_map() == old(self).as_map().remove(identity),
            removed == old(self).as_map().contains_key(identity),
            !removed ==> final(self).pairs() == old(self).pairs(),
            removed ==> exists|i: int|
                0 <= i < old(self).pairs().len() && (#[trigger] old(self).pairs()[i]).0 == identity
                    && final(self).pairs() == old(self).pairs().remove(i),
    {
        let found = self.find(identity);
        proof {
            lemma_pairs_map_domain(self.pairs(), identity);
        }
        match found {
            Some(i) => {
                proof {
                    lemma_pairs_map_remove(self.pairs(), i as int);
                }
                self.entries.remove(i);
                true
            },
            None => {
                proof {
                    assert(old(self).as_map().remove(identity) =~= old(self).as_map());
                }
                false
            },
        }
    }

    /// The ckey an identity maps to, if any, re-normalized on the way out.
    pub fn lookup_ckey(&self, identity: u64) -> (r: Option<Ckey>)
        requires
            self.wf(),
        ensures
            r is Some <==> self.as_map().contains_key(identity),
            r is Some ==> r->0@ == normalize(self.as_map()[identity]),
    {
        let found = self.find(identity);
        proof {
            lemma_pairs_map_domain(self.pairs(), identity);
        }
        match found {
            Some(i) => {
                proof {
                    lemma_pairs_map_at(self.pairs(), i as int);
                }
                Some(Ckey::new(self.entries[i].1.as_str()))
            },
            None => None,
        }
    }

    /// The first identity (in insertion order) mapped to a ckey, if any.
    pub fn lookup_identity(&self, ckey: &Ckey) -> (r: Option<u64>)
        ensures
            match r {
                Some(id) => exists|i: int|
                    0 <= i < self.pairs().len() && (#[trigger] self.pairs()[i]).0 == id
                        && self.pairs()[i].1@ == ckey@ && no_value_before(self.pairs(), ckey@, i),
                None => no_value_before(self.pairs(), ckey@, self.pairs().len() as int),
            },
    {
        let target = ckey.as_str().to_owned();
        let n = self.entries.len();
        let mut i: usize = 0;
        while i < n
            invariant
                i <= n,
                n == self.pairs().len(),
                target@ == ckey@,
                no_value_before(self.pairs(), ckey@, i as int),
            decreases n - i,
        {
            if self.entries[i].1 == target {
                return Some(self.entries[i].0);
            }
            i += 1;
        }
        None
    }

    /// The number of identities currently mapped.
    pub fn len(&self) -> (r: usize)
        ensures
            r == self.pairs().len(),
    {
        self.entries.len()
    }

    /// The durable form of the store, ready to be written out: the
    /// serialization of the denoted mapping, and always produced.
    ///
    /// Feeding the result back through [`IdentityStore::load_text`]
    /// reproduces the same mapping; that round trip is exercised by the
    /// crate's tests, since nothing ties the serializer to the parser.
    pub fn render_text(&self) -> (r: Result<String, IdentityStoreError>)
        requires
            self.wf(),
        ensures
            r is Ok,
            r matches Ok(text) ==> text@ == ron_map_text(self.as_map()),
    {
        match encode_pairs(&self.entries) {
            Ok(text) => Ok(text),
            Err(e) => Err(IdentityStoreError::PersistFailure(e)),
        }
    }

    /// Replaces the contents from the durable form.  The load succeeds
    /// exactly when the text parses as an integer-to-string map, and the
    /// store then denotes the parsed mapping; malformed text is an error
    /// and leaves the prior contents in place.
    pub fn load_text(&mut self, text: &str) -> (r: Result<(), IdentityStoreError>)
        ensures
            r is Ok <==> ron_map_parse(text@) is Some,
            r is Ok ==> final(self).wf() && final(self).as_map() == ron_map_parse(text@)->0,
            r is Err ==> *final(self) == *old(self) && r matches Err(
                IdentityStoreError::ParseFailure(_),
            ),
    {
        match decode_pairs(text) {
            Ok(pairs) => {
                self.entries = pairs;
                Ok(())
            },
            Err(e) => Err(IdentityStoreError::ParseFailure(e)),
        }
    }
}

/// Inserting a binding and then looking the identity up yields the
/// inserted ckey back: a stored normal form re-normalizes to itself.
pub proof fn lemma_insert_then_lookup(m: Map<u64, Seq<char>>, identity: u64, ckey: Seq<char>)
    requires
        crate::ckey::is_normal(ckey),
    ensures
        m.insert(identity, ckey).contains_key(identity),
        normalize(m.insert(identity, ckey)[identity]) == ckey,
{
    crate::ckey::lemma_normalize_of_normal(ckey);
}

} // verus!
