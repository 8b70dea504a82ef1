//! One parameter mapping of a request: string keys to string values,
//! last write wins.
//!
//! The mapping is kept as a vector of byte-string pairs strictly sorted by
//! key. Sorting makes the representation canonical: a given key-to-value
//! mapping has exactly one well-formed representation, so everything
//! derived from it (query strings, form bodies, header lists) comes out
//! identical however the entries were inserted.

use vstd::prelude::*;

verus! {

use crate::encode::{dec_pairs, enc_pairs, lemma_urlencode_roundtrip, pairs_view};

/// Strict lexicographic order on byte strings.
pub open spec fn lex_lt(a: Seq<u8>, b: Seq<u8>) -> bool
    decreases a.len(),
{
    if b.len() == 0 {
        false
    } else if a.len() == 0 {
        true
    } else if a[0] < b[0] {
        true
    } else if a[0] > b[0] {
        false
    } else {
        lex_lt(a.skip(1), b.skip(1))
    }
}

proof fn lemma_lex_irrefl(a: Seq<u8>)
    ensures
        !lex_lt(a, a),
    decreases a.len(),
{
    if a.len() > 0 {
        lemma_lex_irrefl(a.skip(1));
    }
}

proof fn lemma_lex_connected(a: Seq<u8>, b: Seq<u8>)
    ensures
        lex_lt(a, b) || lex_lt(b, a) || a == b,
    decreases a.len(),
{
    if a.len() == 0 {
        if b.len() == 0 {
            assert(a =~= b);
        }
    } else if b.len() == 0 {
    } else if a[0] == b[0] {
        lemma_lex_connected(a.skip(1), b.skip(1));
        if !lex_lt(a, b) && !lex_lt(b, a) {
            assert(a.skip(1) == b.skip(1));
            assert(a =~= b) by {
                assert(forall|i: int|
                    1 <= i < a.len() ==> a[i] == a.skip(1)[i - 1] && b[i] == b.skip(1)[i - 1]);
            }
        }
    }
}

proof fn lemma_lex_trans(a: Seq<u8>, b: Seq<u8>, c: Seq<u8>)
    requires
        lex_lt(a, b),
        lex_lt(b, c),
    ensures
        lex_lt(a, c),
    decreases a.len(),
{
    if a.len() == 0 {
    } else {
        // a nonempty forces b nonempty, which forces c nonempty
        if a[0] == b[0] && b[0] == c[0] {
            lemma_lex_trans(a.skip(1), b.skip(1), c.skip(1));
        }
    }
}

/// Keys strictly ascending: every pair list a well-formed mapping holds.
pub open spec fn entries_wf(s: Seq<(Seq<u8>, Seq<u8>)>) -> bool {
    forall|i: int, j: int| 0 <= i < j < s.len() ==> lex_lt(s[i].0, s[j].0)
}

/// Whether some pair of `s` carries the key `k`.
pub open spec fn has_pair_key(s: Seq<(Seq<u8>, Seq<u8>)>, k: Seq<u8>) -> bool {
    exists|i: int| 0 <= i < s.len() && s[i].0 == k
}

/// The value paired with key `k` in `s`.
pub open spec fn pair_value(s: Seq<(Seq<u8>, Seq<u8>)>, k: Seq<u8>) -> Seq<u8>
    recommends
        has_pair_key(s, k),
{
    s[choose|i: int| 0 <= i < s.len() && s[i].0 == k].1
}

/// The key-to-value mapping a pair list denotes.
pub open spec fn pairs_to_map(s: Seq<(Seq<u8>, Seq<u8>)>) -> Map<Seq<u8>, Seq<u8>> {
    Map::new(|k: Seq<u8>| has_pair_key(s, k), |k: Seq<u8>| pair_value(s, k))
}

pub proof fn lemma_wf_keys_unique(s: Seq<(Seq<u8>, Seq<u8>)>)
    requires
        entries_wf(s),
    ensures
        forall|i: int, j: int|
            0 <= i < s.len() && 0 <= j < s.len() && i != j ==> s[i].0 != s[j].0,
{
    assert forall|i: int, j: int|
        0 <= i < s.len() && 0 <= j < s.len() && i != j implies s[i].0 != s[j].0 by {
        if i < j {
            lemma_lex_irrefl(s[i].0);
        } else {
            lemma_lex_irrefl(s[j].0);
        }
    }
}

pub proof fn lemma_wf_lookup(s: Seq<(Seq<u8>, Seq<u8>)>, i: int)
    requires
        entries_wf(s),
        0 <= i < s.len(),
    ensures
        pairs_to_map(s).contains_key(s[i].0),
        pairs_to_map(s)[s[i].0] == s[i].1,
{
    lemma_wf_keys_unique(s);
    let k = s[i].0;
    assert(has_pair_key(s, k));
    let j = choose|j: int| 0 <= j < s.len() && s[j].0 == k;
    assert(j == i);
}

fn bytes_lt(a: &Vec<u8>, b: &Vec<u8>) -> (r: bool)
    ensures
        r == lex_lt(a@, b@),
{
    let mut i: usize = 0;
    proof {
        assert(a@.skip(0) =~= a@);
        assert(b@.skip(0) =~= b@);
    }
    while i < a.len() && i < b.len()
        invariant
            i <= a@.len(),
            i <= b@.len(),
            lex_lt(a@, b@) == lex_lt(a@.skip(i as int), b@.skip(i as int)),
        decreases a@.len() - i,
    {
        let x = a[i];
        let y = b[i];
        proof {
            assert(a@.skip(i as int)[0] == x);
            assert(b@.skip(i as int)[0] == y);
        }
        if x < y {
            return true;
        }
        if x > y {
            return false;
        }
        proof {
            assert(a@.skip(i as int).skip(1) =~= a@.skip(i + 1));
            assert(b@.skip(i as int).skip(1) =~= b@.skip(i + 1));
        }
        i += 1;
    }
    proof {
        if i == a@.len() {
            assert(a@.skip(i as int).len() == 0);
        } else {
            assert(b@.skip(i as int).len() == 0);
        }
    }
    a.len() < b.len()
}

fn bytes_eq(a: &Vec<u8>, b: &Vec<u8>) -> (r: bool)
    ensures
        r == (a@ == b@),
{
    if a.len() != b.len() {
        return false;
    }
    let mut i: usize = 0;
    while i < a.len()
        invariant
            i <= a@.len(),
            a@.len() == b@.len(),
            forall|j: int| 0 <= j < i ==> a@[j] == b@[j],
        decreases a@.len() - i,
    {
        if a[i] != b[i] {
            return false;
        }
        i += 1;
    }
    proof {
        assert(a@ =~= b@);
    }
    true
}

/// First position whose key is not below `key`; `entries` sorted or not,
/// every key before the returned slot is strictly below `key`.
fn find_slot(entries: &Vec<(Vec<u8>, Vec<u8>)>, key: &Vec<u8>) -> (i: usize)
    ensures
        i <= entries@.len(),
        forall|j: int| 0 <= j < i ==> lex_lt(pairs_view(entries@)[j].0, key@),
        i < entries@.len() ==> !lex_lt(pairs_view(entries@)[i as int].0, key@),
{
    let mut i: usize = 0;
    while i < entries.len()
        invariant
            i <= entries@.len(),
            forall|j: int| 0 <= j < i ==> lex_lt(pairs_view(entries@)[j].0, key@),
        decreases entries@.len() - i,
    {
        if !bytes_lt(&entries[i].0, key) {
            return i;
        }
        i += 1;
    }
    i
}

pub proof fn lemma_sorted_pairs_canonical(s1: Seq<(Seq<u8>, Seq<u8>)>, s2: Seq<(Seq<u8>, Seq<u8>)>)
    requires
        entries_wf(s1),
        entries_wf(s2),
        pairs_to_map(s1) == pairs_to_map(s2),
    ensures
        s1 == s2,
    decreases s1.len(),
{
    lemma_wf_keys_unique(s1);
    lemma_wf_keys_unique(s2);
    if s1.len() == 0 {
        if s2.len() > 0 {
            lemma_wf_lookup(s2, 0);
            assert(pairs_to_map(s1).contains_key(s2[0].0));
        }
        assert(s1 =~= s2);
    } else if s2.len() == 0 {
        lemma_wf_lookup(s1, 0);
        assert(pairs_to_map(s2).contains_key(s1[0].0));
    } else {
        let n1 = s1.len() - 1;
        let n2 = s2.len() - 1;
        let k1 = s1[n1].0;
        let k2 = s2[n2].0;
        lemma_wf_lookup(s1, n1);
        lemma_wf_lookup(s2, n2);
        // each last key occurs in the other list
        assert(pairs_to_map(s2).contains_key(k1));
        assert(pairs_to_map(s1).contains_key(k2));
        let j2 = choose|j: int| 0 <= j < s2.len() && s2[j].0 == k1;
        let j1 = choose|j: int| 0 <= j < s1.len() && s1[j].0 == k2;
        // both lasts carry the greatest key, so the keys coincide
        if k1 != k2 {
            assert(j2 < n2);
            assert(j1 < n1);
            assert(lex_lt(k1, k2));
            assert(lex_lt(k2, k1));
            lemma_lex_trans(k1, k2, k1);
            lemma_lex_irrefl(k1);
        }
        assert(s1[n1].1 == pairs_to_map(s1)[k1]);
        assert(s2[n2].1 == pairs_to_map(s2)[k1]);
        assert(s1[n1] == s2[n2]);
        let t1 = s1.drop_last();
        let t2 = s2.drop_last();
        assert(entries_wf(t1));
        assert(entries_wf(t2));
        assert(pairs_to_map(t1) =~= pairs_to_map(s1).remove(k1)) by {
            assert forall|k: Seq<u8>| #[trigger] has_pair_key(t1, k) implies has_pair_key(s1, k)
                && k != k1 by {
                let j = choose|j: int| 0 <= j < t1.len() && t1[j].0 == k;
                assert(s1[j].0 == k);
            }
            assert forall|k: Seq<u8>| #[trigger] has_pair_key(s1, k) && k != k1 implies
                has_pair_key(t1, k) by {
                let j = choose|j: int| 0 <= j < s1.len() && s1[j].0 == k;
                assert(j < n1);
                assert(t1[j].0 == k);
            }
            assert forall|k: Seq<u8>| pairs_to_map(t1).contains_key(k) implies pairs_to_map(t1)[k]
                == pairs_to_map(s1).remove(k1)[k] by {
                let j = choose|j: int| 0 <= j < t1.len() && t1[j].0 == k;
                lemma_wf_lookup(t1, j);
                lemma_wf_lookup(s1, j);
            }
        }
        assert(pairs_to_map(t2) =~= pairs_to_map(s2).remove(k1)) by {
            assert forall|k: Seq<u8>| #[trigger] has_pair_key(t2, k) implies has_pair_key(s2, k)
                && k != k1 by {
                let j = choose|j: int| 0 <= j < t2.len() && t2[j].0 == k;
                assert(s2[j].0 == k);
            }
            assert forall|k: Seq<u8>| #[trigger] has_pair_key(s2, k) && k != k1 implies
                has_pair_key(t2, k) by {
                let j = choose|j: int| 0 <= j < s2.len() && s2[j].0 == k;
                assert(j < n2);
                assert(t2[j].0 == k);
            }
            assert forall|k: Seq<u8>| pairs_to_map(t2).contains_key(k) implies pairs_to_map(t2)[k]
                == pairs_to_map(s2).remove(k1)[k] by {
                let j = choose|j: int| 0 <= j < t2.len() && t2[j].0 == k;
                lemma_wf_lookup(t2, j);
                lemma_wf_lookup(s2, j);
            }
        }
        lemma_sorted_pairs_canonical(t1, t2);
        assert(s1 =~= t1.push(s1[n1]));
        assert(s2 =~= t2.push(s2[n2]));
    }
}

/// One of the request's parameter mappings. Insertion overwrites: for a
/// key inserted twice, the last write wins.
pub struct ParamMap {
    entries: Vec<(Vec<u8>, Vec<u8>)>,
}

impl ParamMap {
    /// The pair list, keys strictly ascending.
    pub closed spec fn pairs(&self) -> Seq<(Seq<u8>, Seq<u8>)> {
        pairs_view(self.entries@)
    }

    /// Keys strictly sorted, hence unique.
    pub open spec fn wf(&self) -> bool {
        entries_wf(self.pairs())
    }

    /// The key-to-value mapping.
    pub open spec fn as_map(&self) -> Map<Seq<u8>, Seq<u8>> {
        pairs_to_map(self.pairs())
    }

    /// An empty mapping.
    pub fn new() -> (r: ParamMap)
        ensures
            r.wf(),
            r.pairs() == Seq::<(Seq<u8>, Seq<u8>)>::empty(),
            r.as_map() == Map::<Seq<u8>, Seq<u8>>::empty(),
    {
        let r = ParamMap { entries: Vec::new() };
        proof {
            assert(r.pairs() =~= Seq::<(Seq<u8>, Seq<u8>)>::empty());
            assert(r.as_map() =~= Map::<Seq<u8>, Seq<u8>>::empty());
        }
        r
    }

    /// Whether no parameter has been set.
    pub fn is_empty(&self) -> (r: bool)
        ensures
            r == (self.pairs().len() == 0),
    {
        self.entries.len() == 0
    }

    /// The sorted entry list, for encoding.
    pub fn entries(&self) -> (r: &Vec<(Vec<u8>, Vec<u8>)>)
        ensures
            pairs_view(r@) == self.pairs(),
    {
        &self.entries
    }

    /// The value set for `key`, if any.
    pub fn get(&self, key: &Vec<u8>) -> (r: Option<&Vec<u8>>)
        requires
            self.wf(),
        ensures
            match r {
                Some(v) => self.as_map().contains_key(key@) && v@ == self.as_map()[key@],
                None => !self.as_map().contains_key(key@),
            },
    {
        let mut i: usize = 0;
        while i < self.entries.len()
            invariant
                self.wf(),
                i <= self.pairs().len(),
                forall|j: int| 0 <= j < i ==> self.pairs()[j].0 != key@,
            decreases self.pairs().len() - i,
        {
            if bytes_eq(&self.entries[i].0, key) {
                proof {
                    lemma_wf_lookup(self.pairs(), i as int);
                }
                return Some(&self.entries[i].1);
            }
            i += 1;
        }
        proof {
            assert(!has_pair_key(self.pairs(), key@));
        }
        None
    }

    /// Sets `key` to `value`, overwriting any earlier value for `key`.
    pub fn insert(&mut self, key: Vec<u8>, value: Vec<u8>)
        requires
            old(self).wf(),
        ensures
            final(self).wf(),
            final(self).as_map() == old(self).as_map().insert(key@, value@),
    {
        let ghost s = self.pairs();
        let i = find_slot(&self.entries, &key);
        let replace = i < self.entries.len() && bytes_eq(&self.entries[i].0, &key);
        if replace {
            self.entries.remove(i);
        }
        self.entries.insert(i, (key, value));
        proof {
            let s2 = self.pairs();
            let k = key@;
            let v = value@;
            let n = s.len() as int;
            let i = i as int;
            // shape of the new pair list
            if replace {
                assert(s2.len() == n);
                assert(forall|j: int| 0 <= j < i ==> s2[j] == s[j]);
                assert(s2[i] == (k, v));
                assert(forall|j: int| i < j < n ==> s2[j] == s[j]);
                assert(s[i].0 == k);
            } else {
                assert(s2.len() == n + 1);
                assert(forall|j: int| 0 <= j < i ==> s2[j] == s[j]);
                assert(s2[i] == (k, v));
                assert(forall|j: int| i < j < n + 1 ==> s2[j] == s[j - 1]);
            }
            // every key after the slot lies strictly above k
            assert forall|j: int| i < j < s2.len() implies lex_lt(k, s2[j].0) by {
                if replace {
                    assert(lex_lt(s[i].0, s[j].0));
                } else {
                    lemma_lex_connected(s[i].0, k);
                    assert(lex_lt(k, s[i].0));
                    if j > i + 1 {
                        assert(lex_lt(s[i].0, s[j - 1].0));
                        lemma_lex_trans(k, s[i].0, s[j - 1].0);
                    }
                }
            }
            assert(entries_wf(s2)) by {
                assert forall|p: int, q: int| 0 <= p < q < s2.len() implies lex_lt(
                    s2[p].0,
                    s2[q].0,
                ) by {
                    if q < i {
                    } else if q == i {
                        assert(lex_lt(s2[p].0, k));
                    } else if p < i {
                        assert(lex_lt(s[p].0, k));
                        assert(lex_lt(k, s2[q].0));
                        lemma_lex_trans(s[p].0, k, s2[q].0);
                    } else if p == i {
                        assert(lex_lt(k, s2[q].0));
                    } else {
                        if replace {
                            assert(lex_lt(s[p].0, s[q].0));
                        } else {
                            assert(lex_lt(s[p - 1].0, s[q - 1].0));
                        }
                    }
                }
            }
            lemma_wf_keys_unique(s);
            lemma_wf_keys_unique(s2);
            // membership in the new list: the old keys plus k
            assert forall|k2: Seq<u8>| #[trigger] has_pair_key(s2, k2) implies k2 == k
                || has_pair_key(s, k2) by {
                let j = choose|j: int| 0 <= j < s2.len() && s2[j].0 == k2;
                if j != i {
                    if replace || j < i {
                        assert(s[j].0 == k2);
                    } else {
                        assert(s[j - 1].0 == k2);
                    }
                }
            }
            assert forall|k2: Seq<u8>| #[trigger] has_pair_key(s, k2) && k2 != k implies
                has_pair_key(s2, k2) by {
                let j = choose|j: int| 0 <= j < s.len() && s[j].0 == k2;
                if replace {
                    assert(j != i);
                    assert(s2[j].0 == k2);
                } else {
                    if j < i {
                        assert(s2[j].0 == k2);
                    } else {
                        assert(s2[j + 1].0 == k2);
                    }
                }
            }
            assert(has_pair_key(s2, k)) by {
                assert(s2[i].0 == k);
            }
            // values agree
            assert(pairs_to_map(s2) =~= pairs_to_map(s).insert(k, v)) by {
                assert forall|k2: Seq<u8>| pairs_to_map(s2).contains_key(k2) implies
                    pairs_to_map(s2)[k2] == pairs_to_map(s).insert(k, v)[k2] by {
                    if k2 == k {
                        lemma_wf_lookup(s2, i);
                    } else {
                        let j = choose|j: int| 0 <= j < s.len() && s[j].0 == k2;
                        lemma_wf_lookup(s, j);
                        if replace {
                            assert(j != i);
                            assert(s2[j] == s[j]);
                            lemma_wf_lookup(s2, j);
                        } else {
                            if j < i {
                                lemma_wf_lookup(s2, j);
                            } else {
                                assert(s2[j + 1] == s[j]);
                                lemma_wf_lookup(s2, j + 1);
                            }
                        }
                    }
                }
            }
        }
    }
}

/// Law: the query string encoded from a mapping, parsed back, denotes
/// exactly the mapping again — whatever order the entries were inserted
/// in, since the entry list is canonical.
pub proof fn lemma_query_roundtrip(m: &ParamMap)
    requires
        m.wf(),
    ensures
        pairs_to_map(dec_pairs(enc_pairs(m.pairs()))) == m.as_map(),
{
    lemma_urlencode_roundtrip(m.pairs());
}

/// Law: the sorted representation is canonical. Two well-formed mappings
/// that agree as key-to-value maps have identical entry lists, however
/// their entries were inserted, so everything derived from the entries
/// (query strings, form bodies, header lists) is identical too.
pub proof fn lemma_param_map_canonical(m1: &ParamMap, m2: &ParamMap)
    requires
        m1.wf(),
        m2.wf(),
        m1.as_map() == m2.as_map(),
    ensures
        m1.pairs() == m2.pairs(),
{
    lemma_sorted_pairs_canonical(m1.pairs(), m2.pairs());
}

} // verus!
