//! Header sets: ordered (name, value) pairs with pairwise-distinct names,
//! viewed as a mapping from header name to header value.
//!
//! Names are kept case-sensitive as stored and no normalization or
//! validation is performed; insertion order is carried only so that the
//! request serializer can be given an exact byte-level contract.
use vstd::prelude::*;

verus! {

/// One header's data at the specification level: its name and its value.
pub type HeaderPair = (Seq<char>, Seq<char>);

/// The mapping a pair sequence represents; a later pair for the same name wins.
pub open spec fn map_of_pairs(pairs: Seq<HeaderPair>) -> Map<Seq<char>, Seq<char>>
    decreases pairs.len(),
{
    if pairs.len() == 0 {
        Map::empty()
    } else {
        map_of_pairs(pairs.drop_last()).insert(pairs.last().0, pairs.last().1)
    }
}

/// Whether no two pairs carry the same name.
pub open spec fn distinct_keys(pairs: Seq<HeaderPair>) -> bool {
    forall|i: int, j: int| 0 <= i < j < pairs.len() ==> (#[trigger] pairs[i]).0 != (#[trigger] pairs[j]).0
}

/// Whether some pair carries the name `k`.
pub open spec fn has_key(pairs: Seq<HeaderPair>, k: Seq<char>) -> bool {
    exists|i: int| 0 <= i < pairs.len() && (#[trigger] pairs[i]).0 == k
}

/// The index of the first pair named `k`, or -1 when none is.
pub open spec fn find_key(pairs: Seq<HeaderPair>, k: Seq<char>) -> int
    decreases pairs.len(),
{
    if pairs.len() == 0 {
        -1
    } else if pairs[0].0 == k {
        0
    } else {
        let r = find_key(pairs.drop_first(), k);
        if r < 0 {
            -1
        } else {
            r + 1
        }
    }
}

/// The pairs of `pairs` whose names `m` does not define, in order.
pub open spec fn retained(pairs: Seq<HeaderPair>, m: Map<Seq<char>, Seq<char>>) -> Seq<HeaderPair>
    decreases pairs.len(),
{
    if pairs.len() == 0 {
        Seq::empty()
    } else if m.contains_key(pairs.last().0) {
        retained(pairs.drop_last(), m)
    } else {
        retained(pairs.drop_last(), m).push(pairs.last())
    }
}

/// The pair sequence of a merge: the per-request pairs first, then the
/// permanent pairs whose names the per-request set leaves free.
pub open spec fn merged_pairs(perm: Seq<HeaderPair>, explicit: Seq<HeaderPair>) -> Seq<HeaderPair> {
    explicit + retained(perm, map_of_pairs(explicit))
}

/// `find_key` finds the first pair with the given name, and a negative
/// result means there is none.
pub proof fn lemma_find_key(pairs: Seq<HeaderPair>, k: Seq<char>)
    ensures
        find_key(pairs, k) >= 0 <==> has_key(pairs, k),
        find_key(pairs, k) >= 0 ==> 0 <= find_key(pairs, k) < pairs.len()
            && pairs[find_key(pairs, k)].0 == k
            && (forall|j: int| 0 <= j < find_key(pairs, k) ==> (#[trigger] pairs[j]).0 != k),
    decreases pairs.len(),
{
    if pairs.len() == 0 {
    } else if pairs[0].0 == k {
    } else {
        let rest = pairs.drop_first();
        lemma_find_key(rest, k);
        assert(forall|i: int| 0 <= i < rest.len() ==> #[trigger] rest[i] == pairs[i + 1]);
        if find_key(rest, k) >= 0 {
            let r = find_key(rest, k);
            assert(pairs[r + 1] == rest[r]);
            assert(forall|j: int| 1 <= j < r + 1 ==> (#[trigger] pairs[j]).0 == rest[j - 1].0);
        } else {
            assert(!has_key(rest, k));
            if has_key(pairs, k) {
                let i = choose|i: int| 0 <= i < pairs.len() && (#[trigger] pairs[i]).0 == k;
                assert(i >= 1);
                assert(rest[i - 1] == pairs[i]);
                assert(has_key(rest, k));
            }
        }
    }
}

/// With pairwise-distinct names, the represented map holds exactly the names
/// of the pairs, each bound to that pair's value.
pub proof fn lemma_map_of_pairs(pairs: Seq<HeaderPair>)
    requires
        distinct_keys(pairs),
    ensures
        forall|k: Seq<char>| #[trigger] map_of_pairs(pairs).contains_key(k) <==> has_key(pairs, k),
        forall|i: int|
            0 <= i < pairs.len() ==> map_of_pairs(pairs).contains_key((#[trigger] pairs[i]).0)
                && map_of_pairs(pairs)[pairs[i].0] == pairs[i].1,
    decreases pairs.len(),
{
    if pairs.len() == 0 {
    } else {
        let front = pairs.drop_last();
        let last = pairs.last();
        assert(forall|i: int| 0 <= i < front.len() ==> #[trigger] front[i] == pairs[i]);
        lemma_map_of_pairs(front);
        assert forall|k: Seq<char>| #[trigger] map_of_pairs(pairs).contains_key(k) implies has_key(
            pairs,
            k,
        ) by {
            if k == last.0 {
                assert(pairs[pairs.len() - 1].0 == k);
            } else {
                assert(map_of_pairs(front).contains_key(k));
                let i = choose|i: int| 0 <= i < front.len() && (#[trigger] front[i]).0 == k;
                assert(pairs[i].0 == k);
            }
        }
        assert forall|k: Seq<char>| has_key(pairs, k) implies map_of_pairs(pairs).contains_key(
            k,
        ) by {
            let i = choose|i: int| 0 <= i < pairs.len() && (#[trigger] pairs[i]).0 == k;
            if i < pairs.len() - 1 {
                assert(front[i].0 == k);
            }
        }
        assert forall|i: int| 0 <= i < pairs.len() implies map_of_pairs(pairs).contains_key(
            (#[trigger] pairs[i]).0,
        ) && map_of_pairs(pairs)[pairs[i].0] == pairs[i].1 by {
            if i < pairs.len() - 1 {
                assert(front[i] == pairs[i]);
                assert(pairs[i].0 != last.0);
            }
        }
    }
}

/// Whether `p` is one of the pairs of `pairs`.
pub open spec fn in_pairs(pairs: Seq<HeaderPair>, p: HeaderPair) -> bool {
    exists|i: int| 0 <= i < pairs.len() && #[trigger] pairs[i] == p
}

/// A name occurs in a concatenation exactly when it occurs in either part.
pub proof fn lemma_has_key_add(a: Seq<HeaderPair>, b: Seq<HeaderPair>)
    ensures
        forall|k: Seq<char>| #[trigger] has_key(a + b, k) <==> has_key(a, k) || has_key(b, k),
{
    assert forall|k: Seq<char>| #[trigger] has_key(a + b, k) implies has_key(a, k) || has_key(
        b,
        k,
    ) by {
        let i = choose|i: int| 0 <= i < (a + b).len() && (#[trigger] (a + b)[i]).0 == k;
        if i < a.len() {
            assert(a[i] == (a + b)[i]);
        } else {
            assert(b[i - a.len()] == (a + b)[i]);
        }
    }
    assert forall|k: Seq<char>| has_key(a, k) || has_key(b, k) implies has_key(a + b, k) by {
        if has_key(a, k) {
            let i = choose|i: int| 0 <= i < a.len() && (#[trigger] a[i]).0 == k;
            assert((a + b)[i] == a[i]);
        } else {
            let i = choose|i: int| 0 <= i < b.len() && (#[trigger] b[i]).0 == k;
            assert((a + b)[i + a.len()] == b[i]);
        }
    }
}

/// What `retained` keeps: exactly the pairs whose names `m` does not define,
/// each one a pair of the input, and distinct when the input is.
pub proof fn lemma_retained(s: Seq<HeaderPair>, m: Map<Seq<char>, Seq<char>>)
    ensures
        forall|j: int|
            0 <= j < retained(s, m).len() ==> in_pairs(s, #[trigger] retained(s, m)[j])
                && !m.contains_key(retained(s, m)[j].0),
        forall|i: int|
            0 <= i < s.len() && !m.contains_key((#[trigger] s[i]).0) ==> in_pairs(
                retained(s, m),
                s[i],
            ),
        forall|k: Seq<char>| #[trigger] has_key(retained(s, m), k) <==> has_key(s, k)
            && !m.contains_key(k),
        distinct_keys(s) ==> distinct_keys(retained(s, m)),
    decreases s.len(),
{
    let r = retained(s, m);
    if s.len() == 0 {
        assert(forall|k: Seq<char>| !has_key(r, k) && !has_key(s, k));
    } else {
        let front = s.drop_last();
        let last = s.last();
        let fr = retained(front, m);
        lemma_retained(front, m);
        assert(forall|i: int| 0 <= i < front.len() ==> #[trigger] front[i] == s[i]);
        assert forall|x: HeaderPair| in_pairs(front, x) implies in_pairs(s, x) by {
            let i = choose|i: int| 0 <= i < front.len() && #[trigger] front[i] == x;
            assert(s[i] == x);
        }
        if m.contains_key(last.0) {
            assert(r == fr);
            assert forall|i: int|
                0 <= i < s.len() && !m.contains_key((#[trigger] s[i]).0) implies in_pairs(
                r,
                s[i],
            ) by {
                assert(i < front.len());
                assert(front[i] == s[i]);
            }
            assert forall|k: Seq<char>| has_key(s, k) && !m.contains_key(k) implies has_key(
                r,
                k,
            ) by {
                let i = choose|i: int| 0 <= i < s.len() && (#[trigger] s[i]).0 == k;
                assert(i < front.len());
                assert(front[i].0 == k);
                assert(has_key(front, k));
            }
            assert forall|k: Seq<char>| #[trigger] has_key(r, k) implies has_key(s, k)
                && !m.contains_key(k) by {
                assert(has_key(front, k));
                let i = choose|i: int| 0 <= i < front.len() && (#[trigger] front[i]).0 == k;
                assert(s[i].0 == k);
            }
        } else {
            assert(r == fr.push(last));
            assert(forall|j: int| 0 <= j < fr.len() ==> #[trigger] r[j] == fr[j]);
            assert(r[r.len() - 1] == last);
            assert forall|j: int|
                0 <= j < r.len() implies in_pairs(s, #[trigger] r[j]) && !m.contains_key(
                r[j].0,
            ) by {
                if j < r.len() - 1 {
                    assert(in_pairs(front, fr[j]));
                } else {
                    assert(s[s.len() - 1] == last);
                }
            }
            assert forall|i: int|
                0 <= i < s.len() && !m.contains_key((#[trigger] s[i]).0) implies in_pairs(
                r,
                s[i],
            ) by {
                if i < s.len() - 1 {
                    assert(front[i] == s[i]);
                    assert(in_pairs(fr, s[i]));
                    let j = choose|j: int| 0 <= j < fr.len() && #[trigger] fr[j] == s[i];
                    assert(r[j] == s[i]);
                } else {
                    assert(r[r.len() - 1] == s[i]);
                }
            }
            assert forall|k: Seq<char>| #[trigger] has_key(r, k) implies has_key(s, k)
                && !m.contains_key(k) by {
                let j = choose|j: int| 0 <= j < r.len() && (#[trigger] r[j]).0 == k;
                if j < r.len() - 1 {
                    assert(fr[j].0 == k);
                    assert(has_key(front, k));
                    let i = choose|i: int| 0 <= i < front.len() && (#[trigger] front[i]).0 == k;
                    assert(s[i].0 == k);
                } else {
                    assert(s[s.len() - 1].0 == k);
                }
            }
            assert forall|k: Seq<char>| has_key(s, k) && !m.contains_key(k) implies has_key(
                r,
                k,
            ) by {
                let i = choose|i: int| 0 <= i < s.len() && (#[trigger] s[i]).0 == k;
                if i < s.len() - 1 {
                    assert(front[i].0 == k);
                    assert(has_key(front, k));
                    assert(has_key(fr, k));
                    let j = choose|j: int| 0 <= j < fr.len() && (#[trigger] fr[j]).0 == k;
                    assert(r[j].0 == k);
                } else {
                    assert(r[r.len() - 1].0 == k);
                }
            }
            if distinct_keys(s) {
                assert(distinct_keys(front));
                assert forall|i: int, j: int| 0 <= i < j < r.len() implies (
                #[trigger] r[i]).0 != (#[trigger] r[j]).0 by {
                    if j < r.len() - 1 {
                    } else {
                        assert(!has_key(front, last.0));
                        assert(!has_key(fr, last.0));
                        assert(r[j] == last);
                        if r[i].0 == last.0 {
                            assert(fr[i].0 == last.0);
                            assert(has_key(fr, last.0));
                        }
                    }
                }
            }
        }
    }
}

/// Replacing the pair at a name's index by a new pair with the same name is
/// an insert on the represented map.
pub proof fn lemma_map_of_pairs_update(pairs: Seq<HeaderPair>, i: int, p: HeaderPair)
    requires
        distinct_keys(pairs),
        0 <= i < pairs.len(),
        p.0 == pairs[i].0,
    ensures
        distinct_keys(pairs.update(i, p)),
        map_of_pairs(pairs.update(i, p)) == map_of_pairs(pairs).insert(p.0, p.1),
    decreases pairs.len(),
{
    let u = pairs.update(i, p);
    assert(distinct_keys(u));
    if i == pairs.len() - 1 {
        assert(u.drop_last() =~= pairs.drop_last());
        assert(u.last() == p);
        lemma_map_of_pairs(pairs.drop_last());
        assert(map_of_pairs(pairs).insert(p.0, p.1) =~= map_of_pairs(pairs.drop_last()).insert(
            p.0,
            p.1,
        ));
    } else {
        let front = pairs.drop_last();
        let last = pairs.last();
        assert(forall|j: int| 0 <= j < front.len() ==> #[trigger] front[j] == pairs[j]);
        lemma_map_of_pairs_update(front, i, p);
        assert(u.drop_last() =~= front.update(i, p));
        assert(u.last() == last);
        assert(last.0 != p.0);
        assert(map_of_pairs(front).insert(p.0, p.1).insert(last.0, last.1) =~= map_of_pairs(
            front,
        ).insert(last.0, last.1).insert(p.0, p.1));
    }
}

/// Appending a pair with a fresh name is an insert on the represented map.
pub proof fn lemma_map_of_pairs_push(pairs: Seq<HeaderPair>, p: HeaderPair)
    requires
        distinct_keys(pairs),
        !has_key(pairs, p.0),
    ensures
        distinct_keys(pairs.push(p)),
        map_of_pairs(pairs.push(p)) == map_of_pairs(pairs).insert(p.0, p.1),
{
    let u = pairs.push(p);
    assert(forall|j: int| 0 <= j < pairs.len() ==> #[trigger] u[j] == pairs[j]);
    assert(distinct_keys(u));
    assert(u.drop_last() =~= pairs);
    assert(u.last() == p);
}

/// Removing the pair at a name's index is a remove on the represented map.
pub proof fn lemma_map_of_pairs_remove(pairs: Seq<HeaderPair>, i: int)
    requires
        distinct_keys(pairs),
        0 <= i < pairs.len(),
    ensures
        distinct_keys(pairs.remove(i)),
        map_of_pairs(pairs.remove(i)) == map_of_pairs(pairs).remove(pairs[i].0),
    decreases pairs.len(),
{
    let u = pairs.remove(i);
    let k = pairs[i].0;
    assert(forall|j: int| 0 <= j < i ==> #[trigger] u[j] == pairs[j]);
    assert(forall|j: int| i <= j < u.len() ==> #[trigger] u[j] == pairs[j + 1]);
    assert(distinct_keys(u));
    if i == pairs.len() - 1 {
        assert(u =~= pairs.drop_last());
        lemma_map_of_pairs(pairs.drop_last());
        assert(!map_of_pairs(pairs.drop_last()).contains_key(k));
        assert(map_of_pairs(pairs).remove(k) =~= map_of_pairs(pairs.drop_last()));
    } else {
        let front = pairs.drop_last();
        let last = pairs.last();
        assert(forall|j: int| 0 <= j < front.len() ==> #[trigger] front[j] == pairs[j]);
        lemma_map_of_pairs_remove(front, i);
        assert(u.drop_last() =~= front.remove(i));
        assert(u.last() == last);
        assert(last.0 != k);
        assert(map_of_pairs(front).remove(k).insert(last.0, last.1) =~= map_of_pairs(front).insert(
            last.0,
            last.1,
        ).remove(k));
    }
}

/// An ordered list of header (name, value) pairs with pairwise-distinct
/// names, such as a client's permanent header set, a per-request override
/// set, or a parsed reply header block.
pub struct HeaderSet {
    entries: Vec<(String, String)>,
}

impl View for HeaderSet {
    type V = Map<Seq<char>, Seq<char>>;

    open spec fn view(&self) -> Map<Seq<char>, Seq<char>> {
        map_of_pairs(self.pairs())
    }
}

impl HeaderSet {
    /// The pairs held, in storage order.
    pub closed spec fn pairs(&self) -> Seq<HeaderPair> {
        self.entries@.map_values(|p: (String, String)| (p.0@, p.1@))
    }

    /// Well-formedness: no two pairs carry the same name.
    pub open spec fn wf(&self) -> bool {
        distinct_keys(self.pairs())
    }

    /// An empty header set.
    pub fn new() -> (r: HeaderSet)
        ensures
            r.wf(),
            r.pairs() == Seq::<HeaderPair>::empty(),
            r@ == Map::<Seq<char>, Seq<char>>::empty(),
    {
        let r = HeaderSet { entries: Vec::new() };
        proof {
            assert(r.pairs() =~= Seq::<HeaderPair>::empty());
        }
        r
    }

    /// How many headers are held.
    pub fn len(&self) -> (r: usize)
        ensures
            r == self.pairs().len(),
    {
        self.entries.len()
    }

    /// The name of the header at position `i`.
    pub fn name_at(&self, i: usize) -> (r: &String)
        requires
            i < self.pairs().len(),
        ensures
            r@ == self.pairs()[i as int].0,
    {
        &vstd::std_specs::vec::vec_index(&self.entries, i).0
    }

    /// The value of the header at position `i`.
    pub fn value_at(&self, i: usize) -> (r: &String)
        requires
            i < self.pairs().len(),
        ensures
            r@ == self.pairs()[i as int].1,
    {
        &vstd::std_specs::vec::vec_index(&self.entries, i).1
    }

    /// Whether a header named `key` is held.
    pub fn contains(&self, key: &String) -> (r: bool)
        requires
            self.wf(),
        ensures
            r == self@.contains_key(key@),
    {
        proof {
            lemma_map_of_pairs(self.pairs());
        }
        let n = self.entries.len();
        let mut i: usize = 0;
        while i < n
            invariant
                self.wf(),
                n == self.pairs().len(),
                0 <= i <= n,
                forall|j: int| 0 <= j < i ==> (#[trigger] self.pairs()[j]).0 != key@,
            decreases n - i,
        {
            if vstd::std_specs::vec::vec_index(&self.entries, i).0 == *key {
                proof {
                    lemma_map_of_pairs(self.pairs());
                    assert((self.pairs()[i as int]).0 == key@);
                    assert(has_key(self.pairs(), key@));
                }
                return true;
            }
            i += 1;
        }
        proof {
            assert(!has_key(self.pairs(), key@));
        }
        false
    }

    /// The value bound to `key`, when one is held.
    pub fn get(&self, key: &String) -> (r: Option<&String>)
        requires
            self.wf(),
        ensures
            (match r {
                Some(v) => self@.contains_key(key@) && v@ == self@[key@],
                None => !self@.contains_key(key@),
            }),
    {
        proof {
            lemma_map_of_pairs(self.pairs());
        }
        let n = self.entries.len();
        let mut i: usize = 0;
        while i < n
            invariant
                self.wf(),
                n == self.pairs().len(),
                0 <= i <= n,
                forall|j: int| 0 <= j < i ==> (#[trigger] self.pairs()[j]).0 != key@,
            decreases n - i,
        {
            let p = vstd::std_specs::vec::vec_index(&self.entries, i);
            if p.0 == *key {
                proof {
                    lemma_map_of_pairs(self.pairs());
                    assert((self.pairs()[i as int]).0 == key@);
                    assert(has_key(self.pairs(), key@));
                }
                return Some(&p.1);
            }
            i += 1;
        }
        proof {
            assert(!has_key(self.pairs(), key@));
        }
        None
    }

    /// Bind `key` to `value`, replacing any earlier binding for that name.
    pub fn set(&mut self, key: String, value: String)
        requires
            old(self).wf(),
        ensures
            final(self).wf(),
            final(self)@ == old(self)@.insert(key@, value@),
            !old(self)@.contains_key(key@) ==> final(self).pairs() == old(self).pairs().push(
                (key@, value@),
            ),
            old(self)@.contains_key(key@) ==> final(self).pairs() == old(self).pairs().update(
                find_key(old(self).pairs(), key@),
                (key@, value@),
            ),
    {
        let ghost opairs = self.pairs();
        let n = self.entries.len();
        let mut i: usize = 0;
        while i < n
            invariant
                self == old(self),
                self.wf(),
                opairs == self.pairs(),
                n == self.pairs().len(),
                0 <= i <= n,
                forall|j: int| 0 <= j < i ==> (#[trigger] self.pairs()[j]).0 != key@,
            decreases n - i,
        {
            if vstd::std_specs::vec::vec_index(&self.entries, i).0 == key {
                proof {
                    lemma_map_of_pairs(opairs);
                    assert((opairs[i as int]).0 == key@);
                    assert(has_key(opairs, key@));
                    lemma_find_key(opairs, key@);
                }
                let _replaced = self.entries.remove(i);
                self.entries.insert(i, (key, value));
                proof {
                    let fk = find_key(opairs, key@);
                    assert(fk == i as int);
                    assert(self.pairs() =~= opairs.update(i as int, (key@, value@)));
                    lemma_map_of_pairs_update(opairs, i as int, (key@, value@));
                }
                return ;
            }
            i += 1;
        }
        proof {
            lemma_map_of_pairs(opairs);
            assert(!has_key(opairs, key@));
        }
        self.entries.push((key, value));
        proof {
            assert(self.pairs() =~= opairs.push((key@, value@)));
            lemma_map_of_pairs_push(opairs, (key@, value@));
        }
    }

    /// Drop any binding for `key`; a set without one is left unchanged.
    pub fn unset(&mut self, key: &String)
        requires
            old(self).wf(),
        ensures
            final(self).wf(),
            final(self)@ == old(self)@.remove(key@),
            !old(self)@.contains_key(key@) ==> final(self).pairs() == old(self).pairs(),
            old(self)@.contains_key(key@) ==> final(self).pairs() == old(self).pairs().remove(
                find_key(old(self).pairs(), key@),
            ),
    {
        let ghost opairs = self.pairs();
        let n = self.entries.len();
        let mut i: usize = 0;
        while i < n
            invariant
                self == old(self),
                self.wf(),
                opairs == self.pairs(),
                n == self.pairs().len(),
                0 <= i <= n,
                forall|j: int| 0 <= j < i ==> (#[trigger] self.pairs()[j]).0 != key@,
            decreases n - i,
        {
            if vstd::std_specs::vec::vec_index(&self.entries, i).0 == *key {
                proof {
                    lemma_map_of_pairs(opairs);
                    assert((opairs[i as int]).0 == key@);
                    assert(has_key(opairs, key@));
                    lemma_find_key(opairs, key@);
                }
                let _removed = self.entries.remove(i);
                proof {
                    let fk = find_key(opairs, key@);
                    assert(fk == i as int);
                    assert(self.pairs() =~= opairs.remove(i as int));
                    lemma_map_of_pairs_remove(opairs, i as int);
                }
                return ;
            }
            i += 1;
        }
        proof {
            lemma_map_of_pairs(opairs);
            assert(!has_key(opairs, key@));
            assert(self@ =~= self@.remove(key@));
        }
    }

    /// The merge of a permanent set (`self`) with a per-request set
    /// (`explicit`): for a name both define, the per-request value wins; any
    /// other name keeps its value from whichever side defines it. Neither
    /// input is changed.
    pub fn merge(&self, explicit: &HeaderSet) -> (r: HeaderSet)
        requires
            self.wf(),
            explicit.wf(),
        ensures
            r.wf(),
            r.pairs() == merged_pairs(self.pairs(), explicit.pairs()),
            forall|k: Seq<char>| #[trigger] r@.contains_key(k) <==> self@.contains_key(k)
                || explicit@.contains_key(k),
            forall|k: Seq<char>| explicit@.contains_key(k) ==> #[trigger] r@[k] == explicit@[k],
            forall|k: Seq<char>|
                !explicit@.contains_key(k) && self@.contains_key(k) ==> #[trigger] r@[k]
                    == self@[k],
    {
        let ghost me = map_of_pairs(explicit.pairs());
        let mut r = HeaderSet::new();
        let ne = explicit.len();
        let mut i: usize = 0;
        while i < ne
            invariant
                explicit.wf(),
                ne == explicit.pairs().len(),
                0 <= i <= ne,
                r.wf(),
                r.pairs() == explicit.pairs().take(i as int),
            decreases ne - i,
        {
            let ghost epairs = explicit.pairs();
            proof {
                lemma_map_of_pairs(r.pairs());
                if has_key(r.pairs(), epairs[i as int].0) {
                    let j = choose|j: int|
                        0 <= j < r.pairs().len() && (#[trigger] r.pairs()[j]).0
                            == epairs[i as int].0;
                    assert(r.pairs()[j] == epairs[j]);
                    assert(false);
                }
            }
            r.set(explicit.name_at(i).clone(), explicit.value_at(i).clone());
            proof {
                assert(r.pairs() =~= epairs.take(i + 1 as int));
            }
            i += 1;
        }
        proof {
            assert(explicit.pairs().take(ne as int) =~= explicit.pairs());
            assert(retained(self.pairs().take(0), me) =~= Seq::<HeaderPair>::empty());
            assert(r.pairs() =~= explicit.pairs() + retained(self.pairs().take(0), me));
        }
        let np = self.len();
        let mut i: usize = 0;
        while i < np
            invariant
                self.wf(),
                explicit.wf(),
                me == map_of_pairs(explicit.pairs()),
                np == self.pairs().len(),
                0 <= i <= np,
                r.wf(),
                r.pairs() == explicit.pairs() + retained(self.pairs().take(i as int), me),
            decreases np - i,
        {
            let ghost spairs = self.pairs();
            let ghost k = spairs[i as int].0;
            let ghost ret = retained(spairs.take(i as int), me);
            proof {
                lemma_map_of_pairs(r.pairs());
                lemma_map_of_pairs(explicit.pairs());
                lemma_has_key_add(explicit.pairs(), ret);
                lemma_retained(spairs.take(i as int), me);
                if has_key(ret, k) {
                    let j = choose|j: int| 0 <= j < ret.len() && (#[trigger] ret[j]).0 == k;
                    assert(in_pairs(spairs.take(i as int), ret[j]));
                    let x = choose|x: int|
                        0 <= x < spairs.take(i as int).len() && #[trigger] spairs.take(i as int)[x]
                            == ret[j];
                    assert(spairs[x] == ret[j]);
                    assert(false);
                }
                assert(r@.contains_key(k) <==> has_key(explicit.pairs(), k));
                assert(r@.contains_key(k) <==> me.contains_key(k));
            }
            let present = r.contains(self.name_at(i));
            proof {
                assert(spairs.take(i + 1 as int).drop_last() =~= spairs.take(i as int));
                assert(spairs.take(i + 1 as int).last() == spairs[i as int]);
            }
            if !present {
                r.set(self.name_at(i).clone(), self.value_at(i).clone());
                proof {
                    assert(retained(spairs.take(i + 1 as int), me) == ret.push(spairs[i as int]));
                    assert(r.pairs() =~= explicit.pairs() + retained(
                        spairs.take(i + 1 as int),
                        me,
                    ));
                }
            } else {
                proof {
                    assert(retained(spairs.take(i + 1 as int), me) == ret);
                }
            }
            i += 1;
        }
        proof {
            assert(self.pairs().take(np as int) =~= self.pairs());
            let ret = retained(self.pairs(), me);
            lemma_map_of_pairs(r.pairs());
            lemma_map_of_pairs(self.pairs());
            lemma_map_of_pairs(explicit.pairs());
            lemma_has_key_add(explicit.pairs(), ret);
            lemma_retained(self.pairs(), me);
            assert forall|k: Seq<char>| #[trigger] r@.contains_key(k) implies self@.contains_key(k)
                || explicit@.contains_key(k) by {
                if has_key(ret, k) {
                    assert(has_key(self.pairs(), k));
                }
            }
            assert forall|k: Seq<char>|
                self@.contains_key(k) || explicit@.contains_key(k) implies r@.contains_key(k) by {
                if explicit@.contains_key(k) {
                    assert(has_key(explicit.pairs(), k));
                } else {
                    assert(has_key(self.pairs(), k) && !me.contains_key(k));
                    assert(has_key(ret, k));
                }
                assert(has_key(r.pairs(), k));
            }
            assert forall|k: Seq<char>| explicit@.contains_key(k) implies #[trigger] r@[k]
                == explicit@[k] by {
                let j = choose|j: int|
                    0 <= j < explicit.pairs().len() && (#[trigger] explicit.pairs()[j]).0 == k;
                assert(r.pairs()[j] == explicit.pairs()[j]);
                assert(r@[r.pairs()[j].0] == r.pairs()[j].1);
                assert(explicit@[explicit.pairs()[j].0] == explicit.pairs()[j].1);
            }
            assert forall|k: Seq<char>|
                !explicit@.contains_key(k) && self@.contains_key(k) implies #[trigger] r@[k]
                    == self@[k] by {
                let j = choose|j: int|
                    0 <= j < self.pairs().len() && (#[trigger] self.pairs()[j]).0 == k;
                assert(in_pairs(ret, self.pairs()[j]));
                let x = choose|x: int| 0 <= x < ret.len() && #[trigger] ret[x] == self.pairs()[j];
                assert(r.pairs()[explicit.pairs().len() + x] == ret[x]);
                assert(r@[r.pairs()[explicit.pairs().len() + x].0] == r.pairs()[explicit.pairs().len()
                    + x].1);
                assert(self@[self.pairs()[j].0] == self.pairs()[j].1);
            }
        }
        r
    }

    /// A copy holding the same pairs in the same order.
    pub fn duplicate(&self) -> (r: HeaderSet)
        ensures
            r.pairs() == self.pairs(),
            r@ == self@,
    {
        let n = self.entries.len();
        let mut entries: Vec<(String, String)> = Vec::new();
        let mut i: usize = 0;
        while i < n
            invariant
                n == self.pairs().len(),
                0 <= i <= n,
                entries@.len() == i,
                forall|j: int|
                    0 <= j < i ==> ((#[trigger] entries@[j]).0@ == self.pairs()[j].0
                        && entries@[j].1@ == self.pairs()[j].1),
            decreases n - i,
        {
            let p = vstd::std_specs::vec::vec_index(&self.entries, i);
            entries.push((p.0.clone(), p.1.clone()));
            i += 1;
        }
        let r = HeaderSet { entries };
        proof {
            assert(r.pairs() =~= self.pairs());
        }
        r
    }

    /// The held names, copied out in storage order.
    pub fn keys(&self) -> (r: Vec<String>)
        ensures
            r@.len() == self.pairs().len(),
            forall|i: int| 0 <= i < r@.len() ==> (#[trigger] r@[i])@ == self.pairs()[i].0,
    {
        let n = self.entries.len();
        let mut r: Vec<String> = Vec::new();
        let mut i: usize = 0;
        while i < n
            invariant
                n == self.pairs().len(),
                0 <= i <= n,
                r@.len() == i,
                forall|j: int| 0 <= j < i ==> (#[trigger] r@[j])@ == self.pairs()[j].0,
            decreases n - i,
        {
            r.push(self.name_at(i).clone());
            i += 1;
        }
        r
    }

    /// The held pairs, copied out in storage order.
    pub fn to_pairs(&self) -> (r: Vec<(String, String)>)
        ensures
            r@.len() == self.pairs().len(),
            forall|i: int|
                0 <= i < r@.len() ==> ((#[trigger] r@[i]).0@ == self.pairs()[i].0 && r@[i].1@
                    == self.pairs()[i].1),
    {
        let n = self.entries.len();
        let mut r: Vec<(String, String)> = Vec::new();
        let mut i: usize = 0;
        while i < n
            invariant
                n == self.pairs().len(),
                0 <= i <= n,
                r@.len() == i,
                forall|j: int|
                    0 <= j < i ==> ((#[trigger] r@[j]).0@ == self.pairs()[j].0 && r@[j].1@
                        == self.pairs()[j].1),
            decreases n - i,
        {
            r.push((self.name_at(i).clone(), self.value_at(i).clone()));
            i += 1;
        }
        r
    }
}

} // verus!
