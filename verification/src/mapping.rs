//! A mapping from text to text that remembers the order in which its keys
//! came, and finds a key in constant time.
//!
//! The pairs stand in a vector and a hash map tells where each key stands:
//! the hash map alone cannot list its keys, which the cache and the
//! persisted document need.

use vstd::hash_map::StringHashMap;
use vstd::prelude::*;

verus! {

/// The pairs of `pairs`, each string taken as its characters.
pub open spec fn pair_views(pairs: Seq<(String, String)>) -> Seq<(Seq<char>, Seq<char>)> {
    Seq::new(pairs.len(), |i: int| (pairs[i].0@, pairs[i].1@))
}

/// Whether no key stands twice in `pairs`.
pub open spec fn distinct_keys(pairs: Seq<(Seq<char>, Seq<char>)>) -> bool {
    forall|i: int, j: int| 0 <= i < j < pairs.len() ==> pairs[i].0 != pairs[j].0
}

/// The mapping that `pairs` spell out; of two pairs with one key the later
/// one counts.
pub open spec fn mapping_of(pairs: Seq<(Seq<char>, Seq<char>)>) -> Map<Seq<char>, Seq<char>>
    decreases pairs.len(),
{
    if pairs.len() == 0 {
        Map::empty()
    } else {
        mapping_of(pairs.drop_last()).insert(pairs.last().0, pairs.last().1)
    }
}

/// `mapping_of` holds the keys of its pairs and no others.
pub proof fn lemma_mapping_keys(pairs: Seq<(Seq<char>, Seq<char>)>)
    ensures
        forall|k: Seq<char>| #[trigger]
            mapping_of(pairs).contains_key(k) <==> exists|i: int|
                0 <= i < pairs.len() && #[trigger] pairs[i].0 == k,
        mapping_of(pairs).dom().finite(),
    decreases pairs.len(),
{
    if pairs.len() > 0 {
        let front = pairs.drop_last();
        lemma_mapping_keys(front);
        assert forall|k: Seq<char>| #[trigger]
            mapping_of(pairs).contains_key(k) <==> exists|i: int|
                0 <= i < pairs.len() && #[trigger] pairs[i].0 == k by {
            if mapping_of(pairs).contains_key(k) {
                if k == pairs.last().0 {
                    assert(pairs[pairs.len() - 1].0 == k);
                } else {
                    assert(mapping_of(front).contains_key(k));
                    let i = choose|i: int| 0 <= i < front.len() && #[trigger] front[i].0 == k;
                    assert(pairs[i].0 == k);
                }
            }
            if exists|i: int| 0 <= i < pairs.len() && #[trigger] pairs[i].0 == k {
                let i = choose|i: int| 0 <= i < pairs.len() && #[trigger] pairs[i].0 == k;
                if i < pairs.len() - 1 {
                    assert(front[i].0 == k);
                }
            }
        }
    }
}

/// Where no key stands twice, `mapping_of` maps the key of each pair to the
/// value of that pair, and holds as many keys as there are pairs.
pub proof fn lemma_mapping_values(pairs: Seq<(Seq<char>, Seq<char>)>)
    requires
        distinct_keys(pairs),
    ensures
        forall|i: int|
            0 <= i < pairs.len() ==> mapping_of(pairs).contains_key(#[trigger] pairs[i].0)
                && mapping_of(pairs)[pairs[i].0] == pairs[i].1,
        mapping_of(pairs).dom().finite(),
        mapping_of(pairs).dom().len() == pairs.len(),
    decreases pairs.len(),
{
    lemma_mapping_keys(pairs);
    if pairs.len() > 0 {
        let front = pairs.drop_last();
        let last = pairs.last();
        assert(distinct_keys(front)) by {
            assert forall|i: int, j: int| 0 <= i < j < front.len() implies front[i].0
                != front[j].0 by {
                assert(front[i] == pairs[i] && front[j] == pairs[j]);
            }
        }
        lemma_mapping_values(front);
        lemma_mapping_keys(front);
        assert(!mapping_of(front).contains_key(last.0)) by {
            if mapping_of(front).contains_key(last.0) {
                let i = choose|i: int| 0 <= i < front.len() && #[trigger] front[i].0 == last.0;
                assert(pairs[i].0 == pairs[pairs.len() - 1].0);
            }
        }
        assert forall|i: int| 0 <= i < pairs.len() implies mapping_of(pairs).contains_key(
            #[trigger] pairs[i].0,
        ) && mapping_of(pairs)[pairs[i].0] == pairs[i].1 by {
            if i < pairs.len() - 1 {
                assert(front[i] == pairs[i]);
                assert(pairs[i].0 != pairs[pairs.len() - 1].0);
            }
        }
        assert(mapping_of(pairs).dom() == mapping_of(front).dom().insert(last.0));
    }
}

/// A mapping that holds each pair of `pairs`, and no key besides theirs, is
/// `mapping_of(pairs)`.
pub proof fn lemma_mapping_is(pairs: Seq<(Seq<char>, Seq<char>)>, m: Map<Seq<char>, Seq<char>>)
    requires
        distinct_keys(pairs),
        forall|i: int|
            0 <= i < pairs.len() ==> m.contains_key(#[trigger] pairs[i].0) && m[pairs[i].0]
                == pairs[i].1,
        forall|k: Seq<char>| #[trigger]
            m.contains_key(k) ==> exists|i: int| 0 <= i < pairs.len() && #[trigger] pairs[i].0 == k,
    ensures
        mapping_of(pairs) == m,
{
    lemma_mapping_keys(pairs);
    lemma_mapping_values(pairs);
    assert forall|k: Seq<char>| mapping_of(pairs).contains_key(k) implies #[trigger]
        m.contains_key(k) && m[k] == mapping_of(pairs)[k] by {
        let i = choose|i: int| 0 <= i < pairs.len() && #[trigger] pairs[i].0 == k;
        assert(m.contains_key(pairs[i].0));
    }
    assert forall|k: Seq<char>| m.contains_key(k) implies #[trigger] mapping_of(
        pairs,
    ).contains_key(k) by {
        let i = choose|i: int| 0 <= i < pairs.len() && #[trigger] pairs[i].0 == k;
        assert(mapping_of(pairs).contains_key(pairs[i].0));
    }
    assert(mapping_of(pairs) =~= m);
}

/// Taking the characters of each string commutes with appending a pair.
pub proof fn lemma_pair_views_push(pairs: Seq<(String, String)>, pair: (String, String))
    ensures
        pair_views(pairs.push(pair)) == pair_views(pairs).push((pair.0@, pair.1@)),
        pair_views(pairs.push(pair)).drop_last() == pair_views(pairs),
{
    assert(pair_views(pairs.push(pair)) =~= pair_views(pairs).push((pair.0@, pair.1@)));
    assert(pair_views(pairs).push((pair.0@, pair.1@)).drop_last() =~= pair_views(pairs));
}

/// Whether `index` tells, for the key of each pair, where the pair stands,
/// and holds no other key.
pub open spec fn indexes(index: Map<Seq<char>, usize>, pairs: Seq<(Seq<char>, Seq<char>)>) -> bool {
    &&& forall|i: int|
        0 <= i < pairs.len() ==> index.contains_key(#[trigger] pairs[i].0) && index[pairs[i].0]
            == i
    &&& forall|k: Seq<char>| #[trigger]
        index.contains_key(k) ==> index[k] < pairs.len() && pairs[index[k] as int].0 == k
}

/// Pairs that an index tells apart hold each key once.
pub proof fn lemma_indexed_distinct(
    index: Map<Seq<char>, usize>,
    pairs: Seq<(Seq<char>, Seq<char>)>,
)
    requires
        indexes(index, pairs),
    ensures
        distinct_keys(pairs),
        forall|k: Seq<char>| index.contains_key(k) <==> mapping_of(pairs).contains_key(k),
{
    assert forall|i: int, j: int| 0 <= i < j < pairs.len() implies pairs[i].0 != pairs[j].0 by {
        assert(index[pairs[i].0] == i);
        assert(index[pairs[j].0] == j);
    }
    lemma_mapping_keys(pairs);
    assert forall|k: Seq<char>| index.contains_key(k) <==> mapping_of(pairs).contains_key(k) by {
        if index.contains_key(k) {
            assert(pairs[index[k] as int].0 == k);
        }
        if mapping_of(pairs).contains_key(k) {
            let i = choose|i: int| 0 <= i < pairs.len() && #[trigger] pairs[i].0 == k;
            assert(index.contains_key(pairs[i].0));
        }
    }
}

/// `Vec::capacity`: the number of elements that the vector can hold without
/// allocating again, which is never less than the number it holds.
#[verifier::external_body]
fn capacity_of(pairs: &Vec<(String, String)>) -> (c: usize)
    ensures
        c >= pairs@.len(),
{
    pairs.capacity()
}

/// A mapping from text to text.
pub struct Mapping {
    pairs: Vec<(String, String)>,
    index: StringHashMap<usize>,
}

impl View for Mapping {
    type V = Map<Seq<char>, Seq<char>>;

    closed spec fn view(&self) -> Map<Seq<char>, Seq<char>> {
        mapping_of(pair_views(self.pairs@))
    }
}

impl Mapping {
    /// The invariant: the index and the pairs agree.
    pub closed spec fn wf(&self) -> bool {
        indexes(self.index@, pair_views(self.pairs@))
    }

    /// The keys in the order in which they first came.
    pub closed spec fn key_order(&self) -> Seq<Seq<char>> {
        Seq::new(self.pairs@.len(), |i: int| self.pairs@[i].0@)
    }

    /// The keys in order are the keys of the mapping, each once.
    pub proof fn lemma_key_order(&self)
        requires
            self.wf(),
        ensures
            self@.dom().finite(),
            self.key_order().len() == self@.dom().len(),
            self.key_order().no_duplicates(),
            forall|k: Seq<char>| self.key_order().contains(k) <==> self@.contains_key(k),
    {
        let pairs = pair_views(self.pairs@);
        lemma_indexed_distinct(self.index@, pairs);
        lemma_mapping_values(pairs);
        lemma_mapping_keys(pairs);
        let order = self.key_order();
        assert forall|i: int, j: int|
            0 <= i < order.len() && 0 <= j < order.len() && i != j implies order[i]
            != order[j] by {
            assert(order[i] == pairs[i].0 && order[j] == pairs[j].0);
            if i < j {
                assert(pairs[i].0 != pairs[j].0);
            } else {
                assert(pairs[j].0 != pairs[i].0);
            }
        }
        assert forall|k: Seq<char>| order.contains(k) <==> self@.contains_key(k) by {
            if order.contains(k) {
                let i = choose|i: int| 0 <= i < order.len() && order[i] == k;
                assert(pairs[i].0 == k);
            }
            if self@.contains_key(k) {
                let i = choose|i: int| 0 <= i < pairs.len() && #[trigger] pairs[i].0 == k;
                assert(order[i] == k);
            }
        }
    }

    /// The empty mapping.
    pub fn new() -> (m: Self)
        ensures
            m.wf(),
            m@ == Map::<Seq<char>, Seq<char>>::empty(),
            m.key_order() == Seq::<Seq<char>>::empty(),
    {
        let m = Mapping { pairs: Vec::new(), index: StringHashMap::new() };
        assert(pair_views(m.pairs@) =~= Seq::empty());
        assert(m.key_order() =~= Seq::empty());
        m
    }

    /// The mapping that `pairs` spell out; of two pairs with one key the
    /// later one counts. Where no key stands twice, the keys keep the
    /// order of the pairs.
    pub fn from_pairs(pairs: Vec<(String, String)>) -> (m: Self)
        ensures
            m.wf(),
            m@ == mapping_of(pair_views(pairs@)),
            distinct_keys(pair_views(pairs@)) ==> m.key_order() == Seq::new(
                pairs@.len(),
                |i: int| pairs@[i].0@,
            ),
    {
        let mut m = Mapping::new();
        let ghost all = pair_views(pairs@);
        let ghost given = pairs@;
        for pair in iter: pairs
            invariant
                iter.seq() == given,
                all == pair_views(given),
                m.wf(),
                m@ == mapping_of(all.take(iter.index() as int)),
                distinct_keys(all) ==> m.key_order() == Seq::new(
                    iter.index() as nat,
                    |i: int| given[i].0@,
                ),
        {
            let ghost at = iter.index() as int;
            proof {
                let next = all.take(at + 1);
                assert(next.drop_last() =~= all.take(at));
                assert(next.last() == (pair.0@, pair.1@));
                lemma_mapping_keys(all.take(at));
                if distinct_keys(all) {
                    assert(!m@.contains_key(pair.0@)) by {
                        if m@.contains_key(pair.0@) {
                            let i = choose|i: int|
                                0 <= i < all.take(at).len() && #[trigger] all.take(at)[i].0
                                    == pair.0@;
                            assert(all[i].0 == all[at].0);
                        }
                    }
                }
            }
            m.insert(pair.0, pair.1);
            proof {
                if distinct_keys(all) {
                    assert(m.key_order() =~= Seq::new((at + 1) as nat, |i: int| given[i].0@));
                }
            }
        }
        let ghost n = given.len();
        proof {
            assert(all.take(n as int) =~= all);
        }
        m
    }

    /// The number of keys.
    pub fn len(&self) -> (n: usize)
        requires
            self.wf(),
        ensures
            self@.dom().finite(),
            n == self@.dom().len(),
    {
        proof {
            lemma_indexed_distinct(self.index@, pair_views(self.pairs@));
            lemma_mapping_values(pair_views(self.pairs@));
        }
        self.pairs.len()
    }

    /// The value under `key`, if the mapping holds the key.
    pub fn get(&self, key: &str) -> (r: Option<&String>)
        requires
            self.wf(),
        ensures
            match r {
                Some(value) => self@.contains_key(key@) && self@[key@] == value@,
                None => !self@.contains_key(key@),
            },
    {
        proof {
            lemma_indexed_distinct(self.index@, pair_views(self.pairs@));
            lemma_mapping_values(pair_views(self.pairs@));
        }
        match self.index.get(key) {
            Some(at) => {
                assert(pair_views(self.pairs@)[*at as int].0 == key@);
                Some(&self.pairs[*at].1)
            },
            None => None,
        }
    }

    /// Puts `value` under `key`, in place of what stood there.
    pub fn insert(&mut self, key: String, value: String)
        requires
            old(self).wf(),
        ensures
            final(self).wf(),
            final(self)@ == old(self)@.insert(key@, value@),
            final(self).key_order() == if old(self)@.contains_key(key@) {
                old(self).key_order()
            } else {
                old(self).key_order().push(key@)
            },
    {
        let ghost before = pair_views(self.pairs@);
        let ghost target = self@.insert(key@, value@);
        proof {
            lemma_indexed_distinct(self.index@, before);
            lemma_mapping_values(before);
            lemma_mapping_keys(before);
        }
        let found: Option<usize> = match self.index.get(key.as_str()) {
            Some(at) => Some(*at),
            None => None,
        };
        match found {
            Some(at) => {
                self.pairs.set(at, (key, value));
                proof {
                    let after = pair_views(self.pairs@);
                    assert(after =~= before.update(at as int, (key@, value@)));
                    assert(before[at as int].0 == key@);
                    assert forall|i: int| 0 <= i < after.len() implies self.index@.contains_key(
                        #[trigger] after[i].0,
                    ) && self.index@[after[i].0] == i by {
                        assert(after[i].0 == before[i].0);
                    }
                    assert(indexes(self.index@, after));
                    lemma_indexed_distinct(self.index@, after);
                    assert forall|i: int| 0 <= i < after.len() implies target.contains_key(
                        #[trigger] after[i].0,
                    ) && target[after[i].0] == after[i].1 by {
                        if i != at {
                            assert(after[i] == before[i]);
                            assert(before[i].0 != key@) by {
                                assert(self.index@[before[i].0] == i);
                            }
                        }
                    }
                    assert forall|k: Seq<char>| #[trigger] target.contains_key(k) implies exists|
                        i: int,
                    |
                        0 <= i < after.len() && #[trigger] after[i].0 == k by {
                        if k == key@ {
                            assert(after[at as int].0 == k);
                        } else {
                            let i = choose|i: int|
                                0 <= i < before.len() && #[trigger] before[i].0 == k;
                            assert(after[i].0 == k);
                        }
                    }
                    lemma_mapping_is(after, target);
                    assert(self.key_order() =~= old(self).key_order());
                }
            },
            None => {
                let at = self.pairs.len();
                let ghost pair = (key, value);
                self.index.insert(key.clone(), at);
                self.pairs.push((key, value));
                proof {
                    lemma_pair_views_push(old(self).pairs@, pair);
                    let after = pair_views(self.pairs@);
                    assert(after == before.push((key@, value@)));
                    assert(after.last() == (key@, value@));
                    assert forall|i: int| 0 <= i < after.len() implies self.index@.contains_key(
                        #[trigger] after[i].0,
                    ) && self.index@[after[i].0] == i by {
                        if i < at {
                            assert(after[i] == before[i]);
                            assert(old(self).index@.contains_key(before[i].0));
                        }
                    }
                    assert forall|k: Seq<char>| #[trigger]
                        self.index@.contains_key(k) implies self.index@[k] < after.len()
                        && after[self.index@[k] as int].0 == k by {
                        if k != key@ {
                            assert(old(self).index@.contains_key(k));
                            assert(after[old(self).index@[k] as int] == before[old(
                                self,
                            ).index@[k] as int]);
                        }
                    }
                    assert(self.key_order() =~= old(self).key_order().push(key@));
                }
            },
        }
    }

    /// Empties the mapping.
    pub fn clear(&mut self)
        ensures
            final(self).wf(),
            final(self)@ == Map::<Seq<char>, Seq<char>>::empty(),
            final(self).key_order() == Seq::<Seq<char>>::empty(),
    {
        self.pairs.clear();
        self.index.clear();
        assert(pair_views(self.pairs@) =~= Seq::empty());
        assert(self.key_order() =~= Seq::empty());
    }

    /// The keys, in the order in which they first came.
    pub fn keys(&self) -> (keys: Vec<String>)
        requires
            self.wf(),
        ensures
            keys@.len() == self.key_order().len(),
            forall|i: int| 0 <= i < keys@.len() ==> (#[trigger] keys@[i])@ == self.key_order()[i],
    {
        let mut keys: Vec<String> = Vec::new();
        let mut i: usize = 0;
        while i < self.pairs.len()
            invariant
                i <= self.pairs.len(),
                keys@.len() == i,
                forall|j: int| 0 <= j < i ==> (#[trigger] keys@[j])@ == self.pairs@[j].0@,
            decreases self.pairs.len() - i,
        {
            keys.push(self.pairs[i].0.clone());
            i += 1;
        }
        keys
    }

    /// The pairs of the mapping, in the order in which their keys first came.
    pub fn pairs(&self) -> (pairs: &Vec<(String, String)>)
        requires
            self.wf(),
        ensures
            distinct_keys(pair_views(pairs@)),
            mapping_of(pair_views(pairs@)) == self@,
    {
        proof {
            lemma_indexed_distinct(self.index@, pair_views(self.pairs@));
        }
        &self.pairs
    }

    /// The number of pairs for which room is allocated.
    pub fn capacity(&self) -> (c: usize)
        requires
            self.wf(),
        ensures
            self@.dom().finite(),
            c >= self@.dom().len(),
    {
        proof {
            lemma_indexed_distinct(self.index@, pair_views(self.pairs@));
            lemma_mapping_values(pair_views(self.pairs@));
        }
        capacity_of(&self.pairs)
    }

    /// Whether `other` is the same mapping.
    pub fn same_as(&self, other: &Mapping) -> (same: bool)
        requires
            self.wf(),
            other.wf(),
        ensures
            same == (other@ == self@),
    {
        self.holds_distinct(other.pairs())
    }

    /// Whether `pairs`, with each key once, spell out this mapping.
    fn holds_distinct(&self, pairs: &Vec<(String, String)>) -> (same: bool)
        requires
            self.wf(),
            distinct_keys(pair_views(pairs@)),
        ensures
            same == (mapping_of(pair_views(pairs@)) == self@),
    {
        let ghost other = pair_views(pairs@);
        let ghost mine = pair_views(self.pairs@);
        proof {
            lemma_indexed_distinct(self.index@, mine);
            lemma_mapping_values(mine);
            lemma_mapping_keys(mine);
            lemma_mapping_values(other);
            lemma_mapping_keys(other);
        }
        if pairs.len() != self.pairs.len() {
            return false;
        }
        let mut i: usize = 0;
        while i < pairs.len()
            invariant
                i <= pairs.len(),
                other == pair_views(pairs@),
                mine == pair_views(self.pairs@),
                self.wf(),
                forall|j: int|
                    0 <= j < i ==> self@.contains_key(#[trigger] other[j].0) && self@[other[j].0]
                        == other[j].1,
                forall|j: int|
                    0 <= j < other.len() ==> mapping_of(other).contains_key(
                        #[trigger] other[j].0,
                    ) && mapping_of(other)[other[j].0] == other[j].1,
            decreases pairs.len() - i,
        {
            match self.get(pairs[i].0.as_str()) {
                Some(value) => {
                    if *value != pairs[i].1 {
                        assert(self@[other[i as int].0] != other[i as int].1);
                        return false;
                    }
                },
                None => {
                    assert(!self@.contains_key(other[i as int].0));
                    return false;
                },
            }
            i += 1;
        }
        proof {
            let a = mapping_of(other);
            let b = self@;
            assert(a.dom().subset_of(b.dom())) by {
                assert forall|k: Seq<char>| a.dom().contains(k) implies b.dom().contains(k) by {
                    let j = choose|j: int| 0 <= j < other.len() && #[trigger] other[j].0 == k;
                    assert(b.contains_key(other[j].0));
                }
            }
            vstd::set_lib::lemma_subset_equality(a.dom(), b.dom());
            assert forall|k: Seq<char>| a.contains_key(k) implies a[k] == b[k] by {
                let j = choose|j: int| 0 <= j < other.len() && #[trigger] other[j].0 == k;
                assert(b[other[j].0] == other[j].1);
            }
            assert(a =~= b);
        }
        true
    }
}

} // verus!
