//! Maps whose keys have a strict total order, listed in that order.

use vstd::prelude::*;

use crate::names;
use crate::text;

verus! {

/// A key with a strict total order on what it stands for.
pub trait OrderedKey: View + Sized {
    /// Whether one key comes before another.
    spec fn before(a: Self::V, b: Self::V) -> bool;

    /// No key comes before itself.
    proof fn irreflexive(a: Self::V)
        ensures
            !Self::before(a, a),
    ;

    /// The order is transitive.
    proof fn transitive(a: Self::V, b: Self::V, c: Self::V)
        requires
            Self::before(a, b),
            Self::before(b, c),
        ensures
            Self::before(a, c),
    ;

    /// Of two different keys one comes before the other.
    proof fn total(a: Self::V, b: Self::V)
        requires
            a != b,
        ensures
            Self::before(a, b) || Self::before(b, a),
    ;

    /// Tells whether this key comes before another.
    fn comes_before(&self, other: &Self) -> (before: bool)
        ensures
            before == Self::before(self@, other@),
    ;
}

impl OrderedKey for String {
    open spec fn before(a: Seq<char>, b: Seq<char>) -> bool {
        text::text_less(a, b)
    }

    proof fn irreflexive(a: Seq<char>) {
        names::lemma_text_irreflexive(a);
    }

    proof fn transitive(a: Seq<char>, b: Seq<char>, c: Seq<char>) {
        names::lemma_text_transitive(a, b, c);
    }

    proof fn total(a: Seq<char>, b: Seq<char>) {
        names::lemma_text_total(a, b);
    }

    fn comes_before(&self, other: &Self) -> (before: bool) {
        names::comes_before(self.as_str(), other.as_str())
    }
}

impl OrderedKey for (String, String) {
    open spec fn before(a: (Seq<char>, Seq<char>), b: (Seq<char>, Seq<char>)) -> bool {
        text::text_less(a.0, b.0) || a.0 == b.0 && text::text_less(a.1, b.1)
    }

    proof fn irreflexive(a: (Seq<char>, Seq<char>)) {
        names::lemma_text_irreflexive(a.0);
        names::lemma_text_irreflexive(a.1);
    }

    proof fn transitive(
        a: (Seq<char>, Seq<char>),
        b: (Seq<char>, Seq<char>),
        c: (Seq<char>, Seq<char>),
    ) {
        if text::text_less(a.0, b.0) && text::text_less(b.0, c.0) {
            names::lemma_text_transitive(a.0, b.0, c.0);
        }
        if text::text_less(a.1, b.1) && text::text_less(b.1, c.1) {
            names::lemma_text_transitive(a.1, b.1, c.1);
        }
    }

    proof fn total(a: (Seq<char>, Seq<char>), b: (Seq<char>, Seq<char>)) {
        if a.0 != b.0 {
            names::lemma_text_total(a.0, b.0);
        } else {
            names::lemma_text_total(a.1, b.1);
        }
    }

    fn comes_before(&self, other: &Self) -> (before: bool) {
        names::comes_before(self.0.as_str(), other.0.as_str()) || names::same_text(
            self.0.as_str(),
            other.0.as_str(),
        ) && names::comes_before(self.1.as_str(), other.1.as_str())
    }
}

/// Whether the keys of a list of pairs stand in strictly rising order.
pub open spec fn sorted_keys<K: OrderedKey, T>(entries: Seq<(K::V, T)>) -> bool {
    forall|i: int, j: int|
        0 <= i < j < entries.len() ==> K::before(#[trigger] entries[i].0, #[trigger] entries[j].0)
}

/// Where a key stands in a list of pairs.
pub open spec fn key_stands<K: OrderedKey, T>(entries: Seq<(K::V, T)>, key: K::V, i: int) -> bool {
    0 <= i < entries.len() && entries[i].0 == key
}

/// Whether a list of pairs holds a key.
pub open spec fn holds_key<K: OrderedKey, T>(entries: Seq<(K::V, T)>, key: K::V) -> bool {
    exists|i: int| key_stands::<K, _>(entries, key, i)
}

/// The map that a list of pairs describes.
pub open spec fn keyed_map<K: OrderedKey, T>(entries: Seq<(K::V, T)>) -> Map<K::V, T> {
    Map::new(
        |key: K::V| holds_key::<K, _>(entries, key),
        |key: K::V| entries[choose|i: int| key_stands::<K, _>(entries, key, i)].1,
    )
}

/// Each key of a sorted list stands in one place.
pub proof fn lemma_key_stands_once<K: OrderedKey, T>(entries: Seq<(K::V, T)>, i: int, j: int)
    requires
        sorted_keys::<K, _>(entries),
        0 <= i < entries.len(),
        0 <= j < entries.len(),
        entries[i].0 == entries[j].0,
    ensures
        i == j,
{
    K::irreflexive(entries[i].0);
}

/// The map of a sorted list holds what stands beside each key.
pub proof fn lemma_keyed_map_at<K: OrderedKey, T>(entries: Seq<(K::V, T)>, i: int)
    requires
        sorted_keys::<K, _>(entries),
        0 <= i < entries.len(),
    ensures
        keyed_map::<K, _>(entries).contains_key(entries[i].0),
        keyed_map::<K, _>(entries)[entries[i].0] == entries[i].1,
{
    let key = entries[i].0;
    assert(key_stands::<K, _>(entries, key, i));
    let k = choose|k: int| key_stands::<K, _>(entries, key, k);
    lemma_key_stands_once::<K, _>(entries, i, k);
}

/// Two sorted lists that describe one map are one list: a map lists its keys in one order.
pub proof fn lemma_sorted_keys_canonical<K: OrderedKey, T>(a: Seq<(K::V, T)>, b: Seq<(K::V, T)>)
    requires
        sorted_keys::<K, _>(a),
        sorted_keys::<K, _>(b),
        keyed_map::<K, _>(a) == keyed_map::<K, _>(b),
    ensures
        a == b,
    decreases a.len(),
{
    if a.len() == 0 {
        if b.len() > 0 {
            lemma_keyed_map_at::<K, _>(b, 0);
            assert(holds_key::<K, _>(a, b[0].0));
        }
        assert(a =~= b);
    } else if b.len() == 0 {
        lemma_keyed_map_at::<K, _>(a, 0);
        assert(holds_key::<K, _>(b, a[0].0));
    } else {
        let n = a.len() - 1;
        let m = b.len() - 1;
        lemma_keyed_map_at::<K, _>(a, n);
        lemma_keyed_map_at::<K, _>(b, m);
        assert(holds_key::<K, _>(b, a[n].0));
        assert(holds_key::<K, _>(a, b[m].0));
        let j = choose|j: int| key_stands::<K, _>(b, a[n].0, j);
        let i = choose|i: int| key_stands::<K, _>(a, b[m].0, i);
        if a[n].0 != b[m].0 {
            assert(K::before(b[j].0, b[m].0));
            assert(K::before(a[i].0, a[n].0));
            K::transitive(a[n].0, b[m].0, a[n].0);
            K::irreflexive(a[n].0);
        }
        let x = a.drop_last();
        let y = b.drop_last();
        assert forall|key: K::V| holds_key::<K, _>(x, key) == holds_key::<K, _>(y, key) by {
            lemma_drop_last_keys::<K, _>(a, key);
            lemma_drop_last_keys::<K, _>(b, key);
            assert(keyed_map::<K, _>(a).contains_key(key) == holds_key::<K, _>(a, key));
            assert(keyed_map::<K, _>(b).contains_key(key) == holds_key::<K, _>(b, key));
            assert(a.last().0 == b.last().0);
        }
        assert forall|key: K::V| keyed_map::<K, _>(x).contains_key(key) implies keyed_map::<K, _>(x)[key]
            == keyed_map::<K, _>(y)[key] by {
            let p = choose|p: int| key_stands::<K, _>(x, key, p);
            let q = choose|q: int| key_stands::<K, _>(y, key, q);
            assert(holds_key::<K, _>(y, key));
            assert(a[p].0 == key && b[q].0 == key);
            lemma_keyed_map_at::<K, _>(a, p);
            lemma_keyed_map_at::<K, _>(b, q);
            lemma_keyed_map_at::<K, _>(x, p);
            lemma_keyed_map_at::<K, _>(y, q);
        }
        assert(keyed_map::<K, _>(x) =~= keyed_map::<K, _>(y));
        lemma_sorted_keys_canonical::<K, _>(x, y);
        assert(a =~= x.push(a[n]));
        assert(b =~= y.push(b[m]));
    }
}

proof fn lemma_drop_last_keys<K: OrderedKey, T>(a: Seq<(K::V, T)>, key: K::V)
    requires
        sorted_keys::<K, _>(a),
        a.len() > 0,
    ensures
        holds_key::<K, _>(a.drop_last(), key) == (holds_key::<K, _>(a, key) && key != a.last().0),
{
    let x = a.drop_last();
    if holds_key::<K, _>(x, key) {
        let p = choose|p: int| key_stands::<K, _>(x, key, p);
        assert(key_stands::<K, _>(a, key, p));
        if key == a.last().0 {
            lemma_key_stands_once::<K, _>(a, p, a.len() - 1);
        }
    }
    if holds_key::<K, _>(a, key) && key != a.last().0 {
        let p = choose|p: int| key_stands::<K, _>(a, key, p);
        assert(key_stands::<K, _>(x, key, p));
    }
}

/// The entries of a map in the order of their keys.
pub open spec fn listing<K: OrderedKey, T>(map: Map<K::V, T>) -> Seq<(K::V, T)> {
    choose|entries: Seq<(K::V, T)>| sorted_keys::<K, T>(entries) && keyed_map::<K, T>(entries) == map
}

/// A sorted list is the listing of its map.
pub proof fn lemma_listing<K: OrderedKey, T>(entries: Seq<(K::V, T)>)
    requires
        sorted_keys::<K, T>(entries),
    ensures
        listing::<K, T>(keyed_map::<K, T>(entries)) == entries,
{
    let listed = listing::<K, T>(keyed_map::<K, T>(entries));
    assert(sorted_keys::<K, T>(listed) && keyed_map::<K, T>(listed) == keyed_map::<K, T>(entries));
    lemma_sorted_keys_canonical::<K, T>(listed, entries);
}

/// A map that lists its entries in the order of their keys.
#[derive(Debug, PartialEq, Eq)]
pub struct KeyMap<K: OrderedKey, V: View> {
    entries: Vec<(K, V)>,
}

impl<K: OrderedKey, V: View> View for KeyMap<K, V> {
    type V = Map<K::V, V::V>;

    open spec fn view(&self) -> Map<K::V, V::V> {
        keyed_map::<K, _>(self.entries())
    }
}

impl<K: OrderedKey, V: View> KeyMap<K, V> {
    /// The entries in the order of their keys.
    pub closed spec fn entries(&self) -> Seq<(K::V, V::V)> {
        Seq::new(self.entries@.len(), |i: int| (self.entries@[i].0@, self.entries@[i].1@))
    }

    #[verifier::type_invariant]
    spec fn ordered(self) -> bool {
        sorted_keys::<K, _>(self.entries())
    }

    /// A map without entries.
    pub fn new() -> (map: Self)
        ensures
            map@ == Map::<K::V, V::V>::empty(),
            map.entries() == Seq::<(K::V, V::V)>::empty(),
    {
        let map = KeyMap { entries: Vec::new() };
        assert(map.entries() =~= Seq::<(K::V, V::V)>::empty());
        assert(map@ =~= Map::<K::V, V::V>::empty());
        map
    }

    /// The number of entries.
    pub fn len(&self) -> (len: usize)
        ensures
            len == self.entries().len(),
            sorted_keys::<K, _>(self.entries()),
    {
        proof {
            use_type_invariant(self);
        }
        self.entries.len()
    }

    /// The key of the entry at a place in the order.
    pub fn key_at(&self, index: usize) -> (key: &K)
        requires
            index < self.entries().len(),
        ensures
            key@ == self.entries()[index as int].0,
    {
        &self.entries[index].0
    }

    /// The value of the entry at a place in the order.
    pub fn value_at(&self, index: usize) -> (value: &V)
        requires
            index < self.entries().len(),
        ensures
            value@ == self.entries()[index as int].1,
    {
        &self.entries[index].1
    }

    /// Where a key stands, or where it would be put.
    fn place_of(&self, key: &K) -> (place: (bool, usize))
        ensures
            place.1 <= self.entries().len(),
            place.0 ==> place.1 < self.entries().len() && self.entries()[place.1 as int].0 == key@,
            !place.0 ==> !holds_key::<K, _>(self.entries(), key@),
            forall|k: int| 0 <= k < place.1 ==> K::before(#[trigger] self.entries()[k].0, key@),
            !place.0 ==> forall|k: int|
                place.1 <= k < self.entries().len() ==> K::before(
                    key@,
                    #[trigger] self.entries()[k].0,
                ),
    {
        proof {
            use_type_invariant(self);
        }
        let mut low: usize = 0;
        let mut high: usize = self.entries.len();
        while low < high
            invariant
                low <= high <= self.entries.len(),
                self.entries.len() == self.entries().len(),
                sorted_keys::<K, _>(self.entries()),
                forall|k: int| 0 <= k < low ==> K::before(#[trigger] self.entries()[k].0, key@),
                forall|k: int|
                    high <= k < self.entries().len() ==> K::before(
                        key@,
                        #[trigger] self.entries()[k].0,
                    ),
            decreases high - low,
        {
            let middle: usize = low + (high - low) / 2;
            let held = &self.entries[middle].0;
            assert(held@ == self.entries()[middle as int].0);
            if held.comes_before(key) {
                proof {
                    assert forall|k: int| 0 <= k < middle + 1 implies K::before(
                        #[trigger] self.entries()[k].0,
                        key@,
                    ) by {
                        if k < middle {
                            K::transitive(self.entries()[k].0, held@, key@);
                        }
                    }
                }
                low = middle + 1;
            } else if key.comes_before(held) {
                proof {
                    assert forall|k: int| middle <= k < self.entries().len() implies K::before(
                        key@,
                        #[trigger] self.entries()[k].0,
                    ) by {
                        if k > middle {
                            K::transitive(key@, held@, self.entries()[k].0);
                        }
                    }
                }
                high = middle;
            } else {
                proof {
                    if held@ != key@ {
                        K::total(held@, key@);
                    }
                    assert forall|k: int| 0 <= k < middle implies K::before(
                        #[trigger] self.entries()[k].0,
                        key@,
                    ) by {
                        assert(K::before(self.entries()[k].0, self.entries()[middle as int].0));
                    }
                }
                return (true, middle);
            }
        }
        proof {
            if holds_key::<K, _>(self.entries(), key@) {
                let i = choose|i: int| key_stands::<K, _>(self.entries(), key@, i);
                K::irreflexive(key@);
                assert(self.entries()[i].0 == key@);
            }
        }
        (false, low)
    }

    /// Where the entry with a key stands in the order, if there is one.
    pub fn find(&self, key: &K) -> (place: Option<usize>)
        ensures
            match place {
                Some(i) => i < self.entries().len() && self.entries()[i as int].0 == key@
                    && self@.contains_key(key@) && self@[key@] == self.entries()[i as int].1,
                None => !self@.contains_key(key@),
            },
    {
        let (found, place) = self.place_of(key);
        if found {
            proof {
                use_type_invariant(self);
                lemma_keyed_map_at::<K, _>(self.entries(), place as int);
            }
            Some(place)
        } else {
            None
        }
    }

    /// The value that stands beside a key.
    pub fn get(&self, key: &K) -> (value: Option<&V>)
        ensures
            match value {
                Some(v) => self@.contains_key(key@) && v@ == self@[key@],
                None => !self@.contains_key(key@),
            },
    {
        match self.find(key) {
            Some(place) => Some(self.value_at(place)),
            None => None,
        }
    }

    /// Puts a value beside a key, in place of the one that stood there.
    pub fn insert(&mut self, key: K, value: V)
        ensures
            final(self)@ == old(self)@.insert(key@, value@),
            final(self).entries().len() == old(self).entries().len() + if old(
                self,
            )@.contains_key(key@) {
                0int
            } else {
                1
            },
    {
        let (found, place) = self.place_of(&key);
        let ghost before = self.entries();
        proof {
            use_type_invariant(&*self);
        }
        let mut entries: Vec<(K, V)> = Vec::new();
        std::mem::swap(&mut entries, &mut self.entries);
        let ghost k = key@;
        let ghost v = value@;
        if found {
            entries[place] = (key, value);
            let ghost after = Seq::new(entries@.len(), |i: int| (entries@[i].0@, entries@[i].1@));
            proof {
                assert(after =~= before.update(place as int, (k, v)));
                assert(sorted_keys::<K, _>(after));
            }
            self.entries = entries;
            proof {
                assert(self.entries() =~= after);
                lemma_insert_map::<K, _>(before, after, k, v, place as int, true);
            }
        } else {
            entries.insert(place, (key, value));
            let ghost after = Seq::new(entries@.len(), |i: int| (entries@[i].0@, entries@[i].1@));
            proof {
                assert(after =~= before.insert(place as int, (k, v)));
                assert forall|i: int, j: int| 0 <= i < j < after.len() implies K::before(
                    #[trigger] after[i].0,
                    #[trigger] after[j].0,
                ) by {
                    let p = if i < place { i } else { i - 1 };
                    let q = if j < place { j } else { j - 1 };
                    if i != place && j != place {
                        assert(K::before(before[p].0, before[q].0));
                    } else if i == place {
                        assert(after[j] == before[q]);
                    } else {
                        assert(after[i] == before[p]);
                    }
                }
            }
            self.entries = entries;
            proof {
                assert(self.entries() =~= after);
                lemma_insert_map::<K, _>(before, after, k, v, place as int, false);
            }
        }
    }
}

proof fn lemma_insert_map<K: OrderedKey, T>(
    before: Seq<(K::V, T)>,
    after: Seq<(K::V, T)>,
    key: K::V,
    value: T,
    place: int,
    found: bool,
)
    requires
        sorted_keys::<K, _>(before),
        sorted_keys::<K, _>(after),
        0 <= place <= before.len(),
        found ==> place < before.len() && before[place].0 == key && after == before.update(
            place,
            (key, value),
        ),
        !found ==> !holds_key::<K, _>(before, key) && after == before.insert(place, (key, value)),
    ensures
        keyed_map::<K, _>(after) == keyed_map::<K, _>(before).insert(key, value),
        keyed_map::<K, _>(before).contains_key(key) == found,
{
    assert(after[place] == (key, value));
    if found {
        assert(key_stands::<K, _>(before, key, place));
    }
    lemma_keyed_map_at::<K, _>(after, place);
    assert forall|k: K::V| holds_key::<K, _>(after, k) == (holds_key::<K, _>(before, k) || k == key) by {
        if holds_key::<K, _>(after, k) {
            let i = choose|i: int| key_stands::<K, _>(after, k, i);
            if found || i < place {
                if i != place {
                    assert(key_stands::<K, _>(before, k, i));
                }
            } else if i > place {
                assert(key_stands::<K, _>(before, k, i - 1));
            }
        }
        if holds_key::<K, _>(before, k) {
            let i = choose|i: int| key_stands::<K, _>(before, k, i);
            if found || i < place {
                assert(key_stands::<K, _>(after, k, i));
            } else {
                assert(key_stands::<K, _>(after, k, i + 1));
            }
        }
        if k == key {
            assert(key_stands::<K, _>(after, k, place));
        }
    }
    assert forall|k: K::V| holds_key::<K, _>(before, k) && k != key implies keyed_map::<K, _>(after)[k]
        == keyed_map::<K, _>(before)[k] by {
        let i = choose|i: int| key_stands::<K, _>(before, k, i);
        lemma_keyed_map_at::<K, _>(before, i);
        if found || i < place {
            assert(after[i] == before[i]);
            lemma_keyed_map_at::<K, _>(after, i);
        } else {
            assert(after[i + 1] == before[i]);
            lemma_keyed_map_at::<K, _>(after, i + 1);
        }
    }
    assert(keyed_map::<K, _>(after) =~= keyed_map::<K, _>(before).insert(key, value));
}

/// Whether a merged list holds what two sorted lists hold up to a place in each, the second list
/// going before the first where both hold a key.
spec fn merges<K: OrderedKey, T>(
    merged: Seq<(K::V, T)>,
    base: Seq<(K::V, T)>,
    i: int,
    over: Seq<(K::V, T)>,
    j: int,
) -> bool {
    &&& sorted_keys::<K, T>(merged)
    &&& forall|p: int|
        0 <= p < merged.len() && i < base.len() ==> K::before(
            (#[trigger] merged[p]).0,
            base[i].0,
        )
    &&& forall|p: int|
        0 <= p < merged.len() && j < over.len() ==> K::before(
            (#[trigger] merged[p]).0,
            over[j].0,
        )
    &&& forall|p: int|
        0 <= p < merged.len() ==> taken::<K, T>(#[trigger] merged[p], base, i, over, j)
    &&& forall|q: int|
        0 <= q < j && i < base.len() ==> K::before((#[trigger] over[q]).0, base[i].0)
    &&& forall|q: int|
        0 <= q < i && j < over.len() ==> K::before((#[trigger] base[q]).0, over[j].0)
    &&& forall|q: int| 0 <= q < j ==> holds_key::<K, T>(merged, (#[trigger] over[q]).0)
    &&& forall|q: int| 0 <= q < i ==> holds_key::<K, T>(merged, (#[trigger] base[q]).0)
}

/// Whether an entry was taken from the second list, or from the first and is not in the second.
spec fn taken<K: OrderedKey, T>(
    entry: (K::V, T),
    base: Seq<(K::V, T)>,
    i: int,
    over: Seq<(K::V, T)>,
    j: int,
) -> bool {
    ||| exists|q: int| 0 <= q < j && #[trigger] over[q] == entry
    ||| !holds_key::<K, T>(over, entry.0) && exists|q: int| 0 <= q < i && #[trigger] base[q]
        == entry
}

proof fn lemma_push_keeps<K: OrderedKey, T>(merged: Seq<(K::V, T)>, entry: (K::V, T), key: K::V)
    ensures
        holds_key::<K, T>(merged, key) ==> holds_key::<K, T>(merged.push(entry), key),
        holds_key::<K, T>(merged.push(entry), entry.0),
{
    let longer = merged.push(entry);
    assert(key_stands::<K, T>(longer, entry.0, merged.len() as int));
    if holds_key::<K, T>(merged, key) {
        let p = choose|p: int| key_stands::<K, T>(merged, key, p);
        assert(key_stands::<K, T>(longer, key, p));
    }
}

proof fn lemma_take_over<K: OrderedKey, T>(
    merged: Seq<(K::V, T)>,
    base: Seq<(K::V, T)>,
    i: int,
    over: Seq<(K::V, T)>,
    j: int,
    both: bool,
)
    requires
        sorted_keys::<K, T>(base),
        sorted_keys::<K, T>(over),
        0 <= i <= base.len(),
        0 <= j < over.len(),
        merges::<K, T>(merged, base, i, over, j),
        both ==> i < base.len() && base[i].0 == over[j].0,
        !both && i < base.len() ==> K::before(over[j].0, base[i].0),
    ensures
        merges::<K, T>(
            merged.push(over[j]),
            base,
            if both {
                i + 1
            } else {
                i
            },
            over,
            j + 1,
        ),
{
    let longer = merged.push(over[j]);
    let i2 = if both { i + 1 } else { i };
    assert forall|p: int| 0 <= p < longer.len() implies taken::<K, T>(
        #[trigger] longer[p],
        base,
        i2,
        over,
        j + 1,
    ) by {
        if p < merged.len() {
            assert(taken::<K, T>(merged[p], base, i, over, j));
        } else {
            assert(over[j] == longer[p]);
        }
    }
    assert forall|p: int| 0 <= p < longer.len() && i2 < base.len() implies K::before(
        (#[trigger] longer[p]).0,
        base[i2].0,
    ) by {
        if p < merged.len() {
            assert(K::before(merged[p].0, base[i].0));
            if both {
                K::transitive(merged[p].0, base[i].0, base[i2].0);
            }
        } else if both {
            assert(K::before(base[i].0, base[i2].0));
        }
    }
    assert forall|p: int| 0 <= p < longer.len() && j + 1 < over.len() implies K::before(
        (#[trigger] longer[p]).0,
        over[j + 1].0,
    ) by {
        if p < merged.len() {
            assert(K::before(merged[p].0, over[j].0));
            K::transitive(merged[p].0, over[j].0, over[j + 1].0);
        }
    }
    assert forall|q: int| 0 <= q < j + 1 && i2 < base.len() implies K::before(
        (#[trigger] over[q]).0,
        base[i2].0,
    ) by {
        if q < j {
            assert(K::before(over[q].0, base[i].0));
            if both {
                K::transitive(over[q].0, base[i].0, base[i2].0);
            }
        } else if both {
            assert(K::before(base[i].0, base[i2].0));
        }
    }
    assert forall|q: int| 0 <= q < i2 && j + 1 < over.len() implies K::before(
        (#[trigger] base[q]).0,
        over[j + 1].0,
    ) by {
        if q < i {
            assert(K::before(base[q].0, over[j].0));
            K::transitive(base[q].0, over[j].0, over[j + 1].0);
        }
    }
    assert forall|q: int| 0 <= q < j + 1 implies holds_key::<K, T>(
        longer,
        (#[trigger] over[q]).0,
    ) by {
        lemma_push_keeps::<K, T>(merged, over[j], over[q].0);
    }
    assert forall|q: int| 0 <= q < i2 implies holds_key::<K, T>(longer, (#[trigger] base[q]).0) by {
        lemma_push_keeps::<K, T>(merged, over[j], base[q].0);
    }
    assert forall|x: int, y: int| 0 <= x < y < longer.len() implies K::before(
        #[trigger] longer[x].0,
        #[trigger] longer[y].0,
    ) by {
        if y == merged.len() {
            assert(K::before(merged[x].0, over[j].0));
        }
    }
}

proof fn lemma_take_base<K: OrderedKey, T>(
    merged: Seq<(K::V, T)>,
    base: Seq<(K::V, T)>,
    i: int,
    over: Seq<(K::V, T)>,
    j: int,
)
    requires
        sorted_keys::<K, T>(base),
        sorted_keys::<K, T>(over),
        0 <= i < base.len(),
        0 <= j <= over.len(),
        merges::<K, T>(merged, base, i, over, j),
        j < over.len() ==> K::before(base[i].0, over[j].0),
    ensures
        merges::<K, T>(merged.push(base[i]), base, i + 1, over, j),
{
    let longer = merged.push(base[i]);
    assert(!holds_key::<K, T>(over, base[i].0)) by {
        if holds_key::<K, T>(over, base[i].0) {
            let q = choose|q: int| key_stands::<K, T>(over, base[i].0, q);
            K::irreflexive(base[i].0);
            if q < j {
                assert(K::before(over[q].0, base[i].0));
            } else if q > j {
                K::transitive(base[i].0, over[j].0, over[q].0);
            }
        }
    }
    assert forall|p: int| 0 <= p < longer.len() implies taken::<K, T>(
        #[trigger] longer[p],
        base,
        i + 1,
        over,
        j,
    ) by {
        if p < merged.len() {
            assert(taken::<K, T>(merged[p], base, i, over, j));
        } else {
            assert(base[i] == longer[p]);
        }
    }
    assert forall|p: int| 0 <= p < longer.len() && i + 1 < base.len() implies K::before(
        (#[trigger] longer[p]).0,
        base[i + 1].0,
    ) by {
        if p < merged.len() {
            assert(K::before(merged[p].0, base[i].0));
            K::transitive(merged[p].0, base[i].0, base[i + 1].0);
        }
    }
    assert forall|p: int| 0 <= p < longer.len() && j < over.len() implies K::before(
        (#[trigger] longer[p]).0,
        over[j].0,
    ) by {
        if p < merged.len() {
            assert(K::before(merged[p].0, over[j].0));
        }
    }
    assert forall|q: int| 0 <= q < j && i + 1 < base.len() implies K::before(
        (#[trigger] over[q]).0,
        base[i + 1].0,
    ) by {
        assert(K::before(over[q].0, base[i].0));
        K::transitive(over[q].0, base[i].0, base[i + 1].0);
    }
    assert forall|q: int| 0 <= q < j implies holds_key::<K, T>(longer, (#[trigger] over[q]).0) by {
        lemma_push_keeps::<K, T>(merged, base[i], over[q].0);
    }
    assert forall|q: int| 0 <= q < i + 1 implies holds_key::<K, T>(
        longer,
        (#[trigger] base[q]).0,
    ) by {
        lemma_push_keeps::<K, T>(merged, base[i], base[q].0);
    }
    assert forall|x: int, y: int| 0 <= x < y < longer.len() implies K::before(
        #[trigger] longer[x].0,
        #[trigger] longer[y].0,
    ) by {
        if y == merged.len() {
            assert(K::before(merged[x].0, base[i].0));
        }
    }
}

proof fn lemma_merged<K: OrderedKey, T>(
    merged: Seq<(K::V, T)>,
    base: Seq<(K::V, T)>,
    over: Seq<(K::V, T)>,
)
    requires
        sorted_keys::<K, T>(base),
        sorted_keys::<K, T>(over),
        merges::<K, T>(merged, base, base.len() as int, over, over.len() as int),
    ensures
        keyed_map::<K, T>(merged) == keyed_map::<K, T>(base).union_prefer_right(
            keyed_map::<K, T>(over),
        ),
{
    let union = keyed_map::<K, T>(base).union_prefer_right(keyed_map::<K, T>(over));
    assert forall|key: K::V| holds_key::<K, T>(merged, key) == (holds_key::<K, T>(base, key)
        || holds_key::<K, T>(over, key)) by {
        if holds_key::<K, T>(merged, key) {
            let p = choose|p: int| key_stands::<K, T>(merged, key, p);
            assert(taken::<K, T>(merged[p], base, base.len() as int, over, over.len() as int));
            if exists|q: int| 0 <= q < over.len() && #[trigger] over[q] == merged[p] {
                let q = choose|q: int| 0 <= q < over.len() && #[trigger] over[q] == merged[p];
                assert(key_stands::<K, T>(over, key, q));
            } else {
                let q = choose|q: int| 0 <= q < base.len() && #[trigger] base[q] == merged[p];
                assert(key_stands::<K, T>(base, key, q));
            }
        }
        if holds_key::<K, T>(base, key) {
            let q = choose|q: int| key_stands::<K, T>(base, key, q);
            assert(holds_key::<K, T>(merged, base[q].0));
        }
        if holds_key::<K, T>(over, key) {
            let q = choose|q: int| key_stands::<K, T>(over, key, q);
            assert(holds_key::<K, T>(merged, over[q].0));
        }
    }
    assert forall|key: K::V| holds_key::<K, T>(merged, key) implies keyed_map::<K, T>(merged)[key]
        == union[key] by {
        let p = choose|p: int| key_stands::<K, T>(merged, key, p);
        lemma_keyed_map_at::<K, T>(merged, p);
        assert(taken::<K, T>(merged[p], base, base.len() as int, over, over.len() as int));
        if exists|q: int| 0 <= q < over.len() && #[trigger] over[q] == merged[p] {
            let q = choose|q: int| 0 <= q < over.len() && #[trigger] over[q] == merged[p];
            lemma_keyed_map_at::<K, T>(over, q);
        } else {
            let q = choose|q: int| 0 <= q < base.len() && #[trigger] base[q] == merged[p];
            lemma_keyed_map_at::<K, T>(base, q);
        }
    }
    assert(keyed_map::<K, T>(merged) =~= union);
}

/// The values of two maps in the order of their keys, the second map going before the first where
/// both hold a key.
pub fn merged_values<'a, K: OrderedKey, V: View>(
    base: &'a KeyMap<K, V>,
    over: &'a KeyMap<K, V>,
) -> (values: Vec<&'a V>)
    ensures
        ({
            let listed = listing::<K, V::V>(base@.union_prefer_right(over@));
            &&& values@.len() == listed.len()
            &&& forall|i: int| 0 <= i < listed.len() ==> (#[trigger] values@[i])@ == listed[i].1
        }),
{
    let n: usize = base.len();
    let m: usize = over.len();
    let ghost left = base.entries();
    let ghost right = over.entries();
    let ghost mut merged: Seq<(K::V, V::V)> = Seq::empty();
    let mut values: Vec<&'a V> = Vec::new();
    let mut i: usize = 0;
    let mut j: usize = 0;
    while i < n || j < m
        invariant
            i <= n,
            j <= m,
            n == left.len(),
            m == right.len(),
            left == base.entries(),
            right == over.entries(),
            sorted_keys::<K, V::V>(left),
            sorted_keys::<K, V::V>(right),
            merges::<K, V::V>(merged, left, i as int, right, j as int),
            values@.len() == merged.len(),
            forall|p: int| 0 <= p < merged.len() ==> (#[trigger] values@[p])@ == merged[p].1,
        decreases n - i + m - j,
    {
        if j == m || (i < n && base.key_at(i).comes_before(over.key_at(j))) {
            values.push(base.value_at(i));
            proof {
                lemma_take_base::<K, V::V>(merged, left, i as int, right, j as int);
                merged = merged.push(left[i as int]);
            }
            i = i + 1;
        } else if i == n || over.key_at(j).comes_before(base.key_at(i)) {
            values.push(over.value_at(j));
            proof {
                lemma_take_over::<K, V::V>(merged, left, i as int, right, j as int, false);
                merged = merged.push(right[j as int]);
            }
            j = j + 1;
        } else {
            values.push(over.value_at(j));
            proof {
                if left[i as int].0 != right[j as int].0 {
                    K::total(left[i as int].0, right[j as int].0);
                }
                lemma_take_over::<K, V::V>(merged, left, i as int, right, j as int, true);
                merged = merged.push(right[j as int]);
            }
            i = i + 1;
            j = j + 1;
        }
    }
    proof {
        lemma_merged::<K, V::V>(merged, left, right);
        lemma_listing::<K, V::V>(merged);
    }
    values
}

/// Whether a map can be listed in the order of its keys.
pub open spec fn listable<K: OrderedKey, T>(map: Map<K::V, T>) -> bool {
    exists|entries: Seq<(K::V, T)>|
        #[trigger] sorted_keys::<K, T>(entries) && keyed_map::<K, T>(entries) == map
}

/// What a map that can be listed has for its listing.
pub proof fn lemma_listable<K: OrderedKey, T>(map: Map<K::V, T>)
    requires
        listable::<K, T>(map),
    ensures
        sorted_keys::<K, T>(listing::<K, T>(map)),
        keyed_map::<K, T>(listing::<K, T>(map)) == map,
{
    let entries = choose|entries: Seq<(K::V, T)>|
        #[trigger] sorted_keys::<K, T>(entries) && keyed_map::<K, T>(entries) == map;
    lemma_listing::<K, T>(entries);
}

/// A map that can be listed has as many entries in its listing as it has keys.
pub proof fn lemma_listing_len<K: OrderedKey, T>(map: Map<K::V, T>)
    requires
        listable::<K, T>(map),
    ensures
        map.dom().finite(),
        listing::<K, T>(map).len() == map.dom().len(),
{
    lemma_listable::<K, T>(map);
    lemma_keys_counted::<K, T>(listing::<K, T>(map));
}

proof fn lemma_keys_counted<K: OrderedKey, T>(entries: Seq<(K::V, T)>)
    requires
        sorted_keys::<K, T>(entries),
    ensures
        keyed_map::<K, T>(entries).dom().finite(),
        keyed_map::<K, T>(entries).dom().len() == entries.len(),
    decreases entries.len(),
{
    let map = keyed_map::<K, T>(entries);
    if entries.len() == 0 {
        assert(map.dom() =~= Set::empty());
    } else {
        let rest = entries.drop_last();
        let (key, value) = entries.last();
        assert(rest.push((key, value)) =~= entries);
        lemma_keyed_map_push::<K, T>(rest, key, value);
        lemma_keys_counted::<K, T>(rest);
        let fewer = keyed_map::<K, T>(rest);
        assert(!fewer.contains_key(key)) by {
            if holds_key::<K, T>(rest, key) {
                let i = choose|i: int| key_stands::<K, T>(rest, key, i);
                assert(entries[i] == rest[i]);
                lemma_key_stands_once::<K, T>(entries, i, entries.len() - 1);
            }
        }
        assert(map.dom() =~= fewer.dom().insert(key));
    }
}

/// Where a key stands in a sorted list, or would be put.
pub open spec fn place_in<K: OrderedKey, T>(entries: Seq<(K::V, T)>, key: K::V) -> int
    decreases entries.len(),
{
    if entries.len() == 0 {
        0
    } else if K::before(entries.last().0, key) {
        entries.len() as int
    } else {
        place_in::<K, T>(entries.drop_last(), key)
    }
}

proof fn lemma_place_in<K: OrderedKey, T>(entries: Seq<(K::V, T)>, key: K::V)
    requires
        sorted_keys::<K, T>(entries),
    ensures
        0 <= place_in::<K, T>(entries, key) <= entries.len(),
        forall|k: int|
            0 <= k < place_in::<K, T>(entries, key) ==> K::before((#[trigger] entries[k]).0, key),
        forall|k: int|
            place_in::<K, T>(entries, key) <= k < entries.len() ==> !K::before(
                (#[trigger] entries[k]).0,
                key,
            ),
    decreases entries.len(),
{
    if entries.len() > 0 {
        let last = entries.last();
        if K::before(last.0, key) {
            assert forall|k: int| 0 <= k < entries.len() implies K::before(
                (#[trigger] entries[k]).0,
                key,
            ) by {
                if k < entries.len() - 1 {
                    K::transitive(entries[k].0, last.0, key);
                }
            }
        } else {
            lemma_place_in::<K, T>(entries.drop_last(), key);
            assert forall|k: int|
                0 <= k < place_in::<K, T>(entries, key) implies K::before(
                (#[trigger] entries[k]).0,
                key,
            ) by {
                assert(entries[k] == entries.drop_last()[k]);
            }
            assert forall|k: int|
                place_in::<K, T>(entries, key) <= k < entries.len() implies !K::before(
                (#[trigger] entries[k]).0,
                key,
            ) by {
                if k < entries.len() - 1 {
                    assert(entries[k] == entries.drop_last()[k]);
                }
            }
        }
    }
}

/// Putting a value beside a key changes the listing in one place: the entry there is replaced, or
/// a new one stands there.
pub proof fn lemma_listing_insert<K: OrderedKey, T>(map: Map<K::V, T>, key: K::V, value: T)
    requires
        listable::<K, T>(map),
    ensures
        listable::<K, T>(map.insert(key, value)),
        ({
            let before = listing::<K, T>(map);
            let after = listing::<K, T>(map.insert(key, value));
            let place = place_in::<K, T>(before, key);
            if map.contains_key(key) {
                &&& 0 <= place < before.len()
                &&& before[place] == (key, map[key])
                &&& after == before.update(place, (key, value))
            } else {
                &&& 0 <= place <= before.len()
                &&& after == before.insert(place, (key, value))
            }
        }),
{
    lemma_listable::<K, T>(map);
    let before = listing::<K, T>(map);
    let place = place_in::<K, T>(before, key);
    lemma_place_in::<K, T>(before, key);
    assert(map.contains_key(key) == holds_key::<K, T>(before, key));
    if map.contains_key(key) {
        let p = choose|p: int| key_stands::<K, T>(before, key, p);
        K::irreflexive(key);
        assert(p >= place) by {
            if p < place {
                assert(K::before(before[p].0, key));
            }
        }
        if p > place {
            assert(K::before(before[place].0, before[p].0));
        }
        lemma_keyed_map_at::<K, T>(before, place);
        let after = before.update(place, (key, value));
        assert(sorted_keys::<K, T>(after));
        lemma_insert_map::<K, T>(before, after, key, value, place, true);
        lemma_listing::<K, T>(after);
    } else {
        let after = before.insert(place, (key, value));
        assert forall|i: int, j: int| 0 <= i < j < after.len() implies K::before(
            #[trigger] after[i].0,
            #[trigger] after[j].0,
        ) by {
            let p = if i < place { i } else { i - 1 };
            let q = if j < place { j } else { j - 1 };
            if i != place && j != place {
                assert(K::before(before[p].0, before[q].0));
            } else if i == place {
                assert(after[j] == before[q]);
                assert(!K::before(before[q].0, key));
                if before[q].0 == key {
                    assert(key_stands::<K, T>(before, key, q));
                }
                K::total(before[q].0, key);
            } else {
                assert(after[i] == before[p]);
            }
        }
        lemma_insert_map::<K, T>(before, after, key, value, place, false);
        lemma_listing::<K, T>(after);
    }
}

/// A value that can be copied without changing what it stands for.
pub trait Copied: View + Sized {
    /// A copy that stands for the same.
    fn copied(&self) -> (copy: Self)
        ensures
            copy@ == self@,
    ;
}

impl Copied for String {
    fn copied(&self) -> (copy: Self) {
        self.clone()
    }
}

impl<K: OrderedKey + Copied, V: View + Copied> KeyMap<K, V> {
    /// A map with the same entries.
    pub fn copied(&self) -> (copy: Self)
        ensures
            copy@ == self@,
            copy.entries() == self.entries(),
    {
        proof {
            use_type_invariant(self);
        }
        let n: usize = self.entries.len();
        let mut entries: Vec<(K, V)> = Vec::new();
        let mut i: usize = 0;
        while i < n
            invariant
                i <= n,
                n == self.entries@.len(),
                entries@.len() == i,
                forall|k: int|
                    0 <= k < i ==> (#[trigger] entries@[k]).0@ == self.entries@[k].0@
                        && entries@[k].1@ == self.entries@[k].1@,
            decreases n - i,
        {
            entries.push((self.entries[i].0.copied(), self.entries[i].1.copied()));
            i = i + 1;
        }
        proof {
            assert(Seq::new(entries@.len(), |k: int| (entries@[k].0@, entries@[k].1@))
                =~= self.entries());
        }
        let copy = KeyMap { entries };
        assert(copy.entries() =~= self.entries());
        copy
    }
}

/// A sorted list with one more pair at its end describes the map with that pair put in.
pub proof fn lemma_keyed_map_push<K: OrderedKey, T>(entries: Seq<(K::V, T)>, key: K::V, value: T)
    requires
        sorted_keys::<K, T>(entries.push((key, value))),
    ensures
        sorted_keys::<K, T>(entries),
        keyed_map::<K, T>(entries.push((key, value))) == keyed_map::<K, T>(entries).insert(
            key,
            value,
        ),
{
    let longer = entries.push((key, value));
    let n = entries.len() as int;
    assert forall|i: int, j: int| 0 <= i < j < entries.len() implies K::before(
        #[trigger] entries[i].0,
        #[trigger] entries[j].0,
    ) by {
        assert(longer[i] == entries[i]);
        assert(longer[j] == entries[j]);
    }
    assert forall|k: K::V|
        keyed_map::<K, T>(longer).contains_key(k) == keyed_map::<K, T>(entries).insert(
            key,
            value,
        ).contains_key(k) by {
        if holds_key::<K, T>(longer, k) {
            let i = choose|i: int| key_stands::<K, T>(longer, k, i);
            if i < n {
                assert(key_stands::<K, T>(entries, k, i));
            }
        }
        if holds_key::<K, T>(entries, k) {
            let i = choose|i: int| key_stands::<K, T>(entries, k, i);
            assert(key_stands::<K, T>(longer, k, i));
        }
        if k == key {
            assert(key_stands::<K, T>(longer, k, n));
        }
    }
    assert forall|k: K::V| #[trigger] keyed_map::<K, T>(longer).contains_key(k) implies keyed_map::<
        K,
        T,
    >(longer)[k] == keyed_map::<K, T>(entries).insert(key, value)[k] by {
        let i = choose|i: int| key_stands::<K, T>(longer, k, i);
        lemma_keyed_map_at::<K, T>(longer, i);
        if i < n {
            assert(longer[i] == entries[i]);
            lemma_keyed_map_at::<K, T>(entries, i);
            if k == key {
                lemma_key_stands_once::<K, T>(longer, i, n);
            }
        }
    }
    assert(keyed_map::<K, T>(longer) =~= keyed_map::<K, T>(entries).insert(key, value));
}

impl<K: OrderedKey + Copied, V: View + Copied> KeyMap<K, V> {
    /// Puts copies of the values of another map beside their keys, in place of those that stood
    /// there.
    pub fn absorb(&mut self, over: &KeyMap<K, V>)
        ensures
            final(self)@ == old(self)@.union_prefer_right(over@),
    {
        let count = over.len();
        let ghost entries = over.entries();
        let ghost before = self@;
        let mut i: usize = 0;
        proof {
            let none = entries.subrange(0, 0);
            assert(none =~= Seq::empty());
            assert(keyed_map::<K, V::V>(none) =~= Map::empty());
            assert(before.union_prefer_right(Map::empty()) =~= before);
        }
        while i < count
            invariant
                i <= count,
                count == entries.len(),
                entries == over.entries(),
                sorted_keys::<K, V::V>(entries),
                self@ == before.union_prefer_right(
                    keyed_map::<K, V::V>(entries.subrange(0, i as int)),
                ),
            decreases count - i,
        {
            proof {
                let shorter = entries.subrange(0, i as int);
                let longer = entries.subrange(0, i as int + 1);
                let (key, value) = entries[i as int];
                assert(longer =~= shorter.push((key, value)));
                lemma_keyed_map_push::<K, V::V>(shorter, key, value);
                let joined = before.union_prefer_right(keyed_map::<K, V::V>(shorter));
                assert(before.union_prefer_right(keyed_map::<K, V::V>(longer)) =~= joined.insert(
                    key,
                    value,
                ));
            }
            self.insert(over.key_at(i).copied(), over.value_at(i).copied());
            i = i + 1;
        }
        assert(entries.subrange(0, i as int) =~= entries);
    }
}

} // verus!
