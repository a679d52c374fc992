//! Maps from texts, kept in the order of their keys.

use vstd::prelude::*;

use crate::text::chars_of;

verus! {

/// `a` comes before `b`: character by character, a prefix first.
pub open spec fn before(a: Seq<char>, b: Seq<char>) -> bool
    decreases a.len(),
{
    if b.len() == 0 {
        false
    } else if a.len() == 0 {
        true
    } else if a[0] == b[0] {
        before(a.drop_first(), b.drop_first())
    } else {
        a[0] < b[0]
    }
}

/// Of two texts one comes first, unless they are the same.
pub proof fn lemma_before_total(a: Seq<char>, b: Seq<char>)
    ensures
        a == b ==> !before(a, b) && !before(b, a),
        a != b ==> before(a, b) != before(b, a),
    decreases a.len(),
{
    if a.len() > 0 && b.len() > 0 && a[0] == b[0] {
        lemma_before_total(a.drop_first(), b.drop_first());
        if a.drop_first() == b.drop_first() {
            assert(a =~= seq![a[0]] + a.drop_first());
            assert(b =~= seq![b[0]] + b.drop_first());
            assert(a =~= b);
        }
    } else if a.len() == 0 && b.len() == 0 {
        assert(a =~= b);
    }
}

/// What comes before something that comes before a third comes before the third.
pub proof fn lemma_before_transitive(a: Seq<char>, b: Seq<char>, c: Seq<char>)
    requires
        before(a, b),
        before(b, c),
    ensures
        before(a, c),
    decreases a.len(),
{
    if a.len() > 0 && a[0] == b[0] && b[0] == c[0] {
        lemma_before_transitive(a.drop_first(), b.drop_first(), c.drop_first());
    }
}

/// How two texts stand to each other.
#[derive(Clone, Copy, Debug, PartialEq, Eq, Structural)]
pub enum Rank {
    Before,
    Same,
    After,
}

/// How `a` stands to `b`.
pub fn rank(a: &str, b: &str) -> (r: Rank)
    ensures
        r == Rank::Before <==> before(a@, b@),
        r == Rank::Same <==> a@ == b@,
        r == Rank::After <==> before(b@, a@),
{
    let x: Vec<char> = chars_of(a);
    let y: Vec<char> = chars_of(b);
    let mut i: usize = 0;
    proof {
        lemma_before_total(a@, b@);
        assert(a@.skip(0) =~= a@);
        assert(b@.skip(0) =~= b@);
    }
    while i < x.len() && i < y.len() && x[i] == y[i]
        invariant
            i <= x.len(),
            i <= y.len(),
            x@ == a@,
            y@ == b@,
            forall|j: int| 0 <= j < i ==> x@[j] == y@[j],
            before(a@, b@) == before(a@.skip(i as int), b@.skip(i as int)),
            before(b@, a@) == before(b@.skip(i as int), a@.skip(i as int)),
        decreases x.len() - i,
    {
        assert(a@.skip(i as int).drop_first() =~= a@.skip(i as int + 1));
        assert(b@.skip(i as int).drop_first() =~= b@.skip(i as int + 1));
        i = i + 1;
    }
    if i == x.len() && i == y.len() {
        assert(a@ =~= b@);
        Rank::Same
    } else if i == x.len() {
        Rank::Before
    } else if i == y.len() {
        Rank::After
    } else if x[i] < y[i] {
        Rank::Before
    } else {
        Rank::After
    }
}

/// How many of the keys come before `k`, from the front on.
pub open spec fn place(keys: Seq<Seq<char>>, k: Seq<char>) -> nat
    decreases keys.len(),
{
    if keys.len() == 0 || !before(keys[0], k) {
        0
    } else {
        1 + place(keys.drop_first(), k)
    }
}

/// The keys are in order, and none occurs twice.
pub open spec fn ordered(keys: Seq<Seq<char>>) -> bool {
    forall|i: int, j: int| 0 <= i < j < keys.len() ==> before(#[trigger] keys[i], #[trigger] keys[j])
}

/// The contents of a map.
#[verifier::ext_equal]
pub ghost struct TextMapView<V> {
    pub keys: Seq<Seq<char>>,
    pub vals: Seq<V>,
}

impl<V> TextMapView<V> {
    /// Every key has a value, and the keys are in order.
    pub open spec fn wf(self) -> bool {
        self.keys.len() == self.vals.len() && ordered(self.keys)
    }

    /// The map without keys.
    pub open spec fn empty() -> TextMapView<V> {
        TextMapView { keys: Seq::empty(), vals: Seq::empty() }
    }

    /// `k` is a key.
    pub open spec fn has(self, k: Seq<char>) -> bool {
        self.keys.contains(k)
    }

    /// The value of the key `k`.
    pub open spec fn at(self, k: Seq<char>) -> V {
        self.vals[place(self.keys, k) as int]
    }

    /// This map with `v` as the value of `k`.
    pub open spec fn put(self, k: Seq<char>, v: V) -> TextMapView<V> {
        let i = place(self.keys, k) as int;
        if i < self.keys.len() && self.keys[i] == k {
            TextMapView { keys: self.keys, vals: self.vals.update(i, v) }
        } else {
            TextMapView { keys: self.keys.insert(i, k), vals: self.vals.insert(i, v) }
        }
    }
}

/// The place of a key is where everything in front comes before it and nothing behind does.
pub proof fn lemma_place(keys: Seq<Seq<char>>, k: Seq<char>)
    requires
        ordered(keys),
    ensures
        place(keys, k) <= keys.len(),
        forall|j: int| 0 <= j < place(keys, k) ==> before(#[trigger] keys[j], k),
        forall|j: int| place(keys, k) <= j < keys.len() ==> !before(#[trigger] keys[j], k),
    decreases keys.len(),
{
    if keys.len() > 0 {
        let rest = keys.drop_first();
        assert(ordered(rest)) by {
            assert forall|i: int, j: int| 0 <= i < j < rest.len() implies before(
                #[trigger] rest[i],
                #[trigger] rest[j],
            ) by {
                assert(before(keys[i + 1], keys[j + 1]));
            }
        }
        lemma_place(rest, k);
        assert(forall|j: int| 0 <= j < rest.len() ==> #[trigger] rest[j] == keys[j + 1]);
        if before(keys[0], k) {
            assert forall|j: int| 0 <= j < place(keys, k) implies before(#[trigger] keys[j], k) by {
                if j > 0 {
                    assert(keys[j] == rest[j - 1]);
                }
            }
            assert forall|j: int| place(keys, k) <= j < keys.len() implies !before(
                #[trigger] keys[j],
                k,
            ) by {
                assert(keys[j] == rest[j - 1]);
            }
        } else {
            assert forall|j: int| 0 <= j < keys.len() implies !before(#[trigger] keys[j], k) by {
                if j > 0 && before(keys[j], k) {
                    assert(before(keys[0], keys[j]));
                    lemma_before_transitive(keys[0], keys[j], k);
                }
            }
        }
    }
}

/// A key stands at its place.
pub proof fn lemma_place_of_key(keys: Seq<Seq<char>>, i: int)
    requires
        ordered(keys),
        0 <= i < keys.len(),
    ensures
        place(keys, keys[i]) == i,
{
    lemma_place(keys, keys[i]);
    lemma_before_total(keys[i], keys[i]);
    let p = place(keys, keys[i]) as int;
    if p < i {
        assert(before(keys[p], keys[i]));
    }
}

/// Putting a value keeps the map in order, gives the key its value and leaves every other key
/// alone.
pub proof fn law_put_changes_one_key<V>(m: TextMapView<V>, k: Seq<char>, v: V, other: Seq<char>)
    requires
        m.wf(),
        other != k,
    ensures
        m.put(k, v).wf(),
        m.put(k, v).has(k),
        m.put(k, v).at(k) == v,
        m.put(k, v).has(other) == m.has(other),
        m.has(other) ==> m.put(k, v).at(other) == m.at(other),
{
    let i = place(m.keys, k) as int;
    let n = m.put(k, v);
    lemma_place(m.keys, k);
    if i < m.keys.len() && m.keys[i] == k {
        if m.has(other) {
            let j = choose|j: int| 0 <= j < m.keys.len() && m.keys[j] == other;
            lemma_place_of_key(m.keys, j);
        }
    } else {
        assert forall|a: int, b: int| 0 <= a < b < n.keys.len() implies before(
            #[trigger] n.keys[a],
            #[trigger] n.keys[b],
        ) by {
            if b < i {
                assert(before(m.keys[a], m.keys[b]));
            } else if b == i {
                assert(n.keys[a] == m.keys[a]);
            } else if a < i {
                assert(before(m.keys[a], m.keys[b - 1]));
            } else if a == i {
                let x = m.keys[b - 1];
                assert(!before(x, k));
                lemma_before_total(x, k);
                if x == k {
                    assert(b - 1 > i);
                    assert(before(m.keys[i], x));
                    assert(!before(m.keys[i], k));
                }
            } else {
                assert(before(m.keys[a - 1], m.keys[b - 1]));
            }
        }
        assert(n.keys[i] == k);
        lemma_place_of_key(n.keys, i);
        if m.has(other) {
            let j = choose|j: int| 0 <= j < m.keys.len() && m.keys[j] == other;
            lemma_place_of_key(m.keys, j);
            if j < i {
                assert(n.keys[j] == other);
                lemma_place_of_key(n.keys, j);
            } else {
                assert(n.keys[j + 1] == other);
                lemma_place_of_key(n.keys, j + 1);
            }
        }
        if n.has(other) {
            let j = choose|j: int| 0 <= j < n.keys.len() && n.keys[j] == other;
            if j < i {
                assert(m.keys[j] == other);
            } else {
                assert(m.keys[j - 1] == other);
            }
        }
    }
}

/// A map from texts, in the order of its keys.
#[derive(Debug)]
pub struct TextMap<T> {
    pub keys: Vec<String>,
    pub vals: Vec<T>,
}

impl<T: DeepView> View for TextMap<T> {
    type V = TextMapView<T::V>;

    open spec fn view(&self) -> TextMapView<T::V> {
        TextMapView {
            keys: self.keys@.map_values(|k: String| k@),
            vals: self.vals@.map_values(|v: T| v.deep_view()),
        }
    }
}

impl<T: DeepView> TextMap<T> {
    /// The map without keys.
    pub fn new() -> (r: TextMap<T>)
        ensures
            r@ == TextMapView::<T::V>::empty(),
            r@.wf(),
    {
        let r: TextMap<T> = TextMap { keys: Vec::new(), vals: Vec::new() };
        assert(r@ =~= TextMapView::<T::V>::empty());
        r
    }

    /// Where the key `k` stands or belongs, and whether it is there.
    pub fn find(&self, k: &str) -> (r: (usize, bool))
        requires
            self@.wf(),
        ensures
            r.0 == place(self@.keys, k@),
            r.0 <= self@.keys.len(),
            r.1 == (r.0 < self@.keys.len() && self@.keys[r.0 as int] == k@),
            r.1 == self@.has(k@),
    {
        let mut i: usize = 0;
        proof {
            lemma_place(self@.keys, k@);
            lemma_before_total(k@, k@);
        }
        while i < self.keys.len()
            invariant
                i <= self.keys.len(),
                self@.wf(),
                i <= place(self@.keys, k@) <= self@.keys.len(),
                forall|j: int| 0 <= j < place(self@.keys, k@) ==> before(
                    #[trigger] self@.keys[j],
                    k@,
                ),
                forall|j: int|
                    place(self@.keys, k@) <= j < self@.keys.len() ==> !before(
                        #[trigger] self@.keys[j],
                        k@,
                    ),
                !before(k@, k@),
            decreases self.keys.len() - i,
        {
            assert(self@.keys[i as int] == self.keys@[i as int]@);
            match rank(self.keys[i].as_str(), k) {
                Rank::Before => {},
                Rank::Same => {
                    assert(self@.keys[i as int] == k@);
                    return (i, true);
                },
                Rank::After => {
                    proof {
                        lemma_before_total(self@.keys[i as int], k@);
                        if self@.has(k@) {
                            let j = choose|j: int| 0 <= j < self@.keys.len() && self@.keys[j] == k@;
                            lemma_place_of_key(self@.keys, j);
                        }
                    }
                    return (i, false);
                },
            }
            i = i + 1;
        }
        proof {
            if self@.has(k@) {
                let j = choose|j: int| 0 <= j < self@.keys.len() && self@.keys[j] == k@;
                lemma_place_of_key(self@.keys, j);
            }
        }
        (i, false)
    }

    /// Gives the key `k` the value `v`.
    pub fn insert(&mut self, k: String, v: T)
        requires
            old(self)@.wf(),
        ensures
            final(self)@ == old(self)@.put(k@, v.deep_view()),
            final(self)@.wf(),
    {
        let ghost m = self@;
        let ghost key = k@;
        let ghost val = v.deep_view();
        let (i, found) = self.find(k.as_str());
        proof {
            assert(seq!['x'] + key != key) by {
                assert((seq!['x'] + key).len() != key.len());
            }
            law_put_changes_one_key(m, key, val, seq!['x'] + key);
        }
        if found {
            self.vals[i] = v;
            assert(self@ =~= m.put(key, val));
        } else {
            self.keys.insert(i, k);
            self.vals.insert(i, v);
            assert(self@ =~= m.put(key, val));
        }
    }

    /// Whether `k` is a key.
    pub fn contains_key(&self, k: &str) -> (r: bool)
        requires
            self@.wf(),
        ensures
            r == self@.has(k@),
    {
        self.find(k).1
    }
}

} // verus!
