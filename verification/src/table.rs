//! A map from text, kept in the order of its keys.
use vstd::prelude::*;

use crate::text;

verus! {

/// `keys` are in ascending order, and none occurs twice.
pub open spec fn ascending(keys: Seq<Seq<char>>) -> bool {
    forall|i: int, j: int| 0 <= i < j < keys.len() ==> text::text_lt(#[trigger] keys[i], #[trigger] keys[j])
}

/// The members of `keys` in ascending order.
pub open spec fn in_order(keys: Set<Seq<char>>) -> Seq<Seq<char>> {
    choose|s: Seq<Seq<char>>| ascending(s) && s.to_set() == keys
}

/// An ascending list is settled by its members.
pub proof fn lemma_ascending_unique(a: Seq<Seq<char>>, b: Seq<Seq<char>>)
    requires
        ascending(a),
        ascending(b),
        a.to_set() == b.to_set(),
    ensures
        a == b,
    decreases a.len(),
{
    if a.len() == 0 {
        if b.len() > 0 {
            assert(b.to_set().contains(b[0]));
        }
    } else if b.len() == 0 {
        assert(a.to_set().contains(a[0]));
    } else {
        lemma_first_is_least(a, b);
        let (x, y) = (a.drop_first(), b.drop_first());
        assert(x.to_set() == y.to_set()) by {
            lemma_rest_set(a);
            lemma_rest_set(b);
        }
        lemma_ascending_unique(x, y);
        assert(a == seq![a[0]] + x);
        assert(b == seq![b[0]] + y);
    }
}

proof fn lemma_first_is_least(a: Seq<Seq<char>>, b: Seq<Seq<char>>)
    requires
        ascending(a),
        ascending(b),
        a.to_set() == b.to_set(),
        a.len() > 0,
        b.len() > 0,
    ensures
        a[0] == b[0],
{
    assert(b.to_set().contains(a[0])) by {
        assert(a.to_set().contains(a[0]));
    }
    assert(a.to_set().contains(b[0])) by {
        assert(b.to_set().contains(b[0]));
    }
    let i = choose|i: int| 0 <= i < b.len() && b[i] == a[0];
    let j = choose|j: int| 0 <= j < a.len() && a[j] == b[0];
    text::lemma_text_lt_total(a[0], b[0]);
    if i > 0 && j > 0 {
        assert(text::text_lt(b[0], b[i]));
        assert(text::text_lt(a[0], a[j]));
    }
}

proof fn lemma_rest_set(a: Seq<Seq<char>>)
    requires
        ascending(a),
        a.len() > 0,
    ensures
        a.drop_first().to_set() == a.to_set().remove(a[0]),
{
    let x = a.drop_first();
    assert forall|k: Seq<char>| x.to_set().contains(k) <==> a.to_set().remove(a[0]).contains(k) by {
        if x.contains(k) {
            let i = choose|i: int| 0 <= i < x.len() && x[i] == k;
            assert(a[i + 1] == k);
            text::lemma_text_lt_total(a[0], a[i + 1]);
        }
        if a.contains(k) && k != a[0] {
            let i = choose|i: int| 0 <= i < a.len() && a[i] == k;
            assert(x[i - 1] == k);
        }
    }
}

/// The one ascending list of given members is what `in_order` names.
pub proof fn lemma_in_order(s: Seq<Seq<char>>)
    requires
        ascending(s),
    ensures
        in_order(s.to_set()) == s,
{
    lemma_ascending_unique(in_order(s.to_set()), s);
}

/// No key occurs twice in an ascending list.
pub proof fn lemma_ascending_distinct(s: Seq<Seq<char>>)
    requires
        ascending(s),
    ensures
        s.no_duplicates(),
{
    assert forall|i: int, j: int| 0 <= i < j < s.len() implies s[i] != s[j] by {
        text::lemma_text_lt_total(s[i], s[j]);
    }
}

proof fn lemma_least(keys: Set<Seq<char>>) -> (least: Seq<char>)
    requires
        keys.finite(),
        keys.len() > 0,
    ensures
        keys.contains(least),
        forall|k: Seq<char>| #[trigger] keys.contains(k) ==> k == least || text::text_lt(least, k),
    decreases keys.len(),
{
    let a = keys.choose();
    let rest = keys.remove(a);
    if rest.len() == 0 {
        assert forall|k: Seq<char>| #[trigger] keys.contains(k) implies k == a by {
            if k != a {
                assert(rest.contains(k));
            }
        }
        a
    } else {
        let b = lemma_least(rest);
        text::lemma_text_lt_total(a, b);
        assert forall|k: Seq<char>| #[trigger] keys.contains(k) && k != a implies (k == b || text::text_lt(b, k)) && (
        text::text_lt(a, b) ==> text::text_lt(a, k)) by {
            assert(rest.contains(k));
            if text::text_lt(a, b) && k != b {
                text::lemma_text_lt_trans(a, b, k);
            }
        }
        if text::text_lt(a, b) {
            a
        } else {
            b
        }
    }
}

proof fn lemma_order_exists(keys: Set<Seq<char>>) -> (s: Seq<Seq<char>>)
    requires
        keys.finite(),
    ensures
        ascending(s),
        s.to_set() == keys,
    decreases keys.len(),
{
    if keys.len() == 0 {
        let s = Seq::<Seq<char>>::empty();
        assert(s.to_set() =~= keys);
        s
    } else {
        let a = lemma_least(keys);
        let rest = lemma_order_exists(keys.remove(a));
        let s = seq![a] + rest;
        assert forall|i: int, j: int| 0 <= i < j < s.len() implies text::text_lt(#[trigger] s[i], #[trigger] s[j]) by {
            assert(rest.to_set().contains(rest[j - 1]));
            if i > 0 {
                assert(text::text_lt(rest[i - 1], rest[j - 1]));
            }
        }
        assert forall|k: Seq<char>| s.to_set().contains(k) <==> keys.contains(k) by {
            if s.contains(k) && k != a {
                let i = choose|i: int| 0 <= i < s.len() && s[i] == k;
                assert(rest[i - 1] == k);
                assert(rest.to_set().contains(k));
            }
            if keys.contains(k) && k != a {
                assert(rest.to_set().contains(k));
                let i = choose|i: int| 0 <= i < rest.len() && rest[i] == k;
                assert(s[i + 1] == k);
            }
            assert(s[0] == a);
        }
        assert(s.to_set() =~= keys);
        s
    }
}

/// What `in_order` names is ascending, and has the members given.
pub proof fn law_in_order(keys: Set<Seq<char>>)
    requires
        keys.finite(),
    ensures
        ascending(in_order(keys)),
        in_order(keys).to_set() == keys,
{
    let s = lemma_order_exists(keys);
    assert(ascending(s) && s.to_set() == keys);
}

/// A list with one more item has that item as one more member.
pub proof fn lemma_push_member<A>(s: Seq<A>, a: A)
    ensures
        s.push(a).to_set() == s.to_set().insert(a),
{
    assert forall|k: A| s.push(a).to_set().contains(k) <==> s.to_set().insert(a).contains(k) by {
        if s.contains(k) {
            let i = choose|i: int| 0 <= i < s.len() && s[i] == k;
            assert(s.push(a)[i] == k);
        }
        assert(s.push(a)[s.len() as int] == a);
    }
}

/// A map from text, kept in the order of its keys.
#[derive(Debug)]
pub struct TextMap<V> {
    entries: Vec<(String, V)>,
}

impl<V> TextMap<V> {
    /// The keys, as they stand in memory.
    closed spec fn keys(self) -> Seq<Seq<char>> {
        self.entries@.map_values(|e: (String, V)| e.0@)
    }

    #[verifier::type_invariant]
    closed spec fn well_formed(self) -> bool {
        ascending(self.keys())
    }

    /// Where `key` stands among the entries.
    closed spec fn at(self, key: Seq<char>) -> int {
        choose|i: int| 0 <= i < self.keys().len() && self.keys()[i] == key
    }
}

impl<V> View for TextMap<V> {
    type V = Map<Seq<char>, V>;

    closed spec fn view(&self) -> Map<Seq<char>, V> {
        Map::new(|key: Seq<char>| self.keys().contains(key), |key: Seq<char>| self.entries@[self.at(key)].1)
    }
}

impl<V> TextMap<V> {
    proof fn lemma_view(self)
        requires
            self.well_formed(),
        ensures
            self@.dom() == self.keys().to_set(),
            self@.dom().finite(),
            self@.dom().len() == self.entries@.len(),
            in_order(self@.dom()) == self.keys(),
            forall|i: int|
                #![trigger self.entries@[i]]
                0 <= i < self.entries@.len() ==> self@.dom().contains(self.entries@[i].0@)
                    && self@[self.entries@[i].0@] == self.entries@[i].1,
    {
        let keys = self.keys();
        assert(self@.dom() =~= keys.to_set());
        lemma_in_order(keys);
        lemma_ascending_distinct(keys);
        keys.unique_seq_to_set();
        assert forall|i: int|
            #![trigger self.entries@[i]]
            0 <= i < self.entries@.len() implies self@.dom().contains(self.entries@[i].0@)
            && self@[self.entries@[i].0@] == self.entries@[i].1 by {
            assert(keys[i] == self.entries@[i].0@);
            assert(self.at(keys[i]) == i);
        }
    }

    /// A map with no entries.
    pub fn new() -> (map: Self)
        ensures
            map@ == Map::<Seq<char>, V>::empty(),
    {
        let map = TextMap { entries: Vec::new() };
        assert(map@ =~= Map::<Seq<char>, V>::empty());
        map
    }

    /// How many entries there are.
    pub fn len(&self) -> (n: usize)
        ensures
            n == self@.dom().len(),
            n == in_order(self@.dom()).len(),
            self@.dom().finite(),
    {
        proof {
            use_type_invariant(self);
            self.lemma_view();
        }
        self.entries.len()
    }

    /// Where `key` stands among the entries, or else where it would have to stand.
    fn find(&self, key: &str) -> (r: Result<usize, usize>)
        requires
            self.well_formed(),
        ensures
            match r {
                Ok(i) => i < self.entries@.len() && self.keys()[i as int] == key@,
                Err(i) => {
                    &&& i <= self.entries@.len()
                    &&& forall|j: int| 0 <= j < i ==> text::text_lt(#[trigger] self.keys()[j], key@)
                    &&& forall|j: int| i <= j < self.entries@.len() ==> text::text_lt(key@, #[trigger] self.keys()[j])
                },
            },
    {
        let mut low: usize = 0;
        let mut high: usize = self.entries.len();
        while low < high
            invariant
                low <= high <= self.entries@.len(),
                ascending(self.keys()),
                self.keys().len() == self.entries@.len(),
                forall|j: int| 0 <= j < low ==> text::text_lt(#[trigger] self.keys()[j], key@),
                forall|j: int| high <= j < self.entries@.len() ==> text::text_lt(key@, #[trigger] self.keys()[j]),
            decreases high - low,
        {
            let mid: usize = low + (high - low) / 2;
            assert(self.keys()[mid as int] == self.entries@[mid as int].0@);
            match text::place(self.entries[mid].0.as_str(), key) {
                text::Place::Same => {
                    return Ok(mid);
                },
                text::Place::Before => {
                    proof {
                        assert forall|j: int| 0 <= j < mid + 1 implies text::text_lt(
                            #[trigger] self.keys()[j],
                            key@,
                        ) by {
                            if j < mid {
                                text::lemma_text_lt_trans(self.keys()[j], self.keys()[mid as int], key@);
                            }
                        }
                    }
                    low = mid + 1;
                },
                text::Place::After => {
                    proof {
                        assert forall|j: int| mid <= j < self.entries@.len() implies text::text_lt(
                            key@,
                            #[trigger] self.keys()[j],
                        ) by {
                            if mid < j {
                                text::lemma_text_lt_trans(key@, self.keys()[mid as int], self.keys()[j]);
                            }
                        }
                    }
                    high = mid;
                },
            }
        }
        Err(low)
    }

    /// The value under `key`.
    pub fn get(&self, key: &str) -> (value: Option<&V>)
        ensures
            match value {
                Some(v) => self@.dom().contains(key@) && self@[key@] == *v,
                None => !self@.dom().contains(key@),
            },
    {
        proof {
            use_type_invariant(self);
            self.lemma_view();
        }
        match self.find(key) {
            Ok(i) => {
                assert(self.keys()[i as int] == self.entries@[i as int].0@);
                Some(&self.entries[i].1)
            },
            Err(i) => {
                proof {
                    self.lemma_absent(key@, i as int);
                }
                None
            },
        }
    }

    proof fn lemma_absent(self, key: Seq<char>, i: int)
        requires
            0 <= i <= self.entries@.len(),
            forall|j: int| 0 <= j < i ==> text::text_lt(#[trigger] self.keys()[j], key),
            forall|j: int| i <= j < self.entries@.len() ==> text::text_lt(key, #[trigger] self.keys()[j]),
        ensures
            !self@.dom().contains(key),
    {
        if self.keys().contains(key) {
            let j = choose|j: int| 0 <= j < self.keys().len() && self.keys()[j] == key;
            text::lemma_text_lt_total(self.keys()[j], key);
        }
    }

    /// Whether there is an entry under `key`.
    pub fn contains_key(&self, key: &str) -> (r: bool)
        ensures
            r == self@.dom().contains(key@),
    {
        self.get(key).is_some()
    }

    /// Puts `value` under `key`, in place of what stood there.
    pub fn insert(&mut self, key: String, value: V)
        ensures
            final(self)@ == old(self)@.insert(key@, value),
    {
        proof {
            use_type_invariant(&*self);
            self.lemma_view();
        }
        let ghost before = *self;
        match self.find(key.as_str()) {
            Ok(i) => {
                let mut entries: Vec<(String, V)> = Vec::new();
                std::mem::swap(&mut entries, &mut self.entries);
                assert(before.keys()[i as int] == entries@[i as int].0@);
                entries.set(i, (key, value));
                let ghost after = TextMap { entries };
                proof {
                    assert(after.keys() =~= before.keys());
                    after.lemma_view();
                    Self::lemma_put(before, after, i as int, key@, value);
                }
                self.entries = entries;
            },
            Err(i) => {
                proof {
                    self.lemma_absent(key@, i as int);
                }
                let mut entries: Vec<(String, V)> = Vec::new();
                std::mem::swap(&mut entries, &mut self.entries);
                entries.insert(i, (key, value));
                let ghost after = TextMap { entries };
                proof {
                    let (old_keys, keys) = (before.keys(), after.keys());
                    assert(keys =~= old_keys.insert(i as int, key@));
                    assert forall|a: int, b: int| 0 <= a < b < keys.len() implies text::text_lt(
                        #[trigger] keys[a],
                        #[trigger] keys[b],
                    ) by {
                        assert(a != i ==> keys[a] == old_keys[if a < i { a } else { a - 1 }]);
                        assert(b != i ==> keys[b] == old_keys[if b < i { b } else { b - 1 }]);
                    }
                    after.lemma_view();
                    assert(after@ =~= before@.insert(key@, value)) by {
                        assert(after.entries@[i as int].0@ == key@);
                        assert forall|k: Seq<char>| after@.dom().contains(k) <==> before@.dom().contains(k) || k
                            == key@ by {
                            if old_keys.contains(k) {
                                let a = choose|a: int| 0 <= a < old_keys.len() && old_keys[a] == k;
                                assert(keys[if a < i { a } else { a + 1 }] == k);
                            }
                            if keys.contains(k) && k != key@ {
                                let a = choose|a: int| 0 <= a < keys.len() && keys[a] == k;
                                assert(old_keys[if a < i { a } else { a - 1 }] == k);
                            }
                        }
                        assert forall|k: Seq<char>| before@.dom().contains(k) implies after@[k] == before@[k] by {
                            let a = choose|a: int| 0 <= a < old_keys.len() && old_keys[a] == k;
                            let b = if a < i { a } else { a + 1 };
                            assert(before.entries@[a].0@ == k);
                            assert(after.entries@[b].0@ == k);
                        }
                    }
                }
                self.entries = entries;
            },
        }
    }

    proof fn lemma_put(before: Self, after: Self, i: int, key: Seq<char>, value: V)
        requires
            before.well_formed(),
            after.well_formed(),
            0 <= i < before.entries@.len(),
            before.keys() == after.keys(),
            before.keys()[i] == key,
            after.entries@[i].1 == value,
            forall|j: int|
                #![trigger after.entries@[j]]
                0 <= j < before.entries@.len() && j != i ==> after.entries@[j] == before.entries@[j],
        ensures
            after@ == before@.insert(key, value),
    {
        before.lemma_view();
        after.lemma_view();
        assert(after.entries@.len() == after.keys().len());
        assert(before.entries@.len() == before.keys().len());
        assert(before.keys()[i] == before.entries@[i].0@);
        assert(after.keys()[i] == after.entries@[i].0@);
        assert forall|k: Seq<char>| #[trigger] before@.dom().contains(k) && k != key implies after@[k]
            == before@[k] by {
            let a = choose|a: int| 0 <= a < before.keys().len() && before.keys()[a] == k;
            assert(before.entries@[a].0@ == k);
            assert(after.entries@[a].0@ == k);
        }
        assert(after@ =~= before@.insert(key, value));
    }

    /// The entry at position `i` of the order of keys.
    pub fn entry(&self, i: usize) -> (e: (&str, &V))
        requires
            i < self@.dom().len(),
        ensures
            e.0@ == in_order(self@.dom())[i as int],
            self@.dom().contains(e.0@),
            *e.1 == self@[e.0@],
    {
        proof {
            use_type_invariant(self);
            self.lemma_view();
            assert(self.keys()[i as int] == self.entries@[i as int].0@);
        }
        (self.entries[i].0.as_str(), &self.entries[i].1)
    }
}

impl<V> TextMap<V> {
    /// The keys, in ascending order.
    pub fn key_list(&self) -> (keys: Vec<String>)
        ensures
            text::views(keys@) == in_order(self@.dom()),
    {
        proof {
            use_type_invariant(self);
            self.lemma_view();
        }
        let mut keys: Vec<String> = Vec::new();
        let mut i: usize = 0;
        while i < self.entries.len()
            invariant
                i <= self.entries@.len(),
                text::views(keys@) == self.keys().take(i as int),
            decreases self.entries@.len() - i,
        {
            let ghost before = keys@;
            keys.push(self.entries[i].0.clone());
            proof {
                assert(self.keys().take(i + 1) == self.keys().take(i as int).push(self.entries@[i as int].0@));
                assert(text::views(keys@) =~= text::views(before).push(self.entries@[i as int].0@));
            }
            i += 1;
        }
        assert(text::views(keys@) =~= self.keys());
        keys
    }
}

impl<V: Copy> Clone for TextMap<V> {
    fn clone(&self) -> (copy: Self)
        ensures
            copy@ == self@,
    {
        proof {
            use_type_invariant(self);
        }
        let mut entries: Vec<(String, V)> = Vec::new();
        let mut i: usize = 0;
        while i < self.entries.len()
            invariant
                i <= self.entries@.len(),
                entries@ == self.entries@.take(i as int),
            decreases self.entries@.len() - i,
        {
            entries.push((self.entries[i].0.clone(), self.entries[i].1));
            i += 1;
        }
        assert(entries@ =~= self.entries@);
        TextMap { entries }
    }
}

} // verus!
