use vstd::prelude::*;
use crate::text::{str_eq, texts};

verus! {

/// The names of a list of entries, in order.
pub open spec fn entry_names<V>(entries: Seq<(String, V)>) -> Seq<Seq<char>> {
    entries.map_values(|e: (String, V)| e.0@)
}

/// The values of a list of entries, in order.
pub open spec fn entry_items<V>(entries: Seq<(String, V)>) -> Seq<V> {
    entries.map_values(|e: (String, V)| e.1)
}

/// The finite map that pairs each name with the item at the same position.
pub open spec fn pairing<V>(names: Seq<Seq<char>>, items: Seq<V>) -> Map<Seq<char>, V> {
    Map::new(|k: Seq<char>| names.contains(k), |k: Seq<char>| items[names.index_of(k)])
}

/// A pairing has exactly the listed names as its keys, so it is finite.
pub proof fn lemma_pairing_domain<V>(names: Seq<Seq<char>>, items: Seq<V>)
    ensures
        pairing(names, items).dom() == names.to_set(),
        pairing(names, items).dom().finite(),
{
    assert(pairing(names, items).dom() =~= names.to_set());
    vstd::seq_lib::seq_to_set_is_finite(names);
}

/// Where no name occurs twice, the pairing maps the name at a position to the
/// item at that position.
pub proof fn lemma_pairing_at<V>(names: Seq<Seq<char>>, items: Seq<V>, i: int)
    requires
        names.no_duplicates(),
        0 <= i < names.len(),
    ensures
        pairing(names, items).contains_key(names[i]),
        pairing(names, items)[names[i]] == items[i],
{
    assert(names.contains(names[i]));
    let j = names.index_of(names[i]);
    assert(names[j] == names[i]);
}

/// Appending a new name with its item adds one binding.
pub proof fn lemma_pairing_push<V>(names: Seq<Seq<char>>, items: Seq<V>, key: Seq<char>, value: V)
    requires
        names.no_duplicates(),
        names.len() == items.len(),
        !names.contains(key),
    ensures
        names.push(key).no_duplicates(),
        pairing(names.push(key), items.push(value)) == pairing(names, items).insert(key, value),
{
    let longer = names.push(key);
    assert(longer[names.len() as int] == key);
    assert(longer.no_duplicates()) by {
        assert forall|i: int, j: int| 0 <= i < longer.len() && 0 <= j < longer.len() && i != j implies longer[i]
            != longer[j] by {
            if i < names.len() && j < names.len() {
                assert(names[i] != names[j]);
            } else if i < names.len() {
                assert(names.contains(names[i]));
            } else {
                assert(names.contains(names[j]));
            }
        }
    }
    assert forall|k: Seq<char>| longer.contains(k) <==> (names.contains(k) || k == key) by {
        if longer.contains(k) {
            let j = longer.index_of(k);
            assert(longer[j] == k);
            if j < names.len() {
                assert(names[j] == k);
            }
        }
        if names.contains(k) {
            let j = names.index_of(k);
            assert(names[j] == k);
            assert(longer[j] == k);
        }
    }
    assert forall|k: Seq<char>| longer.contains(k) implies #[trigger] items.push(value)[longer.index_of(k)]
        == pairing(names, items).insert(key, value)[k] by {
        let j = longer.index_of(k);
        assert(longer[j] == k);
        if j < names.len() {
            assert(names[j] == k);
            lemma_pairing_at(names, items, j);
        }
    }
    assert(pairing(longer, items.push(value)) =~= pairing(names, items).insert(key, value));
}

/// Replacing the item at a position rebinds the name at that position.
pub proof fn lemma_pairing_update<V>(names: Seq<Seq<char>>, items: Seq<V>, i: int, value: V)
    requires
        names.no_duplicates(),
        names.len() == items.len(),
        0 <= i < names.len(),
    ensures
        pairing(names, items.update(i, value)) == pairing(names, items).insert(names[i], value),
{
    assert(names.contains(names[i]));
    assert forall|k: Seq<char>| names.contains(k) implies #[trigger] items.update(i, value)[names.index_of(k)]
        == pairing(names, items).insert(names[i], value)[k] by {
        let j = names.index_of(k);
        assert(names[j] == k);
    }
    assert(pairing(names, items.update(i, value)) =~= pairing(names, items).insert(names[i], value));
}

/// Dropping a position drops the binding of the name at that position.
pub proof fn lemma_pairing_remove<V>(names: Seq<Seq<char>>, items: Seq<V>, i: int)
    requires
        names.no_duplicates(),
        names.len() == items.len(),
        0 <= i < names.len(),
    ensures
        names.remove(i).no_duplicates(),
        !names.remove(i).contains(names[i]),
        pairing(names.remove(i), items.remove(i)) == pairing(names, items).remove(names[i]),
{
    let fewer = names.remove(i);
    assert forall|a: int, b: int| 0 <= a < fewer.len() && 0 <= b < fewer.len() && a != b implies fewer[a]
        != fewer[b] by {
        let a2 = if a < i { a } else { a + 1 };
        let b2 = if b < i { b } else { b + 1 };
        assert(fewer[a] == names[a2]);
        assert(fewer[b] == names[b2]);
    }
    assert forall|k: Seq<char>| fewer.contains(k) <==> (names.contains(k) && k != names[i]) by {
        if fewer.contains(k) {
            let j = fewer.index_of(k);
            assert(fewer[j] == k);
            let j2 = if j < i { j } else { j + 1 };
            assert(names[j2] == k);
        }
        if names.contains(k) && k != names[i] {
            let j = names.index_of(k);
            assert(names[j] == k);
            let j2 = if j < i { j } else { j - 1 };
            assert(fewer[j2] == k);
        }
    }
    assert forall|k: Seq<char>| fewer.contains(k) implies #[trigger] items.remove(i)[fewer.index_of(k)]
        == pairing(names, items)[k] by {
        let j = fewer.index_of(k);
        assert(fewer[j] == k);
        let j2 = if j < i { j } else { j + 1 };
        assert(names[j2] == k);
        lemma_pairing_at(names, items, j2);
    }
    assert(pairing(fewer, items.remove(i)) =~= pairing(names, items).remove(names[i]));
}

/// The names of `second` before position `upto` that `first` lacks, in their
/// order.
pub open spec fn fresh_names(first: Seq<Seq<char>>, second: Seq<Seq<char>>, upto: int) -> Seq<Seq<char>>
    decreases upto,
{
    if upto <= 0 {
        Seq::empty()
    } else if first.contains(second[upto - 1]) {
        fresh_names(first, second, upto - 1)
    } else {
        fresh_names(first, second, upto - 1).push(second[upto - 1])
    }
}

/// Every fresh name is one of the names that were looked at.
pub proof fn lemma_fresh_names_listed(
    first: Seq<Seq<char>>,
    second: Seq<Seq<char>>,
    upto: int,
    name: Seq<char>,
)
    requires
        0 <= upto <= second.len(),
        fresh_names(first, second, upto).contains(name),
    ensures
        exists|j: int| 0 <= j < upto && second[j] == name,
    decreases upto,
{
    if upto > 0 {
        let fewer = fresh_names(first, second, upto - 1);
        let all = fresh_names(first, second, upto);
        let at = choose|i: int| 0 <= i < all.len() && all[i] == name;
        if first.contains(second[upto - 1]) || at < fewer.len() {
            assert(fewer.contains(all[at]));
            lemma_fresh_names_listed(first, second, upto - 1, name);
        } else {
            assert(second[upto - 1] == name);
        }
    }
}

/// One step of taking names in: the name at position `at` of `second` is
/// among the names so far exactly if `first` holds it, and only a name that
/// `first` lacks is added.
pub proof fn lemma_fresh_names_step(first: Seq<Seq<char>>, second: Seq<Seq<char>>, at: int)
    requires
        second.no_duplicates(),
        0 <= at < second.len(),
    ensures
        (first + fresh_names(first, second, at)).contains(second[at]) <==> first.contains(second[at]),
        first + fresh_names(first, second, at + 1) == if first.contains(second[at]) {
            first + fresh_names(first, second, at)
        } else {
            (first + fresh_names(first, second, at)).push(second[at])
        },
{
    let fresh = fresh_names(first, second, at);
    let so_far = first + fresh;
    let name = second[at];
    assert(!fresh.contains(name)) by {
        if fresh.contains(name) {
            lemma_fresh_names_listed(first, second, at, name);
            let j = choose|j: int| 0 <= j < at && second[j] == name;
            assert(second[j] == second[at]);
        }
    }
    if so_far.contains(name) {
        let j = choose|j: int| 0 <= j < so_far.len() && so_far[j] == name;
        if j >= first.len() {
            assert(fresh[j - first.len()] == name);
        } else {
            assert(first[j] == name);
        }
    }
    if first.contains(name) {
        let j = choose|j: int| 0 <= j < first.len() && first[j] == name;
        assert(so_far[j] == name);
    }
    assert(first + fresh.push(name) =~= so_far.push(name));
}

/// How the names of a map stand after it took in another map: the names it
/// had, then the names of the other map that it lacked.
pub open spec fn joined_names(first: Seq<Seq<char>>, second: Seq<Seq<char>>) -> Seq<Seq<char>> {
    first + fresh_names(first, second, second.len() as int)
}

/// A map from names to values that remembers the order in which the names
/// were first inserted. No name occurs twice.
#[derive(Debug)]
pub struct NameMap<V> {
    pub(crate) entries: Vec<(String, V)>,
}

impl<V> NameMap<V> {
    /// The names in insertion order.
    pub closed spec fn names(self) -> Seq<Seq<char>> {
        entry_names(self.entries@)
    }

    /// The values, each at the position of its name.
    pub closed spec fn items(self) -> Seq<V> {
        entry_items(self.entries@)
    }

    /// No name occurs twice, and every name has its value.
    #[verifier::type_invariant]
    pub open spec fn distinct(self) -> bool {
        &&& self.names().no_duplicates()
        &&& self.names().len() == self.items().len()
    }

    pub open spec fn view(self) -> Map<Seq<char>, V> {
        pairing(self.names(), self.items())
    }

    pub fn new() -> (m: Self)
        ensures
            m@ == Map::<Seq<char>, V>::empty(),
            m.names() == Seq::<Seq<char>>::empty(),
    {
        let m = NameMap { entries: Vec::new() };
        assert(m.names() =~= Seq::<Seq<char>>::empty());
        assert(m@ =~= Map::<Seq<char>, V>::empty());
        m
    }

    pub fn len(&self) -> (n: usize)
        ensures
            n == self.names().len(),
            n == self@.len(),
            self.distinct(),
    {
        proof {
            use_type_invariant(self);
            lemma_pairing_domain(self.names(), self.items());
            self.names().unique_seq_to_set();
        }
        self.entries.len()
    }

    /// The position of a name, if the map holds it.
    pub fn position(&self, key: &str) -> (at: Option<usize>)
        ensures
            match at {
                Some(i) => i < self.names().len() && self.names()[i as int] == key@
                    && self@.contains_key(key@) && self@[key@] == self.items()[i as int],
                None => !self@.contains_key(key@) && !self.names().contains(key@),
            },
    {
        proof {
            use_type_invariant(self);
        }
        let mut i: usize = 0;
        while i < self.entries.len()
            invariant
                i <= self.entries.len(),
                self.distinct(),
                forall|k: int| 0 <= k < i ==> self.names()[k] != key@,
            decreases self.entries.len() - i,
        {
            if str_eq(self.entries[i].0.as_str(), key) {
                proof {
                    lemma_pairing_at(self.names(), self.items(), i as int);
                }
                return Some(i);
            }
            i += 1;
        }
        None
    }

    pub fn contains_key(&self, key: &str) -> (held: bool)
        ensures
            held == self@.contains_key(key@),
    {
        self.position(key).is_some()
    }

    pub fn get(&self, key: &str) -> (found: Option<&V>)
        ensures
            match found {
                Some(v) => self@.contains_key(key@) && *v == self@[key@],
                None => !self@.contains_key(key@),
            },
    {
        match self.position(key) {
            Some(i) => Some(&self.entries[i].1),
            None => None,
        }
    }

    /// The name at a position.
    pub fn name_at(&self, i: usize) -> (name: &String)
        requires
            i < self.names().len(),
        ensures
            name@ == self.names()[i as int],
    {
        &self.entries[i].0
    }

    /// The value at a position.
    pub fn item_at(&self, i: usize) -> (item: &V)
        requires
            i < self.names().len(),
        ensures
            *item == self.items()[i as int],
            self@.contains_key(self.names()[i as int]),
            *item == self@[self.names()[i as int]],
    {
        proof {
            use_type_invariant(self);
            lemma_pairing_at(self.names(), self.items(), i as int);
        }
        &self.entries[i].1
    }

    /// Puts `value` at a position and hands back what was there.
    pub(crate) fn swap_item(&mut self, i: usize, value: V) -> (previous: V)
        requires
            i < old(self).names().len(),
        ensures
            previous == old(self).items()[i as int],
            final(self).names() == old(self).names(),
            final(self).items() == old(self).items().update(i as int, value),
            final(self)@ == old(self)@.insert(old(self).names()[i as int], value),
    {
        proof {
            use_type_invariant(&*self);
        }
        let mut entries: Vec<(String, V)> = Vec::new();
        std::mem::swap(&mut entries, &mut self.entries);
        let ghost before = entries@;
        let mut held = value;
        std::mem::swap(&mut entries[i].1, &mut held);
        proof {
            assert(entry_names(entries@) =~= entry_names(before));
            assert(entry_items(entries@) =~= entry_items(before).update(i as int, value));
            lemma_pairing_update(entry_names(before), entry_items(before), i as int, value);
        }
        self.entries = entries;
        held
    }

    /// Takes the map apart into its entries, in order.
    pub fn into_entries(self) -> (entries: Vec<(String, V)>)
        ensures
            entry_names(entries@) == self.names(),
            entry_items(entries@) == self.items(),
    {
        self.entries
    }

    /// Binds `key` to `value`. A name that is already held keeps its position;
    /// a new name goes to the end.
    pub fn insert(&mut self, key: String, value: V)
        ensures
            final(self)@ == old(self)@.insert(key@, value),
            final(self).names() == if old(self)@.contains_key(key@) {
                old(self).names()
            } else {
                old(self).names().push(key@)
            },
    {
        proof {
            use_type_invariant(&*self);
        }
        let at = self.position(key.as_str());
        let mut entries: Vec<(String, V)> = Vec::new();
        std::mem::swap(&mut entries, &mut self.entries);
        let ghost before = entries@;
        match at {
            Some(i) => {
                entries.set(i, (key, value));
                proof {
                    assert(entry_names(entries@) =~= entry_names(before));
                    assert(entry_items(entries@) =~= entry_items(before).update(i as int, value));
                    lemma_pairing_update(entry_names(before), entry_items(before), i as int, value);
                }
            },
            None => {
                entries.push((key, value));
                proof {
                    assert(entry_names(entries@) =~= entry_names(before).push(key@));
                    assert(entry_items(entries@) =~= entry_items(before).push(value));
                    lemma_pairing_push(entry_names(before), entry_items(before), key@, value);
                }
            },
        }
        self.entries = entries;
    }

    /// Unbinds a name and hands back its value. The other names keep their
    /// order.
    pub fn remove(&mut self, key: &str) -> (taken: Option<V>)
        ensures
            final(self)@ == old(self)@.remove(key@),
            match taken {
                Some(v) => old(self)@.contains_key(key@) && v == old(self)@[key@]
                    && final(self).names() == old(self).names().remove(
                    old(self).names().index_of(key@),
                ),
                None => !old(self)@.contains_key(key@) && final(self).names() == old(self).names(),
            },
    {
        proof {
            use_type_invariant(&*self);
        }
        match self.position(key) {
            Some(i) => {
                let mut entries: Vec<(String, V)> = Vec::new();
                std::mem::swap(&mut entries, &mut self.entries);
                let ghost before = entries@;
                let (_, value) = entries.remove(i);
                proof {
                    let names = entry_names(before);
                    let at = names.index_of(key@);
                    assert(names[i as int] == key@);
                    assert(names[at] == key@);
                    assert(at == i);
                    assert(entry_names(entries@) =~= names.remove(i as int));
                    assert(entry_items(entries@) =~= entry_items(before).remove(i as int));
                    lemma_pairing_remove(names, entry_items(before), i as int);
                }
                self.entries = entries;
                Some(value)
            },
            None => {
                assert(final(self)@ =~= old(self)@.remove(key@));
                None
            },
        }
    }

    /// Takes in every entry of `other`, in its order. Where both maps hold a
    /// name, `keep_existing` decides: the value already here stays, or the
    /// value of `other` replaces it. Names already here keep their positions.
    pub fn absorb(&mut self, other: NameMap<V>, keep_existing: bool)
        ensures
            final(self)@ == if keep_existing {
                other@.union_prefer_right(old(self)@)
            } else {
                old(self)@.union_prefer_right(other@)
            },
            final(self).names() == joined_names(old(self).names(), other.names()),
    {
        proof {
            use_type_invariant(&other);
            use_type_invariant(&*self);
        }
        let ghost source_names = other.names();
        let ghost source_items = other.items();
        let ghost start = self@;
        let ghost start_names = self.names();
        let entries = other.into_entries();
        assert(pairing(source_names.take(0), source_items.take(0)) =~= Map::<Seq<char>, V>::empty());
        assert(self@ =~= start.union_prefer_right(Map::<Seq<char>, V>::empty()));
        assert(self@ =~= Map::<Seq<char>, V>::empty().union_prefer_right(start));
        assert(self.names() =~= start_names + fresh_names(start_names, source_names, 0));
        for entry in it: entries
            invariant
                it.seq() == entries@,
                entry_names(entries@) == source_names,
                entry_items(entries@) == source_items,
                source_names.no_duplicates(),
                source_names.len() == source_items.len(),
                self.names() == start_names + fresh_names(
                    start_names,
                    source_names,
                    it.index() as int,
                ),
                self@ == if keep_existing {
                    pairing(
                        source_names.take(it.index() as int),
                        source_items.take(it.index() as int),
                    ).union_prefer_right(start)
                } else {
                    start.union_prefer_right(
                        pairing(
                            source_names.take(it.index() as int),
                            source_items.take(it.index() as int),
                        ),
                    )
                },
        {
            let ghost n = it.index() as int;
            let ghost seen = pairing(source_names.take(n), source_items.take(n));
            let (key, value) = entry;
            proof {
                assert(key@ == source_names[n]);
                assert(value == source_items[n]);
                assert(source_names.take(n + 1) =~= source_names.take(n).push(key@));
                assert(source_items.take(n + 1) =~= source_items.take(n).push(value));
                assert(!source_names.take(n).contains(key@)) by {
                    if source_names.take(n).contains(key@) {
                        let j = source_names.take(n).index_of(key@);
                        assert(source_names.take(n)[j] == key@);
                        assert(source_names[j] == source_names[n]);
                    }
                }
                assert(source_names.take(n).no_duplicates());
                lemma_pairing_push(source_names.take(n), source_items.take(n), key@, value);
                lemma_pairing_domain(source_names.take(n), source_items.take(n));
                lemma_fresh_names_step(start_names, source_names, n);
                assert(self@.contains_key(key@) <==> self.names().contains(key@));
            }
            if keep_existing && self.contains_key(key.as_str()) {
                assert(self@ =~= seen.insert(key@, value).union_prefer_right(start));
            } else {
                let ghost prior = self@;
                self.insert(key, value);
                proof {
                    if keep_existing {
                        assert(prior.insert(key@, value) =~= seen.insert(
                            key@,
                            value,
                        ).union_prefer_right(start));
                    } else {
                        assert(prior.insert(key@, value) =~= start.union_prefer_right(
                            seen.insert(key@, value),
                        ));
                    }
                }
            }
        }
        proof {
            assert(source_names.take(entries@.len() as int) =~= source_names);
            assert(source_items.take(entries@.len() as int) =~= source_items);
        }
    }

    /// The names in insertion order, copied out.
    pub fn keys(&self) -> (names: Vec<String>)
        ensures
            texts(names@) == self.names(),
    {
        let mut names: Vec<String> = Vec::new();
        let mut i: usize = 0;
        while i < self.entries.len()
            invariant
                i <= self.entries.len(),
                texts(names@) == self.names().take(i as int),
            decreases self.entries.len() - i,
        {
            let ghost before = names@;
            names.push(self.entries[i].0.clone());
            proof {
                assert(texts(names@) =~= texts(before).push(self.names()[i as int]));
                assert(texts(names@) =~= self.names().take(i as int + 1));
            }
            i += 1;
        }
        proof {
            assert(self.names().take(i as int) =~= self.names());
        }
        names
    }
}

impl<V: Clone> Clone for NameMap<V> {
    /// A copy with the same names in the same order, each with a clone of
    /// its value.
    fn clone(&self) -> (copy: Self)
        ensures
            copy.names() == self.names(),
    {
        proof {
            use_type_invariant(self);
        }
        let mut entries: Vec<(String, V)> = Vec::new();
        let mut i: usize = 0;
        while i < self.entries.len()
            invariant
                i <= self.entries.len(),
                entry_names(entries@) == entry_names(self.entries@).take(i as int),
            decreases self.entries.len() - i,
        {
            let ghost before = entries@;
            entries.push((self.entries[i].0.clone(), self.entries[i].1.clone()));
            proof {
                assert(entry_names(entries@) =~= entry_names(before).push(self.entries@[i as int].0@));
                assert(entry_names(entries@) =~= entry_names(self.entries@).take(i as int + 1));
            }
            i += 1;
        }
        proof {
            assert(entry_names(self.entries@).take(i as int) =~= entry_names(self.entries@));
            assert(entry_items(entries@).len() == entry_names(entries@).len());
        }
        NameMap { entries }
    }
}

impl NameMap<String> {
    /// A copy with the same names and the same texts, in the same order.
    pub fn duplicate(&self) -> (copy: Self)
        ensures
            copy.names() == self.names(),
            copy.items() == self.items(),
            copy@ == self@,
    {
        proof {
            use_type_invariant(self);
        }
        let mut entries: Vec<(String, String)> = Vec::new();
        let mut i: usize = 0;
        while i < self.entries.len()
            invariant
                i <= self.entries.len(),
                entries@ == self.entries@.take(i as int),
            decreases self.entries.len() - i,
        {
            entries.push((self.entries[i].0.clone(), self.entries[i].1.clone()));
            proof {
                assert(entries@ =~= self.entries@.take(i as int + 1));
            }
            i += 1;
        }
        proof {
            assert(self.entries@.take(i as int) =~= self.entries@);
        }
        NameMap { entries }
    }
}


} // verus!
