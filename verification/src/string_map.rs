//! A map with text keys that keeps its entries in the order of their keys,
//! and the set that goes with it.

use vstd::prelude::*;
use vstd::utf8::encode_utf8;

verus! {

/// The order of byte strings: at the first place where two of them differ the
/// lower byte decides, and a proper beginning comes before the whole.
pub open spec fn bytes_before(a: Seq<u8>, b: Seq<u8>) -> bool {
    exists|i: int| #[trigger] first_difference(a, b, i) && (i < a.len() ==> a[i] < b[i]) && i < b.len()
}

/// Whether `a` and `b` agree before the place `i`, and differ or end there.
pub open spec fn first_difference(a: Seq<u8>, b: Seq<u8>, i: int) -> bool {
    &&& 0 <= i <= a.len()
    &&& i <= b.len()
    &&& forall|j: int| 0 <= j < i ==> a[j] == b[j]
    &&& i < a.len() && i < b.len() ==> a[i] != b[i]
}

/// The order of texts: that of their UTF-8 bytes.
pub open spec fn text_before(a: Seq<char>, b: Seq<char>) -> bool {
    bytes_before(encode_utf8(a), encode_utf8(b))
}

/// Whether the keys of the entries ascend, so that none occurs twice.
pub open spec fn keys_ascend<V>(entries: Seq<(String, V)>) -> bool {
    forall|i: int, j: int|
        0 <= i < j < entries.len() ==> text_before(#[trigger] entries[i].0@, #[trigger] entries[j].0@)
}

/// The map that a list of entries stands for; of two entries with the same
/// key the later one counts.
pub open spec fn map_of<V>(entries: Seq<(String, V)>) -> Map<Seq<char>, V>
    decreases entries.len(),
{
    if entries.len() == 0 {
        Map::empty()
    } else {
        map_of(entries.drop_last()).insert(entries.last().0@, entries.last().1)
    }
}

proof fn lemma_texts_differ(a: Seq<char>, b: Seq<char>)
    requires
        encode_utf8(a) == encode_utf8(b),
    ensures
        a == b,
{
    vstd::utf8::encode_utf8_decode_utf8(a);
    vstd::utf8::encode_utf8_decode_utf8(b);
}

proof fn lemma_before_is_strict(a: Seq<u8>)
    ensures
        !bytes_before(a, a),
{
}

proof fn lemma_before_is_transitive(a: Seq<u8>, b: Seq<u8>, c: Seq<u8>)
    requires
        bytes_before(a, b),
        bytes_before(b, c),
    ensures
        bytes_before(a, c),
{
    let i = choose|i: int| #[trigger]
        first_difference(a, b, i) && (i < a.len() ==> a[i] < b[i]) && i < b.len();
    let j = choose|j: int| #[trigger]
        first_difference(b, c, j) && (j < b.len() ==> b[j] < c[j]) && j < c.len();
    let k = if i < j {
        i
    } else {
        j
    };
    assert(first_difference(a, c, k));
}

proof fn lemma_before_is_total(a: Seq<u8>, b: Seq<u8>, i: int)
    requires
        first_difference(a, b, i),
    ensures
        bytes_before(a, b) <==> i < b.len() && (i < a.len() ==> a[i] < b[i]),
        bytes_before(b, a) <==> i < a.len() && (i < b.len() ==> b[i] < a[i]),
        a == b <==> i == a.len() && i == b.len(),
{
    assert(first_difference(b, a, i));
    if i == a.len() && i == b.len() {
        assert(a =~= b);
    }
    if bytes_before(a, b) {
        let k = choose|k: int| #[trigger]
            first_difference(a, b, k) && (k < a.len() ==> a[k] < b[k]) && k < b.len();
        assert(k == i);
    }
    if bytes_before(b, a) {
        let k = choose|k: int| #[trigger]
            first_difference(b, a, k) && (k < b.len() ==> b[k] < a[k]) && k < a.len();
        assert(k == i);
    }
}

proof fn lemma_map_of_key<V>(entries: Seq<(String, V)>, key: Seq<char>)
    ensures
        map_of(entries).contains_key(key) <==> exists|i: int|
            0 <= i < entries.len() && #[trigger] entries[i].0@ == key,
    decreases entries.len(),
{
    if entries.len() > 0 {
        let front = entries.drop_last();
        lemma_map_of_key(front, key);
        if exists|i: int| 0 <= i < entries.len() && #[trigger] entries[i].0@ == key {
            let i = choose|i: int| 0 <= i < entries.len() && #[trigger] entries[i].0@ == key;
            if i < front.len() {
                assert(front[i].0@ == key);
            }
        }
        if map_of(front).contains_key(key) {
            let i = choose|i: int| 0 <= i < front.len() && #[trigger] front[i].0@ == key;
            assert(entries[i].0@ == key);
        }
    }
}

proof fn lemma_map_of_entry<V>(entries: Seq<(String, V)>, i: int)
    requires
        keys_ascend(entries),
        0 <= i < entries.len(),
    ensures
        map_of(entries).contains_key(entries[i].0@),
        map_of(entries)[entries[i].0@] == entries[i].1,
    decreases entries.len(),
{
    lemma_map_of_key(entries, entries[i].0@);
    let last = entries.len() - 1;
    if i < last {
        lemma_ascending_front(entries);
        lemma_map_of_entry(entries.drop_last(), i);
        assert(text_before(entries[i].0@, entries[last].0@));
        lemma_before_is_strict(encode_utf8(entries[i].0@));
    }
}

proof fn lemma_map_of_len<V>(entries: Seq<(String, V)>)
    requires
        keys_ascend(entries),
    ensures
        map_of(entries).dom().finite(),
        map_of(entries).len() == entries.len(),
    decreases entries.len(),
{
    if entries.len() > 0 {
        let front = entries.drop_last();
        lemma_ascending_front(entries);
        lemma_map_of_len(front);
        lemma_last_key_is_new(entries);
    }
}

proof fn lemma_ascending_front<V>(entries: Seq<(String, V)>)
    requires
        keys_ascend(entries),
        entries.len() > 0,
    ensures
        keys_ascend(entries.drop_last()),
{
    let front = entries.drop_last();
    assert forall|j: int, k: int| 0 <= j < k < front.len() implies text_before(
        #[trigger] front[j].0@,
        #[trigger] front[k].0@,
    ) by {
        assert(front[j] == entries[j] && front[k] == entries[k]);
    }
}

/// Whether two lists hold the same keys with the same values, in the same
/// places.
pub open spec fn same_entries<V>(a: Seq<(String, V)>, b: Seq<(String, V)>) -> bool {
    &&& a.len() == b.len()
    &&& forall|i: int|
        0 <= i < a.len() ==> (#[trigger] a[i]).0@ == (#[trigger] b[i]).0@ && a[i].1 == b[i].1
}

/// The entries of a map in the order of their keys depend on what the map
/// holds alone, not on the order in which it was filled.
pub proof fn law_entries_follow_from_map<V>(a: Seq<(String, V)>, b: Seq<(String, V)>)
    requires
        keys_ascend(a),
        keys_ascend(b),
        map_of(a) == map_of(b),
    ensures
        same_entries(a, b),
    decreases a.len(),
{
    lemma_map_of_len(a);
    lemma_map_of_len(b);
    if a.len() > 0 {
        let last = a.len() - 1;
        let (x, y) = (a[last].0@, b[last].0@);
        lemma_map_of_entry(a, last);
        lemma_map_of_entry(b, last);
        lemma_map_of_key(a, y);
        lemma_map_of_key(b, x);
        let i = choose|i: int| 0 <= i < b.len() && #[trigger] b[i].0@ == x;
        let j = choose|j: int| 0 <= j < a.len() && #[trigger] a[j].0@ == y;
        if x != y {
            assert(text_before(b[i].0@, b[last].0@));
            assert(text_before(a[j].0@, a[last].0@));
            lemma_before_is_transitive(encode_utf8(x), encode_utf8(y), encode_utf8(x));
            lemma_before_is_strict(encode_utf8(x));
        }
        let (front_a, front_b) = (a.drop_last(), b.drop_last());
        lemma_ascending_front(a);
        lemma_ascending_front(b);
        assert(map_of(front_a) =~= map_of(a).remove(x)) by {
            lemma_last_key_is_new(a);
        }
        assert(map_of(front_b) =~= map_of(b).remove(x)) by {
            lemma_last_key_is_new(b);
        }
        law_entries_follow_from_map(front_a, front_b);
        assert forall|k: int| 0 <= k < a.len() implies (#[trigger] a[k]).0@ == (
        #[trigger] b[k]).0@ && a[k].1 == b[k].1 by {
            if k < last {
                assert(front_a[k].0@ == front_b[k].0@);
            }
        }
    }
}

proof fn lemma_last_key_is_new<V>(entries: Seq<(String, V)>)
    requires
        keys_ascend(entries),
        entries.len() > 0,
    ensures
        !map_of(entries.drop_last()).contains_key(entries.last().0@),
{
    let front = entries.drop_last();
    let last = entries.last().0@;
    lemma_map_of_key(front, last);
    if map_of(front).contains_key(last) {
        let i = choose|i: int| 0 <= i < front.len() && #[trigger] front[i].0@ == last;
        assert(text_before(entries[i].0@, entries[entries.len() - 1].0@));
        lemma_before_is_strict(encode_utf8(last));
    }
}

/// How one text stands to another in the order of their bytes.
enum Place {
    Before,
    Same,
    After,
}

fn place_of(a: &str, b: &str) -> (place: Place)
    ensures
        place is Before <==> text_before(a@, b@),
        place is Same <==> a@ == b@,
        place is After <==> text_before(b@, a@),
{
    let left = a.as_bytes();
    let right = b.as_bytes();
    let mut i: usize = 0;
    while i < left.len() && i < right.len() && left[i] == right[i]
        invariant
            i <= left@.len(),
            i <= right@.len(),
            forall|j: int| 0 <= j < i ==> left@[j] == right@[j],
        decreases left@.len() - i,
    {
        i = i + 1;
    }
    proof {
        lemma_before_is_total(left@, right@, i as int);
        if left@ == right@ {
            lemma_texts_differ(a@, b@);
        }
    }
    if i == left.len() {
        if i == right.len() {
            Place::Same
        } else {
            Place::Before
        }
    } else if i == right.len() {
        Place::After
    } else if left[i] < right[i] {
        Place::Before
    } else {
        Place::After
    }
}

/// A map with text keys. Its entries stand in the order of their keys.
#[derive(Debug)]
pub struct StringMap<V> {
    entries: Vec<(String, V)>,
}

impl<V> View for StringMap<V> {
    type V = Map<Seq<char>, V>;

    closed spec fn view(&self) -> Map<Seq<char>, V> {
        map_of(self.entries@)
    }
}

impl<V> StringMap<V> {
    #[verifier::type_invariant]
    spec fn well_formed(self) -> bool {
        keys_ascend(self.entries@)
    }

    /// A map without entries.
    pub fn new() -> (map: Self)
        ensures
            map@ == Map::<Seq<char>, V>::empty(),
    {
        StringMap { entries: Vec::new() }
    }

    /// How many entries come before the key, and whether the next one has it.
    fn find(&self, key: &str) -> (place: (usize, bool))
        ensures
            place.0 <= self.entries@.len(),
            place.1 ==> place.0 < self.entries@.len() && self.entries@[place.0 as int].0@ == key@,
            forall|i: int|
                0 <= i < place.0 ==> text_before(#[trigger] self.entries@[i].0@, key@),
            forall|i: int|
                place.0 <= i < self.entries@.len() ==> text_before(
                    key@,
                    #[trigger] self.entries@[i].0@,
                ) || (place.1 && i == place.0),
    {
        proof {
            use_type_invariant(self);
        }
        let mut low: usize = 0;
        let mut high: usize = self.entries.len();
        while low < high
            invariant
                keys_ascend(self.entries@),
                low <= high <= self.entries@.len(),
                forall|i: int| 0 <= i < low ==> text_before(#[trigger] self.entries@[i].0@, key@),
                forall|i: int|
                    high <= i < self.entries@.len() ==> text_before(
                        key@,
                        #[trigger] self.entries@[i].0@,
                    ),
            decreases high - low,
        {
            let middle: usize = low + (high - low) / 2;
            let ghost pivot = self.entries@[middle as int].0@;
            match place_of(self.entries[middle].0.as_str(), key) {
                Place::Same => {
                    assert forall|i: int| 0 <= i < middle implies text_before(
                        #[trigger] self.entries@[i].0@,
                        key@,
                    ) by {
                        assert(text_before(self.entries@[i].0@, pivot));
                    }
                    assert forall|i: int|
                        middle <= i < self.entries@.len() implies text_before(
                        key@,
                        #[trigger] self.entries@[i].0@,
                    ) || i == middle by {
                        if i > middle {
                            assert(text_before(pivot, self.entries@[i].0@));
                        }
                    }
                    return (middle, true);
                },
                Place::Before => {
                    assert forall|i: int| 0 <= i < middle + 1 implies text_before(
                        #[trigger] self.entries@[i].0@,
                        key@,
                    ) by {
                        if i < middle {
                            assert(text_before(self.entries@[i].0@, pivot));
                            lemma_before_is_transitive(
                                encode_utf8(self.entries@[i].0@),
                                encode_utf8(pivot),
                                encode_utf8(key@),
                            );
                        }
                    }
                    low = middle + 1;
                },
                Place::After => {
                    assert forall|i: int|
                        middle <= i < self.entries@.len() implies text_before(
                        key@,
                        #[trigger] self.entries@[i].0@,
                    ) by {
                        if i > middle {
                            assert(text_before(pivot, self.entries@[i].0@));
                            lemma_before_is_transitive(
                                encode_utf8(key@),
                                encode_utf8(pivot),
                                encode_utf8(self.entries@[i].0@),
                            );
                        }
                    }
                    high = middle;
                },
            }
        }
        (low, false)
    }

    /// Where the key stands decides whether the map holds it.
    proof fn lemma_found(&self, key: Seq<char>, at: int, found: bool)
        requires
            keys_ascend(self.entries@),
            0 <= at <= self.entries@.len(),
            found ==> at < self.entries@.len() && self.entries@[at].0@ == key,
            forall|i: int| 0 <= i < at ==> text_before(#[trigger] self.entries@[i].0@, key),
            forall|i: int|
                at <= i < self.entries@.len() ==> text_before(key, #[trigger] self.entries@[i].0@)
                    || (found && i == at),
        ensures
            found <==> self@.contains_key(key),
            found ==> self@[key] == self.entries@[at].1,
    {
        lemma_map_of_key(self.entries@, key);
        lemma_before_is_strict(encode_utf8(key));
        if found {
            lemma_map_of_entry(self.entries@, at);
        }
    }

    /// The value of a key.
    pub fn get(&self, key: &str) -> (value: Option<&V>)
        ensures
            value == (if self@.contains_key(key@) {
                Some(&self@[key@])
            } else {
                None
            }),
    {
        let (at, found) = self.find(key);
        proof {
            use_type_invariant(self);
            self.lemma_found(key@, at as int, found);
        }
        if found {
            Some(&self.entries[at].1)
        } else {
            None
        }
    }

    /// Gives a key a value, in place of the one that it had.
    pub fn insert(&mut self, key: String, value: V)
        ensures
            final(self)@ == old(self)@.insert(key@, value),
    {
        let (at, found) = self.find(key.as_str());
        let ghost name = key@;
        proof {
            use_type_invariant(&*self);
            self.lemma_found(name, at as int, found);
        }
        let ghost before = self.entries@;
        let mut entries: Vec<(String, V)> = Vec::new();
        std::mem::swap(&mut entries, &mut self.entries);
        if found {
            entries.set(at, (key, value));
        } else {
            entries.insert(at, (key, value));
        }
        proof {
            let after = entries@;
            if found {
                assert forall|i: int, j: int| 0 <= i < j < after.len() implies text_before(
                    #[trigger] after[i].0@,
                    #[trigger] after[j].0@,
                ) by {
                    assert(text_before(before[i].0@, before[j].0@));
                }
            } else {
                assert forall|i: int, j: int| 0 <= i < j < after.len() implies text_before(
                    #[trigger] after[i].0@,
                    #[trigger] after[j].0@,
                ) by {
                    if i != at && j != at {
                        let k = if i < at {
                            i
                        } else {
                            i - 1
                        };
                        let l = if j < at {
                            j
                        } else {
                            j - 1
                        };
                        assert(text_before(before[k].0@, before[l].0@));
                    } else if i == at {
                        assert(after[j] == before[j - 1]);
                    } else {
                        assert(after[i] == before[i]);
                    }
                }
            }
            assert(map_of(after) =~= map_of(before).insert(name, value)) by {
                assert forall|k: Seq<char>| #[trigger]
                    map_of(after).contains_key(k) <==> map_of(before).insert(
                        name,
                        value,
                    ).contains_key(k) by {
                    lemma_map_of_key(after, k);
                    lemma_map_of_key(before, k);
                    assert(after[at as int].0@ == name);
                    if map_of(before).contains_key(k) && k != name {
                        let i = choose|i: int|
                            0 <= i < before.len() && #[trigger] before[i].0@ == k;
                        assert(after[if found || i < at {
                            i
                        } else {
                            i + 1
                        }].0@ == k);
                    }
                    if map_of(after).contains_key(k) && k != name {
                        let i = choose|i: int| 0 <= i < after.len() && #[trigger] after[i].0@ == k;
                        assert(before[if found || i < at {
                            i
                        } else {
                            i - 1
                        }].0@ == k);
                    }
                }
                assert forall|k: Seq<char>| #[trigger] map_of(after).contains_key(k) implies map_of(
                    after,
                )[k] == map_of(before).insert(name, value)[k] by {
                    lemma_map_of_key(after, k);
                    let i = choose|i: int| 0 <= i < after.len() && #[trigger] after[i].0@ == k;
                    lemma_map_of_entry(after, i);
                    if i != at {
                        let j = if found || i < at {
                            i
                        } else {
                            i - 1
                        };
                        assert(after[i] == before[j]);
                        lemma_map_of_entry(before, j);
                        if k == name {
                            lemma_map_of_entry(after, at as int);
                            lemma_before_is_strict(encode_utf8(k));
                            assert(text_before(after[i].0@, after[at as int].0@) || text_before(
                                after[at as int].0@,
                                after[i].0@,
                            ));
                        }
                    }
                }
            }
        }
        self.entries = entries;
    }

    /// Takes a key out of the map, where it is there.
    pub fn remove(&mut self, key: &str)
        ensures
            final(self)@ == old(self)@.remove(key@),
    {
        let (at, found) = self.find(key);
        proof {
            use_type_invariant(&*self);
            self.lemma_found(key@, at as int, found);
        }
        if found {
            let ghost before = self.entries@;
            let mut entries: Vec<(String, V)> = Vec::new();
            std::mem::swap(&mut entries, &mut self.entries);
            entries.remove(at);
            proof {
                let after = entries@;
                assert forall|i: int, j: int| 0 <= i < j < after.len() implies text_before(
                    #[trigger] after[i].0@,
                    #[trigger] after[j].0@,
                ) by {
                    let k = if i < at {
                        i
                    } else {
                        i + 1
                    };
                    let l = if j < at {
                        j
                    } else {
                        j + 1
                    };
                    assert(text_before(before[k].0@, before[l].0@));
                }
                assert(map_of(after) =~= map_of(before).remove(key@)) by {
                    assert forall|k: Seq<char>| #[trigger]
                        map_of(after).contains_key(k) <==> map_of(before).remove(
                            key@,
                        ).contains_key(k) by {
                        lemma_map_of_key(after, k);
                        lemma_map_of_key(before, k);
                        if map_of(before).contains_key(k) && k != key@ {
                            let i = choose|i: int|
                                0 <= i < before.len() && #[trigger] before[i].0@ == k;
                            assert(after[if i < at {
                                i
                            } else {
                                i - 1
                            }].0@ == k);
                        }
                        if map_of(after).contains_key(k) {
                            let i = choose|i: int|
                                0 <= i < after.len() && #[trigger] after[i].0@ == k;
                            let j = if i < at {
                                i
                            } else {
                                i + 1
                            };
                            assert(before[j].0@ == k);
                            lemma_before_is_strict(encode_utf8(k));
                            assert(text_before(before[j].0@, before[at as int].0@) || text_before(
                                before[at as int].0@,
                                before[j].0@,
                            ));
                        }
                    }
                    assert forall|k: Seq<char>| #[trigger]
                        map_of(after).contains_key(k) implies map_of(after)[k] == map_of(
                        before,
                    ).remove(key@)[k] by {
                        lemma_map_of_key(after, k);
                        let i = choose|i: int| 0 <= i < after.len() && #[trigger] after[i].0@ == k;
                        lemma_map_of_entry(after, i);
                        lemma_map_of_entry(
                            before,
                            if i < at {
                                i
                            } else {
                                i + 1
                            },
                        );
                    }
                }
            }
            self.entries = entries;
        } else {
            assert(self@.remove(key@) =~= self@);
        }
    }

    /// The number of entries.
    pub fn len(&self) -> (count: usize)
        ensures
            count == self@.len(),
    {
        proof {
            use_type_invariant(self);
            lemma_map_of_len(self.entries@);
        }
        self.entries.len()
    }

    /// Whether the map has no entry.
    pub fn is_empty(&self) -> (empty: bool)
        ensures
            empty == (self@ == Map::<Seq<char>, V>::empty()),
    {
        proof {
            if self.entries@.len() > 0 {
                assert(self@.contains_key(self.entries@.last().0@));
            }
        }
        self.entries.len() == 0
    }

    /// The entries, in the order of the UTF-8 bytes of their keys.
    pub fn entries(&self) -> (entries: &Vec<(String, V)>)
        ensures
            keys_ascend(entries@),
            map_of(entries@) == self@,
    {
        proof {
            use_type_invariant(self);
        }
        &self.entries
    }
}

impl StringMap<String> {
    /// The map that a list of entries stands for.
    pub fn from_entries(entries: &Vec<(String, String)>) -> (map: Self)
        ensures
            map@ == map_of(entries@),
    {
        let mut map: StringMap<String> = StringMap::new();
        let mut i: usize = 0;
        while i < entries.len()
            invariant
                i <= entries@.len(),
                map@ == map_of(entries@.take(i as int)),
            decreases entries@.len() - i,
        {
            map.insert(entries[i].0.clone(), entries[i].1.clone());
            i = i + 1;
            assert(entries@.take(i as int).drop_last() == entries@.take(i - 1));
        }
        assert(entries@.take(i as int) == entries@);
        map
    }
}

/// A set of texts.
#[derive(Debug)]
pub struct StringSet {
    members: StringMap<()>,
}

impl View for StringSet {
    type V = Set<Seq<char>>;

    closed spec fn view(&self) -> Set<Seq<char>> {
        self.members@.dom()
    }
}

impl StringSet {
    /// A set without members.
    pub fn new() -> (set: Self)
        ensures
            set@ == Set::<Seq<char>>::empty(),
    {
        StringSet { members: StringMap::new() }
    }

    /// Whether a text is a member.
    pub fn contains(&self, text: &str) -> (found: bool)
        ensures
            found == self@.contains(text@),
    {
        self.members.get(text).is_some()
    }

    /// Makes a text a member.
    pub fn insert(&mut self, text: String)
        ensures
            final(self)@ == old(self)@.insert(text@),
    {
        self.members.insert(text, ());
        assert(self.members@.dom() =~= old(self).members@.dom().insert(text@));
    }

    /// Whether the set has no member.
    pub fn is_empty(&self) -> (empty: bool)
        ensures
            empty == (self@ == Set::<Seq<char>>::empty()),
    {
        proof {
            if self@ == Set::<Seq<char>>::empty() {
                assert(self.members@ =~= Map::<Seq<char>, ()>::empty());
            }
        }
        self.members.is_empty()
    }

    /// The members, in the order of their UTF-8 bytes.
    pub fn members(&self) -> (members: &Vec<(String, ())>)
        ensures
            keys_ascend(members@),
            map_of(members@).dom() == self@,
    {
        self.members.entries()
    }
}

/// The order of texts is that of their UTF-8 bytes: at the first place where two
/// of them differ the lower byte comes first, and a text comes before every
/// longer one that starts with it.
pub proof fn law_texts_are_ordered_by_bytes(a: Seq<char>, b: Seq<char>)
    ensures
        text_before(a, b) <==> exists|i: int|
            {
                &&& 0 <= i < encode_utf8(b).len()
                &&& i <= encode_utf8(a).len()
                &&& #[trigger] encode_utf8(a).take(i) == encode_utf8(b).take(i)
                &&& i < encode_utf8(a).len() ==> encode_utf8(a)[i] < encode_utf8(b)[i]
            },
        !text_before(a, a),
        !(text_before(a, b) && text_before(b, a)),
        a != b ==> text_before(a, b) || text_before(b, a),
{
    let (x, y) = (encode_utf8(a), encode_utf8(b));
    if text_before(a, b) {
        let i = choose|i: int| #[trigger]
            first_difference(x, y, i) && (i < x.len() ==> x[i] < y[i]) && i < y.len();
        assert(x.take(i) =~= y.take(i));
    }
    if exists|i: int|
        {
            &&& 0 <= i < y.len()
            &&& i <= x.len()
            &&& #[trigger] x.take(i) == y.take(i)
            &&& i < x.len() ==> x[i] < y[i]
        } {
        let i = choose|i: int|
            {
                &&& 0 <= i < y.len()
                &&& i <= x.len()
                &&& #[trigger] x.take(i) == y.take(i)
                &&& i < x.len() ==> x[i] < y[i]
            };
        assert forall|j: int| 0 <= j < i implies x[j] == y[j] by {
            assert(x.take(i)[j] == y.take(i)[j]);
        }
        assert(first_difference(x, y, i));
    }
    lemma_before_is_strict(x);
    if text_before(a, b) && text_before(b, a) {
        lemma_before_is_transitive(x, y, x);
    }
    if a != b {
        if x == y {
            lemma_texts_differ(a, b);
        }
        let i = lemma_first_difference(x, y, 0);
        lemma_before_is_total(x, y, i);
    }
}

proof fn lemma_first_difference(a: Seq<u8>, b: Seq<u8>, from: int) -> (i: int)
    requires
        0 <= from <= a.len(),
        from <= b.len(),
        forall|j: int| 0 <= j < from ==> a[j] == b[j],
    ensures
        first_difference(a, b, i),
    decreases a.len() - from,
{
    if from < a.len() && from < b.len() && a[from] == b[from] {
        lemma_first_difference(a, b, from + 1)
    } else {
        from
    }
}

/// What a list of entries stands for. A key is in the map exactly if an entry has
/// it, with the value of the last such entry. Entries in the order of their keys
/// hold no key twice, so that each one counts.
pub proof fn law_last_entry_counts<V>(entries: Seq<(String, V)>, i: int, key: Seq<char>)
    requires
        0 <= i < entries.len(),
    ensures
        map_of(entries).contains_key(key) <==> exists|j: int|
            0 <= j < entries.len() && (#[trigger] entries[j]).0@ == key,
        (forall|j: int| i < j < entries.len() ==> (#[trigger] entries[j]).0@ != entries[i].0@)
            ==> map_of(entries).contains_key(entries[i].0@) && map_of(entries)[entries[i].0@]
            == entries[i].1,
        keys_ascend(entries) ==> map_of(entries).contains_key(entries[i].0@)
            && map_of(entries)[entries[i].0@] == entries[i].1,
        keys_ascend(entries) <==> forall|j: int, k: int|
            0 <= j < k < entries.len() ==> text_before(
                (#[trigger] entries[j]).0@,
                (#[trigger] entries[k]).0@,
            ),
    decreases entries.len(),
{
    lemma_map_of_key(entries, key);
    let last = entries.len() - 1;
    let front = entries.drop_last();
    if i < last {
        law_last_entry_counts(front, i, key);
        if forall|j: int| i < j < entries.len() ==> (#[trigger] entries[j]).0@ != entries[i].0@ {
            assert(entries[last].0@ != entries[i].0@);
            assert forall|j: int| i < j < front.len() implies (#[trigger] front[j]).0@
                != front[i].0@ by {
                assert(entries[j].0@ != entries[i].0@);
            }
        }
    }
    if keys_ascend(entries) {
        lemma_map_of_entry(entries, i);
    }
}

}
