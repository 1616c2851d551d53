//! A map from setting names to values, in the order of the names.

use vstd::prelude::*;

use crate::text::{chars_of, same};

verus! {

// ---------------------------------------------------------------------------
// The order of names.
// ---------------------------------------------------------------------------

/// `a` comes before `b` in the order of their characters.
pub open spec fn precedes(a: Seq<char>, b: Seq<char>) -> bool
    decreases a.len(),
{
    if b.len() == 0 {
        false
    } else if a.len() == 0 {
        true
    } else if a[0] != b[0] {
        a[0] < b[0]
    } else {
        precedes(a.drop_first(), b.drop_first())
    }
}

pub proof fn lemma_precedes_irreflexive(a: Seq<char>)
    ensures
        !precedes(a, a),
    decreases a.len(),
{
    if a.len() > 0 {
        lemma_precedes_irreflexive(a.drop_first());
    }
}

pub proof fn lemma_precedes_transitive(a: Seq<char>, b: Seq<char>, c: Seq<char>)
    requires
        precedes(a, b),
        precedes(b, c),
    ensures
        precedes(a, c),
    decreases a.len(),
{
    if a.len() > 0 && a[0] == b[0] && b[0] == c[0] {
        lemma_precedes_transitive(a.drop_first(), b.drop_first(), c.drop_first());
    }
}

pub proof fn lemma_precedes_total(a: Seq<char>, b: Seq<char>)
    ensures
        a == b || precedes(a, b) || precedes(b, a),
    decreases a.len(),
{
    if a.len() == 0 && b.len() == 0 {
        assert(a =~= b);
    } else if a.len() > 0 && b.len() > 0 && a[0] == b[0] {
        lemma_precedes_total(a.drop_first(), b.drop_first());
        if a.drop_first() == b.drop_first() {
            assert(a =~= seq![a[0]] + a.drop_first());
            assert(b =~= seq![b[0]] + b.drop_first());
        }
    }
}

/// Whether `a` comes before `b` in the order of their characters.
fn text_precedes(a: &str, b: &str) -> (r: bool)
    ensures
        r == precedes(a@, b@),
{
    let x = chars_of(a);
    let y = chars_of(b);
    let mut i: usize = 0;
    proof {
        assert(a@.skip(0) =~= a@);
        assert(b@.skip(0) =~= b@);
    }
    while i < x.len() && i < y.len() && x[i] == y[i]
        invariant
            x@ == a@,
            y@ == b@,
            i <= x@.len(),
            i <= y@.len(),
            precedes(a@, b@) == precedes(a@.skip(i as int), b@.skip(i as int)),
        decreases x@.len() - i,
    {
        proof {
            assert(a@.skip(i as int).drop_first() =~= a@.skip(i + 1));
            assert(b@.skip(i as int).drop_first() =~= b@.skip(i + 1));
        }
        i = i + 1;
    }
    if i >= y.len() {
        false
    } else if i >= x.len() {
        true
    } else {
        x[i] < y[i]
    }
}

// ---------------------------------------------------------------------------
// The map.
// ---------------------------------------------------------------------------

/// A list of names and values.
pub type Pairs = Seq<(Seq<char>, Seq<char>)>;

/// The names stand in ascending order; so no name stands twice.
pub open spec fn ascending(pairs: Pairs) -> bool {
    forall|i: int, j: int|
        0 <= i < j < pairs.len() ==> precedes(#[trigger] pairs[i].0, #[trigger] pairs[j].0)
}

/// The name stands in the list.
pub open spec fn has_name(pairs: Pairs, name: Seq<char>) -> bool {
    exists|i: int| 0 <= i < pairs.len() && (#[trigger] pairs[i]).0 == name
}

/// The value that the list gives a name.
pub open spec fn value_of(pairs: Pairs, name: Seq<char>) -> Seq<char> {
    pairs[choose|i: int| 0 <= i < pairs.len() && (#[trigger] pairs[i]).0 == name].1
}

/// The map that a list of names and values stands for.
pub open spec fn pairs_map(pairs: Pairs) -> Map<Seq<char>, Seq<char>> {
    Map::new(|name: Seq<char>| has_name(pairs, name), |name: Seq<char>| value_of(pairs, name))
}

/// A map from setting names to values. The names are walked in ascending order.
#[derive(Debug, PartialEq, Eq)]
pub struct SettingsMap {
    entries: Vec<(String, String)>,
}

impl View for SettingsMap {
    type V = Map<Seq<char>, Seq<char>>;

    open spec fn view(&self) -> Map<Seq<char>, Seq<char>> {
        pairs_map(self.pairs())
    }
}

impl Clone for SettingsMap {
    fn clone(&self) -> (r: Self)
        ensures
            r.pairs() == self.pairs(),
            r@ == self@,
    {
        proof {
            use_type_invariant(self);
        }
        let mut entries: Vec<(String, String)> = Vec::new();
        let mut i: usize = 0;
        while i < self.entries.len()
            invariant
                i <= self.entries@.len(),
                entries@.len() == i,
                forall|j: int| 0 <= j < i ==> entries@[j] == self.entries@[j],
            decreases self.entries@.len() - i,
        {
            entries.push((self.entries[i].0.clone(), self.entries[i].1.clone()));
            i = i + 1;
        }
        proof {
            assert(entries@ =~= self.entries@);
        }
        SettingsMap { entries }
    }
}

/// In an ascending list a name stands at one position only.
proof fn lemma_position(pairs: Pairs, i: int)
    requires
        ascending(pairs),
        0 <= i < pairs.len(),
    ensures
        has_name(pairs, pairs[i].0),
        value_of(pairs, pairs[i].0) == pairs[i].1,
{
    let name = pairs[i].0;
    assert(pairs[i].0 == name);
    let k = choose|k: int| 0 <= k < pairs.len() && (#[trigger] pairs[k]).0 == name;
    lemma_precedes_irreflexive(name);
    if k < i {
        assert(precedes(pairs[k].0, pairs[i].0));
    } else if i < k {
        assert(precedes(pairs[i].0, pairs[k].0));
    }
}

impl SettingsMap {
    /// The names and values in the order in which they are walked.
    pub closed spec fn pairs(self) -> Pairs {
        self.entries@.map_values(|e: (String, String)| (e.0@, e.1@))
    }

    #[verifier::type_invariant]
    spec fn in_order(self) -> bool {
        ascending(self.pairs())
    }

    /// The empty map.
    pub fn new() -> (r: SettingsMap)
        ensures
            r@ == Map::<Seq<char>, Seq<char>>::empty(),
            r.pairs() == Pairs::empty(),
    {
        let r = SettingsMap { entries: Vec::new() };
        proof {
            assert(r.pairs() =~= Pairs::empty());
            assert(r@ =~= Map::<Seq<char>, Seq<char>>::empty());
        }
        r
    }

    /// The number of names.
    pub fn len(&self) -> (r: usize)
        ensures
            r == self.pairs().len(),
            ascending(self.pairs()),
    {
        proof {
            use_type_invariant(self);
        }
        self.entries.len()
    }

    /// Whether the map holds no name.
    pub fn is_empty(&self) -> (r: bool)
        ensures
            r == (self.pairs().len() == 0),
            r == (self@ == Map::<Seq<char>, Seq<char>>::empty()),
    {
        proof {
            if self.pairs().len() == 0 {
                assert(self@ =~= Map::<Seq<char>, Seq<char>>::empty());
            } else {
                assert(has_name(self.pairs(), self.pairs()[0].0));
                assert(self@.contains_key(self.pairs()[0].0));
            }
        }
        self.entries.len() == 0
    }

    /// The name at a position of the walk.
    pub fn name_at(&self, i: usize) -> (r: &str)
        requires
            i < self.pairs().len(),
        ensures
            r@ == self.pairs()[i as int].0,
    {
        self.entries[i].0.as_str()
    }

    /// The value at a position of the walk.
    pub fn value_at(&self, i: usize) -> (r: &str)
        requires
            i < self.pairs().len(),
        ensures
            r@ == self.pairs()[i as int].1,
    {
        self.entries[i].1.as_str()
    }

    /// The first position whose name does not come before `name`.
    fn place(&self, name: &str) -> (r: usize)
        ensures
            r <= self.entries@.len(),
            forall|j: int| 0 <= j < r ==> precedes(#[trigger] self.pairs()[j].0, name@),
            r < self.entries@.len() ==> !precedes(self.pairs()[r as int].0, name@),
    {
        let mut i: usize = 0;
        while i < self.entries.len() && text_precedes(self.entries[i].0.as_str(), name)
            invariant
                i <= self.entries@.len(),
                forall|j: int| 0 <= j < i ==> precedes(#[trigger] self.pairs()[j].0, name@),
            decreases self.entries@.len() - i,
        {
            i = i + 1;
        }
        i
    }

    /// The value of a name.
    pub fn get(&self, name: &str) -> (r: Option<&String>)
        ensures
            match r {
                Some(value) => self@.contains_key(name@) && value@ == self@[name@],
                None => !self@.contains_key(name@),
            },
    {
        proof {
            use_type_invariant(self);
        }
        let ghost pairs = self.pairs();
        let mut i: usize = 0;
        while i < self.entries.len()
            invariant
                pairs == self.pairs(),
                ascending(pairs),
                i <= self.entries@.len(),
                forall|j: int| 0 <= j < i ==> (#[trigger] pairs[j]).0 != name@,
            decreases self.entries@.len() - i,
        {
            proof {
                assert(pairs[i as int] == (
                    self.entries@[i as int].0@,
                    self.entries@[i as int].1@,
                ));
            }
            if same(self.entries[i].0.as_str(), name) {
                proof {
                    lemma_position(pairs, i as int);
                }
                return Some(&self.entries[i].1);
            }
            i = i + 1;
        }
        None
    }

    /// Whether the map holds the name.
    pub fn contains_key(&self, name: &str) -> (r: bool)
        ensures
            r == self@.contains_key(name@),
    {
        self.get(name).is_some()
    }

    /// Gives the name a value, in place of the one that it had.
    pub fn insert(&mut self, name: String, value: String)
        ensures
            final(self)@ == old(self)@.insert(name@, value@),
            ascending(final(self).pairs()),
    {
        proof {
            use_type_invariant(&*self);
        }
        let ghost before = self.pairs();
        let ghost entry = (name@, value@);
        let at: usize = self.place(name.as_str());
        let known: bool = at < self.entries.len() && same(
            self.entries[at].0.as_str(),
            name.as_str(),
        );
        let mut entries: Vec<(String, String)> = Vec::new();
        std::mem::swap(&mut entries, &mut self.entries);
        let ghost after = placed(before, at as int, entry, known);
        if known {
            entries.set(at, (name, value));
        } else {
            entries.insert(at, (name, value));
        }
        proof {
            lemma_placed_ascending(before, at as int, entry, known);
            lemma_placed_map(before, at as int, entry, known);
            assert(entries@.map_values(|e: (String, String)| (e.0@, e.1@)) =~= after);
        }
        self.entries = entries;
        proof {
            assert(self.pairs() == after);
            assert(self@ =~= pairs_map(before).insert(name@, value@));
        }
    }
}

/// The list with the entry put at its place, in place of one of the same name.
spec fn placed(before: Pairs, at: int, entry: (Seq<char>, Seq<char>), known: bool) -> Pairs {
    if known {
        before.update(at, entry)
    } else {
        before.insert(at, entry)
    }
}

/// The place of the entry in the list.
spec fn is_place(before: Pairs, at: int, entry: (Seq<char>, Seq<char>), known: bool) -> bool {
    &&& ascending(before)
    &&& 0 <= at <= before.len()
    &&& forall|j: int| 0 <= j < at ==> precedes(#[trigger] before[j].0, entry.0)
    &&& at < before.len() ==> !precedes(before[at].0, entry.0)
    &&& known == (at < before.len() && before[at].0 == entry.0)
}

/// Everything behind the place comes after the name.
proof fn lemma_behind_place(
    before: Pairs,
    at: int,
    entry: (Seq<char>, Seq<char>),
    known: bool,
    j: int,
)
    requires
        is_place(before, at, entry, known),
        at <= j < before.len(),
        known ==> j > at,
    ensures
        precedes(entry.0, before[j].0),
{
    lemma_precedes_total(before[at].0, entry.0);
    if j > at {
        assert(precedes(before[at].0, before[j].0));
        if !known {
            lemma_precedes_transitive(entry.0, before[at].0, before[j].0);
        }
    }
}

/// Where the entry at position `k` of the new list came from.
spec fn source(at: int, known: bool, k: int) -> int {
    if k < at || known {
        k
    } else {
        k - 1
    }
}

proof fn lemma_placed_ascending(
    before: Pairs,
    at: int,
    entry: (Seq<char>, Seq<char>),
    known: bool,
)
    requires
        is_place(before, at, entry, known),
    ensures
        ascending(placed(before, at, entry, known)),
{
    let after = placed(before, at, entry, known);
    assert forall|i: int, j: int| 0 <= i < j < after.len() implies precedes(
        #[trigger] after[i].0,
        #[trigger] after[j].0,
    ) by {
        let i0 = source(at, known, i);
        let j0 = source(at, known, j);
        if i == at {
            assert(after[j] == before[j0]);
            lemma_behind_place(before, at, entry, known, j0);
        } else if j == at {
            assert(after[i] == before[i0]);
        } else {
            assert(after[i] == before[i0]);
            assert(after[j] == before[j0]);
        }
    }
}

/// A name put at its place changes nothing but its own value.
proof fn lemma_placed_map(before: Pairs, at: int, entry: (Seq<char>, Seq<char>), known: bool)
    requires
        is_place(before, at, entry, known),
    ensures
        pairs_map(placed(before, at, entry, known)) == pairs_map(before).insert(entry.0, entry.1),
{
    let after = placed(before, at, entry, known);
    lemma_placed_ascending(before, at, entry, known);
    assert(after[at] == entry);
    lemma_position(after, at);
    assert forall|name: Seq<char>| name != entry.0 implies has_name(before, name) == has_name(
        after,
        name,
    ) && (has_name(before, name) ==> value_of(before, name) == value_of(after, name)) by {
        if has_name(before, name) {
            let i = choose|i: int| 0 <= i < before.len() && (#[trigger] before[i]).0 == name;
            let k = if i < at || known {
                i
            } else {
                i + 1
            };
            assert(after[k] == before[i]);
            lemma_position(before, i);
            lemma_position(after, k);
        }
        if has_name(after, name) {
            let k = choose|k: int| 0 <= k < after.len() && (#[trigger] after[k]).0 == name;
            assert(after[k] == before[source(at, known, k)]);
            lemma_position(before, source(at, known, k));
        }
    }
    assert(pairs_map(after) =~= pairs_map(before).insert(entry.0, entry.1));
}

/// A walk over the map meets each name once, with its value, in ascending order.
pub proof fn a_walk_meets_each_name_once(map: SettingsMap)
    requires
        ascending(map.pairs()),
    ensures
        forall|i: int|
            0 <= i < map.pairs().len() ==> map@.contains_key((#[trigger] map.pairs()[i]).0)
                && map@[map.pairs()[i].0] == map.pairs()[i].1,
        forall|name: Seq<char>|
            map@.contains_key(name) ==> exists|i: int|
                0 <= i < map.pairs().len() && (#[trigger] map.pairs()[i]).0 == name,
{
    assert forall|i: int| 0 <= i < map.pairs().len() implies map@.contains_key(
        (#[trigger] map.pairs()[i]).0,
    ) && map@[map.pairs()[i].0] == map.pairs()[i].1 by {
        lemma_position(map.pairs(), i);
    }
}

/// Without its last entry an ascending list stands for the map without the last name.
proof fn lemma_without_last(pairs: Pairs)
    requires
        ascending(pairs),
        pairs.len() > 0,
    ensures
        ascending(pairs.drop_last()),
        pairs_map(pairs.drop_last()) == pairs_map(pairs).remove(pairs.last().0),
{
    let front = pairs.drop_last();
    let last = pairs.len() - 1;
    assert forall|i: int, j: int| 0 <= i < j < front.len() implies precedes(
        #[trigger] front[i].0,
        #[trigger] front[j].0,
    ) by {
        assert(precedes(pairs[i].0, pairs[j].0));
    }
    assert forall|name: Seq<char>|
        has_name(front, name) == (has_name(pairs, name) && name != pairs[last].0) && (has_name(
            front,
            name,
        ) ==> value_of(front, name) == value_of(pairs, name)) by {
        if has_name(front, name) {
            let i = choose|i: int| 0 <= i < front.len() && (#[trigger] front[i]).0 == name;
            assert(pairs[i] == front[i]);
            assert(precedes(pairs[i].0, pairs[last].0));
            lemma_precedes_irreflexive(name);
            lemma_position(front, i);
            lemma_position(pairs, i);
        }
        if has_name(pairs, name) && name != pairs[last].0 {
            let i = choose|i: int| 0 <= i < pairs.len() && (#[trigger] pairs[i]).0 == name;
            assert(front[i] == pairs[i]);
        }
    }
    assert(pairs_map(front) =~= pairs_map(pairs).remove(pairs.last().0));
}

/// A map is walked in one way only: two walks in ascending order over the same map meet the
/// same names and values in the same order.
pub proof fn a_map_has_one_walk(a: Pairs, b: Pairs)
    requires
        ascending(a),
        ascending(b),
        pairs_map(a) == pairs_map(b),
    ensures
        a == b,
    decreases a.len(),
{
    if a.len() == 0 || b.len() == 0 {
        if a.len() > 0 {
            lemma_position(a, 0);
            assert(pairs_map(b).contains_key(a[0].0));
        }
        if b.len() > 0 {
            lemma_position(b, 0);
            assert(pairs_map(a).contains_key(b[0].0));
        }
        assert(a =~= b);
    } else {
        let m = a.len() - 1;
        let n = b.len() - 1;
        lemma_position(a, m);
        lemma_position(b, n);
        assert(pairs_map(b).contains_key(a[m].0));
        assert(pairs_map(a).contains_key(b[n].0));
        let i = choose|i: int| 0 <= i < a.len() && (#[trigger] a[i]).0 == b[n].0;
        let j = choose|j: int| 0 <= j < b.len() && (#[trigger] b[j]).0 == a[m].0;
        if a[m].0 != b[n].0 {
            assert(precedes(a[i].0, a[m].0));
            assert(precedes(b[j].0, b[n].0));
            lemma_precedes_transitive(a[m].0, b[n].0, a[m].0);
            lemma_precedes_irreflexive(a[m].0);
        }
        assert(pairs_map(a)[a[m].0] == pairs_map(b)[b[n].0]);
        lemma_without_last(a);
        lemma_without_last(b);
        a_map_has_one_walk(a.drop_last(), b.drop_last());
        assert(a =~= a.drop_last().push(a[m]));
        assert(b =~= b.drop_last().push(b[n]));
    }
}

/// Up to position `k` two names are the same, and there the first ends, or goes on with a
/// character of a lower number.
pub open spec fn parts_below(a: Seq<char>, b: Seq<char>, k: int) -> bool {
    &&& 0 <= k <= a.len()
    &&& k < b.len()
    &&& a.take(k) == b.take(k)
    &&& k < a.len() ==> (a[k] as int) < (b[k] as int)
}

/// Names are in the order of a dictionary by the numbers of their characters: where they part,
/// the lower character comes first, and a name comes before all that go on from it.
pub proof fn names_stand_in_the_order_of_a_dictionary(a: Seq<char>, b: Seq<char>)
    ensures
        precedes(a, b) <==> exists|k: int| #[trigger] parts_below(a, b, k),
        !(precedes(a, b) && precedes(b, a)),
        a != b ==> precedes(a, b) || precedes(b, a),
    decreases a.len(),
{
    lemma_precedes_total(a, b);
    if precedes(a, b) && precedes(b, a) {
        lemma_precedes_transitive(a, b, a);
        lemma_precedes_irreflexive(a);
    }
    if b.len() > 0 && a.len() == 0 {
        assert(a.take(0) =~= b.take(0));
        assert(parts_below(a, b, 0));
    } else if b.len() > 0 && a[0] != b[0] {
        assert(a.take(0) =~= b.take(0));
        if a[0] < b[0] {
            assert(parts_below(a, b, 0));
        }
        if exists|k: int| #[trigger] parts_below(a, b, k) {
            let k = choose|k: int| #[trigger] parts_below(a, b, k);
            if k > 0 {
                assert(a.take(k)[0] == b.take(k)[0]);
            }
        }
    } else if b.len() > 0 {
        let x = a.drop_first();
        let y = b.drop_first();
        names_stand_in_the_order_of_a_dictionary(x, y);
        if exists|k: int| #[trigger] parts_below(x, y, k) {
            let k = choose|k: int| #[trigger] parts_below(x, y, k);
            assert(a.take(k + 1) =~= b.take(k + 1)) by {
                assert forall|i: int| 0 <= i < k + 1 implies a[i] == b[i] by {
                    if i > 0 {
                        assert(x.take(k)[i - 1] == y.take(k)[i - 1]);
                    }
                }
            }
            assert(parts_below(a, b, k + 1));
        }
        if exists|k: int| #[trigger] parts_below(a, b, k) {
            let k = choose|k: int| #[trigger] parts_below(a, b, k);
            assert(k > 0);
            assert(x.take(k - 1) =~= y.take(k - 1)) by {
                assert forall|i: int| 0 <= i < k - 1 implies x[i] == y[i] by {
                    assert(a.take(k)[i + 1] == b.take(k)[i + 1]);
                }
            }
            assert(parts_below(x, y, k - 1));
        }
    }
}

/// An ascending list gives each of its names the value that stands beside it, and no value to
/// any other name.
pub proof fn a_list_gives_each_name_its_own_value(pairs: Pairs, name: Seq<char>, value: Seq<char>)
    requires
        ascending(pairs),
    ensures
        pairs_map(pairs).contains_key(name) && pairs_map(pairs)[name] == value <==> pairs.contains(
            (name, value),
        ),
{
    if pairs.contains((name, value)) {
        let i = choose|i: int| 0 <= i < pairs.len() && pairs[i] == (name, value);
        lemma_position(pairs, i);
    }
    if pairs_map(pairs).contains_key(name) {
        let i = choose|i: int| 0 <= i < pairs.len() && (#[trigger] pairs[i]).0 == name;
        lemma_position(pairs, i);
        assert(pairs[i] == (name, pairs[i].1));
    }
}

} // verus!
