//! A table of values under names, kept in the order of the names.

use vstd::prelude::*;

use crate::text::{chars_of, same_text};

verus! {

/// Whether one name comes before another: by the first character in which they differ, and a
/// beginning before what it begins.
pub open spec fn before(a: Seq<char>, b: Seq<char>) -> bool
    decreases a.len(),
{
    if b.len() == 0 {
        false
    } else if a.len() == 0 {
        true
    } else if a[0] != b[0] {
        a[0] < b[0]
    } else {
        before(a.skip(1), b.skip(1))
    }
}

/// The order of names is a strict total order.
pub proof fn law_name_order(a: Seq<char>, b: Seq<char>, c: Seq<char>)
    ensures
        !before(a, a),
        before(a, b) && before(b, c) ==> before(a, c),
        a != b ==> before(a, b) || before(b, a),
        !(before(a, b) && before(b, a)),
    decreases a.len() + b.len() + c.len(),
{
    if a.len() > 0 {
        if b.len() > 0 {
            law_name_order(
                a.skip(1),
                b.skip(1),
                if c.len() > 0 {
                    c.skip(1)
                } else {
                    c
                },
            );
            if a[0] == b[0] && a.skip(1) == b.skip(1) {
                assert(a =~= seq![a[0]] + a.skip(1));
                assert(b =~= seq![b[0]] + b.skip(1));
            }
        } else {
            law_name_order(a.skip(1), b, c);
        }
    } else if b.len() == 0 {
        assert(a =~= b);
    }
}

/// Whether one name comes before another.
fn precedes(a: &Vec<char>, b: &Vec<char>) -> (yes: bool)
    ensures
        yes == before(a@, b@),
{
    let mut i: usize = 0;
    assert(a@.skip(0) =~= a@);
    assert(b@.skip(0) =~= b@);
    loop
        invariant
            i <= a@.len(),
            i <= b@.len(),
            before(a@, b@) == before(a@.skip(i as int), b@.skip(i as int)),
        decreases a@.len() - i,
    {
        if i == b.len() {
            return false;
        }
        if i == a.len() {
            return true;
        }
        if a[i] != b[i] {
            return a[i] < b[i];
        }
        proof {
            assert(a@.skip(i as int).skip(1) =~= a@.skip(i + 1));
            assert(b@.skip(i as int).skip(1) =~= b@.skip(i + 1));
        }
        i += 1;
    }
}

/// A table of values under distinct names, in the order of the names.
#[derive(Debug)]
pub struct NameMap<V> {
    entries: Vec<(String, V)>,
}

/// Whether entries are under distinct names, in order.
pub open spec fn in_order<V>(entries: Seq<(Seq<char>, V)>) -> bool {
    forall|i: int, j: int|
        0 <= i < j < entries.len() ==> before(#[trigger] entries[i].0, #[trigger] entries[j].0)
}

/// Whether there is an entry under a name.
pub open spec fn has_name<V>(entries: Seq<(Seq<char>, V)>, name: Seq<char>) -> bool {
    exists|i: int| 0 <= i < entries.len() && #[trigger] entries[i].0 == name
}

/// The value under a name that has one.
pub open spec fn value_at<V>(entries: Seq<(Seq<char>, V)>, name: Seq<char>) -> V {
    let i = choose|i: int| 0 <= i < entries.len() && #[trigger] entries[i].0 == name;
    entries[i].1
}

impl<V> View for NameMap<V> {
    type V = Seq<(Seq<char>, V)>;

    closed spec fn view(&self) -> Seq<(Seq<char>, V)> {
        self.entries@.map_values(|e: (String, V)| (e.0@, e.1))
    }
}

impl<V> NameMap<V> {
    /// The entries are in order.
    #[verifier::type_invariant]
    closed spec fn ordered(self) -> bool {
        in_order(self@)
    }

    /// An empty table.
    pub fn new() -> (m: NameMap<V>)
        ensures
            m@ == Seq::<(Seq<char>, V)>::empty(),
    {
        let m = NameMap { entries: Vec::new() };
        assert(m@ =~= Seq::<(Seq<char>, V)>::empty());
        m
    }

    /// How many entries there are.
    pub fn len(&self) -> (n: usize)
        ensures
            n == self@.len(),
            in_order(self@),
    {
        proof {
            use_type_invariant(self);
        }
        self.entries.len()
    }

    /// The `i`-th entry, in the order of the names.
    pub fn entry(&self, i: usize) -> (e: (&str, &V))
        requires
            i < self@.len(),
        ensures
            e.0@ == self@[i as int].0,
            *e.1 == self@[i as int].1,
    {
        (self.entries[i].0.as_str(), &self.entries[i].1)
    }

    /// Where a name is, or where it would have to be put.
    fn position(&self, name: &str) -> (r: (usize, bool))
        ensures
            r.0 <= self@.len(),
            r.1 == has_name(self@, name@),
            r.1 ==> r.0 < self@.len() && self@[r.0 as int].0 == name@,
            forall|i: int| 0 <= i < r.0 ==> before(#[trigger] self@[i].0, name@),
            !r.1 ==> forall|i: int| r.0 <= i < self@.len() ==> before(name@, #[trigger] self@[i].0),
    {
        proof {
            use_type_invariant(self);
        }
        let key = chars_of(name);
        let mut i: usize = 0;
        while i < self.entries.len()
            invariant
                i <= self.entries@.len(),
                key@ == name@,
                in_order(self@),
                forall|j: int| 0 <= j < i ==> before(#[trigger] self@[j].0, name@),
            decreases self.entries@.len() - i,
        {
            let other = chars_of(self.entries[i].0.as_str());
            assert(other@ == self@[i as int].0);
            if !precedes(&other, &key) {
                let found = same_text(self.entries[i].0.as_str(), name);
                proof {
                    assert forall|j: int| i <= j < self@.len() && !found implies before(
                        name@,
                        #[trigger] self@[j].0,
                    ) by {
                        law_name_order(name@, self@[i as int].0, self@[j].0);
                    }
                    assert forall|j: int| 0 <= j < self@.len() && !found implies #[trigger] self@[j].0
                        != name@ by {
                        law_name_order(name@, self@[i as int].0, self@[j].0);
                        law_name_order(name@, name@, name@);
                    }
                }
                return (i, found);
            }
            i += 1;
        }
        proof {
            assert forall|j: int| 0 <= j < self@.len() implies #[trigger] self@[j].0 != name@ by {
                law_name_order(name@, name@, name@);
            }
        }
        (i, false)
    }

    /// The value under a name.
    pub fn get(&self, name: &str) -> (value: Option<&V>)
        ensures
            match value {
                Some(v) => has_name(self@, name@) && *v == value_at(self@, name@),
                None => !has_name(self@, name@),
            },
    {
        proof {
            use_type_invariant(self);
        }
        let (at, found) = self.position(name);
        if found {
            proof {
                lemma_value_at(self@, at as int);
            }
            Some(&self.entries[at].1)
        } else {
            None
        }
    }

    /// Whether there is an entry under a name.
    pub fn contains_key(&self, name: &str) -> (yes: bool)
        ensures
            yes == has_name(self@, name@),
    {
        self.position(name).1
    }

    /// The value under the first name.
    pub fn first(&self) -> (value: Option<&V>)
        ensures
            match value {
                Some(v) => self@.len() > 0 && *v == self@[0].1,
                None => self@.len() == 0,
            },
    {
        if self.entries.len() == 0 {
            None
        } else {
            Some(&self.entries[0].1)
        }
    }
}

/// The table with a value put under a name, in place of the one that was there.
pub open spec fn with_value<V>(entries: Seq<(Seq<char>, V)>, name: Seq<char>, value: V, at: int)
    -> Seq<(Seq<char>, V)> {
    if has_name(entries, name) {
        entries.update(at, (name, value))
    } else {
        entries.insert(at, (name, value))
    }
}

impl<V> NameMap<V> {
    /// Puts a value under a name, in place of the one that was there.
    pub fn insert(&mut self, name: String, value: V)
        ensures
            in_order(final(self)@),
            has_name(final(self)@, name@),
            value_at(final(self)@, name@) == value,
            exists|at: int|
                #![trigger with_value(old(self)@, name@, value, at)]
                {
                    &&& 0 <= at <= old(self)@.len()
                    &&& final(self)@ == with_value(old(self)@, name@, value, at)
                    &&& has_name(old(self)@, name@) ==> at < old(self)@.len() && old(self)@[at].0
                        == name@
                },
            forall|other: Seq<char>|
                other != name@ ==> #[trigger] has_name(final(self)@, other) == has_name(
                    old(self)@,
                    other,
                ),
    {
        proof {
            use_type_invariant(&*self);
        }
        let (at, found) = self.position(name.as_str());
        let ghost was = self@;
        let ghost key = name@;
        let mut entries: Vec<(String, V)> = Vec::new();
        std::mem::swap(&mut entries, &mut self.entries);
        let ghost table = entries@.map_values(|e: (String, V)| (e.0@, e.1));
        assert(table == was);
        if found {
            entries.set(at, (name, value));
        } else {
            entries.insert(at, (name, value));
        }
        proof {
            let now = entries@.map_values(|e: (String, V)| (e.0@, e.1));
            assert(now =~= with_value(was, key, value, at as int));
            lemma_with_value(was, key, value, at as int);
        }
        self.entries = entries;
        proof {
            lemma_value_at(self@, at as int);
        }
    }
}

/// Putting a value where its name belongs keeps a table in order and every other name.
proof fn lemma_with_value<V>(entries: Seq<(Seq<char>, V)>, name: Seq<char>, value: V, at: int)
    requires
        in_order(entries),
        0 <= at <= entries.len(),
        has_name(entries, name) ==> at < entries.len() && entries[at].0 == name,
        !has_name(entries, name) ==> {
            &&& forall|i: int| 0 <= i < at ==> before(#[trigger] entries[i].0, name)
            &&& forall|i: int| at <= i < entries.len() ==> before(name, #[trigger] entries[i].0)
        },
    ensures
        ({
            let now = with_value(entries, name, value, at);
            &&& in_order(now)
            &&& now[at] == (name, value)
            &&& at < now.len()
            &&& forall|other: Seq<char>|
                other != name ==> #[trigger] has_name(now, other) == has_name(entries, other)
        }),
{
    let now = with_value(entries, name, value, at);
    let found = has_name(entries, name);
    assert forall|i: int, j: int| 0 <= i < j < now.len() implies before(
        #[trigger] now[i].0,
        #[trigger] now[j].0,
    ) by {
        if found {
            assert(now[i].0 == entries[i].0 && now[j].0 == entries[j].0);
        } else {
            let k = if i < at {
                i
            } else {
                i - 1
            };
            let l = if j < at {
                j
            } else {
                j - 1
            };
            if i != at {
                assert(now[i] == entries[k]);
            }
            if j != at {
                assert(now[j] == entries[l]);
            }
        }
    }
    assert forall|other: Seq<char>| other != name implies #[trigger] has_name(now, other)
        == has_name(entries, other) by {
        if has_name(now, other) {
            let i = choose|i: int| 0 <= i < now.len() && #[trigger] now[i].0 == other;
            let k = if found || i < at {
                i
            } else {
                i - 1
            };
            assert(entries[k].0 == other);
        }
        if has_name(entries, other) {
            let i = choose|i: int| 0 <= i < entries.len() && #[trigger] entries[i].0 == other;
            let k = if found || i < at {
                i
            } else {
                i + 1
            };
            assert(now[k].0 == other);
        }
    }
}

impl<V: Clone> Clone for NameMap<V> {
    /// A copy, value by value.
    fn clone(&self) -> (copy: NameMap<V>)
        ensures
            copy@.len() == self@.len(),
            forall|i: int|
                0 <= i < self@.len() ==> (#[trigger] copy@[i]).0 == self@[i].0 && cloned(
                    self@[i].1,
                    copy@[i].1,
                ),
    {
        proof {
            use_type_invariant(self);
        }
        let mut entries: Vec<(String, V)> = Vec::new();
        let mut i: usize = 0;
        while i < self.entries.len()
            invariant
                i <= self.entries@.len(),
                entries@.len() == i,
                forall|j: int|
                    0 <= j < i ==> (#[trigger] entries@[j]).0@ == self@[j].0 && cloned(
                        self@[j].1,
                        entries@[j].1,
                    ),
            decreases self.entries@.len() - i,
        {
            entries.push((self.entries[i].0.clone(), self.entries[i].1.clone()));
            i += 1;
        }
        let ghost table = entries@.map_values(|e: (String, V)| (e.0@, e.1));
        assert forall|i: int, j: int| 0 <= i < j < table.len() implies before(
            #[trigger] table[i].0,
            #[trigger] table[j].0,
        ) by {
            assert(table[i].0 == self@[i].0 && table[j].0 == self@[j].0);
        }
        NameMap { entries }
    }
}

/// In a table in order, each entry's value is the value under its name.
pub proof fn lemma_value_at<V>(entries: Seq<(Seq<char>, V)>, i: int)
    requires
        in_order(entries),
        0 <= i < entries.len(),
    ensures
        has_name(entries, entries[i].0),
        value_at(entries, entries[i].0) == entries[i].1,
{
    let name = entries[i].0;
    let k = choose|k: int| 0 <= k < entries.len() && #[trigger] entries[k].0 == name;
    law_name_order(name, name, name);
    assert(k == i);
}

/// Looking a name up finds an entry under exactly that name, where there is one, and its value. In
/// a table in order there is no other entry under it.
pub proof fn law_lookup_finds_the_entry<V>(
    entries: Seq<(Seq<char>, V)>,
    name: Seq<char>,
    i: int,
)
    ensures
        has_name(entries, name) <==> exists|k: int|
            0 <= k < entries.len() && (#[trigger] entries[k]).0 == name,
        has_name(entries, name) ==> exists|k: int|
            0 <= k < entries.len() && (#[trigger] entries[k]).0 == name && entries[k].1 == value_at(
                entries,
                name,
            ),
        in_order(entries) && 0 <= i < entries.len() && entries[i].0 == name ==> value_at(
            entries,
            name,
        ) == entries[i].1,
{
    if exists|k: int| 0 <= k < entries.len() && (#[trigger] entries[k]).0 == name {
        let k = choose|k: int| 0 <= k < entries.len() && (#[trigger] entries[k]).0 == name;
        assert(entries[k].0 == name);
        assert(has_name(entries, name));
    }
    if has_name(entries, name) {
        let value = value_at(entries, name);
        assert(exists|k: int|
            0 <= k < entries.len() && #[trigger] entries[k].0 == name && entries[k].1 == value);
        let k = choose|k: int|
            0 <= k < entries.len() && #[trigger] entries[k].0 == name && entries[k].1 == value;
        assert(entries[k].0 == name);
    }
    if in_order(entries) && 0 <= i < entries.len() && entries[i].0 == name {
        lemma_value_at(entries, i);
    }
}

/// Names are compared by the first character in which they differ, whatever they have in common in
/// front of it; a beginning comes before what it begins.
pub proof fn law_first_difference_decides(common: Seq<char>, a: Seq<char>, b: Seq<char>)
    ensures
        before(common + a, common + b) == before(a, b),
        a.len() == 0 && b.len() > 0 ==> before(a, b),
        a.len() > 0 && b.len() == 0 ==> !before(a, b),
        a.len() > 0 && b.len() > 0 && a[0] < b[0] ==> before(a, b) && !before(b, a),
    decreases common.len(),
{
    if common.len() == 0 {
        assert(common + a =~= a);
        assert(common + b =~= b);
    } else {
        assert((common + a).skip(1) =~= common.skip(1) + a);
        assert((common + b).skip(1) =~= common.skip(1) + b);
        law_first_difference_decides(common.skip(1), a, b);
    }
}

/// A value that was put under a name is found under it, in place of whatever was there, and under
/// every other name the table finds what it found.
pub proof fn law_putting_and_finding<V>(
    m: &mut NameMap<V>,
    name: String,
    value: V,
    key: &str,
    before: Option<&V>,
    after: Option<&V>,
    has: bool,
)
    requires
        in_order(old(m)@),
        call_ensures(NameMap::<V>::insert, (m, name, value), ()),
        call_ensures(NameMap::<V>::get, (&*old(m), key), before),
        call_ensures(NameMap::<V>::get, (&*final(m), key), after),
        call_ensures(NameMap::<V>::contains_key, (&*final(m), key), has),
    ensures
        key@ == name@ ==> (after matches Some(v) && *v == value),
        key@ != name@ ==> (after is Some <==> before is Some),
        key@ != name@ && before is Some ==> *after->0 == *before->0,
        has <==> after is Some,
{
    let was = old(m)@;
    let now = final(m)@;
    if key@ != name@ && has_name(was, key@) {
        let i = choose|i: int| 0 <= i < was.len() && #[trigger] was[i].0 == key@;
        lemma_value_at(was, i);
        let at = choose|at: int|
            #![trigger with_value(was, name@, value, at)]
            {
                &&& 0 <= at <= was.len()
                &&& now == with_value(was, name@, value, at)
                &&& has_name(was, name@) ==> at < was.len() && was[at].0 == name@
            };
        assert(has_name(now, key@));
        let j = choose|j: int| 0 <= j < now.len() && #[trigger] now[j].0 == key@;
        lemma_value_at(now, j);
        let k = if !has_name(was, name@) && j > at {
            j - 1
        } else {
            j
        };
        assert(was[k] == now[j]);
        lemma_value_at(was, k);
    }
}

/// The first value of a table is the one under the name that comes before all others.
pub proof fn law_first_name_comes_before_the_others<V>(
    m: NameMap<V>,
    value: Option<&V>,
    i: int,
)
    requires
        in_order(m@),
        call_ensures(NameMap::<V>::first, (&m,), value),
        0 <= i < m@.len(),
    ensures
        value is Some,
        exists|k: int|
            {
                &&& 0 <= k < m@.len()
                &&& (#[trigger] m@[k]).1 == *value->0
                &&& k == i || before(m@[k].0, m@[i].0)
            },
{
    assert(m@[0].1 == *value->0);
    if i > 0 {
        assert(before(m@[0].0, m@[i].0));
    }
}

} // verus!
