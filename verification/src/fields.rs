//! Named text fields, kept in the order of their names.
use vstd::prelude::*;
use vstd::string::StringExecFns;

use crate::text::{join, same, to_chars};

verus! {

/// A name and its value.
pub type Field = (Seq<char>, Seq<char>);

/// Whether `a` stands before `b` in the order of texts: by the first character in which they
/// differ, and a text behind those that it continues.
pub open spec fn comes_before(a: Seq<char>, b: Seq<char>) -> bool
    decreases a.len(),
{
    if b.len() == 0 {
        false
    } else if a.len() == 0 {
        true
    } else if a[0] != b[0] {
        a[0] < b[0]
    } else {
        comes_before(a.skip(1), b.skip(1))
    }
}

/// Every name stands before the next, so no name occurs twice.
pub open spec fn sorted(fields: Seq<Field>) -> bool {
    forall|i: int, j: int|
        0 <= i < j < fields.len() ==> comes_before(#[trigger] fields[i].0, #[trigger] fields[j].0)
}

/// The fields with `name` set to `value`.
pub open spec fn put(fields: Seq<Field>, name: Seq<char>, value: Seq<char>) -> Seq<Field>
    decreases fields.len(),
{
    if fields.len() == 0 || comes_before(name, fields[0].0) {
        seq![(name, value)] + fields
    } else if fields[0].0 == name {
        seq![(name, value)] + fields.skip(1)
    } else {
        seq![fields[0]] + put(fields.skip(1), name, value)
    }
}

/// The value of `name`.
pub open spec fn lookup(fields: Seq<Field>, name: Seq<char>) -> Option<Seq<char>>
    decreases fields.len(),
{
    if fields.len() == 0 {
        None
    } else if fields[0].0 == name {
        Some(fields[0].1)
    } else {
        lookup(fields.skip(1), name)
    }
}

/// The names, in order.
pub open spec fn names(fields: Seq<Field>) -> Seq<Seq<char>> {
    fields.map_values(|f: Field| f.0)
}

/// Of two different texts exactly one stands before the other.
pub proof fn law_order_is_total(a: Seq<char>, b: Seq<char>)
    ensures
        a == b ==> !comes_before(a, b),
        a != b ==> (comes_before(a, b) <==> !comes_before(b, a)),
    decreases a.len(),
{
    if a.len() > 0 && b.len() > 0 {
        law_order_is_total(a.skip(1), b.skip(1));
        if a[0] == b[0] && a.skip(1) == b.skip(1) {
            assert(a =~= seq![a[0]] + a.skip(1));
            assert(b =~= seq![b[0]] + b.skip(1));
        }
    } else if a.len() == 0 && b.len() == 0 {
        assert(a =~= b);
    }
}

/// The order of texts is transitive.
pub proof fn law_order_is_transitive(a: Seq<char>, b: Seq<char>, c: Seq<char>)
    requires
        comes_before(a, b),
        comes_before(b, c),
    ensures
        comes_before(a, c),
    decreases a.len(),
{
    if a.len() > 0 && a[0] == b[0] && b[0] == c[0] {
        law_order_is_transitive(a.skip(1), b.skip(1), c.skip(1));
    }
}

/// A field that has been set is found with its value, and every other field is as before.
pub proof fn law_lookup_after_put(
    fields: Seq<Field>,
    name: Seq<char>,
    value: Seq<char>,
    other: Seq<char>,
)
    ensures
        lookup(put(fields, name, value), name) == Some(value),
        other != name ==> lookup(put(fields, name, value), other) == lookup(fields, other),
    decreases fields.len(),
{
    let all = put(fields, name, value);
    if fields.len() == 0 || comes_before(name, fields[0].0) {
        assert(all.skip(1) =~= fields);
    } else if fields[0].0 == name {
        assert(all.skip(1) =~= fields.skip(1));
    } else {
        law_lookup_after_put(fields.skip(1), name, value, other);
        assert(all.skip(1) =~= put(fields.skip(1), name, value));
    }
}

/// Setting a field keeps the order of the names.
pub proof fn law_put_keeps_order(fields: Seq<Field>, name: Seq<char>, value: Seq<char>)
    requires
        sorted(fields),
    ensures
        sorted(put(fields, name, value)),
    decreases fields.len(),
{
    let all = put(fields, name, value);
    if fields.len() == 0 {
    } else if comes_before(name, fields[0].0) {
        assert forall|i: int, j: int| 0 <= i < j < all.len() implies comes_before(
            #[trigger] all[i].0,
            #[trigger] all[j].0,
        ) by {
            assert(all[j] == fields[j - 1]);
            if i == 0 {
                if j > 1 {
                    law_order_is_transitive(name, fields[0].0, fields[j - 1].0);
                }
            } else {
                assert(all[i] == fields[i - 1]);
            }
        }
    } else if fields[0].0 == name {
        assert forall|i: int, j: int| 0 <= i < j < all.len() implies comes_before(
            #[trigger] all[i].0,
            #[trigger] all[j].0,
        ) by {
            assert(all[j] == fields[j]);
            assert(all[i].0 == fields[i].0);
        }
    } else {
        let rest = fields.skip(1);
        assert forall|i: int, j: int| 0 <= i < j < rest.len() implies comes_before(
            #[trigger] rest[i].0,
            #[trigger] rest[j].0,
        ) by {
            assert(rest[i] == fields[i + 1] && rest[j] == fields[j + 1]);
        }
        law_put_keeps_order(rest, name, value);
        law_order_is_total(fields[0].0, name);
        lemma_put_names(rest, name, value);
        let tail = put(rest, name, value);
        assert forall|i: int, j: int| 0 <= i < j < all.len() implies comes_before(
            #[trigger] all[i].0,
            #[trigger] all[j].0,
        ) by {
            assert(all[j] == tail[j - 1]);
            if i == 0 {
                if tail[j - 1].0 != name {
                    let k = choose|k: int| 0 <= k < rest.len() && rest[k] == tail[j - 1];
                    assert(rest[k] == fields[k + 1]);
                }
            } else {
                assert(all[i] == tail[i - 1]);
            }
        }
    }
}

/// Every field after a `put` is the one that was set or one that was there.
pub proof fn lemma_put_names(fields: Seq<Field>, name: Seq<char>, value: Seq<char>)
    ensures
        forall|j: int|
            0 <= j < put(fields, name, value).len() ==> #[trigger] put(fields, name, value)[j] == (
                name,
                value,
            ) || exists|k: int|
                0 <= k < fields.len() && fields[k] == put(fields, name, value)[j],
    decreases fields.len(),
{
    let all = put(fields, name, value);
    assert forall|j: int| 0 <= j < all.len() && #[trigger] all[j] != (name, value) implies exists|
        k: int,
    | 0 <= k < fields.len() && fields[k] == all[j] by {
        if fields.len() == 0 {
        } else if comes_before(name, fields[0].0) {
            assert(fields[j - 1] == all[j]);
        } else if fields[0].0 == name {
            assert(fields[j] == all[j]);
        } else if j == 0 {
            assert(fields[0] == all[0]);
        } else {
            let rest = fields.skip(1);
            lemma_put_names(rest, name, value);
            assert(all[j] == put(rest, name, value)[j - 1]);
            let k = choose|k: int| 0 <= k < rest.len() && rest[k] == all[j];
            assert(fields[k + 1] == all[j]);
        }
    }
}

/// How two texts stand in their order.
#[derive(Clone, Copy, Debug, PartialEq, Eq, Structural)]
pub enum Side {
    Before,
    Same,
    Behind,
}

/// How `a` stands to `b`.
pub fn side_of(a: &str, b: &str) -> (r: Side)
    ensures
        match r {
            Side::Before => comes_before(a@, b@),
            Side::Same => a@ == b@,
            Side::Behind => comes_before(b@, a@),
        },
{
    let x = to_chars(a);
    let y = to_chars(b);
    let mut i: usize = 0;
    assert(x@.skip(0) =~= x@ && y@.skip(0) =~= y@);
    while i < x.len() && i < y.len() && x[i] == y[i]
        invariant
            i <= x.len(),
            i <= y.len(),
            x@ == a@,
            y@ == b@,
            x@.take(i as int) == y@.take(i as int),
            comes_before(a@, b@) == comes_before(x@.skip(i as int), y@.skip(i as int)),
            comes_before(b@, a@) == comes_before(y@.skip(i as int), x@.skip(i as int)),
        decreases x.len() - i,
    {
        assert(x@.skip(i as int).skip(1) =~= x@.skip(i + 1));
        assert(y@.skip(i as int).skip(1) =~= y@.skip(i + 1));
        assert(x@.take(i + 1) =~= x@.take(i as int).push(x@[i as int]));
        assert(y@.take(i + 1) =~= y@.take(i as int).push(y@[i as int]));
        i = i + 1;
    }
    if i == x.len() && i == y.len() {
        assert(x@.take(i as int) =~= x@);
        assert(y@.take(i as int) =~= y@);
        Side::Same
    } else if i == x.len() {
        Side::Before
    } else if i == y.len() {
        Side::Behind
    } else if x[i] < y[i] {
        Side::Before
    } else {
        Side::Behind
    }
}

/// A set of fields.
#[derive(Clone, Debug)]
pub struct FieldMap {
    entries: Vec<(String, String)>,
}

impl View for FieldMap {
    type V = Seq<Field>;

    closed spec fn view(&self) -> Seq<Field> {
        self.entries@.map_values(|e: (String, String)| (e.0@, e.1@))
    }
}

impl FieldMap {
    /// The names are in order.
    pub open spec fn wf(&self) -> bool {
        sorted(self@)
    }

    /// No fields.
    pub fn new() -> (m: FieldMap)
        ensures
            m@ == Seq::<Field>::empty(),
            m.wf(),
    {
        let m = FieldMap { entries: Vec::new() };
        assert(m@ =~= Seq::<Field>::empty());
        m
    }

    /// Sets a field.
    pub fn insert(&mut self, name: String, value: String)
        ensures
            final(self)@ == put(old(self)@, name@, value@),
            old(self).wf() ==> final(self).wf(),
    {
        let ghost before = self@;
        let mut i: usize = 0;
        assert(before.skip(0) =~= before);
        assert(before.take(0) + put(before, name@, value@) =~= put(before, name@, value@));
        proof {
            if self.wf() {
                law_put_keeps_order(before, name@, value@);
            }
        }
        while i < self.entries.len()
            invariant
                i <= self.entries.len(),
                before == self@,
                before == old(self)@,
                put(before, name@, value@) == before.take(i as int) + put(
                    before.skip(i as int),
                    name@,
                    value@,
                ),
                old(self).wf() ==> sorted(put(before, name@, value@)),
            decreases self.entries.len() - i,
        {
            let ghost rest = before.skip(i as int);
            assert(rest[0] == (self.entries@[i as int].0@, self.entries@[i as int].1@));
            match side_of(name.as_str(), self.entries[i].0.as_str()) {
                Side::Before => {
                    self.entries.insert(i, (name, value));
                    assert(self@ =~= before.take(i as int) + (seq![(name@, value@)] + rest));
                    return;
                },
                Side::Same => {
                    proof {
                        law_order_is_total(name@, rest[0].0);
                    }
                    self.entries.set(i, (name, value));
                    assert(self@ =~= before.take(i as int) + (seq![(name@, value@)] + rest.skip(1)));
                    return;
                },
                Side::Behind => {
                    proof {
                        law_order_is_total(name@, rest[0].0);
                        assert(rest.skip(1) =~= before.skip(i + 1));
                        assert(before.take(i as int) + (seq![rest[0]] + put(
                            rest.skip(1),
                            name@,
                            value@,
                        )) =~= before.take(i + 1) + put(rest.skip(1), name@, value@));
                    }
                },
            }
            i = i + 1;
        }
        self.entries.push((name, value));
        assert(before.skip(i as int) =~= Seq::empty());
        assert(self@ =~= before.take(i as int) + (seq![(name@, value@)] + Seq::empty()));
    }

    /// The value of a field.
    pub fn get(&self, name: &str) -> (r: Option<&String>)
        ensures
            match r {
                Some(v) => lookup(self@, name@) == Some(v@),
                None => lookup(self@, name@) is None,
            },
    {
        let mut i: usize = 0;
        assert(self@.skip(0) =~= self@);
        while i < self.entries.len()
            invariant
                i <= self.entries.len(),
                lookup(self@, name@) == lookup(self@.skip(i as int), name@),
            decreases self.entries.len() - i,
        {
            let ghost rest = self@.skip(i as int);
            assert(rest[0] == (self.entries@[i as int].0@, self.entries@[i as int].1@));
            if same(self.entries[i].0.as_str(), name) {
                return Some(&self.entries[i].1);
            }
            assert(rest.skip(1) =~= self@.skip(i + 1));
            i = i + 1;
        }
        None
    }

    /// How many fields there are.
    pub fn len(&self) -> (n: usize)
        ensures
            n == self@.len(),
    {
        self.entries.len()
    }

    /// The field at a place in the order of the names.
    pub fn entry(&self, i: usize) -> (r: (&String, &String))
        requires
            i < self@.len(),
        ensures
            (r.0@, r.1@) == self@[i as int],
    {
        let e = &self.entries[i];
        (&e.0, &e.1)
    }

    /// The names in order, with `sep` between them.
    pub fn joined_names(&self, sep: &str) -> (s: String)
        ensures
            s@ == join(names(self@), sep@),
    {
        let mut s = String::new();
        let ghost ns = names(self@);
        let mut i: usize = 0;
        assert(ns.take(0) =~= Seq::empty());
        while i < self.entries.len()
            invariant
                i <= self.entries.len(),
                ns == names(self@),
                ns.len() == self.entries@.len(),
                s@ == join(ns.take(i as int), sep@),
            decreases self.entries.len() - i,
        {
            if i > 0 {
                s.append(sep);
            }
            s.append(self.entries[i].0.as_str());
            proof {
                assert(ns[i as int] == self.entries@[i as int].0@);
                assert(ns.take(i + 1).drop_last() =~= ns.take(i as int));
                assert(ns.take(i + 1).last() == ns[i as int]);
            }
            i = i + 1;
        }
        assert(ns.take(i as int) =~= ns);
        s
    }
}

} // verus!
