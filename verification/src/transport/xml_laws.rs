//! Reading a body gives back what was written into it.
use vstd::prelude::*;

use crate::fields::{
    comes_before, law_lookup_after_put, law_order_is_total, law_put_keeps_order, lemma_put_names,
    lookup, put, sorted, Field,
};
use crate::text::join;
use crate::transport::xml::{
    are_plain, document_marks, element_marks, path, put_all, tree_of, under_body, XmlMark,
};

verus! {

/// No two fields have the same name.
pub open spec fn distinct_names(fields: Seq<Field>) -> bool {
    forall|i: int, j: int|
        0 <= i < j < fields.len() ==> #[trigger] fields[i].0 != #[trigger] fields[j].0
}

/// What is read from what the reader reports of a written body is exactly what was written: for each
/// field its text, under `body/` and its name.
pub proof fn law_body_is_read_back(fields: Seq<Field>)
    requires
        distinct_names(fields),
    ensures
        tree_of(document_marks(put_all(fields)), Seq::empty(), Seq::empty()) == Ok::<
            Seq<Field>,
            Seq<char>,
        >(under_body(put_all(fields))),
        under_body(put_all(fields)).len() == fields.len(),
        forall|i: int|
            0 <= i < fields.len() ==> lookup(
                under_body(put_all(fields)),
                "body/"@ + (#[trigger] fields[i]).0,
            ) == Some(fields[i].1),
        forall|i: int|
            0 <= i < fields.len() ==> exists|j: int|
                0 <= j < fields.len() && #[trigger] under_body(put_all(fields))[i] == (
                    "body/"@ + (#[trigger] fields[j]).0,
                    fields[j].1,
                ),
{
    lemma_put_all_sorted(fields);
    lemma_document_tree(put_all(fields));
    lemma_put_all_distinct(fields);
    lemma_put_all_members(fields);
    assert forall|i: int| 0 <= i < fields.len() implies lookup(
        under_body(put_all(fields)),
        "body/"@ + (#[trigger] fields[i]).0,
    ) == Some(fields[i].1) by {
        lemma_lookup_under_body(put_all(fields), fields[i].0);
    }
    assert forall|i: int| 0 <= i < fields.len() implies exists|j: int|
        0 <= j < fields.len() && #[trigger] under_body(put_all(fields))[i] == (
            "body/"@ + (#[trigger] fields[j]).0,
            fields[j].1,
        ) by {
        let j = choose|j: int| 0 <= j < fields.len() && fields[j] == put_all(fields)[i];
        assert(under_body(put_all(fields))[i] == ("body/"@ + fields[j].0, fields[j].1));
    }
}

pub proof fn lemma_put_all_sorted(fields: Seq<Field>)
    ensures
        sorted(put_all(fields)),
    decreases fields.len(),
{
    if fields.len() > 0 {
        lemma_put_all_sorted(fields.drop_last());
        law_put_keeps_order(put_all(fields.drop_last()), fields.last().0, fields.last().1);
    }
}

proof fn lemma_put_all_members(fields: Seq<Field>)
    ensures
        forall|i: int|
            0 <= i < put_all(fields).len() ==> exists|j: int|
                0 <= j < fields.len() && fields[j] == #[trigger] put_all(fields)[i],
    decreases fields.len(),
{
    if fields.len() > 0 {
        let before = fields.drop_last();
        let f = fields.last();
        lemma_put_all_members(before);
        lemma_put_names(put_all(before), f.0, f.1);
        assert forall|i: int| 0 <= i < put_all(fields).len() implies exists|j: int|
            0 <= j < fields.len() && fields[j] == #[trigger] put_all(fields)[i] by {
            if put_all(fields)[i] == (f.0, f.1) {
                assert(fields[fields.len() - 1] == put_all(fields)[i]);
            } else {
                let k = choose|k: int|
                    0 <= k < put_all(before).len() && put_all(before)[k] == put_all(fields)[i];
                let j = choose|j: int| 0 <= j < before.len() && before[j] == put_all(before)[k];
                assert(fields[j] == put_all(fields)[i]);
            }
        }
    }
}

pub proof fn lemma_put_all_plain(fields: Seq<Field>)
    requires
        are_plain(fields),
    ensures
        are_plain(put_all(fields)),
{
    lemma_put_all_members(fields);
}

proof fn lemma_put_len(fields: Seq<Field>, name: Seq<char>, value: Seq<char>)
    requires
        forall|i: int| 0 <= i < fields.len() ==> (#[trigger] fields[i]).0 != name,
    ensures
        put(fields, name, value).len() == fields.len() + 1,
    decreases fields.len(),
{
    if fields.len() > 0 && !comes_before(name, fields[0].0) {
        assert(fields[0].0 != name);
        assert forall|i: int| 0 <= i < fields.skip(1).len() implies (#[trigger] fields.skip(
            1,
        )[i]).0 != name by {
            assert(fields.skip(1)[i] == fields[i + 1]);
        }
        lemma_put_len(fields.skip(1), name, value);
    }
}

proof fn lemma_put_all_distinct(fields: Seq<Field>)
    requires
        distinct_names(fields),
    ensures
        put_all(fields).len() == fields.len(),
        forall|i: int|
            0 <= i < fields.len() ==> lookup(put_all(fields), (#[trigger] fields[i]).0) == Some(
                fields[i].1,
            ),
    decreases fields.len(),
{
    if fields.len() > 0 {
        let before = fields.drop_last();
        let f = fields.last();
        let n = before.len() as int;
        assert forall|i: int, j: int| 0 <= i < j < before.len() implies #[trigger] before[i].0
            != #[trigger] before[j].0 by {
            assert(fields[i].0 != fields[j].0);
        }
        lemma_put_all_distinct(before);
        lemma_put_all_members(before);
        assert forall|i: int| 0 <= i < put_all(before).len() implies (#[trigger] put_all(
            before,
        )[i]).0 != f.0 by {
            let j = choose|j: int| 0 <= j < before.len() && before[j] == put_all(before)[i];
            assert(fields[j].0 != fields[n].0);
        }
        lemma_put_len(put_all(before), f.0, f.1);
        assert forall|i: int| 0 <= i < fields.len() implies lookup(
            put_all(fields),
            (#[trigger] fields[i]).0,
        ) == Some(fields[i].1) by {
            law_lookup_after_put(put_all(before), f.0, f.1, fields[i].0);
            if i < n {
                assert(before[i] == fields[i]);
                assert(fields[i].0 != fields[n].0);
            }
        }
    }
}

proof fn lemma_lookup_under_body(fields: Seq<Field>, name: Seq<char>)
    ensures
        lookup(under_body(fields), "body/"@ + name) == lookup(fields, name),
    decreases fields.len(),
{
    if fields.len() > 0 {
        let b = under_body(fields);
        assert(b[0] == ("body/"@ + fields[0].0, fields[0].1));
        if b[0].0 == "body/"@ + name {
            let n = "body/"@.len() as int;
            assert(b[0].0.skip(n) =~= fields[0].0);
            assert(("body/"@ + name).skip(n) =~= name);
        } else {
            assert(b.skip(1) =~= under_body(fields.skip(1)));
            lemma_lookup_under_body(fields.skip(1), name);
        }
    }
}

/// A common beginning does not change an order.
proof fn lemma_same_beginning(p: Seq<char>, a: Seq<char>, b: Seq<char>)
    ensures
        comes_before(p + a, p + b) == comes_before(a, b),
    decreases p.len(),
{
    if p.len() == 0 {
        assert(p + a =~= a && p + b =~= b);
    } else {
        assert((p + a).skip(1) =~= p.skip(1) + a);
        assert((p + b).skip(1) =~= p.skip(1) + b);
        lemma_same_beginning(p.skip(1), a, b);
    }
}

/// A field whose name stands behind all others comes to the end.
proof fn lemma_put_behind(fields: Seq<Field>, name: Seq<char>, value: Seq<char>)
    requires
        forall|i: int| 0 <= i < fields.len() ==> comes_before((#[trigger] fields[i]).0, name),
    ensures
        put(fields, name, value) == fields.push((name, value)),
    decreases fields.len(),
{
    if fields.len() == 0 {
        assert(put(fields, name, value) =~= fields.push((name, value)));
    } else {
        law_order_is_total(fields[0].0, name);
        assert(comes_before(fields[0].0, name));
        let rest = fields.skip(1);
        assert forall|i: int| 0 <= i < rest.len() implies comes_before(
            (#[trigger] rest[i]).0,
            name,
        ) by {
            assert(rest[i] == fields[i + 1]);
        }
        lemma_put_behind(rest, name, value);
        assert(put(fields, name, value) =~= fields.push((name, value)));
    }
}

proof fn lemma_path(name: Seq<char>)
    ensures
        path(seq!["body"@, name]) == "body/"@ + name,
{
    reveal_strlit("body");
    reveal_strlit("/");
    reveal_strlit("body/");
    let parts = seq!["body"@, name];
    reveal_with_fuel(join, 3);
    assert(parts.drop_last() =~= seq!["body"@]);
    assert("body"@ + "/"@ =~= "body/"@);
    assert(path(parts) =~= "body/"@ + name);
}

/// The elements of a body are read one after the other.
proof fn lemma_elements_tree(fields: Seq<Field>, rest: Seq<XmlMark>)
    requires
        sorted(fields),
    ensures
        tree_of(element_marks(fields) + rest, seq!["body"@], Seq::empty()) == tree_of(
            rest,
            seq!["body"@],
            under_body(fields),
        ),
    decreases fields.len(),
{
    if fields.len() == 0 {
        assert(element_marks(fields) + rest =~= rest);
        assert(under_body(fields) =~= Seq::empty());
    } else {
        let before = fields.drop_last();
        let f = fields.last();
        let open = seq!["body"@];
        let tree = under_body(before);
        let m0 = seq![XmlMark::Open(f.0), XmlMark::Text(f.1), XmlMark::Close] + rest;
        let m1 = seq![XmlMark::Text(f.1), XmlMark::Close] + rest;
        let m2 = seq![XmlMark::Close] + rest;
        assert forall|i: int, j: int| 0 <= i < j < before.len() implies comes_before(
            #[trigger] before[i].0,
            #[trigger] before[j].0,
        ) by {
            assert(comes_before(fields[i].0, fields[j].0));
        }
        lemma_elements_tree(before, m0);
        assert(element_marks(fields) + rest =~= element_marks(before) + m0);
        assert(m0.skip(1) =~= m1);
        assert(m1.skip(1) =~= m2);
        assert(m2.skip(1) =~= rest);
        assert(open.push(f.0) =~= seq!["body"@, f.0]);
        assert(open.push(f.0).drop_last() =~= open);
        lemma_path(f.0);
        let key = "body/"@ + f.0;
        assert(tree_of(m0, open, tree) == tree_of(m1, open.push(f.0), tree));
        assert(tree_of(m1, open.push(f.0), tree) == tree_of(
            m2,
            open.push(f.0),
            put(tree, key, f.1),
        ));
        assert(tree_of(m2, open.push(f.0), put(tree, key, f.1)) == tree_of(
            rest,
            open,
            put(tree, key, f.1),
        ));
        assert forall|i: int| 0 <= i < tree.len() implies comes_before(
            (#[trigger] tree[i]).0,
            key,
        ) by {
            assert(tree[i].0 == "body/"@ + fields[i].0);
            assert(comes_before(fields[i].0, fields[fields.len() - 1].0));
            lemma_same_beginning("body/"@, fields[i].0, f.0);
        }
        lemma_put_behind(tree, key, f.1);
        assert(put(tree, key, f.1) =~= under_body(fields));
    }
}

pub proof fn lemma_document_tree(fields: Seq<Field>)
    requires
        sorted(fields),
    ensures
        tree_of(document_marks(fields), Seq::empty(), Seq::empty()) == Ok::<Seq<Field>, Seq<char>>(
            under_body(fields),
        ),
{
    let none = Seq::<Seq<char>>::empty();
    let start = Seq::<Field>::empty();
    let end = seq![XmlMark::Close, XmlMark::End];
    let all = document_marks(fields);
    let m1 = seq![XmlMark::Open("body"@)] + (element_marks(fields) + end);
    assert(all =~= seq![XmlMark::Prolog] + m1);
    assert(all.skip(1) =~= m1);
    assert(m1.skip(1) =~= element_marks(fields) + end);
    assert(none.push("body"@) =~= seq!["body"@]);
    assert(tree_of(all, none, start) == tree_of(m1, none, start));
    assert(tree_of(m1, none, start) == tree_of(
        element_marks(fields) + end,
        seq!["body"@],
        start,
    ));
    lemma_elements_tree(fields, end);
    let tree = under_body(fields);
    assert(end.skip(1) =~= seq![XmlMark::End]);
    assert(seq!["body"@].drop_last() =~= none);
    assert(tree_of(end, seq!["body"@], tree) == tree_of(seq![XmlMark::End], none, tree));
}

} // verus!
