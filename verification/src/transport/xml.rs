//! The XML bodies of requests and responses.
use vstd::prelude::*;
use vstd::string::StringExecFns;
use xml::reader::{EventReader, XmlEvent};

use crate::error::{invalid, invalid_data, Error};
use crate::fields::{law_lookup_after_put, lookup, put, Field, FieldMap};
use crate::text::{copy, join, join_from, texts, to_chars};
use crate::transport::xml_laws::{
    lemma_document_tree, lemma_put_all_plain, lemma_put_all_sorted,
};

verus! {

/// One thing that the XML reader reports.
pub enum XmlStep {
    /// The start of the document.
    Prolog,
    /// An opening tag, by its name without prefix.
    Open(String),
    /// A closing tag.
    Close,
    /// Character data.
    Text(String),
    /// A stretch of white space.
    Blank(String),
    CData(String),
    Comment(String),
    /// A processing instruction, by its target.
    Instruction(String),
    /// The end of the document.
    End,
    /// What the reader says of a document that is not well-formed.
    Failed(String),
}

/// A step, as contracts speak of it.
pub enum XmlMark {
    Prolog,
    Open(Seq<char>),
    Close,
    Text(Seq<char>),
    Blank(Seq<char>),
    CData(Seq<char>),
    Comment(Seq<char>),
    Instruction(Seq<char>),
    End,
    Failed(Seq<char>),
}

impl View for XmlStep {
    type V = XmlMark;

    open spec fn view(&self) -> XmlMark {
        match *self {
            XmlStep::Prolog => XmlMark::Prolog,
            XmlStep::Open(s) => XmlMark::Open(s@),
            XmlStep::Close => XmlMark::Close,
            XmlStep::Text(s) => XmlMark::Text(s@),
            XmlStep::Blank(s) => XmlMark::Blank(s@),
            XmlStep::CData(s) => XmlMark::CData(s@),
            XmlStep::Comment(s) => XmlMark::Comment(s@),
            XmlStep::Instruction(s) => XmlMark::Instruction(s@),
            XmlStep::End => XmlMark::End,
            XmlStep::Failed(s) => XmlMark::Failed(s@),
        }
    }
}

pub open spec fn marks(steps: Seq<XmlStep>) -> Seq<XmlMark> {
    steps.map_values(|s: XmlStep| s@)
}

/// What the XML reader reports of a document, up to its end or to the first failure.
pub uninterp spec fn xml_marks(text: Seq<char>) -> Seq<XmlMark>;

/// `xml::reader::EventReader::from_str`, walked as an iterator to its end: the events of the
/// document, one step each. A body with plain fields is reported as it was written: the start of the
/// document, the tags, the unescaped texts between them, and the end. What the events of any other
/// text are is left unsaid.
#[verifier::external_body]
fn read_xml(text: &str) -> (steps: Vec<XmlStep>)
    ensures
        marks(steps@) == xml_marks(text@),
        forall|fields: Seq<Field>|
            are_plain(fields) && text@ == #[trigger] document(fields) ==> marks(steps@)
                == document_marks(fields),
{
    EventReader::from_str(text).into_iter().map(|event| match event {
        Ok(XmlEvent::StartDocument { .. }) => XmlStep::Prolog,
        Ok(XmlEvent::StartElement { name, .. }) => XmlStep::Open(name.local_name),
        Ok(XmlEvent::EndElement { .. }) => XmlStep::Close,
        Ok(XmlEvent::Characters(s)) => XmlStep::Text(s),
        Ok(XmlEvent::Whitespace(s)) => XmlStep::Blank(s),
        Ok(XmlEvent::CData(s)) => XmlStep::CData(s),
        Ok(XmlEvent::Comment(s)) => XmlStep::Comment(s),
        Ok(XmlEvent::ProcessingInstruction { name, .. }) => XmlStep::Instruction(name),
        Ok(XmlEvent::EndDocument) => XmlStep::End,
        Err(e) => XmlStep::Failed(e.to_string()),
    }).collect()
}

/// Where a path of element names leads: the names with slashes between them.
pub open spec fn path(open: Seq<Seq<char>>) -> Seq<char> {
    join(open, "/"@)
}

/// The texts of a document by their paths, where `open` are the elements that are open and `tree`
/// is what has been read. A later text at the same path replaces an earlier one.
pub open spec fn tree_of(
    marks: Seq<XmlMark>,
    open: Seq<Seq<char>>,
    tree: Seq<Field>,
) -> Result<Seq<Field>, Seq<char>>
    decreases marks.len(),
{
    if marks.len() == 0 {
        Ok(tree)
    } else {
        let rest = marks.skip(1);
        match marks[0] {
            XmlMark::Open(name) => tree_of(rest, open.push(name), tree),
            XmlMark::Close => if open.len() == 0 {
                Err("malformed xml: unexpected closing tag"@)
            } else {
                tree_of(rest, open.drop_last(), tree)
            },
            XmlMark::Text(s) => tree_of(rest, open, put(tree, path(open), s)),
            XmlMark::End => Ok(tree),
            XmlMark::Failed(e) => Err("xml parse error: "@ + e),
            _ => tree_of(rest, open, tree),
        }
    }
}

/// The texts of an XML document by their paths, or what is wrong with it.
pub open spec fn xml_tree(text: Seq<char>) -> Result<Seq<Field>, Seq<char>> {
    tree_of(xml_marks(text), Seq::empty(), Seq::empty())
}

/// The texts of a document by their paths, from what the reader reported of it.
pub fn collect_tree(steps: Vec<XmlStep>) -> (r: Result<FieldMap, Error>)
    ensures
        match r {
            Ok(t) => tree_of(marks(steps@), Seq::empty(), Seq::empty()) == Ok::<
                Seq<Field>,
                Seq<char>,
            >(t@) && t.wf(),
            Err(e) => tree_of(marks(steps@), Seq::empty(), Seq::empty()) is Err && e@ == invalid(
                tree_of(marks(steps@), Seq::empty(), Seq::empty())->Err_0,
            ),
        },
{
    let ghost ms = marks(steps@);
    let ghost whole = tree_of(ms, Seq::empty(), Seq::empty());
    let mut stack: Vec<String> = Vec::new();
    let mut tree = FieldMap::new();
    let mut i: usize = 0;
    assert(ms.skip(0) =~= ms);
    assert(texts(stack@) =~= Seq::empty());
    while i < steps.len()
        invariant
            i <= steps.len(),
            ms == marks(steps@),
            whole == tree_of(ms, Seq::empty(), Seq::empty()),
            whole == tree_of(ms.skip(i as int), texts(stack@), tree@),
            tree.wf(),
        decreases steps.len() - i,
    {
        let ghost rest = ms.skip(i as int);
        let ghost open = texts(stack@);
        assert(rest.skip(1) =~= ms.skip(i + 1));
        assert(rest[0] == steps@[i as int]@);
        match &steps[i] {
            XmlStep::Open(name) => {
                let name = copy(name.as_str());
                stack.push(name);
                assert(texts(stack@) =~= open.push(name@));
            },
            XmlStep::Close => {
                if stack.pop().is_none() {
                    return Err(invalid_data(copy("malformed xml: unexpected closing tag")));
                }
                assert(texts(stack@) =~= open.drop_last());
            },
            XmlStep::Text(s) => {
                let key = join_from(&stack, 0, "/");
                assert(open.skip(0) =~= open);
                tree.insert(key, copy(s.as_str()));
            },
            XmlStep::End => {
                return Ok(tree);
            },
            XmlStep::Failed(e) => {
                let mut message = String::new();
                message.append("xml parse error: ");
                message.append(e.as_str());
                return Err(invalid_data(message));
            },
            _ => {},
        }
        i = i + 1;
    }
    Ok(tree)
}

/// The texts of an XML document by their paths.
pub fn parse_xml(text: &str) -> (r: Result<FieldMap, Error>)
    ensures
        match r {
            Ok(t) => xml_tree(text@) == Ok::<Seq<Field>, Seq<char>>(t@) && t.wf(),
            Err(e) => xml_tree(text@) is Err && e@ == invalid(xml_tree(text@)->Err_0),
        },
        forall|fields: Seq<Field>|
            are_plain(fields) && text@ == #[trigger] body_xml(fields) ==> (r matches Ok(t) && t@
                == under_body(put_all(fields))),
{
    let steps = read_xml(text);
    proof {
        assert forall|fields: Seq<Field>|
            are_plain(fields) && text@ == #[trigger] body_xml(fields) implies xml_tree(text@)
            == Ok::<Seq<Field>, Seq<char>>(under_body(put_all(fields))) by {
            lemma_put_all_plain(fields);
            assert(text@ == document(put_all(fields)));
            lemma_put_all_sorted(fields);
            lemma_document_tree(put_all(fields));
        }
    }
    collect_tree(steps)
}

/// What stands for a character in character data.
pub open spec fn escape_char(c: char) -> Seq<char> {
    match c {
        '&' => "&amp;"@,
        '<' => "&lt;"@,
        '>' => "&gt;"@,
        '"' => "&quot;"@,
        '\'' => "&apos;"@,
        _ => seq![c],
    }
}

/// A text as character data.
pub open spec fn escape(s: Seq<char>) -> Seq<char>
    decreases s.len(),
{
    if s.len() == 0 {
        Seq::empty()
    } else {
        escape(s.drop_last()) + escape_char(s.last())
    }
}

/// A text as character data.
pub fn xml_escape(value: &str) -> (r: String)
    ensures
        r@ == escape(value@),
{
    let v = to_chars(value);
    let mut r = String::new();
    let mut i: usize = 0;
    assert(v@.take(0) =~= Seq::empty());
    while i < v.len()
        invariant
            i <= v.len(),
            v@ == value@,
            r@ == escape(v@.take(i as int)),
        decreases v.len() - i,
    {
        assert(v@.take(i + 1).drop_last() =~= v@.take(i as int));
        assert(v@.take(i + 1).last() == v@[i as int]);
        match v[i] {
            '&' => r.append("&amp;"),
            '<' => r.append("&lt;"),
            '>' => r.append("&gt;"),
            '"' => r.append("&quot;"),
            '\'' => r.append("&apos;"),
            c => {
                r.push(c);
                assert(r@ =~= escape(v@.take(i as int)) + seq![c]);
            },
        }
        i = i + 1;
    }
    assert(v@.take(i as int) =~= v@);
    r
}

/// The fields in the order of their names; of two with the same name the later one stays.
pub open spec fn put_all(fields: Seq<Field>) -> Seq<Field>
    decreases fields.len(),
{
    if fields.len() == 0 {
        Seq::empty()
    } else {
        put(put_all(fields.drop_last()), fields.last().0, fields.last().1)
    }
}

/// One element: its tags with the escaped text between them.
pub open spec fn element(f: Field) -> Seq<char> {
    "<"@ + f.0 + ">"@ + escape(f.1) + "</"@ + f.0 + ">"@
}

pub open spec fn elements(fields: Seq<Field>) -> Seq<char>
    decreases fields.len(),
{
    if fields.len() == 0 {
        Seq::empty()
    } else {
        elements(fields.drop_last()) + element(fields.last())
    }
}

/// A body with one element for each of these fields.
pub open spec fn document(fields: Seq<Field>) -> Seq<char> {
    "<body>"@ + elements(fields) + "</body>"@
}

/// The body of a request with these fields.
pub open spec fn body_xml(fields: Seq<Field>) -> Seq<char> {
    document(put_all(fields))
}

/// Whether a field has a name of letters and a printable text that does not begin with a blank, both
/// of a length that the XML reader takes.
pub open spec fn is_plain(f: Field) -> bool {
    &&& 0 < f.0.len() <= 0x4_0000
    &&& forall|i: int|
        0 <= i < f.0.len() ==> 'a' <= #[trigger] f.0[i] <= 'z' || 'A' <= f.0[i] <= 'Z'
    &&& 0 < f.1.len() <= 0x4000_0000
    &&& forall|i: int| 0 <= i < f.1.len() ==> ' ' <= #[trigger] f.1[i] <= '~'
    &&& f.1[0] != ' '
}

pub open spec fn are_plain(fields: Seq<Field>) -> bool {
    forall|i: int| 0 <= i < fields.len() ==> is_plain(#[trigger] fields[i])
}

/// What is reported of the elements of a body.
pub open spec fn element_marks(fields: Seq<Field>) -> Seq<XmlMark>
    decreases fields.len(),
{
    if fields.len() == 0 {
        Seq::empty()
    } else {
        let f = fields.last();
        element_marks(fields.drop_last()) + seq![
            XmlMark::Open(f.0),
            XmlMark::Text(f.1),
            XmlMark::Close,
        ]
    }
}

/// What is reported of a body with these fields.
pub open spec fn document_marks(fields: Seq<Field>) -> Seq<XmlMark> {
    seq![XmlMark::Prolog, XmlMark::Open("body"@)] + element_marks(fields) + seq![
        XmlMark::Close,
        XmlMark::End,
    ]
}

/// The fields of a body by their paths.
pub open spec fn under_body(fields: Seq<Field>) -> Seq<Field> {
    fields.map_values(|f: Field| ("body/"@ + f.0, f.1))
}

/// What some fields hold.
pub open spec fn fields_of(fields: Seq<(&str, String)>) -> Seq<Field> {
    fields.map_values(|f: (&str, String)| (f.0@, f.1@))
}

/// The body of a request with these fields, in the order of their names.
pub fn xml_body(fields: &[(&str, String)]) -> (r: String)
    ensures
        r@ == body_xml(fields_of(fields@)),
{
    let ghost fs = fields_of(fields@);
    let mut all = FieldMap::new();
    let mut i: usize = 0;
    assert(fs.take(0) =~= Seq::empty());
    while i < fields.len()
        invariant
            i <= fields.len(),
            fs == fields_of(fields@),
            all@ == put_all(fs.take(i as int)),
        decreases fields.len() - i,
    {
        let f = &fields[i];
        all.insert(copy(f.0), copy(f.1.as_str()));
        proof {
            assert(fs[i as int] == (f.0@, f.1@));
            assert(fs.take(i + 1).drop_last() =~= fs.take(i as int));
            assert(fs.take(i + 1).last() == fs[i as int]);
        }
        i = i + 1;
    }
    assert(fs.take(i as int) =~= fs);

    let mut body = String::new();
    body.append("<body>");
    let mut j: usize = 0;
    assert(all@.take(0) =~= Seq::empty());
    assert(body@ =~= "<body>"@ + elements(Seq::empty()));
    while j < all.len()
        invariant
            j <= all@.len(),
            body@ == "<body>"@ + elements(all@.take(j as int)),
        decreases all@.len() - j,
    {
        let (name, value) = all.entry(j);
        let ghost before = body@;
        body.append("<");
        body.append(name.as_str());
        body.append(">");
        body.append(xml_escape(value.as_str()).as_str());
        body.append("</");
        body.append(name.as_str());
        body.append(">");
        proof {
            let f = all@[j as int];
            assert(body@ =~= before + element(f));
            assert(all@.take(j + 1).drop_last() =~= all@.take(j as int));
            assert(all@.take(j + 1).last() == f);
            assert(before + element(f) =~= "<body>"@ + (elements(all@.take(j as int)) + element(
                f,
            )));
        }
        j = j + 1;
    }
    assert(all@.take(j as int) =~= all@);
    body.append("</body>");
    body
}

/// What stands for a character holds no markup.
proof fn lemma_escape_char(c: char)
    ensures
        escape_char(c).len() > 0,
        escape_char(c)[0] == '&' <==> escape_char(c) != seq![c],
        c != '&' && escape_char(c)[0] != '&' ==> escape_char(c) == seq![c],
        forall|i: int|
            0 <= i < escape_char(c).len() ==> {
                let x = #[trigger] escape_char(c)[i];
                x != '<' && x != '>' && x != '"' && x != '\''
            },
{
    reveal_strlit("&amp;");
    reveal_strlit("&lt;");
    reveal_strlit("&gt;");
    reveal_strlit("&quot;");
    reveal_strlit("&apos;");
}

/// Character data holds none of the characters that XML gives a meaning, but for the ampersands of
/// its escapes.
pub proof fn law_escaped_text_has_no_markup(s: Seq<char>)
    ensures
        forall|i: int|
            0 <= i < escape(s).len() ==> {
                let x = #[trigger] escape(s)[i];
                x != '<' && x != '>' && x != '"' && x != '\''
            },
    decreases s.len(),
{
    if s.len() > 0 {
        let before = escape(s.drop_last());
        law_escaped_text_has_no_markup(s.drop_last());
        lemma_escape_char(s.last());
        assert forall|i: int| 0 <= i < escape(s).len() implies {
            let x = #[trigger] escape(s)[i];
            x != '<' && x != '>' && x != '"' && x != '\''
        } by {
            if i < before.len() {
                assert(escape(s)[i] == before[i]);
            } else {
                assert(escape(s)[i] == escape_char(s.last())[i - before.len()]);
            }
        }
    }
}

proof fn lemma_escape_first(s: Seq<char>)
    requires
        s.len() > 0,
    ensures
        escape(s) == escape_char(s[0]) + escape(s.skip(1)),
    decreases s.len(),
{
    if s.len() == 1 {
        assert(s.drop_last() =~= Seq::empty());
        assert(s.skip(1) =~= Seq::empty());
        assert(escape(s) =~= escape_char(s[0]) + escape(s.skip(1)));
    } else {
        lemma_escape_first(s.drop_last());
        assert(s.drop_last().skip(1) =~= s.skip(1).drop_last());
        assert(escape(s) =~= escape_char(s[0]) + escape(s.skip(1)));
    }
}

/// Two characters stand for themselves by the same characters only where they are the same.
proof fn lemma_escape_char_apart(a: char, b: char, rest_a: Seq<char>, rest_b: Seq<char>)
    requires
        escape_char(a) + rest_a == escape_char(b) + rest_b,
    ensures
        a == b,
        rest_a == rest_b,
{
    reveal_strlit("&amp;");
    reveal_strlit("&lt;");
    reveal_strlit("&gt;");
    reveal_strlit("&quot;");
    reveal_strlit("&apos;");
    let x = escape_char(a);
    let y = escape_char(b);
    let all = x + rest_a;
    assert(all[0] == x[0] && all[0] == y[0]);
    if x.len() > 1 && y.len() > 1 {
        assert(all[1] == x[1] && all[1] == y[1]);
        assert(all[2] == x[2] && all[2] == y[2]);
    }
    assert(a == b);
    assert(rest_a =~= all.skip(x.len() as int));
    assert(rest_b =~= (y + rest_b).skip(y.len() as int));
}

/// Two texts have the same character data only if they are the same.
pub proof fn law_escape_keeps_texts_apart(a: Seq<char>, b: Seq<char>)
    requires
        escape(a) == escape(b),
    ensures
        a == b,
    decreases a.len(),
{
    if a.len() > 0 {
        lemma_escape_first(a);
        lemma_escape_char(a[0]);
        if b.len() > 0 {
            lemma_escape_first(b);
            lemma_escape_char_apart(a[0], b[0], escape(a.skip(1)), escape(b.skip(1)));
            law_escape_keeps_texts_apart(a.skip(1), b.skip(1));
            assert(a =~= seq![a[0]] + a.skip(1));
            assert(b =~= seq![b[0]] + b.skip(1));
        } else {
            assert(escape(a).len() > 0);
        }
    } else if b.len() > 0 {
        lemma_escape_first(b);
        lemma_escape_char(b[0]);
        assert(escape(b).len() > 0);
    } else {
        assert(a =~= b);
    }
}

/// A text in a document is found under its path, and what came before under other paths stays: a
/// later text at the same path replaces an earlier one.
pub proof fn law_later_text_wins(
    open: Seq<Seq<char>>,
    tree: Seq<Field>,
    text: Seq<char>,
    other: Seq<char>,
)
    ensures
        ({
            let read = tree_of(seq![XmlMark::Text(text), XmlMark::End], open, tree);
            &&& read matches Ok(after) && lookup(after, path(open)) == Some(text) && (other != path(
                open,
            ) ==> lookup(after, other) == lookup(tree, other))
        }),
{
    let marks = seq![XmlMark::Text(text), XmlMark::End];
    assert(marks.skip(1) =~= seq![XmlMark::End]);
    reveal_with_fuel(tree_of, 3);
    law_lookup_after_put(tree, path(open), text, other);
}

} // verus!
