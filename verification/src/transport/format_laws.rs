//! How identifiers, addresses and the texts of a body are written and read.
use vstd::prelude::*;

use crate::error::{Error, ErrorKind};
use crate::fields::{comes_before, law_lookup_after_put, lookup, names, put, Field};
use crate::text::{
    dec, find_text, hex, hex_fixed, join, parse_uint, split, trim, words, IntError,
};
use crate::text_laws::{
    all_digits, law_first_text_is_found, law_hex_fixed_width, law_numerals_are_read,
    law_split_and_join, lemma_read_digits, meaning, occurs_at,
};
use crate::transport::direct::{ip_to_bytes, octet_of, plain_number, socket_addr_of};
use crate::transport::message_laws::{is_one_line, law_addresses_are_read, lemma_octet};
use crate::transport::request::{client_id_text, request_id, signed_dec};
use crate::transport::response::{
    body_keys, body_of_text, check_response, header_of, headers_of, response_body_field, sections,
    status_line_of, DHResponse,
};
use crate::transport::xml::{path, tree_of, xml_tree, XmlMark};

verus! {

/// A client's identifier is its bytes in hexadecimal without leading zeros, with blanks between them.
pub proof fn law_client_identifiers(cid: Seq<u8>, b: u8)
    ensures
        client_id_text(Seq::empty()).len() == 0,
        client_id_text(seq![b]) == hex(b as nat),
        cid.len() > 0 ==> client_id_text(cid.push(b)) == client_id_text(cid) + " "@ + hex(b as nat),
{
    let parts = cid.map_values(|x: u8| hex(x as nat));
    let more = cid.push(b).map_values(|x: u8| hex(x as nat));
    assert(more =~= parts.push(hex(b as nat)));
    assert(more.drop_last() =~= parts);
    assert(seq![b].map_values(|x: u8| hex(x as nat)) =~= seq![hex(b as nat)]);
    assert(Seq::<u8>::empty().map_values(|x: u8| hex(x as nat)) =~= Seq::empty());
}

/// A negative number has a minus sign before its amount.
pub proof fn law_signed_numbers(n: nat)
    ensures
        signed_dec(n as int) == dec(n),
        n > 0 ==> signed_dec(-(n as int)) == "-"@ + dec(n),
{
}

/// The number of a request is its two halves, sixteen hexadecimal digits each, the higher one first.
pub proof fn law_request_numbers(high: u64, low: u64)
    ensures
        request_id(high, low).len() == 32,
        request_id(high, low).take(16) == hex_fixed(high as nat, 16),
        request_id(high, low).skip(16) == hex_fixed(low as nat, 16),
{
    law_hex_fixed_width(high as nat, 16);
    law_hex_fixed_width(low as nat, 16);
    assert(request_id(high, low).take(16) =~= hex_fixed(high as nat, 16));
    assert(request_id(high, low).skip(16) =~= hex_fixed(low as nat, 16));
}

/// A character that a text lacks keeps out whatever begins with it.
proof fn lemma_absent(text: Seq<char>, pattern: Seq<char>)
    requires
        pattern.len() > 0,
        forall|i: int| 0 <= i < text.len() ==> #[trigger] text[i] != pattern[0],
    ensures
        find_text(text, pattern) is None,
{
    law_first_text_is_found(text, pattern);
    if let Some(k) = find_text(text, pattern) {
        assert(occurs_at(text, pattern, k as int));
        assert(text.subrange(k as int, k as int + pattern.len())[0] == pattern[0]);
        assert(text[k as int] == pattern[0]);
    }
}

/// A pattern behind a text without its first character is found there.
proof fn lemma_present(head: Seq<char>, pattern: Seq<char>, body: Seq<char>)
    requires
        pattern.len() > 0,
        forall|i: int| 0 <= i < head.len() ==> #[trigger] head[i] != pattern[0],
    ensures
        find_text(head + pattern + body, pattern) == Some(head.len()),
{
    let text = head + pattern + body;
    let n = head.len() as int;
    let m = pattern.len() as int;
    law_first_text_is_found(text, pattern);
    assert(text.subrange(n, n + m) =~= pattern);
    assert(occurs_at(text, pattern, n));
    match find_text(text, pattern) {
        Some(k) => {
            assert(occurs_at(text, pattern, k as int));
            if k < n {
                assert(text.subrange(k as int, k as int + m)[0] == pattern[0]);
                assert(text[k as int] == head[k as int]);
            }
            if k > n {
                assert(!occurs_at(text, pattern, n));
            }
        },
        None => {
            assert(!occurs_at(text, pattern, n));
        },
    }
}

/// Where lines end with line feeds alone, an empty line still parts header and body; and a text
/// without one is no response.
pub proof fn law_line_feeds_part_sections(head: Seq<char>, body: Seq<char>)
    requires
        is_one_line(head),
        forall|i: int| 0 <= i < body.len() ==> #[trigger] body[i] != '\r',
    ensures
        sections(head + "\n\n"@ + body) == Some((head, body)),
        sections(head) is None,
{
    reveal_strlit("\r\n\r\n");
    reveal_strlit("\n\n");
    let gap = "\n\n"@;
    let text = head + gap + body;
    let n = head.len() as int;
    assert forall|i: int| 0 <= i < text.len() implies #[trigger] text[i] != '\r' by {
        if i < n {
            assert(text[i] == head[i]);
        } else if i >= n + 2 {
            assert(text[i] == body[i - n - 2]);
        }
    }
    lemma_absent(text, "\r\n\r\n"@);
    lemma_present(head, gap, body);
    assert(text.take(n) =~= head);
    assert(text.skip(n + 2) =~= body);
    lemma_absent(head, "\r\n\r\n"@);
    lemma_absent(head, gap);
}

/// A response may have no body: a blank one is none. Any other has the texts of its XML.
pub proof fn law_blank_bodies_are_none(body: Seq<char>)
    ensures
        trim(body).len() == 0 ==> body_of_text(body) == Ok::<Option<Seq<Field>>, Seq<char>>(None),
        trim(body).len() > 0 ==> match xml_tree(body) {
            Ok(tree) => body_of_text(body) == Ok::<Option<Seq<Field>>, Seq<char>>(Some(tree)),
            Err(e) => body_of_text(body) == Err::<Option<Seq<Field>>, Seq<char>>(e),
        },
{
}

/// A response with a code below 300 passes; any other is a failure.
pub proof fn law_good_responses_pass(res: DHResponse, r: Result<DHResponse, Error>)
    requires
        call_ensures(check_response, (res,), r),
    ensures
        res.code < 300 ==> r == Ok::<DHResponse, Error>(res),
        res.code >= 300 ==> (r matches Err(e) && e.kind == ErrorKind::InvalidData && e.message@
            == "error response: "@ + res.status@ + " ("@ + dec(res.code as nat) + ")"@),
{
}

/// A text in the body of a response is found by its path; where there is none that is a failure.
pub proof fn law_texts_of_a_body_are_found(
    res: &DHResponse,
    key: &str,
    r: Result<&str, Error>,
)
    requires
        call_ensures(response_body_field, (res, key), r),
    ensures
        r is Ok <==> res.body is Some && lookup(res.body->0@, key@) is Some,
        r matches Ok(v) ==> lookup(res.body->0@, key@) == Some(v@),
        r matches Err(e) ==> e.kind == ErrorKind::InvalidData,
{
}

/// The order of names: a name stands before those that continue it, and otherwise the first
/// character in which two names differ decides.
pub proof fn law_order_of_names(p: Seq<char>, c: char, x: Seq<char>, d: char, y: Seq<char>)
    ensures
        comes_before(p, p + seq![c] + x),
        !comes_before(p + seq![c] + x, p),
        c != d ==> (comes_before(p + seq![c] + x, p + seq![d] + y) <==> c < d),
    decreases p.len(),
{
    let a = p + seq![c] + x;
    let b = p + seq![d] + y;
    if p.len() > 0 {
        law_order_of_names(p.skip(1), c, x, d, y);
        assert(a.skip(1) =~= p.skip(1) + seq![c] + x);
        assert(b.skip(1) =~= p.skip(1) + seq![d] + y);
        assert(a[0] == p[0] && b[0] == p[0]);
    } else {
        assert(a[0] == c && b[0] == d);
    }
}

/// Something in an XML document that is neither a tag nor a text.
pub open spec fn is_passed_over(m: XmlMark) -> bool {
    m is Prolog || m is Blank || m is CData || m is Comment || m is Instruction
}

/// What is neither a tag nor a text has no influence on the texts of a document.
pub proof fn law_only_tags_and_texts_count(
    before: Seq<XmlMark>,
    m: XmlMark,
    behind: Seq<XmlMark>,
    open: Seq<Seq<char>>,
    tree: Seq<Field>,
)
    requires
        is_passed_over(m),
    ensures
        tree_of(before + seq![m] + behind, open, tree) == tree_of(before + behind, open, tree),
    decreases before.len(),
{
    let a = before + seq![m] + behind;
    let b = before + behind;
    if before.len() == 0 {
        assert(a[0] == m);
        assert(a.skip(1) =~= behind);
        assert(b =~= behind);
    } else {
        let rest = before.skip(1);
        assert(a.skip(1) =~= rest + seq![m] + behind);
        assert(b.skip(1) =~= rest + behind);
        assert(a[0] == before[0] && b[0] == before[0]);
        match before[0] {
            XmlMark::Open(name) => law_only_tags_and_texts_count(
                rest,
                m,
                behind,
                open.push(name),
                tree,
            ),
            XmlMark::Close => {
                if open.len() > 0 {
                    law_only_tags_and_texts_count(rest, m, behind, open.drop_last(), tree);
                }
            },
            XmlMark::Text(s) => law_only_tags_and_texts_count(
                rest,
                m,
                behind,
                open,
                put(tree, path(open), s),
            ),
            _ => law_only_tags_and_texts_count(rest, m, behind, open, tree),
        }
    }
}

/// Opening tags, one for each name.
pub open spec fn opened(names: Seq<Seq<char>>) -> Seq<XmlMark> {
    names.map_values(|n: Seq<char>| XmlMark::Open(n))
}

/// So many closing tags.
pub open spec fn closed(n: nat) -> Seq<XmlMark> {
    Seq::new(n, |i: int| XmlMark::Close)
}

/// A text inside some elements, however deep, is found under their names with slashes between them;
/// and nothing else is.
pub proof fn law_a_text_is_under_its_path(names: Seq<Seq<char>>, text: Seq<char>)
    ensures
        tree_of(
            opened(names) + seq![XmlMark::Text(text)] + closed(names.len()) + seq![XmlMark::End],
            Seq::empty(),
            Seq::empty(),
        ) == Ok::<Seq<Field>, Seq<char>>(seq![(join(names, "/"@), text)]),
{
    lemma_opened(names, text, Seq::empty());
    assert(Seq::<Seq<char>>::empty() + names =~= names);
}

proof fn lemma_opened(names: Seq<Seq<char>>, text: Seq<char>, outer: Seq<Seq<char>>)
    ensures
        tree_of(
            opened(names) + seq![XmlMark::Text(text)] + closed(outer.len() + names.len()) + seq![
                XmlMark::End,
            ],
            outer,
            Seq::empty(),
        ) == Ok::<Seq<Field>, Seq<char>>(seq![(join(outer + names, "/"@), text)]),
    decreases names.len(),
{
    let n = outer.len() + names.len();
    let ms = opened(names) + seq![XmlMark::Text(text)] + closed(n) + seq![XmlMark::End];
    if names.len() == 0 {
        assert(outer + names =~= outer);
        assert(ms[0] == XmlMark::Text(text));
        assert(ms.skip(1) =~= closed(n) + seq![XmlMark::End]);
        let tree = seq![(join(outer, "/"@), text)];
        assert(put(Seq::empty(), path(outer), text) =~= tree);
        lemma_closed(outer, tree);
    } else {
        let rest = names.skip(1);
        assert(ms[0] == XmlMark::Open(names[0]));
        assert(opened(names).skip(1) =~= opened(rest));
        assert(ms.skip(1) =~= opened(rest) + seq![XmlMark::Text(text)] + closed(n) + seq![
            XmlMark::End,
        ]);
        lemma_opened(rest, text, outer.push(names[0]));
        assert(outer.push(names[0]) + rest =~= outer + names);
    }
}

proof fn lemma_closed(open: Seq<Seq<char>>, tree: Seq<Field>)
    ensures
        tree_of(closed(open.len()) + seq![XmlMark::End], open, tree) == Ok::<
            Seq<Field>,
            Seq<char>,
        >(tree),
    decreases open.len(),
{
    let ms = closed(open.len()) + seq![XmlMark::End];
    if open.len() == 0 {
        assert(ms[0] == XmlMark::End);
    } else {
        assert(ms[0] == XmlMark::Close);
        assert(ms.skip(1) =~= closed((open.len() - 1) as nat) + seq![XmlMark::End]);
        lemma_closed(open.drop_last(), tree);
    }
}

/// A closing tag without an opening one, and what the reader could not read, make a document
/// unreadable.
pub proof fn law_broken_documents_are_refused(tree: Seq<Field>, e: Seq<char>, rest: Seq<XmlMark>)
    ensures
        tree_of(seq![XmlMark::Close] + rest, Seq::empty(), tree) is Err,
        forall|open: Seq<Seq<char>>| #[trigger]
            tree_of(seq![XmlMark::Failed(e)] + rest, open, tree) is Err,
{
}

proof fn lemma_dec_is_unique(s: Seq<char>, n: nat)
    requires
        all_digits(s),
        s.len() > 0,
        s.len() > 1 ==> s[0] != '0',
        meaning(s) == n,
    ensures
        s == dec(n),
    decreases s.len(),
{
    let rest = s.drop_last();
    let c = s.last();
    assert('0' <= s[s.len() - 1] <= '9');
    if s.len() == 1 {
        assert(rest =~= Seq::empty());
        assert(meaning(rest) == 0);
        assert(s =~= dec(n));
    } else {
        assert(all_digits(rest)) by {
            assert forall|i: int| 0 <= i < rest.len() implies '0' <= #[trigger] rest[i] <= '9' by {
                assert(rest[i] == s[i]);
            }
        }
        assert(rest[0] == s[0]);
        lemma_meaning_is_positive(rest);
        lemma_dec_is_unique(rest, meaning(rest) as nat);
        assert(n == 10 * meaning(rest) + (c as int - 48));
        assert(n / 10 == meaning(rest) && n % 10 == c as int - 48);
        assert(n >= 10);
        assert(s =~= rest.push(c));
        assert(c == (48 + n % 10) as char);
    }
}

proof fn lemma_meaning_is_positive(s: Seq<char>)
    requires
        all_digits(s),
        s.len() > 0,
        s[0] != '0',
    ensures
        meaning(s) > 0,
    decreases s.len(),
{
    let rest = s.drop_last();
    assert('0' <= s[s.len() - 1] <= '9');
    if s.len() == 1 {
        assert(rest =~= Seq::empty());
        assert(meaning(rest) == 0);
    } else {
        assert forall|i: int| 0 <= i < rest.len() implies '0' <= #[trigger] rest[i] <= '9' by {
            assert(rest[i] == s[i]);
        }
        assert(rest[0] == s[0]);
        lemma_meaning_is_positive(rest);
    }
}

/// The numbers of an address are written without leading zeros and are at most 255.
pub proof fn law_octets(s: Seq<char>)
    ensures
        octet_of(s) is Some <==> exists|n: u8| s == #[trigger] dec(n as nat),
        octet_of(s) matches Some(n) ==> s == dec(n as nat),
{
    if let Some(n) = octet_of(s) {
        law_numerals_are_read(s, 0xff);
        assert(plain_number(s, 0xff) == Some(n as nat));
        lemma_read_digits(s, 0xff);
        lemma_dec_is_unique(s, n as nat);
        assert(s == dec(n as nat));
    }
    if exists|n: u8| s == #[trigger] dec(n as nat) {
        let n = choose|n: u8| s == #[trigger] dec(n as nat);
        lemma_octet(n);
    }
}

/// Only four numbers with dots between them, a colon and a port are an address.
pub proof fn law_only_addresses_are_read(text: Seq<char>)
    ensures
        socket_addr_of(text) matches Some(a) ==> a.0.len() == 4 && exists|port: Seq<char>|
            {
                &&& text == #[trigger] written_address(a.0, port)
                &&& all_digits(port)
                &&& port.len() > 0
                &&& meaning(port) == a.1
            },
{
    if let Some(a) = socket_addr_of(text) {
        let sides = split(text, ':');
        let parts = split(sides[0], '.');
        law_split_and_join(text, ':');
        law_split_and_join(sides[0], '.');
        law_octets(parts[0]);
        law_octets(parts[1]);
        law_octets(parts[2]);
        law_octets(parts[3]);
        let port = sides[1];
        lemma_read_digits(port, 0xffff);
        reveal_with_fuel(join, 4);
        assert(sides.drop_last() =~= seq![sides[0]]);
        assert(join(sides, seq![':']) =~= sides[0] + seq![':'] + port);
        let p3 = parts.drop_last();
        let p2 = p3.drop_last();
        assert(p2.drop_last() =~= seq![parts[0]]);
        assert(join(parts, seq!['.']) =~= parts[0] + seq!['.'] + parts[1] + seq!['.'] + parts[2]
            + seq!['.'] + parts[3]);
        assert(text == written_address(a.0, port));
    }
}

/// An address as it is written.
pub open spec fn written_address(ip: Seq<u8>, port: Seq<char>) -> Seq<char> {
    dec(ip[0] as nat) + seq!['.'] + dec(ip[1] as nat) + seq!['.'] + dec(ip[2] as nat) + seq!['.']
        + dec(ip[3] as nat) + seq![':'] + port
}

/// Headers are read exactly where every line is one.
pub proof fn law_headers_are_all_or_nothing(lines: Seq<Seq<char>>, fields: Seq<Field>)
    ensures
        headers_of(lines, fields) is Ok <==> forall|i: int|
            0 <= i < lines.len() ==> header_of(#[trigger] lines[i]) is Ok,
    decreases lines.len(),
{
    if lines.len() > 0 {
        let rest = lines.skip(1);
        if let Ok(f) = header_of(lines[0]) {
            law_headers_are_all_or_nothing(rest, put(fields, f.0, f.1));
            if headers_of(lines, fields) is Ok {
                assert forall|i: int| 0 <= i < lines.len() implies header_of(
                    #[trigger] lines[i],
                ) is Ok by {
                    if i > 0 {
                        assert(rest[i - 1] == lines[i]);
                    }
                }
            }
            if forall|i: int| 0 <= i < lines.len() ==> header_of(#[trigger] lines[i]) is Ok {
                assert forall|i: int| 0 <= i < rest.len() implies header_of(
                    #[trigger] rest[i],
                ) is Ok by {
                    assert(rest[i] == lines[i + 1]);
                }
            }
        }
    }
}

/// Headers are looked up by their names: a line adds its header to those of the lines before it.
pub proof fn law_headers_add_up(
    lines: Seq<Seq<char>>,
    line: Seq<char>,
    name: Seq<char>,
    value: Seq<char>,
    other: Seq<char>,
    fields: Seq<Field>,
)
    requires
        headers_of(lines, fields) is Ok,
        header_of(line) == Ok::<Field, Seq<char>>((name, value)),
    ensures
        headers_of(lines.push(line), fields) is Ok,
        lookup(headers_of(lines.push(line), fields)->Ok_0, name) == Some(value),
        other != name ==> lookup(headers_of(lines.push(line), fields)->Ok_0, other) == lookup(
            headers_of(lines, fields)->Ok_0,
            other,
        ),
    decreases lines.len(),
{
    let all = lines.push(line);
    if lines.len() == 0 {
        assert(all.skip(1) =~= Seq::empty());
        assert(headers_of(all.skip(1), put(fields, name, value)) == Ok::<Seq<Field>, Seq<char>>(
            put(fields, name, value),
        ));
        law_lookup_after_put(fields, name, value, other);
    } else {
        let f = header_of(lines[0])->Ok_0;
        assert(all[0] == lines[0]);
        assert(all.skip(1) =~= lines.skip(1).push(line));
        law_headers_add_up(lines.skip(1), line, name, value, other, put(fields, f.0, f.1));
    }
}

/// A first line is read only where it has a version and a code, and the code is a number of sixteen
/// bits.
pub proof fn law_first_lines_are_refused(line: Seq<char>)
    ensures
        status_line_of(line) is Ok <==> words(line).len() >= 2 && parse_uint(
            words(line)[1],
            0xffff,
        ) is Ok,
        status_line_of(line) matches Ok(s) ==> s.0 == words(line)[0] && parse_uint(
            words(line)[1],
            0xffff,
        ) == Ok::<nat, IntError>(s.1 as nat),
{
    if words(line).len() >= 2 {
        law_numerals_are_read(words(line)[1], 0xffff);
    }
}

/// An address goes to the camera as the port and the four numbers, with every bit inverted; what is
/// no address is refused.
pub proof fn law_addresses_are_sent(
    a: u8,
    b: u8,
    c: u8,
    d: u8,
    port: u16,
    text: &str,
    r: Result<Vec<u8>, Error>,
)
    requires
        text@ == dec(a as nat) + seq!['.'] + (dec(b as nat) + seq!['.'] + (dec(c as nat) + seq!['.']
            + dec(d as nat))) + seq![':'] + dec(port as nat),
        call_ensures(ip_to_bytes, (text,), r),
    ensures
        r matches Ok(v) && v@.len() == 6 && (255 - v@[0]) * 256 + (255 - v@[1]) == port && v@[2]
            + a == 255 && v@[3] + b == 255 && v@[4] + c == 255 && v@[5] + d == 255,
{
    law_addresses_are_read(a, b, c, d, port);
}

/// The names of the texts in a body, for a complaint about one that is missing.
pub proof fn law_names_are_listed(res: &DHResponse, s: String)
    requires
        call_ensures(body_keys, (res,), s),
    ensures
        res.body is None ==> s@ == "<none>"@,
        res.body matches Some(b) ==> s@ == join(Seq::new(b@.len(), |i: int| b@[i].0), ","@),
{
    if let Some(b) = res.body {
        assert(names(b@) =~= Seq::new(b@.len(), |i: int| b@[i].0));
    }
}

} // verus!
