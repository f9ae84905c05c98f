//! How requests, responses and their bodies are written and read.
use vstd::prelude::*;
use vstd::utf8::encode_utf8;

use crate::error::Error;
use crate::fields::{law_lookup_after_put, lookup, put, Field};
use crate::text::{
    dec, find_text, is_white, is_word, join, lemma_dec_is_word, lemma_find_is, lines, split, trim,
    words,
};
use crate::text_laws::{
    law_dec_means_the_number, law_first_text_is_found, law_lines, law_numerals_are_read,
    law_white_space, law_words, occurs_at,
};
use crate::transport::course_laws::{begins, ends};
use crate::transport::direct::{octet_of, plain_number, socket_addr_of};
use crate::transport::ptcp::text_of;
use crate::transport::request::{
    base64_text, password, password_digest, request_id, request_text, sha1_digest, Stamped,
    SDK_TOU_TYPE, SDK_TS_VERSION, SDK_VERSION, USERKEY, USERNAME,
};
use crate::transport::response::{
    body_of_text, has_body, header_of, headers_of, response_of, sections, status_line_of,
    DHResponse, Response,
};
use crate::transport::xml::{are_plain, body_xml, document, element, elements, escape, put_all};
use crate::transport::xml_laws::{distinct_names, law_body_is_read_back};

verus! {

/// A text has no line ends in it.
pub open spec fn is_one_line(s: Seq<char>) -> bool {
    forall|i: int| 0 <= i < s.len() ==> #[trigger] s[i] != '\r' && s[i] != '\n'
}

proof fn lemma_word_is_one_line(s: Seq<char>)
    requires
        is_word(s),
    ensures
        is_one_line(s),
{
    law_white_space('a');
    assert forall|i: int| 0 <= i < s.len() implies #[trigger] s[i] != '\r' && s[i] != '\n' by {
        assert(!is_white(s[i]));
    }
}

proof fn lemma_sections(head: Seq<char>, body: Seq<char>)
    requires
        is_one_line(head),
    ensures
        sections(head + "\r\n\r\n"@ + body) == Some((head, body)),
{
    reveal_strlit("\r\n\r\n");
    let gap = "\r\n\r\n"@;
    let text = head + gap + body;
    let n = head.len() as int;
    law_first_text_is_found(text, gap);
    assert(text.subrange(n, n + 4) =~= gap);
    assert(occurs_at(text, gap, n));
    assert forall|i: int| 0 <= i < n implies !(#[trigger] occurs_at(text, gap, i)) by {
        if occurs_at(text, gap, i) {
            assert(text.subrange(i, i + 4)[0] == gap[0]);
            assert(text[i] == head[i]);
        }
    }
    match find_text(text, gap) {
        Some(k) => {
            assert(occurs_at(text, gap, k as int));
            if k > n {
                assert(!occurs_at(text, gap, n));
            }
            if k < n {
                assert(!occurs_at(text, gap, k as int));
            }
            assert(k == n);
        },
        None => {
            assert(!occurs_at(text, gap, n));
        },
    }
    assert(text.take(n) =~= head);
    assert(text.skip(n + 4) =~= body);
}

proof fn lemma_status_line(version: Seq<char>, code: u16, phrase: Option<Seq<char>>)
    requires
        is_word(version),
        phrase matches Some(p) ==> is_word(p),
    ensures
        ({
            let line = version + seq![' '] + dec(code as nat) + (match phrase {
                Some(p) => seq![' '] + p,
                None => Seq::empty(),
            });
            &&& is_one_line(line)
            &&& line.len() > 0
            &&& status_line_of(line) == Ok::<(Seq<char>, u16, Seq<char>), Seq<char>>(
                (
                    version,
                    code,
                    match phrase {
                        Some(p) => p,
                        None => "UNKNOWN"@,
                    },
                ),
            )
        }),
{
    let number = dec(code as nat);
    law_dec_means_the_number(code as nat);
    lemma_dec_is_word(code as nat);
    law_numerals_are_read(number, 0xffff);
    lemma_word_is_one_line(version);
    lemma_word_is_one_line(number);
    let tail = match phrase {
        Some(p) => seq![' '] + p,
        None => Seq::empty(),
    };
    let line = version + seq![' '] + number + tail;
    match phrase {
        Some(p) => {
            lemma_word_is_one_line(p);
            law_words(version, number + seq![' '] + p);
            law_words(number, p);
            law_words(p, Seq::empty());
            assert(line =~= version + seq![' '] + (number + seq![' '] + p));
            assert(words(line) =~= seq![version, number, p]);
            let rest = words(line).skip(2);
            assert(rest =~= seq![p]);
            assert(join(rest, " "@) == p);
        },
        None => {
            law_words(version, number);
            law_words(number, Seq::empty());
            assert(line =~= version + seq![' '] + number);
            assert(words(line) =~= seq![version, number]);
            assert(words(line).skip(2) =~= Seq::empty());
            assert(join(words(line).skip(2), " "@).len() == 0);
        },
    }
    assert forall|i: int| 0 <= i < line.len() implies #[trigger] line[i] != '\r' && line[i]
        != '\n' by {
        let n = version.len() as int;
        let m = number.len() as int;
        if i < n {
            assert(line[i] == version[i]);
        } else if i == n {
        } else if i < n + 1 + m {
            assert(line[i] == number[i - n - 1]);
        } else if i == n + 1 + m {
        } else {
            assert(line[i] == phrase->0[i - n - m - 2]);
        }
    }
}

/// A response is read as it is written: its version, its code and its phrase in the first line, and
/// behind an empty line its body. A response without a phrase is said to be unknown.
pub proof fn law_responses_are_read(
    version: Seq<char>,
    code: u16,
    phrase: Option<Seq<char>>,
    body: Seq<char>,
)
    requires
        is_word(version),
        phrase matches Some(p) ==> is_word(p),
    ensures
        ({
            let line = version + seq![' '] + dec(code as nat) + (match phrase {
                Some(p) => seq![' '] + p,
                None => Seq::empty(),
            });
            let r = response_of(line + "\r\n\r\n"@ + body);
            match body_of_text(body) {
                Ok(fields) => r == Ok::<Response, Seq<char>>(
                    Response {
                        version,
                        code,
                        status: match phrase {
                            Some(p) => p,
                            None => "UNKNOWN"@,
                        },
                        headers: Seq::empty(),
                        body: fields,
                    },
                ),
                Err(e) => r == Err::<Response, Seq<char>>(e),
            }
        }),
{
    lemma_status_line(version, code, phrase);
    let line = version + seq![' '] + dec(code as nat) + (match phrase {
        Some(p) => seq![' '] + p,
        None => Seq::empty(),
    });
    lemma_sections(line, body);
    law_lines(line, Seq::empty());
    assert(lines(line) =~= seq![line]);
    assert(lines(line).skip(1) =~= Seq::empty());
    assert(headers_of(lines(line).skip(1), Seq::empty()) == Ok::<Seq<Field>, Seq<char>>(
        Seq::empty(),
    ));
}

/// A header is what stands before the first colon and behind it, without white space around.
pub proof fn law_headers_are_read(name: Seq<char>, value: Seq<char>, fields: Seq<Field>)
    requires
        forall|i: int| 0 <= i < name.len() ==> #[trigger] name[i] != ':',
        trim(name).len() > 0,
    ensures
        header_of(name + seq![':'] + value) == Ok::<Field, Seq<char>>((trim(name), trim(value))),
        header_of(name) is Err,
        header_of(seq![':'] + value) is Err,
        headers_of(seq![name + seq![':'] + value], fields) == Ok::<Seq<Field>, Seq<char>>(
            put(fields, trim(name), trim(value)),
        ),
{
    let line = name + seq![':'] + value;
    let n = name.len();
    assert(line[n as int] == ':');
    assert forall|i: int| 0 <= i < n implies line[i] != ':' by {
        assert(line[i] == name[i]);
    }
    lemma_find_is(line, ':', n);
    assert(line.take(n as int) =~= name);
    assert(line.skip(n as int + 1) =~= value);
    lemma_find_is(name, ':', n);
    let bare = seq![':'] + value;
    assert(bare[0] == ':');
    lemma_find_is(bare, ':', 0);
    assert(bare.take(0) =~= Seq::empty());
    assert(trim(Seq::<char>::empty()).len() == 0);
    let ls = seq![line];
    assert(ls.skip(1) =~= Seq::empty());
    assert(headers_of(ls.skip(1), put(fields, trim(name), trim(value))) == Ok::<
        Seq<Field>,
        Seq<char>,
    >(put(fields, trim(name), trim(value))));
}

pub proof fn lemma_split_front(x: Seq<char>, c: char, y: Seq<char>)
    requires
        forall|i: int| 0 <= i < x.len() ==> #[trigger] x[i] != c,
    ensures
        split(x, c) == seq![x],
        split(x + seq![c] + y, c) == seq![x] + split(y, c),
{
    let n = x.len();
    lemma_find_is(x, c, n);
    let s = x + seq![c] + y;
    assert(s[n as int] == c);
    assert forall|i: int| 0 <= i < n implies s[i] != c by {
        assert(s[i] == x[i]);
    }
    lemma_find_is(s, c, n);
    assert(s.take(n as int) =~= x);
    assert(s.skip(n as int + 1) =~= y);
}

pub proof fn lemma_octet(n: u8)
    ensures
        octet_of(dec(n as nat)) == Some(n),
        dec(n as nat).len() <= 3,
{
    let s = dec(n as nat);
    law_dec_means_the_number(n as nat);
    law_numerals_are_read(s, 0xff);
    assert('0' <= s[0] <= '9');
    reveal_with_fuel(dec, 4);
    assert(plain_number(s, 0xff) == Some(n as nat));
}

/// An address of four numbers and a port is read as those.
#[verifier::rlimit(40)]
pub proof fn law_addresses_are_read(a: u8, b: u8, c: u8, d: u8, port: u16)
    ensures
        socket_addr_of(
            dec(a as nat) + seq!['.'] + (dec(b as nat) + seq!['.'] + (dec(c as nat) + seq!['.']
                + dec(d as nat))) + seq![':'] + dec(port as nat),
        ) == Some((seq![a, b, c, d], port)),
{
    let (sa, sb, sc, sd) = (dec(a as nat), dec(b as nat), dec(c as nat), dec(d as nat));
    let sp = dec(port as nat);
    law_dec_means_the_number(a as nat);
    law_dec_means_the_number(b as nat);
    law_dec_means_the_number(c as nat);
    law_dec_means_the_number(d as nat);
    law_dec_means_the_number(port as nat);
    let ip = sa + seq!['.'] + (sb + seq!['.'] + (sc + seq!['.'] + sd));
    let text = ip + seq![':'] + sp;
    assert forall|i: int| 0 <= i < ip.len() implies #[trigger] ip[i] != ':' by {
        let (na, nb, nc) = (sa.len() as int, sb.len() as int, sc.len() as int);
        if i < na {
            assert(ip[i] == sa[i]);
        } else if i == na {
        } else if i < na + 1 + nb {
            assert(ip[i] == sb[i - na - 1]);
        } else if i == na + 1 + nb {
        } else if i < na + nb + 2 + nc {
            assert(ip[i] == sc[i - na - nb - 2]);
        } else if i == na + nb + 2 + nc {
        } else {
            assert(ip[i] == sd[i - na - nb - nc - 3]);
        }
    }
    lemma_split_front(ip, ':', sp);
    lemma_split_front(sp, ':', Seq::empty());
    assert(split(text, ':') =~= seq![ip, sp]);
    lemma_split_front(sa, '.', sb + seq!['.'] + (sc + seq!['.'] + sd));
    lemma_split_front(sb, '.', sc + seq!['.'] + sd);
    lemma_split_front(sc, '.', sd);
    lemma_split_front(sd, '.', Seq::empty());
    assert(split(ip, '.') =~= seq![sa, sb, sc, sd]);
    lemma_octet(a);
    lemma_octet(b);
    lemma_octet(c);
    lemma_octet(d);
    law_numerals_are_read(sp, 0xffff);
    assert('0' <= sp[0] <= '9');
    assert(plain_number(sp, 0xffff) == Some(port as nat));
}

/// In character data the five characters that mean something in XML are replaced, and no other.
pub proof fn law_escaping(s: Seq<char>, c: char)
    ensures
        escape(Seq::empty()).len() == 0,
        escape(s.push('&')) == escape(s) + "&amp;"@,
        escape(s.push('<')) == escape(s) + "&lt;"@,
        escape(s.push('>')) == escape(s) + "&gt;"@,
        escape(s.push('"')) == escape(s) + "&quot;"@,
        escape(s.push('\'')) == escape(s) + "&apos;"@,
        c != '&' && c != '<' && c != '>' && c != '"' && c != '\'' ==> escape(s.push(c)) == escape(
            s,
        ).push(c),
{
    assert(s.push('&').drop_last() =~= s);
    assert(s.push('<').drop_last() =~= s);
    assert(s.push('>').drop_last() =~= s);
    assert(s.push('"').drop_last() =~= s);
    assert(s.push('\'').drop_last() =~= s);
    assert(s.push(c).drop_last() =~= s);
    if c != '&' && c != '<' && c != '>' && c != '"' && c != '\'' {
        assert(escape(s) + seq![c] =~= escape(s).push(c));
    }
}

/// A body has an element for each field, its text escaped between tags with its name, and all of them
/// inside `body`.
pub proof fn law_bodies_are_written(fields: Seq<Field>, name: Seq<char>, value: Seq<char>)
    ensures
        document(Seq::empty()) == "<body></body>"@,
        elements(fields.push((name, value))) == elements(fields) + ("<"@ + name + ">"@ + escape(
            value,
        ) + "</"@ + name + ">"@),
        document(fields) == "<body>"@ + elements(fields) + "</body>"@,
        body_xml(seq![(name, value)]) == "<body><"@ + name + ">"@ + escape(value) + "</"@ + name
            + "></body>"@,
{
    reveal_strlit("<body></body>");
    reveal_strlit("<body>");
    reveal_strlit("</body>");
    reveal_strlit("<body><");
    reveal_strlit("></body>");
    reveal_strlit("<");
    reveal_strlit(">");
    assert(document(Seq::empty()) =~= "<body></body>"@);
    assert(fields.push((name, value)).drop_last() =~= fields);
    let one = seq![(name, value)];
    assert(one.drop_last() =~= Seq::empty());
    assert(put_all(one.drop_last()) =~= Seq::empty());
    assert(put_all(one) =~= one);
    assert(elements(one.drop_last()) =~= Seq::empty());
    assert(elements(one) =~= element((name, value)));
    assert(body_xml(one) =~= "<body><"@ + name + ">"@ + escape(value) + "</"@ + name
        + "></body>"@);
}

/// Of the fields of a body each is found by its name; of two with the same name the later one.
pub proof fn law_fields_of_a_body(fields: Seq<Field>, name: Seq<char>, value: Seq<char>)
    ensures
        lookup(put_all(fields.push((name, value))), name) == Some(value),
        forall|other: Seq<char>|
            other != name ==> #[trigger] lookup(put_all(fields.push((name, value))), other)
                == lookup(put_all(fields), other),
{
    let all = fields.push((name, value));
    assert(all.drop_last() =~= fields);
    assert forall|other: Seq<char>| other != name implies #[trigger] lookup(put_all(all), other)
        == lookup(put_all(fields), other) by {
        law_lookup_after_put(put_all(fields), name, value, other);
    }
    law_lookup_after_put(put_all(fields), name, value, name);
}

/// A header between the first line and the empty line is one of the response.
#[verifier::rlimit(40)]
pub proof fn law_a_header_belongs_to_its_response(
    version: Seq<char>,
    code: u16,
    phrase: Seq<char>,
    name: Seq<char>,
    value: Seq<char>,
    body: Seq<char>,
)
    requires
        is_word(version),
        is_word(phrase),
        is_word(name),
        forall|i: int| 0 <= i < name.len() ==> #[trigger] name[i] != ':',
        is_one_line(value),
        trim(name) == name,
        body_of_text(body) is Ok,
    ensures
        response_of(
            version + seq![' '] + dec(code as nat) + (seq![' '] + phrase) + seq!['\r', '\n'] + (name
                + seq![':'] + value) + "\r\n\r\n"@ + body,
        ) == Ok::<Response, Seq<char>>(
            Response {
                version,
                code,
                status: phrase,
                headers: seq![(name, trim(value))],
                body: body_of_text(body)->Ok_0,
            },
        ),
{
    reveal_strlit("\r\n\r\n");
    let gap = "\r\n\r\n"@;
    lemma_status_line(version, code, Some(phrase));
    let line = version + seq![' '] + dec(code as nat) + (seq![' '] + phrase);
    let header = name + seq![':'] + value;
    lemma_word_is_one_line(name);
    assert(is_one_line(header)) by {
        assert forall|i: int| 0 <= i < header.len() implies #[trigger] header[i] != '\r'
            && header[i] != '\n' by {
            if i < name.len() {
                assert(header[i] == name[i]);
            } else if i > name.len() {
                assert(header[i] == value[i - name.len() - 1]);
            }
        }
    }
    let head = line + seq!['\r', '\n'] + header;
    let text = head + gap + body;
    let n = head.len() as int;
    let k = line.len() as int;
    law_first_text_is_found(text, gap);
    assert(text.subrange(n, n + 4) =~= gap);
    assert(occurs_at(text, gap, n));
    assert forall|i: int| 0 <= i < n implies !(#[trigger] occurs_at(text, gap, i)) by {
        if occurs_at(text, gap, i) {
            let at = text.subrange(i, i + 4);
            assert(at[0] == gap[0] && at[2] == gap[2]);
            assert(text[i] == at[0] && text[i + 2] == at[2]);
            if i < k {
                assert(text[i] == line[i]);
            } else if i == k {
                assert(text[k + 2] == header[0]);
                assert(header[0] == name[0]);
            } else if i > k + 1 {
                assert(text[i] == header[i - k - 2]);
            }
        }
    }
    match find_text(text, gap) {
        Some(j) => {
            assert(occurs_at(text, gap, j as int));
            if j > n {
                assert(!occurs_at(text, gap, n));
            }
            if j < n {
                assert(!occurs_at(text, gap, j as int));
            }
        },
        None => {
            assert(!occurs_at(text, gap, n));
        },
    }
    assert(text.take(n) =~= head);
    assert(text.skip(n + 4) =~= body);
    law_lines(line, header);
    law_lines(header, Seq::empty());
    assert(lines(head) =~= seq![line, header]);
    assert(lines(head).skip(1) =~= seq![header]);
    law_headers_are_read(name, value, Seq::empty());
    assert(put(Seq::empty(), name, trim(value)) =~= seq![(name, trim(value))]);
}

/// The line stands in the request.
pub open spec fn has_line(text: Seq<char>, line: Seq<char>) -> bool {
    exists|i: int| #[trigger] occurs_at(text, "\r\n"@ + line + "\r\n"@, i)
}

/// What ends with a line has that line, and goes on from the line before.
proof fn lemma_last_line(text: Seq<char>, before: Seq<char>, line: Seq<char>)
    requires
        begins(text, before + "\r\n"@ + line + "\r\n"@),
    ensures
        has_line(text, line),
        begins(text, before + "\r\n"@),
{
    let part = "\r\n"@ + line + "\r\n"@;
    let all = before + "\r\n"@ + line + "\r\n"@;
    let n = before.len() as int;
    assert forall|i: int| 0 <= i < part.len() implies text.subrange(n, n + part.len())[i]
        == part[i] by {
        assert(text[n + i] == all[n + i]);
    }
    assert(text.subrange(n, n + part.len()) =~= part);
    assert(occurs_at(text, part, n));
    let short = before + "\r\n"@;
    assert forall|i: int| 0 <= i < short.len() implies text[i] == #[trigger] short[i] by {
        assert(text[i] == all[i]);
    }
}

/// The lines up to the number in the sequence, put together from their labels and values.
proof fn lemma_front_lines(
    front: Seq<char>,
    n: Seq<char>,
    h: Seq<char>,
    l1: Seq<char>,
    first: Seq<char>,
    joints: Seq<Seq<char>>,
    labels: Seq<Seq<char>>,
    values: Seq<Seq<char>>,
)
    requires
        joints.len() == 4,
        labels.len() == 4,
        values.len() == 5,
        first + values[0] == h + n + l1,
        forall|i: int| 0 <= i < 4 ==> #[trigger] joints[i] == n + labels[i],
    ensures
        front + first + values[0] + joints[0] + values[1] + joints[1] + values[2] + joints[2]
            + values[3] + joints[3] + values[4] == front + h + n + l1 + n + (labels[0] + values[1])
            + n + (labels[1] + values[2]) + n + (labels[2] + values[3]) + n + (labels[3]
            + values[4]),
{
    assert(front + first + values[0] =~= front + (first + values[0]));
    assert(front + (h + n + l1) =~= front + h + n + l1);
    let p1 = front + h + n + l1;
    assert(p1 + joints[0] + values[1] =~= p1 + n + (labels[0] + values[1]));
    let p2 = p1 + n + (labels[0] + values[1]);
    assert(p2 + joints[1] + values[2] =~= p2 + n + (labels[1] + values[2]));
    let p3 = p2 + n + (labels[1] + values[2]);
    assert(p3 + joints[2] + values[3] =~= p3 + n + (labels[2] + values[3]));
    let p4 = p3 + n + (labels[2] + values[3]);
    assert(p4 + joints[3] + values[4] =~= p4 + n + (labels[3] + values[4]));
}

/// A text of lines has each of them.
proof fn lemma_all_lines(text: Seq<char>, front: Seq<char>, ls: Seq<Seq<char>>)
    requires
        begins(text, in_lines(front, ls) + "\r\n"@),
    ensures
        forall|i: int| 0 <= i < ls.len() ==> has_line(text, #[trigger] ls[i]),
    decreases ls.len(),
{
    if ls.len() > 0 {
        lemma_last_line(text, in_lines(front, ls.drop_last()), ls.last());
        lemma_all_lines(text, front, ls.drop_last());
        assert forall|i: int| 0 <= i < ls.len() implies has_line(text, #[trigger] ls[i]) by {
            if i < ls.len() - 1 {
                assert(ls[i] == ls.drop_last()[i]);
            }
        }
    }
}

/// A text with some lines behind it.
spec fn in_lines(front: Seq<char>, ls: Seq<Seq<char>>) -> Seq<char>
    decreases ls.len(),
{
    if ls.len() == 0 {
        front
    } else {
        in_lines(front, ls.drop_last()) + "\r\n"@ + ls.last()
    }
}

proof fn lemma_in_nine_lines(front: Seq<char>, ls: Seq<Seq<char>>)
    requires
        ls.len() == 9,
    ensures
        in_lines(front, ls) == front + "\r\n"@ + ls[0] + "\r\n"@ + ls[1] + "\r\n"@ + ls[2]
            + "\r\n"@ + ls[3] + "\r\n"@ + ls[4] + "\r\n"@ + ls[5] + "\r\n"@ + ls[6] + "\r\n"@
            + ls[7] + "\r\n"@ + ls[8],
{
    reveal_with_fuel(in_lines, 10);
    assert(ls.drop_last().drop_last().drop_last().drop_last().drop_last().drop_last().drop_last().drop_last().drop_last()
        =~= Seq::empty());
}

/// The lines from the authorization on, put together from the pieces of the signature.
proof fn lemma_signature_lines(
    p: Seq<char>,
    n: Seq<char>,
    l6: Seq<char>,
    w: Seq<Seq<char>>,
    l8: Seq<char>,
    label: Seq<char>,
    m: Seq<char>,
    joint: Seq<char>,
    last: Seq<char>,
)
    requires
        w.len() == 9,
        joint == n + l6 + n + w[0],
        last == w[8] + n + l8 + n + label,
    ensures
        p + joint + w[1] + w[2] + w[3] + w[4] + w[5] + w[6] + w[7] + last + m == p + n + l6 + n + (
        w[0] + w[1] + w[2] + w[3] + w[4] + w[5] + w[6] + w[7] + w[8]) + n + l8 + n + (label + m),
{
    let q = p + n + l6 + n;
    assert(p + joint =~= q + w[0]);
    let a = w[0] + w[1] + w[2];
    assert(q + w[0] + w[1] + w[2] =~= q + a);
    let b = a + w[3] + w[4] + w[5];
    assert(q + a + w[3] + w[4] + w[5] =~= q + b);
    let c = b + w[6] + w[7];
    assert(q + b + w[6] + w[7] =~= q + c);
    let d = c + w[8];
    let rest = n + l8 + n + label;
    assert(last =~= w[8] + rest);
    assert(q + c + last =~= q + d + rest);
    let e = q + d;
    assert(e + rest + m =~= e + n + l8 + n + (label + m));
}

/// What a request says of itself, apart from what it asks: the versions that the client claims, the
/// number of the request and its place in the sequence, who asks and the proof of that, and how long
/// its content is.
#[verifier::rlimit(40)]
pub proof fn law_requests_are_signed(
    path: Seq<char>,
    body: Option<Seq<char>>,
    stamp: Stamped,
    cseq: u32,
)
    ensures
        ({
            let text = request_text(path, body, stamp, cseq);
            let content = match body {
                Some(b) => b,
                None => Seq::empty(),
            };
            let proved = base64_text(
                sha1_digest(
                    encode_utf8(
                        dec(stamp.nonce as nat) + stamp.created
                            + "DHP2P:cba1b29e32cb17aa46b8ff9e73c7f40b:996103384cdf19179e19243e959bbf8b"@,
                    ),
                ),
            );
            &&& has_line(text, "X-Version: 6.7.11"@)
            &&& has_line(text, "X-TSVersion: TS_1.1.4"@)
            &&& has_line(text, "x-pcs-request-id: "@ + request_id(stamp.id_high, stamp.id_low))
            &&& has_line(text, "X-ToUType: Client/Dmss_Android"@)
            &&& has_line(text, "CSeq: "@ + dec(cseq as nat))
            &&& has_line(text, "Authorization: WSSE profile=\"UsernameToken\""@)
            &&& has_line(
                text,
                "X-WSSE: UsernameToken Username=\"cba1b29e32cb17aa46b8ff9e73c7f40b\", PasswordDigest=\""@
                    + proved + "\", Nonce=\""@ + dec(stamp.nonce as nat) + "\", Created=\""@
                    + stamp.created + "\""@,
            )
            &&& has_line(text, "Content-Length: "@ + dec(encode_utf8(content).len()))
        }),
{
    let text = request_text(path, body, stamp, cseq);
    let content = match body {
        Some(b) => b,
        None => Seq::empty(),
    };
    let proved = password_digest(stamp.nonce, stamp.created);
    let ls = header_lines(
        proved,
        stamp,
        dec(cseq as nat),
        dec(encode_utf8(content).len()),
    );
    lemma_request_is_in_lines(path, body, stamp, cseq);
    let front = (if body is Some {
        "NFPOST"@
    } else {
        "NFGET"@
    }) + " "@ + path + " HTTP/1.1"@;
    lemma_all_lines(text, front, ls);
    lemma_labels(ls, proved, stamp);
    assert(has_line(text, ls[0]));
    assert(has_line(text, ls[1]));
    assert(has_line(text, ls[2]));
    assert(has_line(text, ls[3]));
    assert(has_line(text, ls[4]));
    assert(has_line(text, ls[5]));
    assert(has_line(text, ls[6]));
    assert(has_line(text, ls[8]));
    lemma_authorization_joints();
    let who = "DHP2P:cba1b29e32cb17aa46b8ff9e73c7f40b:996103384cdf19179e19243e959bbf8b"@;
    assert(password(stamp.nonce, stamp.created) =~= dec(stamp.nonce as nat) + stamp.created + who);
}

/// The lines of a request behind its first.
spec fn header_lines(
    proved: Seq<char>,
    stamp: Stamped,
    place: Seq<char>,
    length: Seq<char>,
) -> Seq<Seq<char>> {
    seq![
        "X-Version: 6.7.11"@,
        "X-TSVersion: "@ + SDK_TS_VERSION@,
        "x-pcs-request-id: "@ + request_id(stamp.id_high, stamp.id_low),
        "X-ToUType: "@ + SDK_TOU_TYPE@,
        "CSeq: "@ + place,
        "Authorization: WSSE profile=\"UsernameToken\""@,
        "X-WSSE: UsernameToken Username=\""@ + USERNAME@ + "\", PasswordDigest=\""@ + proved
            + "\", Nonce=\""@ + dec(stamp.nonce as nat) + "\", Created=\""@ + stamp.created + "\""@,
        "Content-Type: "@,
        "Content-Length: "@ + length,
    ]
}

proof fn lemma_labels(ls: Seq<Seq<char>>, proved: Seq<char>, stamp: Stamped)
    requires
        exists|place: Seq<char>, length: Seq<char>|
            ls == #[trigger] header_lines(proved, stamp, place, length),
    ensures
        ls[1] == "X-TSVersion: TS_1.1.4"@,
        ls[3] == "X-ToUType: Client/Dmss_Android"@,
        ls[6]
            == "X-WSSE: UsernameToken Username=\"cba1b29e32cb17aa46b8ff9e73c7f40b\", PasswordDigest=\""@
            + proved + "\", Nonce=\""@ + dec(stamp.nonce as nat) + "\", Created=\""@ + stamp.created
            + "\""@,
{
    lemma_joints();
    lemma_authorization_joints();
}

#[verifier::rlimit(40)]
proof fn lemma_request_is_in_lines(
    path: Seq<char>,
    body: Option<Seq<char>>,
    stamp: Stamped,
    cseq: u32,
)
    ensures
        ({
            let content = match body {
                Some(b) => b,
                None => Seq::empty(),
            };
            let front = (if body is Some {
                "NFPOST"@
            } else {
                "NFGET"@
            }) + " "@ + path + " HTTP/1.1"@;
            let ls = header_lines(
                password_digest(stamp.nonce, stamp.created),
                stamp,
                dec(cseq as nat),
                dec(encode_utf8(content).len()),
            );
            &&& begins(request_text(path, body, stamp, cseq), in_lines(front, ls) + "\r\n"@)
            &&& request_text(path, body, stamp, cseq) == in_lines(front, ls) + "\r\n\r\n"@ + content
        }),
{
    let text = request_text(path, body, stamp, cseq);
    let content = match body {
        Some(b) => b,
        None => Seq::empty(),
    };
    let n = "\r\n"@;
    let q = (if body is Some {
        "NFPOST"@
    } else {
        "NFGET"@
    }) + " "@ + path;
    let front = q + " HTTP/1.1"@;
    let proved = password_digest(stamp.nonce, stamp.created);
    let place = dec(cseq as nat);
    let length = dec(encode_utf8(content).len());
    let ls = header_lines(proved, stamp, place, length);
    lemma_joints();
    lemma_authorization_joints();
    lemma_front_lines(
        q,
        n,
        " HTTP/1.1"@,
        "X-Version: 6.7.11"@,
        " HTTP/1.1\r\nX-Version: "@,
        seq![
            "\r\nX-TSVersion: "@,
            "\r\nx-pcs-request-id: "@,
            "\r\nX-ToUType: "@,
            "\r\nCSeq: "@,
        ],
        seq!["X-TSVersion: "@, "x-pcs-request-id: "@, "X-ToUType: "@, "CSeq: "@],
        seq![
            SDK_VERSION@,
            SDK_TS_VERSION@,
            request_id(stamp.id_high, stamp.id_low),
            SDK_TOU_TYPE@,
            place,
        ],
    );
    let p5 = front + n + ls[0] + n + ls[1] + n + ls[2] + n + ls[3] + n + ls[4];
    lemma_signature_lines(
        p5,
        n,
        ls[5],
        seq![
            "X-WSSE: UsernameToken Username=\""@,
            USERNAME@,
            "\", PasswordDigest=\""@,
            proved,
            "\", Nonce=\""@,
            dec(stamp.nonce as nat),
            "\", Created=\""@,
            stamp.created,
            "\""@,
        ],
        ls[7],
        "Content-Length: "@,
        length,
        "\r\nAuthorization: WSSE profile=\"UsernameToken\"\r\nX-WSSE: UsernameToken Username=\""@,
        "\"\r\nContent-Type: \r\nContent-Length: "@,
    );
    lemma_in_nine_lines(front, ls);
    let all = in_lines(front, ls);
    assert(text == all + "\r\n\r\n"@ + content);
    lemma_continues(all, n, content);
}

/// How a request begins and ends.
pub proof fn lemma_request_frame(
    path: Seq<char>,
    body: Option<Seq<char>>,
    stamp: Stamped,
    cseq: u32,
)
    ensures
        ({
            let text = request_text(path, body, stamp, cseq);
            let content = match body {
                Some(b) => b,
                None => Seq::empty(),
            };
            let front = (if body is Some {
                "NFPOST"@
            } else {
                "NFGET"@
            }) + " "@ + path + " HTTP/1.1"@;
            &&& begins(text, front + "\r\n"@)
            &&& ends(text, "\r\n\r\n"@ + content)
        }),
{
    let text = request_text(path, body, stamp, cseq);
    let content = match body {
        Some(b) => b,
        None => Seq::empty(),
    };
    let front = (if body is Some {
        "NFPOST"@
    } else {
        "NFGET"@
    }) + " "@ + path + " HTTP/1.1"@;
    let ls = header_lines(
        password_digest(stamp.nonce, stamp.created),
        stamp,
        dec(cseq as nat),
        dec(encode_utf8(content).len()),
    );
    lemma_request_is_in_lines(path, body, stamp, cseq);
    lemma_front_of_lines(text, front, ls);
    lemma_ends(in_lines(front, ls), "\r\n\r\n"@, content);
}

proof fn lemma_front_of_lines(text: Seq<char>, front: Seq<char>, ls: Seq<Seq<char>>)
    requires
        begins(text, in_lines(front, ls) + "\r\n"@),
    ensures
        begins(text, front + "\r\n"@),
    decreases ls.len(),
{
    if ls.len() > 0 {
        lemma_last_line(text, in_lines(front, ls.drop_last()), ls.last());
        lemma_front_of_lines(text, front, ls.drop_last());
    }
}

proof fn lemma_ends(all: Seq<char>, gap: Seq<char>, content: Seq<char>)
    ensures
        ends(all + gap + content, gap + content),
{
    let text = all + gap + content;
    let part = gap + content;
    assert(text =~= all + part);
    assert forall|i: int| 0 <= i < part.len() implies text[text.len() - part.len() + i]
        == #[trigger] part[i] by {
        assert(text[all.len() + i] == part[i]);
    }
}

proof fn lemma_continues(all: Seq<char>, n: Seq<char>, content: Seq<char>)
    ensures
        begins(all + (n + n) + content, all + n),
{
    let text = all + (n + n) + content;
    let part = all + n;
    assert forall|i: int| 0 <= i < part.len() implies text[i] == #[trigger] part[i] by {
        if i >= all.len() {
            assert(text[i] == (n + n)[i - all.len()]);
        }
    }
}

#[verifier::rlimit(40)]
proof fn lemma_joints()
    ensures
        " HTTP/1.1\r\nX-Version: "@ + SDK_VERSION@ == " HTTP/1.1"@ + "\r\n"@ + "X-Version: 6.7.11"@,
        "\r\nX-TSVersion: "@ == "\r\n"@ + "X-TSVersion: "@,
        "X-TSVersion: "@ + SDK_TS_VERSION@ == "X-TSVersion: TS_1.1.4"@,
        "\r\nx-pcs-request-id: "@ == "\r\n"@ + "x-pcs-request-id: "@,
        "\r\nX-ToUType: "@ == "\r\n"@ + "X-ToUType: "@,
        "X-ToUType: "@ + SDK_TOU_TYPE@ == "X-ToUType: Client/Dmss_Android"@,
        "\r\nCSeq: "@ == "\r\n"@ + "CSeq: "@,
        "\r\n\r\n"@ == "\r\n"@ + "\r\n"@,
{
    reveal_strlit("\r\n");
    reveal_strlit("\r\n\r\n");
    reveal_strlit(" HTTP/1.1\r\nX-Version: ");
    reveal_strlit("6.7.11");
    reveal_strlit(" HTTP/1.1");
    reveal_strlit("X-Version: 6.7.11");
    reveal_strlit("\r\nX-TSVersion: ");
    reveal_strlit("X-TSVersion: ");
    reveal_strlit("TS_1.1.4");
    reveal_strlit("X-TSVersion: TS_1.1.4");
    reveal_strlit("\r\nx-pcs-request-id: ");
    reveal_strlit("x-pcs-request-id: ");
    reveal_strlit("\r\nX-ToUType: ");
    reveal_strlit("X-ToUType: ");
    reveal_strlit("Client/Dmss_Android");
    reveal_strlit("X-ToUType: Client/Dmss_Android");
    reveal_strlit("\r\nCSeq: ");
    reveal_strlit("CSeq: ");
    assert(" HTTP/1.1\r\nX-Version: "@ + SDK_VERSION@ =~= " HTTP/1.1"@ + "\r\n"@
        + "X-Version: 6.7.11"@);
    assert("\r\nX-TSVersion: "@ =~= "\r\n"@ + "X-TSVersion: "@);
    assert("X-TSVersion: "@ + SDK_TS_VERSION@ =~= "X-TSVersion: TS_1.1.4"@);
    assert("\r\nx-pcs-request-id: "@ =~= "\r\n"@ + "x-pcs-request-id: "@);
    assert("\r\nX-ToUType: "@ =~= "\r\n"@ + "X-ToUType: "@);
    assert("X-ToUType: "@ + SDK_TOU_TYPE@ =~= "X-ToUType: Client/Dmss_Android"@);
    assert("\r\nCSeq: "@ =~= "\r\n"@ + "CSeq: "@);
    assert("\r\n\r\n"@ =~= "\r\n"@ + "\r\n"@);
}

#[verifier::rlimit(40)]
proof fn lemma_authorization_joints()
    ensures
        "\r\nAuthorization: WSSE profile=\"UsernameToken\"\r\nX-WSSE: UsernameToken Username=\""@
            == "\r\n"@ + "Authorization: WSSE profile=\"UsernameToken\""@ + "\r\n"@
            + "X-WSSE: UsernameToken Username=\""@,
        "\"\r\nContent-Type: \r\nContent-Length: "@ == "\""@ + "\r\n"@ + "Content-Type: "@ + "\r\n"@
            + "Content-Length: "@,
        "X-WSSE: UsernameToken Username=\""@ + USERNAME@ + "\", PasswordDigest=\""@
            == "X-WSSE: UsernameToken Username=\"cba1b29e32cb17aa46b8ff9e73c7f40b\", PasswordDigest=\""@,
        "DHP2P:"@ + USERNAME@ + ":"@ + USERKEY@
            == "DHP2P:cba1b29e32cb17aa46b8ff9e73c7f40b:996103384cdf19179e19243e959bbf8b"@,
{
    reveal_strlit("\r\n");
    reveal_strlit("\"");
    reveal_strlit(":");
    reveal_strlit("DHP2P:");
    reveal_strlit(
        "\r\nAuthorization: WSSE profile=\"UsernameToken\"\r\nX-WSSE: UsernameToken Username=\"",
    );
    reveal_strlit("Authorization: WSSE profile=\"UsernameToken\"");
    reveal_strlit("X-WSSE: UsernameToken Username=\"");
    reveal_strlit("\"\r\nContent-Type: \r\nContent-Length: ");
    reveal_strlit("Content-Type: ");
    reveal_strlit("Content-Length: ");
    reveal_strlit("cba1b29e32cb17aa46b8ff9e73c7f40b");
    reveal_strlit("996103384cdf19179e19243e959bbf8b");
    reveal_strlit("\", PasswordDigest=\"");
    reveal_strlit(
        "X-WSSE: UsernameToken Username=\"cba1b29e32cb17aa46b8ff9e73c7f40b\", PasswordDigest=\"",
    );
    reveal_strlit("DHP2P:cba1b29e32cb17aa46b8ff9e73c7f40b:996103384cdf19179e19243e959bbf8b");
    assert("\r\nAuthorization: WSSE profile=\"UsernameToken\"\r\nX-WSSE: UsernameToken Username=\""@
        =~= "\r\n"@ + "Authorization: WSSE profile=\"UsernameToken\""@ + "\r\n"@
        + "X-WSSE: UsernameToken Username=\""@);
    assert("\"\r\nContent-Type: \r\nContent-Length: "@ =~= "\""@ + "\r\n"@ + "Content-Type: "@
        + "\r\n"@ + "Content-Length: "@);
    assert("X-WSSE: UsernameToken Username=\""@ + USERNAME@ + "\", PasswordDigest=\""@
        =~= "X-WSSE: UsernameToken Username=\"cba1b29e32cb17aa46b8ff9e73c7f40b\", PasswordDigest=\""@);
    assert("DHP2P:"@ + USERNAME@ + ":"@ + USERKEY@
        =~= "DHP2P:cba1b29e32cb17aa46b8ff9e73c7f40b:996103384cdf19179e19243e959bbf8b"@);
}

/// What a text is encoded as is read as that text.
pub proof fn law_text_is_decoded(s: Seq<char>)
    ensures
        text_of(encode_utf8(s)) == s,
{
    vstd::utf8::encode_utf8_valid_utf8(s);
    vstd::utf8::encode_utf8_decode_utf8(s);
}

/// A datagram with a response is read as it was written: its code, its phrase, and each field of its
/// body under `body/` and its name.
pub proof fn law_answers_are_read(
    version: Seq<char>,
    code: u16,
    phrase: Seq<char>,
    fields: Seq<Field>,
    data: &[u8],
    r: Result<DHResponse, Error>,
)
    requires
        is_word(version),
        is_word(phrase),
        are_plain(fields),
        distinct_names(fields),
        data@ == encode_utf8(
            version + seq![' '] + dec(code as nat) + (seq![' '] + phrase) + "\r\n\r\n"@ + body_xml(
                fields,
            ),
        ),
        call_ensures(DHResponse::parse_datagram, (data,), r),
    ensures
        r matches Ok(res) && res@.version == version && res@.code == code && res@.status == phrase
            && (res@.body matches Some(b) && forall|i: int|
            0 <= i < fields.len() ==> lookup(b, "body/"@ + (#[trigger] fields[i]).0) == Some(
                fields[i].1,
            )),
{
    let line = version + seq![' '] + dec(code as nat) + (seq![' '] + phrase);
    let body = body_xml(fields);
    let text = line + "\r\n\r\n"@ + body;
    law_text_is_decoded(text);
    lemma_status_line(version, code, Some(phrase));
    lemma_sections(line, body);
    assert(has_body(text_of(data@), body_xml(fields)));
    law_responses_are_read(version, code, Some(phrase), body);
    law_body_is_read_back(fields);
}

} // verus!
