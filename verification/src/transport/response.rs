//! Responses of the signalling servers.
use vstd::prelude::*;
use vstd::slice::slice_subrange;
use vstd::string::StringExecFns;

use crate::error::{invalid, invalid_data, Error};
use crate::fields::{lookup, names, put, Field, FieldMap};
use crate::text::{
    copy, dec, find, find_char, find_pattern, find_text, from_chars, int_error_str, int_error_text,
    is_white, is_word, join, join_from, law_numeral_roundtrip, law_words_of_joined, lemma_dec_is_word,
    lemma_find_is, lemma_trim_end_keeps, lines, parse_u16, parse_uint, push_dec, split_lines,
    split_words, texts,
    to_chars, trim, trimmed, words,
};
use crate::transport::ptcp::{decode_lossy, text_of};
use crate::transport::xml::{are_plain, body_xml, parse_xml, put_all, under_body, xml_tree};

verus! {

/// A response: the status line, the headers and the texts of the XML body by their paths.
#[derive(Clone, Debug)]
pub struct DHResponse {
    pub version: String,
    pub code: u16,
    pub status: String,
    pub headers: FieldMap,
    pub body: Option<FieldMap>,
}

/// A response, as contracts speak of it.
pub struct Response {
    pub version: Seq<char>,
    pub code: u16,
    pub status: Seq<char>,
    pub headers: Seq<Field>,
    pub body: Option<Seq<Field>>,
}

impl View for DHResponse {
    type V = Response;

    open spec fn view(&self) -> Response {
        Response {
            version: self.version@,
            code: self.code,
            status: self.status@,
            headers: self.headers@,
            body: match self.body {
                Some(b) => Some(b@),
                None => None,
            },
        }
    }
}

/// The header and the body of a response, which an empty line parts.
pub open spec fn sections(text: Seq<char>) -> Option<(Seq<char>, Seq<char>)> {
    match find_text(text, "\r\n\r\n"@) {
        Some(i) => Some((text.take(i as int), text.skip((i + "\r\n\r\n"@.len()) as int))),
        None => match find_text(text, "\n\n"@) {
            Some(i) => Some((text.take(i as int), text.skip((i + "\n\n"@.len()) as int))),
            None => None,
        },
    }
}

/// The name and the value in a header line, or what is wrong with it.
pub open spec fn header_of(line: Seq<char>) -> Result<Field, Seq<char>> {
    let n = find(line, ':') as int;
    if n >= line.len() {
        Err("malformed header line: '"@ + line + "'"@)
    } else if trim(line.take(n)).len() == 0 {
        Err("malformed header line with empty key: '"@ + line + "'"@)
    } else {
        Ok((trim(line.take(n)), trim(line.skip(n + 1))))
    }
}

/// The headers in some lines, added to those in `headers`, or what is wrong with the first line
/// that is none.
pub open spec fn headers_of(lines: Seq<Seq<char>>, headers: Seq<Field>) -> Result<
    Seq<Field>,
    Seq<char>,
>
    decreases lines.len(),
{
    if lines.len() == 0 {
        Ok(headers)
    } else {
        match header_of(lines[0]) {
            Ok(f) => headers_of(lines.skip(1), put(headers, f.0, f.1)),
            Err(e) => Err(e),
        }
    }
}

/// The version, the code and the status in a status line, or what is wrong with it.
pub open spec fn status_line_of(line: Seq<char>) -> Result<(Seq<char>, u16, Seq<char>), Seq<char>> {
    let ws = words(line);
    if ws.len() == 0 {
        Err("malformed response: missing version"@)
    } else if ws.len() == 1 {
        Err("malformed response: missing status code"@)
    } else {
        match parse_uint(ws[1], 0xffff) {
            Ok(code) => Ok(
                (
                    ws[0],
                    code as u16,
                    if join(ws.skip(2), " "@).len() == 0 {
                        "UNKNOWN"@
                    } else {
                        join(ws.skip(2), " "@)
                    },
                ),
            ),
            Err(e) => Err("invalid status code: "@ + int_error_text(e)),
        }
    }
}

/// The response with this header and this body, or what is wrong with them.
pub open spec fn assembled(head: Seq<char>, body: Result<Option<Seq<Field>>, Seq<char>>) -> Result<
    Response,
    Seq<char>,
> {
    let ls = lines(head);
    if ls.len() == 0 {
        Err("malformed response: missing status line"@)
    } else {
        match status_line_of(ls[0]) {
            Err(e) => Err(e),
            Ok(status) => match headers_of(ls.skip(1), Seq::empty()) {
                Err(e) => Err(e),
                Ok(headers) => match body {
                    Err(e) => Err(e),
                    Ok(body) => Ok(
                        Response {
                            version: status.0,
                            code: status.1,
                            status: status.2,
                            headers,
                            body,
                        },
                    ),
                },
            },
        }
    }
}

/// What is in the body of a response: nothing where it is blank.
pub open spec fn body_of_text(body: Seq<char>) -> Result<Option<Seq<Field>>, Seq<char>> {
    if trim(body).len() == 0 {
        Ok(None)
    } else {
        match xml_tree(body) {
            Ok(tree) => Ok(Some(tree)),
            Err(e) => Err(e),
        }
    }
}

/// The response that `text` is, or what is wrong with it.
pub open spec fn response_of(text: Seq<char>) -> Result<Response, Seq<char>> {
    match sections(text) {
        None => Err("malformed response: missing header/body separator"@),
        Some(parts) => assembled(parts.0, body_of_text(parts.1)),
    }
}

/// The text is a response with this body.
pub open spec fn has_body(text: Seq<char>, body: Seq<char>) -> bool {
    sections(text) matches Some(parts) && parts.1 == body
}

proof fn lemma_body_is_not_blank(fields: Seq<Field>)
    ensures
        trim(body_xml(fields)).len() > 0,
{
    reveal_strlit("<body>");
    let s = body_xml(fields);
    assert(s[0] == '<');
    lemma_trim_end_keeps(s, 1);
}

/// The header and the body of a response, which an empty line parts.
pub fn split_response_sections(res: &str) -> (r: Option<(String, String)>)
    ensures
        match r {
            Some(parts) => sections(res@) == Some((parts.0@, parts.1@)),
            None => sections(res@) is None,
        },
{
    let text = to_chars(res);
    let crlf = to_chars("\r\n\r\n");
    let lf = to_chars("\n\n");
    match find_pattern(text.as_slice(), crlf.as_slice()) {
        Some(i) => Some(cut(text.as_slice(), i, crlf.len())),
        None => match find_pattern(text.as_slice(), lf.as_slice()) {
            Some(i) => Some(cut(text.as_slice(), i, lf.len())),
            None => None,
        },
    }
}

fn cut(text: &[char], i: usize, n: usize) -> (r: (String, String))
    requires
        i + n <= text@.len(),
    ensures
        r.0@ == text@.take(i as int),
        r.1@ == text@.skip(i + n),
{
    let end: usize = text.len();
    let head = slice_subrange(text, 0, i);
    let body = slice_subrange(text, i + n, end);
    assert(head@ =~= text@.take(i as int));
    assert(body@ =~= text@.skip(i + n));
    (from_chars(head), from_chars(body))
}

fn quoting(what: &str, line: &str) -> (e: Error)
    ensures
        e@ == invalid(what@ + line@ + "'"@),
{
    let mut m = String::new();
    m.append(what);
    m.append(line);
    m.append("'");
    invalid_data(m)
}

/// The name and the value in a header line.
pub fn parse_header_line(line: &str) -> (r: Result<(String, String), Error>)
    ensures
        match r {
            Ok(f) => header_of(line@) == Ok::<Field, Seq<char>>((f.0@, f.1@)),
            Err(e) => header_of(line@) is Err && e@ == invalid(header_of(line@)->Err_0),
        },
{
    let text = to_chars(line);
    let n: usize = find_char(text.as_slice(), ':');
    if n >= text.len() {
        return Err(quoting("malformed header line: '", line));
    }
    let before = slice_subrange(text.as_slice(), 0, n);
    let behind = slice_subrange(text.as_slice(), n + 1, text.len());
    assert(before@ =~= line@.take(n as int));
    assert(behind@ =~= line@.skip(n + 1));
    let key = trimmed(before);
    let value = trimmed(behind);
    if key.len() == 0 {
        return Err(quoting("malformed header line with empty key: '", line));
    }
    Ok((from_chars(key), from_chars(value)))
}

fn parse_headers(ls: &Vec<String>) -> (r: Result<FieldMap, Error>)
    requires
        ls@.len() > 0,
    ensures
        match r {
            Ok(h) => headers_of(texts(ls@).skip(1), Seq::empty()) == Ok::<Seq<Field>, Seq<char>>(h@)
                && h.wf(),
            Err(e) => headers_of(texts(ls@).skip(1), Seq::empty()) is Err && e@ == invalid(
                headers_of(texts(ls@).skip(1), Seq::empty())->Err_0,
            ),
        },
{
    let ghost all = headers_of(texts(ls@).skip(1), Seq::empty());
    let mut headers = FieldMap::new();
    let mut i: usize = 1;
    while i < ls.len()
        invariant
            1 <= i <= ls.len(),
            all == headers_of(texts(ls@).skip(1), Seq::empty()),
            all == headers_of(texts(ls@).skip(i as int), headers@),
            headers.wf(),
        decreases ls.len() - i,
    {
        let ghost rest = texts(ls@).skip(i as int);
        assert(rest[0] == ls@[i as int]@);
        assert(rest.skip(1) =~= texts(ls@).skip(i + 1));
        match parse_header_line(ls[i].as_str()) {
            Ok(f) => headers.insert(f.0, f.1),
            Err(e) => {
                return Err(e);
            },
        }
        i = i + 1;
    }
    Ok(headers)
}

fn parse_status_line(line: &str) -> (r: Result<(String, u16, String), Error>)
    ensures
        match r {
            Ok(s) => status_line_of(line@) == Ok::<(Seq<char>, u16, Seq<char>), Seq<char>>(
                (s.0@, s.1, s.2@),
            ),
            Err(e) => status_line_of(line@) is Err && e@ == invalid(status_line_of(line@)->Err_0),
        },
{
    let text = to_chars(line);
    let ws = split_words(text.as_slice());
    let ghost all = words(line@);
    assert(texts(ws@).len() == ws@.len());
    if ws.len() == 0 {
        return Err(invalid_data(copy("malformed response: missing version")));
    }
    if ws.len() == 1 {
        return Err(invalid_data(copy("malformed response: missing status code")));
    }
    assert(all[0] == ws@[0]@ && all[1] == ws@[1]@);
    let digits = to_chars(ws[1].as_str());
    let code: u16 = match parse_u16(digits.as_slice()) {
        Ok(n) => n,
        Err(e) => {
            let mut m = String::new();
            m.append("invalid status code: ");
            m.append(int_error_str(e));
            return Err(invalid_data(m));
        },
    };
    let status = join_from(&ws, 2, " ");
    let status_chars = to_chars(status.as_str());
    let version = copy(ws[0].as_str());
    if status_chars.len() == 0 {
        Ok((version, code, copy("UNKNOWN")))
    } else {
        Ok((version, code, status))
    }
}

impl DHResponse {
    /// The texts of an XML body by their paths. A body that was written from plain fields is read
    /// back: each field under `body/` and its name.
    pub fn parse_body(body: &str) -> (r: Result<FieldMap, Error>)
        ensures
            match r {
                Ok(t) => xml_tree(body@) == Ok::<Seq<Field>, Seq<char>>(t@) && t.wf(),
                Err(e) => xml_tree(body@) is Err && e@ == invalid(xml_tree(body@)->Err_0),
            },
            forall|fields: Seq<Field>|
                are_plain(fields) && body@ == #[trigger] body_xml(fields) ==> (r matches Ok(t) && t@
                    == under_body(put_all(fields))),
    {
        parse_xml(body)
    }

    /// The response with this header and with what came of its body. Complaints about the header
    /// come first.
    pub fn assemble(head: &str, body: Result<Option<FieldMap>, Error>) -> (r: Result<
        DHResponse,
        Error,
    >)
        requires
            body matches Ok(Some(b)) ==> b.wf(),
        ensures
            ({
                let given = match body {
                    Ok(Some(b)) => Ok::<Option<Seq<Field>>, Seq<char>>(Some(b@)),
                    Ok(None) => Ok::<Option<Seq<Field>>, Seq<char>>(None),
                    Err(e) => Err::<Option<Seq<Field>>, Seq<char>>(e.message@),
                };
                let plain = assembled(head@, Ok(None));
                match r {
                    Ok(res) => assembled(head@, given) == Ok::<Response, Seq<char>>(res@)
                        && res.wf(),
                    Err(e) => if plain is Err {
                        e@ == invalid(plain->Err_0)
                    } else {
                        body == Err::<Option<FieldMap>, Error>(e)
                    },
                }
            }),
    {
        let text = to_chars(head);
        let ls = split_lines(text.as_slice());
        assert(texts(ls@).len() == ls@.len());
        if ls.len() == 0 {
            return Err(invalid_data(copy("malformed response: missing status line")));
        }
        assert(lines(head@)[0] == ls@[0]@);
        let status = match parse_status_line(ls[0].as_str()) {
            Ok(s) => s,
            Err(e) => {
                return Err(e);
            },
        };
        let headers = match parse_headers(&ls) {
            Ok(h) => h,
            Err(e) => {
                return Err(e);
            },
        };
        match body {
            Ok(body) => Ok(
                DHResponse { version: status.0, code: status.1, status: status.2, headers, body },
            ),
            Err(e) => Err(e),
        }
    }

    /// The headers and the body are in the order of their names.
    pub open spec fn wf(&self) -> bool {
        &&& self.headers.wf()
        &&& self.body matches Some(b) ==> b.wf()
    }

    /// Reads a response. A body that was written from plain fields is read back: each field under
    /// `body/` and its name.
    pub fn parse_response(res: &str) -> (r: Result<DHResponse, Error>)
        ensures
            match r {
                Ok(res_) => response_of(res@) == Ok::<Response, Seq<char>>(res_@) && res_.wf(),
                Err(e) => response_of(res@) is Err && e@ == invalid(response_of(res@)->Err_0),
            },
            forall|fields: Seq<Field>|
                are_plain(fields) && has_body(res@, #[trigger] body_xml(fields)) ==> body_of_text(
                    body_xml(fields),
                ) == Ok::<Option<Seq<Field>>, Seq<char>>(Some(under_body(put_all(fields)))),
    {
        let (head, body) = match split_response_sections(res) {
            Some(parts) => parts,
            None => {
                return Err(
                    invalid_data(copy("malformed response: missing header/body separator")),
                );
            },
        };
        let body_chars = to_chars(body.as_str());
        proof {
            assert forall|fields: Seq<Field>|
                body@ == #[trigger] body_xml(fields) implies trim(body@).len() > 0 by {
                lemma_body_is_not_blank(fields);
            }
        }
        let body = if trimmed(body_chars.as_slice()).len() == 0 {
            Ok(None)
        } else {
            match DHResponse::parse_body(body.as_str()) {
                Ok(t) => Ok(Some(t)),
                Err(e) => Err(e),
            }
        };
        DHResponse::assemble(head.as_str(), body)
    }

    /// Reads a response from what came over the network.
    pub fn parse_datagram(data: &[u8]) -> (r: Result<DHResponse, Error>)
        ensures
            match r {
                Ok(res) => response_of(text_of(data@)) == Ok::<Response, Seq<char>>(res@)
                    && res.wf(),
                Err(e) => response_of(text_of(data@)) is Err && e@ == invalid(
                    response_of(text_of(data@))->Err_0,
                ),
            },
            forall|fields: Seq<Field>|
                are_plain(fields) && has_body(text_of(data@), #[trigger] body_xml(fields))
                    ==> body_of_text(body_xml(fields)) == Ok::<Option<Seq<Field>>, Seq<char>>(
                    Some(under_body(put_all(fields))),
                ),
    {
        DHResponse::parse_response(decode_lossy(data).as_str())
    }
}

/// What is said of a response with an error code.
pub open spec fn error_response_text(status: Seq<char>, code: u16) -> Seq<char> {
    "error response: "@ + status + " ("@ + dec(code as nat) + ")"@
}

/// Lets a response pass whose code is below 300; any other is a failure.
pub fn check_response(res: DHResponse) -> (r: Result<DHResponse, Error>)
    ensures
        if res.code < 300 {
            r == Ok::<DHResponse, Error>(res)
        } else {
            r is Err && r->Err_0@ == invalid(error_response_text(res.status@, res.code))
        },
{
    if res.code < 300 {
        Ok(res)
    } else {
        let mut m = String::new();
        m.append("error response: ");
        m.append(res.status.as_str());
        m.append(" (");
        push_dec(&mut m, res.code as u64);
        m.append(")");
        Err(invalid_data(m))
    }
}

/// The text at `key` in the body of a response, or what is wrong.
pub open spec fn body_field(res: Response, key: Seq<char>) -> Result<Seq<char>, Seq<char>> {
    match res.body {
        None => Err("missing response body while reading key '"@ + key + "'"@),
        Some(b) => match lookup(b, key) {
            Some(v) => Ok(v),
            None => Err("missing response field '"@ + key + "'"@),
        },
    }
}

/// The text at `key` in the body of a response.
pub fn response_body_field<'a>(res: &'a DHResponse, key: &str) -> (r: Result<&'a str, Error>)
    ensures
        match r {
            Ok(v) => body_field(res@, key@) == Ok::<Seq<char>, Seq<char>>(v@),
            Err(e) => body_field(res@, key@) is Err && e@ == invalid(
                body_field(res@, key@)->Err_0,
            ),
        },
{
    match &res.body {
        None => Err(quoting("missing response body while reading key '", key)),
        Some(b) => match b.get(key) {
            Some(v) => Ok(v.as_str()),
            None => Err(quoting("missing response field '", key)),
        },
    }
}

/// The paths in the body of a response, for the log.
pub fn body_keys(res: &DHResponse) -> (s: String)
    ensures
        s@ == match res@.body {
            None => "<none>"@,
            Some(b) => join(names(b), ","@),
        },
{
    match &res.body {
        None => copy("<none>"),
        Some(b) => b.joined_names(","),
    }
}

/// A header line is read as it was meant, with or without a blank behind the colon: the name and the
/// value, where neither has white space around it and the name holds no colon.
pub proof fn law_header_line_is_read(name: Seq<char>, value: Seq<char>)
    requires
        name.len() > 0,
        trim(name) == name,
        trim(value) == value,
        forall|i: int| 0 <= i < name.len() ==> #[trigger] name[i] != ':',
    ensures
        header_of(name + seq![':'] + value) == Ok::<Field, Seq<char>>((name, value)),
        header_of(name + seq![':', ' '] + value) == Ok::<Field, Seq<char>>((name, value)),
{
    let n = name.len();
    let tight = name + seq![':'] + value;
    lemma_find_is(tight, ':', n);
    assert(tight.take(n as int) =~= name);
    assert(tight.skip(n as int + 1) =~= value);
    let loose = name + seq![':', ' '] + value;
    lemma_find_is(loose, ':', n);
    assert(loose.take(n as int) =~= name);
    let padded = seq![' '] + value;
    assert(loose.skip(n as int + 1) =~= padded);
    assert(padded[0] == ' ' && is_white(padded[0]));
    assert(padded.skip(1) =~= value);
}

/// A status line is read as it was meant: the version, the code and the words of the status. Without
/// any the status is `UNKNOWN`.
pub proof fn law_status_line_is_read(version: Seq<char>, code: u16, status: Seq<Seq<char>>)
    requires
        is_word(version),
        forall|i: int| 0 <= i < status.len() ==> is_word(#[trigger] status[i]),
    ensures
        status_line_of(join(seq![version, dec(code as nat)] + status, " "@)) == Ok::<
            (Seq<char>, u16, Seq<char>),
            Seq<char>,
        >(
            (
                version,
                code,
                if status.len() == 0 {
                    "UNKNOWN"@
                } else {
                    join(status, " "@)
                },
            ),
        ),
{
    reveal_strlit(" ");
    assert(" "@ =~= seq![' ']);
    law_numeral_roundtrip(code as nat, 0xffff);
    lemma_dec_is_word(code as nat);
    let ws = seq![version, dec(code as nat)] + status;
    assert forall|i: int| 0 <= i < ws.len() implies is_word(#[trigger] ws[i]) by {
        if i >= 2 {
            assert(ws[i] == status[i - 2]);
        }
    }
    law_words_of_joined(ws);
    assert(ws.skip(2) =~= status);
    if status.len() > 0 {
        lemma_joined_words_are_some(status);
    }
}

proof fn lemma_joined_words_are_some(ws: Seq<Seq<char>>)
    requires
        ws.len() > 0,
        forall|i: int| 0 <= i < ws.len() ==> is_word(#[trigger] ws[i]),
    ensures
        join(ws, " "@).len() > 0,
{
    assert(is_word(ws.last()));
    assert(is_word(ws[0]));
}

} // verus!
