//! Text: numerals, trimming, splitting and joining.
use vstd::prelude::*;
use vstd::slice::slice_subrange;
use vstd::string::StringExecFns;

verus! {

/// `String::push` appends the character.
pub assume_specification[ String::push ](s: &mut String, ch: char)
    ensures
        final(s)@ == old(s)@.push(ch),
;

/// What some strings hold.
pub open spec fn texts(v: Seq<String>) -> Seq<Seq<char>> {
    v.map_values(|s: String| s@)
}

/// The digit with value `d`, below sixteen.
pub open spec fn digit(d: nat) -> char {
    if d < 10 {
        (48 + d) as char
    } else {
        (87 + d) as char
    }
}

/// `n` in decimal, without leading zeros.
pub open spec fn dec(n: nat) -> Seq<char>
    decreases n,
{
    if n < 10 {
        seq![digit(n)]
    } else {
        dec(n / 10).push(digit(n % 10))
    }
}

/// `n` in lowercase hexadecimal, without leading zeros.
pub open spec fn hex(n: nat) -> Seq<char>
    decreases n,
{
    if n < 16 {
        seq![digit(n)]
    } else {
        hex(n / 16).push(digit(n % 16))
    }
}

/// The last `width` hexadecimal digits of `n`, with leading zeros.
pub open spec fn hex_fixed(n: nat, width: nat) -> Seq<char>
    decreases width,
{
    if width == 0 {
        Seq::empty()
    } else {
        hex_fixed(n / 16, (width - 1) as nat).push(digit(n % 16))
    }
}

/// The parts with `sep` between them.
pub open spec fn join(parts: Seq<Seq<char>>, sep: Seq<char>) -> Seq<char>
    decreases parts.len(),
{
    if parts.len() == 0 {
        Seq::empty()
    } else if parts.len() == 1 {
        parts[0]
    } else {
        join(parts.drop_last(), sep) + sep + parts.last()
    }
}

/// The characters with Unicode's White_Space property.
pub open spec fn is_white(c: char) -> bool {
    ||| 0x9 <= c as u32 <= 0xd
    ||| c as u32 == 0x20
    ||| c as u32 == 0x85
    ||| c as u32 == 0xa0
    ||| c as u32 == 0x1680
    ||| 0x2000 <= c as u32 <= 0x200a
    ||| c as u32 == 0x2028
    ||| c as u32 == 0x2029
    ||| c as u32 == 0x202f
    ||| c as u32 == 0x205f
    ||| c as u32 == 0x3000
}

/// The text without the white space in front.
pub open spec fn trim_start(s: Seq<char>) -> Seq<char>
    decreases s.len(),
{
    if s.len() > 0 && is_white(s[0]) {
        trim_start(s.skip(1))
    } else {
        s
    }
}

/// The text without the white space at its end.
pub open spec fn trim_end(s: Seq<char>) -> Seq<char>
    decreases s.len(),
{
    if s.len() > 0 && is_white(s.last()) {
        trim_end(s.drop_last())
    } else {
        s
    }
}

/// The text without the white space around it.
pub open spec fn trim(s: Seq<char>) -> Seq<char> {
    trim_end(trim_start(s))
}

/// What ends in something that is not white space stays at the beginning.
pub proof fn lemma_trim_end_keeps(s: Seq<char>, n: int)
    requires
        0 < n <= s.len(),
        !is_white(s[n - 1]),
    ensures
        trim_end(s).len() >= n,
        trim_end(s).take(n) == s.take(n),
    decreases s.len(),
{
    if is_white(s.last()) {
        lemma_trim_end_keeps(s.drop_last(), n);
        assert(s.drop_last().take(n) =~= s.take(n));
    }
}

/// Where `c` first occurs, or the length where it does not.
pub open spec fn find(s: Seq<char>, c: char) -> nat
    decreases s.len(),
{
    if s.len() == 0 || s[0] == c {
        0
    } else {
        1 + find(s.skip(1), c)
    }
}

pub open spec fn starts_with(s: Seq<char>, prefix: Seq<char>) -> bool {
    prefix.len() <= s.len() && s.take(prefix.len() as int) == prefix
}

/// Where `pattern` first occurs.
pub open spec fn find_text(s: Seq<char>, pattern: Seq<char>) -> Option<nat>
    decreases s.len(),
{
    if starts_with(s, pattern) {
        Some(0)
    } else if s.len() == 0 {
        None
    } else {
        match find_text(s.skip(1), pattern) {
            Some(i) => Some(i + 1),
            None => None,
        }
    }
}

/// The text cut at every `c`.
pub open spec fn split(s: Seq<char>, c: char) -> Seq<Seq<char>>
    decreases s.len(),
{
    let n = find(s, c) as int;
    if n >= s.len() {
        seq![s]
    } else {
        seq![s.take(n)] + split(s.skip(n + 1), c)
    }
}

/// The text without the carriage returns at its end.
pub open spec fn strip_cr(s: Seq<char>) -> Seq<char>
    decreases s.len(),
{
    if s.len() > 0 && s.last() == '\r' {
        strip_cr(s.drop_last())
    } else {
        s
    }
}

/// The lines of a text, without what ends them. A line feed at the very end starts no line.
pub open spec fn lines(s: Seq<char>) -> Seq<Seq<char>>
    decreases s.len(),
{
    if s.len() == 0 {
        Seq::empty()
    } else {
        let n = find(s, '\n') as int;
        if n >= s.len() {
            seq![strip_cr(s)]
        } else {
            seq![strip_cr(s.take(n))] + lines(s.skip(n + 1))
        }
    }
}

/// How many characters in front are not white space.
pub open spec fn word_len(s: Seq<char>) -> nat
    decreases s.len(),
{
    if s.len() == 0 || is_white(s[0]) {
        0
    } else {
        1 + word_len(s.skip(1))
    }
}

pub proof fn lemma_word_len(s: Seq<char>)
    ensures
        word_len(s) <= s.len(),
        forall|i: int| 0 <= i < word_len(s) ==> !is_white(#[trigger] s[i]),
        word_len(s) < s.len() ==> is_white(s[word_len(s) as int]),
    decreases s.len(),
{
    if s.len() > 0 && !is_white(s[0]) {
        lemma_word_len(s.skip(1));
        assert forall|i: int| 0 <= i < word_len(s) implies !is_white(#[trigger] s[i]) by {
            if i > 0 {
                assert(s.skip(1)[i - 1] == s[i]);
            }
        }
        if word_len(s) < s.len() {
            assert(s.skip(1)[word_len(s) - 1] == s[word_len(s) as int]);
        }
    }
}

/// The words of a text: the stretches without white space.
pub open spec fn words(s: Seq<char>) -> Seq<Seq<char>>
    decreases s.len(),
{
    if s.len() == 0 {
        Seq::empty()
    } else if is_white(s[0]) {
        words(s.skip(1))
    } else {
        let n = word_len(s) as int;
        proof {
            lemma_word_len(s);
        }
        seq![s.take(n)] + words(s.skip(n))
    }
}

/// Why a numeral was refused.
#[derive(Clone, Copy, Debug, PartialEq, Eq, Structural)]
pub enum IntError {
    Empty,
    InvalidDigit,
    TooLarge,
}

/// The value of the decimal digits of `s` behind those that gave `acc`, if it is at most `max`.
pub open spec fn digits_value(s: Seq<char>, acc: nat, max: nat) -> Result<nat, IntError>
    decreases s.len(),
{
    if s.len() == 0 {
        Ok(acc)
    } else if !('0' <= s[0] <= '9') {
        Err(IntError::InvalidDigit)
    } else if acc * 10 + (s[0] as nat - 48) > max {
        Err(IntError::TooLarge)
    } else {
        digits_value(s.skip(1), (acc * 10 + (s[0] as nat - 48)) as nat, max)
    }
}

/// The value of an unsigned decimal numeral, with an optional plus sign, if it is at most `max`.
pub open spec fn parse_uint(s: Seq<char>, max: nat) -> Result<nat, IntError> {
    if s.len() == 0 {
        Err(IntError::Empty)
    } else if s[0] == '+' {
        if s.len() == 1 {
            Err(IntError::InvalidDigit)
        } else {
            digits_value(s.skip(1), 0, max)
        }
    } else {
        digits_value(s, 0, max)
    }
}

/// What is said of a refused numeral.
pub open spec fn int_error_text(e: IntError) -> Seq<char> {
    match e {
        IntError::Empty => "cannot parse integer from empty string"@,
        IntError::InvalidDigit => "invalid digit found in string"@,
        IntError::TooLarge => "number too large to fit in target type"@,
    }
}

pub fn int_error_str(e: IntError) -> (s: &'static str)
    ensures
        s@ == int_error_text(e),
{
    match e {
        IntError::Empty => "cannot parse integer from empty string",
        IntError::InvalidDigit => "invalid digit found in string",
        IntError::TooLarge => "number too large to fit in target type",
    }
}

/// The characters of a text.
pub fn to_chars(s: &str) -> (v: Vec<char>)
    ensures
        v@ == s@,
{
    let mut v: Vec<char> = Vec::new();
    for c in it: s.chars()
        invariant
            v@ == s@.take(it.index() as int),
            it.seq() == s@,
    {
        v.push(c);
    }
    v
}

/// The text made of some characters.
pub fn from_chars(v: &[char]) -> (s: String)
    ensures
        s@ == v@,
{
    let mut s = String::new();
    let mut i: usize = 0;
    while i < v.len()
        invariant
            i <= v.len(),
            s@ == v@.take(i as int),
        decreases v.len() - i,
    {
        s.push(v[i]);
        i = i + 1;
    }
    s
}

/// A copy of a text.
pub fn copy(s: &str) -> (r: String)
    ensures
        r@ == s@,
{
    let mut r = String::new();
    r.append(s);
    r
}

/// Whether two texts are the same.
pub fn same(a: &str, b: &str) -> (r: bool)
    ensures
        r == (a@ == b@),
{
    let x = to_chars(a);
    let y = to_chars(b);
    same_chars(x.as_slice(), y.as_slice())
}

pub fn same_chars(x: &[char], y: &[char]) -> (r: bool)
    ensures
        r == (x@ == y@),
{
    if x.len() != y.len() {
        return false;
    }
    let mut i: usize = 0;
    while i < x.len()
        invariant
            i <= x.len(),
            x.len() == y.len(),
            x@.take(i as int) == y@.take(i as int),
        decreases x.len() - i,
    {
        if x[i] != y[i] {
            assert(x@[i as int] != y@[i as int]);
            return false;
        }
        assert(x@.take(i + 1) =~= x@.take(i as int).push(x@[i as int]));
        assert(y@.take(i + 1) =~= y@.take(i as int).push(y@[i as int]));
        i = i + 1;
    }
    assert(x@.take(i as int) =~= x@);
    assert(y@.take(i as int) =~= y@);
    true
}

fn digit_char(d: u8) -> (c: char)
    requires
        d < 16,
    ensures
        c == digit(d as nat),
{
    if d < 10 {
        (48 + d) as char
    } else {
        (87 + d) as char
    }
}

/// Appends `n` in decimal.
pub fn push_dec(out: &mut String, n: u64)
    ensures
        final(out)@ == old(out)@ + dec(n as nat),
    decreases n,
{
    if n < 10 {
        out.push(digit_char(n as u8));
    } else {
        push_dec(out, n / 10);
        out.push(digit_char((n % 10) as u8));
    }
}

/// Appends `n` in hexadecimal.
pub fn push_hex(out: &mut String, n: u64)
    ensures
        final(out)@ == old(out)@ + hex(n as nat),
    decreases n,
{
    if n < 16 {
        out.push(digit_char(n as u8));
    } else {
        push_hex(out, n / 16);
        out.push(digit_char((n % 16) as u8));
    }
}

/// Appends the last `width` hexadecimal digits of `n`.
pub fn push_hex_fixed(out: &mut String, n: u64, width: u8)
    ensures
        final(out)@ == old(out)@ + hex_fixed(n as nat, width as nat),
    decreases width,
{
    if width > 0 {
        push_hex_fixed(out, n / 16, width - 1);
        out.push(digit_char((n % 16) as u8));
    }
}

pub proof fn lemma_find(s: Seq<char>, c: char)
    ensures
        find(s, c) <= s.len(),
        forall|i: int| 0 <= i < find(s, c) ==> #[trigger] s[i] != c,
        find(s, c) < s.len() ==> s[find(s, c) as int] == c,
    decreases s.len(),
{
    if s.len() > 0 && s[0] != c {
        lemma_find(s.skip(1), c);
        assert forall|i: int| 0 <= i < find(s, c) implies #[trigger] s[i] != c by {
            if i > 0 {
                assert(s.skip(1)[i - 1] == s[i]);
            }
        }
        if find(s, c) < s.len() {
            assert(s.skip(1)[find(s, c) - 1] == s[find(s, c) as int]);
        }
    }
}

/// `find` is the one place with these properties.
pub proof fn lemma_find_is(s: Seq<char>, c: char, n: nat)
    requires
        n <= s.len(),
        forall|i: int| 0 <= i < n ==> #[trigger] s[i] != c,
        n < s.len() ==> s[n as int] == c,
    ensures
        find(s, c) == n,
{
    lemma_find(s, c);
}

/// Where `c` first occurs, or the length where it does not.
pub fn find_char(s: &[char], c: char) -> (n: usize)
    ensures
        n == find(s@, c),
        n <= s@.len(),
{
    let mut i: usize = 0;
    while i < s.len() && s[i] != c
        invariant
            i <= s.len(),
            forall|j: int| 0 <= j < i ==> #[trigger] s@[j] != c,
        decreases s.len() - i,
    {
        i = i + 1;
    }
    proof {
        lemma_find_is(s@, c, i as nat);
    }
    i
}

/// Whether `s` begins with `prefix`.
pub fn has_prefix(s: &[char], prefix: &[char]) -> (r: bool)
    ensures
        r == starts_with(s@, prefix@),
{
    if prefix.len() > s.len() {
        return false;
    }
    same_chars(slice_subrange(s, 0, prefix.len()), prefix)
}

/// Where `pattern` first occurs.
pub fn find_pattern(s: &[char], pattern: &[char]) -> (r: Option<usize>)
    ensures
        match r {
            Some(i) => find_text(s@, pattern@) == Some(i as nat) && i + pattern@.len() <= s@.len(),
            None => find_text(s@, pattern@) is None,
        },
{
    let mut i: usize = 0;
    assert(s@.skip(0) =~= s@);
    loop
        invariant
            i <= s.len(),
            find_text(s@, pattern@) == match find_text(s@.skip(i as int), pattern@) {
                Some(k) => Some((k + i) as nat),
                None => None,
            },
        decreases s.len() - i,
    {
        let rest = slice_subrange(s, i, s.len());
        assert(rest@ =~= s@.skip(i as int));
        if has_prefix(rest, pattern) {
            return Some(i);
        }
        if i == s.len() {
            return None;
        }
        assert(s@.skip(i as int).skip(1) =~= s@.skip(i + 1));
        i = i + 1;
    }
}

/// Whether a character has Unicode's White_Space property.
pub fn is_whitespace(c: char) -> (r: bool)
    ensures
        r == is_white(c),
{
    let n: u32 = c as u32;
    (0x9 <= n && n <= 0xd) || n == 0x20 || n == 0x85 || n == 0xa0 || n == 0x1680 || (0x2000 <= n
        && n <= 0x200a) || n == 0x2028 || n == 0x2029 || n == 0x202f || n == 0x205f || n == 0x3000
}

/// The text without the white space around it.
pub fn trimmed(s: &[char]) -> (r: &[char])
    ensures
        r@ == trim(s@),
{
    let mut i: usize = 0;
    assert(s@.skip(0) =~= s@);
    while i < s.len() && is_whitespace(s[i])
        invariant
            i <= s.len(),
            trim_start(s@) == trim_start(s@.skip(i as int)),
        decreases s.len() - i,
    {
        assert(s@.skip(i as int).skip(1) =~= s@.skip(i + 1));
        i = i + 1;
    }
    let mut j: usize = s.len();
    let ghost t = s@.skip(i as int);
    assert(trim_start(s@) == t);
    assert(s@.subrange(i as int, j as int) =~= t);
    while j > i && is_whitespace(s[j - 1])
        invariant
            i <= j <= s.len(),
            trim_end(t) == trim_end(s@.subrange(i as int, j as int)),
        decreases j,
    {
        assert(s@.subrange(i as int, j as int).drop_last() =~= s@.subrange(i as int, j - 1));
        assert(s@.subrange(i as int, j as int).last() == s@[j - 1]);
        j = j - 1;
    }
    proof {
        if j > i {
            assert(s@.subrange(i as int, j as int).last() == s@[j - 1]);
        }
    }
    slice_subrange(s, i, j)
}

/// The text without the carriage returns at its end.
pub fn without_cr(s: &[char]) -> (r: &[char])
    ensures
        r@ == strip_cr(s@),
{
    let mut j: usize = s.len();
    assert(s@.take(j as int) =~= s@);
    while j > 0 && s[j - 1] == '\r'
        invariant
            j <= s.len(),
            strip_cr(s@) == strip_cr(s@.take(j as int)),
        decreases j,
    {
        assert(s@.take(j as int).drop_last() =~= s@.take(j - 1));
        j = j - 1;
    }
    assert(s@.subrange(0, j as int) =~= s@.take(j as int));
    slice_subrange(s, 0, j)
}

/// The text cut at every `c`.
pub fn split_at_char(s: &[char], c: char) -> (v: Vec<String>)
    ensures
        texts(v@) == split(s@, c),
{
    let mut v: Vec<String> = Vec::new();
    let mut i: usize = 0;
    assert(s@.skip(0) =~= s@);
    assert(texts(v@) + split(s@, c) =~= split(s@, c));
    loop
        invariant
            i <= s.len(),
            texts(v@) + split(s@.skip(i as int), c) == split(s@, c),
        decreases s.len() - i,
    {
        let rest = slice_subrange(s, i, s.len());
        assert(rest@ =~= s@.skip(i as int));
        let n: usize = find_char(rest, c);
        let part = from_chars(slice_subrange(rest, 0, n));
        assert(part@ =~= rest@.take(n as int));
        let ghost v0 = texts(v@);
        v.push(part);
        assert(texts(v@) =~= v0.push(part@));
        if n >= rest.len() {
            assert(part@ =~= rest@);
            assert(texts(v@) =~= v0 + seq![rest@]);
            return v;
        }
        assert(rest@.skip(n + 1) =~= s@.skip(i + n + 1));
        assert(v0.push(part@) + split(rest@.skip(n + 1), c) =~= v0 + (seq![rest@.take(n as int)]
            + split(rest@.skip(n + 1), c)));
        i = i + n + 1;
    }
}

/// The lines of a text.
pub fn split_lines(s: &[char]) -> (v: Vec<String>)
    ensures
        texts(v@) == lines(s@),
{
    let mut v: Vec<String> = Vec::new();
    let mut i: usize = 0;
    assert(s@.skip(0) =~= s@);
    assert(texts(v@) + lines(s@) =~= lines(s@));
    while i < s.len()
        invariant
            i <= s.len(),
            texts(v@) + lines(s@.skip(i as int)) == lines(s@),
        decreases s.len() - i,
    {
        let rest = slice_subrange(s, i, s.len());
        assert(rest@ =~= s@.skip(i as int));
        let n: usize = find_char(rest, '\n');
        let line = slice_subrange(rest, 0, n);
        assert(line@ =~= rest@.take(n as int));
        let part = from_chars(without_cr(line));
        let ghost v0 = texts(v@);
        v.push(part);
        assert(texts(v@) =~= v0.push(part@));
        if n >= rest.len() {
            assert(line@ =~= rest@);
            assert(texts(v@) =~= v0 + seq![strip_cr(rest@)]);
            return v;
        }
        assert(rest@.skip(n + 1) =~= s@.skip(i + n + 1));
        assert(v0.push(part@) + lines(rest@.skip(n + 1)) =~= v0 + (seq![part@] + lines(
            rest@.skip(n + 1),
        )));
        i = i + n + 1;
    }
    assert(s@.skip(i as int) =~= Seq::empty());
    assert(texts(v@) + lines(s@.skip(i as int)) =~= texts(v@));
    v
}

/// The words of a text.
pub fn split_words(s: &[char]) -> (v: Vec<String>)
    ensures
        texts(v@) == words(s@),
{
    let mut v: Vec<String> = Vec::new();
    let mut i: usize = 0;
    assert(s@.skip(0) =~= s@);
    assert(texts(v@) + words(s@) =~= words(s@));
    while i < s.len()
        invariant
            i <= s.len(),
            texts(v@) + words(s@.skip(i as int)) == words(s@),
        decreases s.len() - i,
    {
        let ghost rest = s@.skip(i as int);
        if is_whitespace(s[i]) {
            assert(rest.skip(1) =~= s@.skip(i + 1));
            i = i + 1;
        } else {
            let mut j: usize = i;
            while j < s.len() && !is_whitespace(s[j])
                invariant
                    i <= j <= s.len(),
                    forall|k: int| i <= k < j ==> !is_white(#[trigger] s@[k]),
                decreases s.len() - j,
            {
                j = j + 1;
            }
            proof {
                lemma_word_len(rest);
                let n = word_len(rest) as int;
                if n < j - i {
                    assert(rest[n] == s@[i + n]);
                }
                if n > j - i {
                    assert(rest[j - i] == s@[j as int]);
                }
                assert(n == j - i);
                assert(rest.skip(n) =~= s@.skip(j as int));
            }
            let part = from_chars(slice_subrange(s, i, j));
            assert(part@ =~= rest.take(j - i));
            let ghost v0 = texts(v@);
            v.push(part);
            assert(texts(v@) =~= v0.push(part@));
            assert(v0.push(part@) + words(s@.skip(j as int)) =~= v0 + (seq![part@] + words(
                s@.skip(j as int),
            )));
            i = j;
        }
    }
    assert(s@.skip(i as int) =~= Seq::empty());
    assert(texts(v@) + words(s@.skip(i as int)) =~= texts(v@));
    v
}

/// The parts from `from` on, with `sep` between them.
pub fn join_from(parts: &Vec<String>, from: usize, sep: &str) -> (s: String)
    requires
        from <= parts@.len(),
    ensures
        s@ == join(texts(parts@).skip(from as int), sep@),
{
    let mut s = String::new();
    let ghost ts = texts(parts@).skip(from as int);
    let mut i: usize = from;
    assert(ts.take(0) =~= Seq::empty());
    while i < parts.len()
        invariant
            from <= i <= parts.len(),
            ts == texts(parts@).skip(from as int),
            s@ == join(ts.take(i - from), sep@),
        decreases parts.len() - i,
    {
        if i > from {
            s.append(sep);
        }
        s.append(parts[i].as_str());
        proof {
            let n = i - from;
            assert(ts[n] == parts@[i as int]@);
            assert(ts.take(n + 1).drop_last() =~= ts.take(n));
            assert(ts.take(n + 1).last() == ts[n]);
        }
        i = i + 1;
    }
    assert(ts.take(i - from) =~= ts);
    s
}

/// The value of an unsigned decimal numeral, with an optional plus sign, if it is at most `max`.
pub fn parse_number(s: &[char], max: u32) -> (r: Result<u32, IntError>)
    ensures
        match r {
            Ok(n) => parse_uint(s@, max as nat) == Ok::<nat, IntError>(n as nat) && n <= max,
            Err(e) => parse_uint(s@, max as nat) == Err::<nat, IntError>(e),
        },
{
    if s.len() == 0 {
        return Err(IntError::Empty);
    }
    let start: usize = if s[0] == '+' {
        1
    } else {
        0
    };
    if start == 1 && s.len() == 1 {
        return Err(IntError::InvalidDigit);
    }
    let mut acc: u32 = 0;
    let mut i: usize = start;
    assert(s@.skip(0) =~= s@);
    while i < s.len()
        invariant
            i <= s.len(),
            acc <= max,
            parse_uint(s@, max as nat) == digits_value(s@.skip(i as int), acc as nat, max as nat),
        decreases s.len() - i,
    {
        let c = s[i];
        if !('0' <= c && c <= '9') {
            return Err(IntError::InvalidDigit);
        }
        let next: u64 = acc as u64 * 10 + (c as u32 as u64 - 48);
        if next > max as u64 {
            return Err(IntError::TooLarge);
        }
        assert(s@.skip(i as int).skip(1) =~= s@.skip(i + 1));
        acc = next as u32;
        i = i + 1;
    }
    Ok(acc)
}

/// A `u16` in decimal.
pub fn parse_u16(s: &[char]) -> (r: Result<u16, IntError>)
    ensures
        match r {
            Ok(n) => parse_uint(s@, 0xffff) == Ok::<nat, IntError>(n as nat),
            Err(e) => parse_uint(s@, 0xffff) == Err::<nat, IntError>(e),
        },
{
    match parse_number(s, 0xffff) {
        Ok(n) => Ok(n as u16),
        Err(e) => Err(e),
    }
}

/// One more digit behind a numeral multiplies its value by ten and adds the digit.
proof fn lemma_digits_push(s: Seq<char>, d: nat, acc: nat, max: nat)
    requires
        d < 10,
        digits_value(s, acc, max) is Ok,
        digits_value(s, acc, max)->Ok_0 * 10 + d <= max,
    ensures
        digits_value(s.push(digit(d)), acc, max) == Ok::<nat, IntError>(
            (digits_value(s, acc, max)->Ok_0 * 10 + d) as nat,
        ),
    decreases s.len(),
{
    let longer = s.push(digit(d));
    if s.len() == 0 {
        reveal_with_fuel(digits_value, 2);
        assert(longer.skip(1) =~= Seq::empty());
        assert(longer[0] == digit(d));
    } else {
        assert(longer[0] == s[0]);
        assert(longer.skip(1) =~= s.skip(1).push(digit(d)));
        lemma_digits_push(s.skip(1), d, (acc * 10 + (s[0] as nat - 48)) as nat, max);
    }
}

proof fn lemma_dec(n: nat, max: nat)
    requires
        n <= max,
    ensures
        digits_value(dec(n), 0, max) == Ok::<nat, IntError>(n),
        dec(n).len() > 0,
        '0' <= dec(n)[0] <= '9',
    decreases n,
{
    if n < 10 {
        lemma_digits_push(Seq::empty(), n, 0, max);
        assert(Seq::<char>::empty().push(digit(n)) =~= dec(n));
    } else {
        lemma_dec(n / 10, max);
        lemma_digits_push(dec(n / 10), n % 10, 0, max);
    }
}

/// Reading a numeral that was written gives the number back.
pub proof fn law_numeral_roundtrip(n: nat, max: nat)
    requires
        n <= max,
    ensures
        parse_uint(dec(n), max) == Ok::<nat, IntError>(n),
{
    lemma_dec(n, max);
}

/// A text that is one word: not empty, and without white space.
pub open spec fn is_word(w: Seq<char>) -> bool {
    w.len() > 0 && forall|i: int| 0 <= i < w.len() ==> !is_white(#[trigger] w[i])
}

/// A numeral is a word.
pub proof fn lemma_dec_is_word(n: nat)
    ensures
        is_word(dec(n)),
    decreases n,
{
    if n >= 10 {
        lemma_dec_is_word(n / 10);
    }
}

/// `word_len` is the one length with these properties.
pub proof fn lemma_word_len_is(s: Seq<char>, n: nat)
    requires
        n <= s.len(),
        forall|i: int| 0 <= i < n ==> !is_white(#[trigger] s[i]),
        n < s.len() ==> is_white(s[n as int]),
    ensures
        word_len(s) == n,
{
    lemma_word_len(s);
}

proof fn lemma_words_push(s: Seq<char>, w: Seq<char>)
    requires
        is_word(w),
    ensures
        words(w) == seq![w],
        words(s + seq![' '] + w) == words(s).push(w),
    decreases s.len(),
{
    lemma_word_len_is(w, w.len());
    assert(w.take(w.len() as int) =~= w);
    assert(w.skip(w.len() as int) =~= Seq::empty());
    assert(words(Seq::<char>::empty()) =~= Seq::<Seq<char>>::empty());
    assert(words(w) =~= seq![w]);
    let all = s + seq![' '] + w;
    if s.len() == 0 {
        assert(all.skip(1) =~= w);
        assert(all[0] == ' ' && is_white(all[0]));
        assert(words(s).push(w) =~= seq![w]);
    } else if is_white(s[0]) {
        assert(all[0] == s[0]);
        assert(all.skip(1) =~= s.skip(1) + seq![' '] + w);
        lemma_words_push(s.skip(1), w);
    } else {
        lemma_word_len(s);
        let n = word_len(s);
        assert forall|i: int| 0 <= i < n implies !is_white(#[trigger] all[i]) by {
            assert(all[i] == s[i]);
        }
        if n < s.len() {
            assert(all[n as int] == s[n as int]);
        } else {
            assert(all[n as int] == ' ');
        }
        lemma_word_len_is(all, n);
        assert(all[0] == s[0]);
        assert(all.take(n as int) =~= s.take(n as int));
        assert(all.skip(n as int) =~= s.skip(n as int) + seq![' '] + w);
        lemma_words_push(s.skip(n as int), w);
        assert(words(s).push(w) =~= seq![s.take(n as int)] + words(s.skip(n as int)).push(w));
    }
}

/// The words of a text that was joined from words with blanks are those words.
pub proof fn law_words_of_joined(ws: Seq<Seq<char>>)
    requires
        forall|i: int| 0 <= i < ws.len() ==> is_word(#[trigger] ws[i]),
    ensures
        words(join(ws, seq![' '])) == ws,
    decreases ws.len(),
{
    if ws.len() == 0 {
        assert(words(Seq::<char>::empty()) =~= ws);
    } else if ws.len() == 1 {
        lemma_words_push(Seq::empty(), ws[0]);
        assert(ws =~= seq![ws[0]]);
    } else {
        let front = ws.drop_last();
        assert forall|i: int| 0 <= i < front.len() implies is_word(#[trigger] front[i]) by {
            assert(front[i] == ws[i]);
        }
        law_words_of_joined(front);
        lemma_words_push(join(front, seq![' ']), ws.last());
        assert(front.push(ws.last()) =~= ws);
    }
}

} // verus!
