//! What holds of numerals, and of texts that are cut and put together.
use vstd::prelude::*;

use crate::fields::{lookup, Field};
use crate::text::{
    dec, digit, digits_value, find, find_text, hex, hex_fixed, is_white, is_word, join, lemma_find,
    lemma_find_is, lemma_word_len_is, lines, parse_uint, split, starts_with, strip_cr, trim,
    trim_end, trim_start, words, IntError,
};

verus! {

/// The digits.
pub proof fn law_digits()
    ensures
        digit(0) == '0',
        digit(1) == '1',
        digit(2) == '2',
        digit(3) == '3',
        digit(4) == '4',
        digit(5) == '5',
        digit(6) == '6',
        digit(7) == '7',
        digit(8) == '8',
        digit(9) == '9',
        digit(10) == 'a',
        digit(11) == 'b',
        digit(12) == 'c',
        digit(13) == 'd',
        digit(14) == 'e',
        digit(15) == 'f',
{
}

/// All characters are decimal digits.
pub open spec fn all_digits(s: Seq<char>) -> bool {
    forall|i: int| 0 <= i < s.len() ==> '0' <= #[trigger] s[i] <= '9'
}

/// The number that decimal digits mean.
pub open spec fn meaning(s: Seq<char>) -> int
    decreases s.len(),
{
    if s.len() == 0 {
        0
    } else {
        10 * meaning(s.drop_last()) + (s.last() as int - 48)
    }
}

/// A decimal numeral means its number, and has no leading zeros.
pub proof fn law_dec_means_the_number(n: nat)
    ensures
        all_digits(dec(n)),
        meaning(dec(n)) == n,
        dec(n).len() > 0,
        dec(n).len() > 1 ==> dec(n)[0] != '0',
    decreases n,
{
    reveal_with_fuel(meaning, 2);
    if n < 10 {
        assert(dec(n).drop_last() =~= Seq::empty());
    } else {
        law_dec_means_the_number(n / 10);
        assert(dec(n).drop_last() =~= dec(n / 10));
        assert forall|i: int| 0 <= i < dec(n).len() implies '0' <= #[trigger] dec(n)[i] <= '9' by {
            if i < dec(n / 10).len() {
                assert(dec(n)[i] == dec(n / 10)[i]);
            }
        }
        assert(dec(n)[0] == dec(n / 10)[0]);
        if dec(n / 10).len() == 1 {
            assert(dec(n / 10).drop_last() =~= Seq::empty());
            assert(meaning(dec(n / 10)) == dec(n / 10)[0] as int - 48);
        }
    }
}

/// A hexadecimal numeral grows at its end: sixteen times a number and a digit.
pub proof fn law_hex_is_positional(n: nat, d: nat, width: nat)
    requires
        d < 16,
    ensures
        hex(d) == seq![digit(d)],
        n > 0 ==> hex(16 * n + d) == hex(n).push(digit(d)),
        hex_fixed(n, 0).len() == 0,
        hex_fixed(16 * n + d, width + 1) == hex_fixed(n, width).push(digit(d)),
{
    assert((16 * n + d) / 16 == n && (16 * n + d) % 16 == d);
}

/// A numeral of fixed width has that width.
pub proof fn law_hex_fixed_width(n: nat, width: nat)
    ensures
        hex_fixed(n, width).len() == width,
    decreases width,
{
    if width > 0 {
        law_hex_fixed_width(n / 16, (width - 1) as nat);
    }
}

proof fn lemma_meaning_from(s: Seq<char>, acc: nat, max: nat)
    requires
        acc <= max,
    ensures
        all_digits(s) && meaning_from(s, acc) <= max ==> digits_value(s, acc, max) == Ok::<
            nat,
            IntError,
        >(meaning_from(s, acc)),
        digits_value(s, acc, max) is Ok ==> all_digits(s) && meaning_from(s, acc) <= max,
    decreases s.len(),
{
    if s.len() > 0 {
        let rest = s.skip(1);
        if '0' <= s[0] <= '9' {
            let next = (acc * 10 + (s[0] as nat - 48)) as nat;
            lemma_meaning_grows(rest, next);
            if next <= max {
                lemma_meaning_from(rest, next, max);
            }
            assert(all_digits(s) ==> all_digits(rest)) by {
                if all_digits(s) {
                    assert forall|i: int| 0 <= i < rest.len() implies '0' <= #[trigger] rest[i]
                        <= '9' by {
                        assert(rest[i] == s[i + 1]);
                    }
                }
            }
            if all_digits(rest) {
                assert forall|i: int| 0 <= i < s.len() implies '0' <= #[trigger] s[i] <= '9' by {
                    if i > 0 {
                        assert(rest[i - 1] == s[i]);
                    }
                }
            }
        }
    }
}

/// The number that digits mean behind those that mean `acc`.
pub open spec fn meaning_from(s: Seq<char>, acc: nat) -> nat
    decreases s.len(),
{
    if s.len() == 0 {
        acc
    } else {
        meaning_from(s.skip(1), (acc * 10 + (s[0] as int - 48)) as nat)
    }
}

proof fn lemma_meaning_grows(s: Seq<char>, acc: nat)
    ensures
        all_digits(s) ==> meaning_from(s, acc) >= acc,
    decreases s.len(),
{
    if s.len() > 0 && all_digits(s) {
        let rest = s.skip(1);
        assert forall|i: int| 0 <= i < rest.len() implies '0' <= #[trigger] rest[i] <= '9' by {
            assert(rest[i] == s[i + 1]);
        }
        assert('0' <= s[0] <= '9');
        lemma_meaning_grows(rest, (acc * 10 + (s[0] as int - 48)) as nat);
    }
}

proof fn lemma_meaning_push(s: Seq<char>, c: char, acc: nat)
    requires
        '0' <= c <= '9',
        all_digits(s),
    ensures
        meaning_from(s.push(c), acc) == meaning_from(s, acc) * 10 + (c as int - 48),
    decreases s.len(),
{
    if s.len() == 0 {
        assert(s.push(c).skip(1) =~= Seq::empty());
        reveal_with_fuel(meaning_from, 2);
    } else {
        let rest = s.skip(1);
        assert forall|i: int| 0 <= i < rest.len() implies '0' <= #[trigger] rest[i] <= '9' by {
            assert(rest[i] == s[i + 1]);
        }
        lemma_meaning_push(rest, c, (acc * 10 + (s[0] as int - 48)) as nat);
        assert(s.push(c).skip(1) =~= rest.push(c));
        assert(s.push(c)[0] == s[0]);
    }
}

proof fn lemma_meaning(s: Seq<char>)
    requires
        all_digits(s),
    ensures
        meaning_from(s, 0) == meaning(s),
    decreases s.len(),
{
    if s.len() > 0 {
        let rest = s.drop_last();
        assert forall|i: int| 0 <= i < rest.len() implies '0' <= #[trigger] rest[i] <= '9' by {
            assert(rest[i] == s[i]);
        }
        assert('0' <= s[s.len() - 1] <= '9');
        lemma_meaning(rest);
        lemma_meaning_push(rest, s.last(), 0);
        assert(rest.push(s.last()) =~= s);
    }
}

/// Digits that are read mean what they are read as.
pub proof fn lemma_read_digits(s: Seq<char>, max: nat)
    ensures
        digits_value(s, 0, max) matches Ok(n) ==> all_digits(s) && meaning(s) == n && n <= max,
{
    lemma_meaning_from(s, 0, max);
    if digits_value(s, 0, max) is Ok {
        lemma_meaning(s);
    }
}

/// A numeral is read as the number that it means, where it consists of digits, perhaps behind a plus
/// sign, and where that number is not too large. Nothing else is read.
pub proof fn law_numerals_are_read(s: Seq<char>, max: nat)
    ensures
        all_digits(s) && s.len() > 0 && meaning(s) <= max ==> parse_uint(s, max) == Ok::<
            nat,
            IntError,
        >(meaning(s) as nat),
        all_digits(s) && s.len() > 0 ==> parse_uint(seq!['+'] + s, max) == parse_uint(s, max),
        all_digits(s) && meaning(s) > max ==> parse_uint(s, max) is Err,
        s.len() == 0 ==> parse_uint(s, max) == Err::<nat, IntError>(IntError::Empty),
        !all_digits(s) && s[0] != '+' ==> parse_uint(s, max) is Err,
        parse_uint(s, max) is Ok ==> parse_uint(s, max)->Ok_0 <= max,
{
    lemma_meaning_from(s, 0, max);
    if all_digits(s) {
        lemma_meaning(s);
        if s.len() > 0 {
            assert('0' <= s[0] <= '9');
            assert((seq!['+'] + s).skip(1) =~= s);
        }
    }
    lemma_meaning_from(s.skip(1), 0, max);
    if all_digits(s.skip(1)) {
        lemma_meaning(s.skip(1));
    }
}

/// The first place at which a character occurs is found.
pub proof fn law_first_character_is_found(s: Seq<char>, c: char)
    ensures
        find(s, c) <= s.len(),
        find(s, c) < s.len() ==> s[find(s, c) as int] == c,
        forall|i: int| 0 <= i < find(s, c) ==> #[trigger] s[i] != c,
{
    lemma_find(s, c);
}

/// The pattern stands in the text at `i`.
pub open spec fn occurs_at(s: Seq<char>, pattern: Seq<char>, i: int) -> bool {
    0 <= i && i + pattern.len() <= s.len() && s.subrange(i, i + pattern.len()) == pattern
}

/// The first place at which a text occurs in another is found.
pub proof fn law_first_text_is_found(s: Seq<char>, pattern: Seq<char>)
    ensures
        match find_text(s, pattern) {
            Some(n) => occurs_at(s, pattern, n as int) && forall|i: int|
                0 <= i < n ==> !(#[trigger] occurs_at(s, pattern, i)),
            None => forall|i: int| !(#[trigger] occurs_at(s, pattern, i)),
        },
    decreases s.len(),
{
    let m = pattern.len() as int;
    if m <= s.len() {
        assert(s.take(m) =~= s.subrange(0, m));
    }
    if !starts_with(s, pattern) && s.len() > 0 {
        let rest = s.skip(1);
        law_first_text_is_found(rest, pattern);
        assert forall|i: int| 0 < i implies (#[trigger] occurs_at(s, pattern, i) <==> occurs_at(
            rest,
            pattern,
            i - 1,
        )) by {
            if i + m <= s.len() {
                assert(s.subrange(i, i + m) =~= rest.subrange(i - 1, i - 1 + m));
            }
        }
        assert(!occurs_at(s, pattern, 0));
        match find_text(rest, pattern) {
            Some(n) => {
                assert(occurs_at(s, pattern, n as int + 1));
                assert forall|i: int| 0 <= i < n + 1 implies !(#[trigger] occurs_at(
                    s,
                    pattern,
                    i,
                )) by {
                    if i > 0 {
                        assert(!occurs_at(rest, pattern, i - 1));
                    }
                }
            },
            None => {
                assert forall|i: int| !(#[trigger] occurs_at(s, pattern, i)) by {
                    if i > 0 {
                        assert(!occurs_at(rest, pattern, i - 1));
                    }
                }
            },
        }
    } else if !starts_with(s, pattern) {
        assert forall|i: int| !(#[trigger] occurs_at(s, pattern, i)) by {
            if occurs_at(s, pattern, i) {
                assert(pattern =~= s.take(m));
            }
        }
    }
}

/// What a text is cut into has no separator in it, and put together with separators it is the text.
pub proof fn law_split_and_join(s: Seq<char>, c: char)
    ensures
        split(s, c).len() > 0,
        forall|i: int, k: int|
            0 <= i < split(s, c).len() && 0 <= k < split(s, c)[i].len() ==> #[trigger] split(
                s,
                c,
            )[i][k] != c,
        join(split(s, c), seq![c]) == s,
    decreases s.len(),
{
    let n = find(s, c) as int;
    lemma_find(s, c);
    let parts = split(s, c);
    if n >= s.len() {
        assert(parts =~= seq![s]);
    } else {
        let rest = s.skip(n + 1);
        law_split_and_join(rest, c);
        let more = split(rest, c);
        assert(parts =~= seq![s.take(n)] + more);
        assert forall|i: int, k: int|
            0 <= i < parts.len() && 0 <= k < parts[i].len() implies #[trigger] parts[i][k] != c by {
            if i > 0 {
                assert(parts[i] == more[i - 1]);
                assert(more[i - 1][k] != c);
            }
        }
        lemma_join_front(s.take(n), more, seq![c]);
        assert(s =~= s.take(n) + seq![c] + rest);
    }
}

proof fn lemma_join_front(first: Seq<char>, more: Seq<Seq<char>>, sep: Seq<char>)
    requires
        more.len() > 0,
    ensures
        join(seq![first] + more, sep) == first + sep + join(more, sep),
    decreases more.len(),
{
    let all = seq![first] + more;
    assert(all.last() == more.last());
    if more.len() == 1 {
        assert(all.drop_last() =~= seq![first]);
        assert(join(seq![first], sep) == first);
    } else {
        assert(all.drop_last() =~= seq![first] + more.drop_last());
        lemma_join_front(first, more.drop_last(), sep);
        assert(first + sep + join(more.drop_last(), sep) + sep + more.last() =~= first + sep + (
        join(more.drop_last(), sep) + sep + more.last()));
    }
}

/// Trimming takes white space away at both ends, all of it and nothing else.
pub proof fn law_trimming(s: Seq<char>) -> (n: (int, int))
    ensures
        0 <= n.0 <= n.1 <= s.len(),
        trim(s) == s.subrange(n.0, n.1),
        forall|i: int| 0 <= i < n.0 ==> is_white(#[trigger] s[i]),
        forall|i: int| n.1 <= i < s.len() ==> is_white(#[trigger] s[i]),
        n.0 < n.1 ==> !is_white(s[n.0]) && !is_white(s[n.1 - 1]),
{
    let a = lemma_trim_start(s);
    let t = trim_start(s);
    let b = lemma_trim_end(t);
    assert(trim(s) =~= s.subrange(a, a + b));
    if b > 0 {
        assert(t[0] == s[a] && t[b - 1] == s[a + b - 1]);
        assert forall|i: int| a + b <= i < s.len() implies is_white(#[trigger] s[i]) by {
            assert(t[i - a] == s[i]);
        }
        (a, a + b)
    } else {
        assert(trim(s) =~= s.subrange(a, a));
        assert forall|i: int| a <= i < s.len() implies is_white(#[trigger] s[i]) by {
            assert(t[i - a] == s[i]);
        }
        (a, a)
    }
}

proof fn lemma_trim_start(s: Seq<char>) -> (n: int)
    ensures
        0 <= n <= s.len(),
        trim_start(s) == s.skip(n),
        forall|i: int| 0 <= i < n ==> is_white(#[trigger] s[i]),
        n < s.len() ==> !is_white(s[n]),
    decreases s.len(),
{
    if s.len() > 0 && is_white(s[0]) {
        let k = lemma_trim_start(s.skip(1));
        assert(s.skip(1).skip(k) =~= s.skip(k + 1));
        assert forall|i: int| 0 <= i < k + 1 implies is_white(#[trigger] s[i]) by {
            if i > 0 {
                assert(s.skip(1)[i - 1] == s[i]);
            }
        }
        if k + 1 < s.len() {
            assert(s.skip(1)[k] == s[k + 1]);
        }
        k + 1
    } else {
        assert(s.skip(0) =~= s);
        0
    }
}

proof fn lemma_trim_end(s: Seq<char>) -> (n: int)
    ensures
        0 <= n <= s.len(),
        trim_end(s) == s.take(n),
        forall|i: int| n <= i < s.len() ==> is_white(#[trigger] s[i]),
        n > 0 ==> !is_white(s[n - 1]),
    decreases s.len(),
{
    if s.len() > 0 && is_white(s.last()) {
        let k = lemma_trim_end(s.drop_last());
        assert(s.drop_last().take(k) =~= s.take(k));
        assert forall|i: int| k <= i < s.len() implies is_white(#[trigger] s[i]) by {
            if i < s.len() - 1 {
                assert(s.drop_last()[i] == s[i]);
            }
        }
        k
    } else {
        assert(s.take(s.len() as int) =~= s);
        s.len() as int
    }
}

/// A blank, a tab, a carriage return and a line feed are white space; letters, digits and the signs
/// of an address are not.
pub proof fn law_white_space(c: char)
    ensures
        is_white(' ') && is_white('\t') && is_white('\r') && is_white('\n'),
        '!' <= c <= '~' ==> !is_white(c),
{
}

/// The words of a text: a word is the only word of itself, a word and a blank before a text add a
/// word in front, and a blank in front changes nothing.
pub proof fn law_words(word: Seq<char>, rest: Seq<char>)
    requires
        is_word(word),
    ensures
        words(Seq::empty()).len() == 0,
        words(word) == seq![word],
        words(word + seq![' '] + rest) == seq![word] + words(rest),
        words(seq![' '] + rest) == words(rest),
{
    lemma_word_len_is(word, word.len());
    assert(word.take(word.len() as int) =~= word);
    assert(word.skip(word.len() as int) =~= Seq::empty());
    assert(!is_white(word[0]));
    let none = word.skip(word.len() as int);
    assert(words(none) =~= Seq::empty());
    assert(words(word) == seq![word.take(word.len() as int)] + words(none));
    assert(words(word) =~= seq![word]);
    let s = word + seq![' '] + rest;
    let n = word.len() as int;
    assert forall|i: int| 0 <= i < n implies !is_white(#[trigger] s[i]) by {
        assert(s[i] == word[i]);
    }
    assert(s[n] == ' ');
    lemma_word_len_is(s, n as nat);
    assert(s.take(n) =~= word);
    let t = s.skip(n);
    assert(t =~= seq![' '] + rest);
    assert(t[0] == ' ');
    assert(t.skip(1) =~= rest);
    assert(words(t) == words(rest));
    assert(!is_white(s[0])) by {
        assert(s[0] == word[0]);
    }
    assert(words(s) == seq![s.take(n)] + words(t));
    let u = seq![' '] + rest;
    assert(u.skip(1) =~= rest);
    assert(u[0] == ' ');
}

/// The lines of a text end at line feeds, and a carriage return before one belongs to the end of the
/// line, not to the line.
pub proof fn law_lines(line: Seq<char>, rest: Seq<char>)
    requires
        forall|i: int| 0 <= i < line.len() ==> #[trigger] line[i] != '\n' && line[i] != '\r',
    ensures
        lines(Seq::empty()).len() == 0,
        line.len() > 0 ==> lines(line) == seq![line],
        lines(line + seq!['\n'] + rest) == seq![line] + lines(rest),
        lines(line + seq!['\r', '\n'] + rest) == seq![line] + lines(rest),
{
    let n = line.len();
    if n > 0 {
        lemma_find_is(line, '\n', n);
        lemma_no_cr(line);
        assert(lines(line) =~= seq![line]);
    }
    let s = line + seq!['\n'] + rest;
    assert(s[n as int] == '\n');
    assert forall|i: int| 0 <= i < n implies s[i] != '\n' by {
        assert(s[i] == line[i]);
    }
    lemma_find_is(s, '\n', n);
    assert(s.take(n as int) =~= line);
    assert(s.skip(n as int + 1) =~= rest);
    lemma_no_cr(line);
    let t = line + seq!['\r', '\n'] + rest;
    assert(t[n as int] == '\r' && t[n as int + 1] == '\n');
    assert forall|i: int| 0 <= i < n + 1 implies t[i] != '\n' by {
        if i < n {
            assert(t[i] == line[i]);
        }
    }
    lemma_find_is(t, '\n', n + 1);
    assert(t.take(n as int + 1) =~= line.push('\r'));
    assert(t.skip(n as int + 2) =~= rest);
    let l = line.push('\r');
    assert(l.last() == '\r');
    assert(l.drop_last() =~= line);
}

proof fn lemma_no_cr(line: Seq<char>)
    requires
        forall|i: int| 0 <= i < line.len() ==> #[trigger] line[i] != '\n' && line[i] != '\r',
    ensures
        strip_cr(line) == line,
{
    if line.len() > 0 {
        assert(line[line.len() - 1] != '\r');
    }
}

/// A field is looked up by its name: the first with that name is found, and none where there is none.
pub proof fn law_fields_are_found(fields: Seq<Field>, name: Seq<char>)
    ensures
        match lookup(fields, name) {
            Some(value) => exists|i: int|
                0 <= i < fields.len() && #[trigger] fields[i] == (name, value),
            None => forall|i: int| 0 <= i < fields.len() ==> (#[trigger] fields[i]).0 != name,
        },
    decreases fields.len(),
{
    if fields.len() > 0 {
        let rest = fields.skip(1);
        if fields[0].0 == name {
            assert(fields[0] == (name, fields[0].1));
        } else {
            law_fields_are_found(rest, name);
            match lookup(rest, name) {
                Some(value) => {
                    let i = choose|i: int|
                        0 <= i < rest.len() && #[trigger] rest[i] == (name, value);
                    assert(fields[i + 1] == (name, value));
                },
                None => {
                    assert forall|i: int| 0 <= i < fields.len() implies (#[trigger] fields[i]).0
                        != name by {
                        if i > 0 {
                            assert(rest[i - 1] == fields[i]);
                        }
                    }
                },
            }
        }
    }
}

} // verus!
