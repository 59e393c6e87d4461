//! Text in its smallest parts: white space, lines, pieces, digits and addresses.
use vstd::prelude::*;

use crate::address::{address_written, addresses_from, run_end};
use crate::hex::{all_hex, hex_bytes, hex_text, hex_value};
use crate::text::{
    decimal_text, decimal_up_to, decimal_value, find, is_decimal, lemma_find, lines_of, split,
    trimmed, trimmed_end, trimmed_start, white_space, width, word_end, words_from,
};

verus! {

/// `s` holds white space and nothing else.
pub open spec fn all_white(s: Seq<char>) -> bool {
    forall|i: int| 0 <= i < s.len() ==> white_space(#[trigger] s[i])
}

/// `s` is not empty, and neither begins nor ends with white space.
pub open spec fn solid(s: Seq<char>) -> bool {
    s.len() > 0 && !white_space(s[0]) && !white_space(s.last())
}

/// The characters that are white space.
pub proof fn white_space_is(c: char)
    ensures
        white_space(c) <==> ({
            ||| c == ' ' || c == '\t' || c == '\n' || c == '\r' || c == '\u{b}' || c == '\u{c}'
            ||| c == '\u{85}' || c == '\u{a0}' || c == '\u{1680}'
            ||| '\u{2000}' <= c <= '\u{200a}'
            ||| c == '\u{2028}' || c == '\u{2029}' || c == '\u{202f}' || c == '\u{205f}'
            ||| c == '\u{3000}'
        }),
{
}

proof fn lemma_white_start(w: Seq<char>, s: Seq<char>)
    requires
        all_white(w),
        s.len() > 0 ==> !white_space(s[0]),
    ensures
        trimmed_start(w + s) == s,
    decreases w.len(),
{
    if w.len() == 0 {
        assert(w + s =~= s);
    } else {
        assert((w + s)[0] == w[0]);
        assert((w + s).skip(1) =~= w.skip(1) + s);
        assert(forall|i: int| 0 <= i < w.skip(1).len() ==> w.skip(1)[i] == w[i + 1]);
        lemma_white_start(w.skip(1), s);
    }
}

proof fn lemma_white_end(s: Seq<char>, w: Seq<char>)
    requires
        all_white(w),
        s.len() > 0 ==> !white_space(s.last()),
    ensures
        trimmed_end(s + w) == s,
    decreases w.len(),
{
    if w.len() == 0 {
        assert(s + w =~= s);
    } else {
        assert((s + w).last() == w[w.len() - 1]);
        assert((s + w).drop_last() =~= s + w.drop_last());
        lemma_white_end(s, w.drop_last());
    }
}

/// Trimming takes off the white space at both ends and nothing else.
pub proof fn trimming_takes_the_ends(before: Seq<char>, s: Seq<char>, after: Seq<char>)
    requires
        all_white(before),
        all_white(after),
        solid(s),
    ensures
        trimmed(before + s + after) == s,
        trimmed(s) == s,
        trimmed(before) == Seq::<char>::empty(),
{
    assert(before + s + after =~= before + (s + after));
    assert((s + after)[0] == s[0]);
    lemma_white_start(before, s + after);
    lemma_white_end(s, after);
    lemma_white_start(before, Seq::empty());
    assert(before + Seq::<char>::empty() =~= before);
}

proof fn lemma_not_found(s: Seq<char>, x: char)
    requires
        !s.contains(x),
    ensures
        find(s, x, 0) == s.len(),
{
    lemma_find(s, x, 0);
}

/// The first `x` of a text is where the part without one ends.
pub proof fn the_first_is_found(a: Seq<char>, x: char, b: Seq<char>)
    requires
        !a.contains(x),
    ensures
        find(a, x, 0) == a.len(),
        find(a.push(x) + b, x, 0) == a.len(),
{
    lemma_not_found(a, x);
    let s = a.push(x) + b;
    lemma_find(s, x, 0);
    let k = find(s, x, 0);
    assert(s[a.len() as int] == x);
    if k < a.len() {
        assert(a[k] == x);
    }
}

/// A text without a separator is one piece; a piece, a separator and a text are the
/// piece and the pieces of the text.
pub proof fn pieces_stand_between_separators(a: Seq<char>, sep: char, b: Seq<char>)
    requires
        !a.contains(sep),
    ensures
        split(a, sep) == seq![a],
        split(a.push(sep) + b, sep) == seq![a] + split(b, sep),
{
    the_first_is_found(a, sep, b);
    let s = a.push(sep) + b;
    assert(s.take(a.len() as int) =~= a);
    assert(s.skip((a.len() + 1) as int) =~= b);
}

/// A text without a line feed is one line, unless it is empty; a line, a line feed and a
/// text are the line, without the carriage return at its end, and the lines of the text.
pub proof fn lines_end_with_line_feeds(a: Seq<char>, b: Seq<char>)
    requires
        !a.contains('\n'),
    ensures
        lines_of(Seq::empty()) == Seq::<Seq<char>>::empty(),
        a.len() > 0 ==> lines_of(a) == seq![a],
        a.len() > 0 && a.last() == '\r' ==> lines_of(a.push('\n') + b) == seq![a.drop_last()]
            + lines_of(b),
        a.len() == 0 || a.last() != '\r' ==> lines_of(a.push('\n') + b) == seq![a] + lines_of(b),
{
    the_first_is_found(a, '\n', b);
    let s = a.push('\n') + b;
    assert(s.take(a.len() as int) =~= a);
    assert(s.skip((a.len() + 1) as int) =~= b);
}

proof fn lemma_words_shift(s: Seq<char>, i: int)
    requires
        0 <= i <= s.len(),
    ensures
        words_from(s, i) == words_from(s.skip(i), 0),
    decreases s.len() - i,
{
    let t = s.skip(i);
    if i < s.len() {
        assert(t[0] == s[i]);
        if white_space(s[i]) {
            lemma_words_shift(s, i + 1);
            lemma_words_shift(t, 1);
            assert(t.skip(1) =~= s.skip(i + 1));
        } else {
            lemma_word_end_shift(s, i, 0);
            crate::text::lemma_word_end(s, i + 1);
            let j = word_end(s, i);
            assert(j > i);
            lemma_words_shift(s, j);
            lemma_words_shift(t, j - i);
            assert(t.skip(j - i) =~= s.skip(j));
            assert(t.subrange(0, j - i) =~= s.subrange(i, j));
        }
    } else {
        assert(t.len() == 0);
    }
}

proof fn lemma_word_end_shift(s: Seq<char>, i: int, k: int)
    requires
        0 <= i,
        0 <= k,
        i + k <= s.len(),
    ensures
        word_end(s, i + k) == i + word_end(s.skip(i), k),
    decreases s.len() - i - k,
{
    if i + k < s.len() {
        assert(s.skip(i)[k] == s[i + k]);
        lemma_word_end_shift(s, i, k + 1);
    }
}

proof fn lemma_word_end_at(w: Seq<char>, rest: Seq<char>, k: int)
    requires
        0 <= k <= w.len(),
        forall|i: int| 0 <= i < w.len() ==> !white_space(#[trigger] w[i]),
        rest.len() == 0 || white_space(rest[0]),
    ensures
        word_end(w + rest, k) == w.len(),
    decreases w.len() - k,
{
    if k < w.len() {
        assert((w + rest)[k] == w[k]);
        lemma_word_end_at(w, rest, k + 1);
    } else if rest.len() > 0 {
        assert((w + rest)[k] == rest[0]);
    }
}

/// White space parts words and belongs to none: the words of a text behind white space
/// are those of the text, and a run without white space, up to white space or the end,
/// is a word.
pub proof fn words_stand_between_white_space(c: char, w: Seq<char>, rest: Seq<char>)
    requires
        white_space(c),
        w.len() > 0,
        forall|i: int| 0 <= i < w.len() ==> !white_space(#[trigger] w[i]),
        rest.len() == 0 || white_space(rest[0]),
    ensures
        words_from(Seq::empty(), 0) == Seq::<Seq<char>>::empty(),
        words_from(seq![c] + rest, 0) == words_from(rest, 0),
        words_from(w + rest, 0) == seq![w] + words_from(rest, 0),
{
    let s = seq![c] + rest;
    assert(s[0] == c);
    lemma_words_shift(s, 1);
    assert(s.skip(1) =~= rest);
    let t = w + rest;
    assert(t[0] == w[0]);
    lemma_word_end_at(w, rest, 0);
    lemma_words_shift(t, w.len() as int);
    assert(t.skip(w.len() as int) =~= rest);
    assert(t.subrange(0, w.len() as int) =~= w);
}

/// A decimal number is read digit by digit, the highest first; one plus sign may stand
/// before it, and nothing else. What is over the limit is no number.
pub proof fn decimals_are_read(s: Seq<char>, c: char, max: nat)
    requires
        '0' <= c <= '9',
    ensures
        decimal_value(Seq::empty()) == 0,
        decimal_value(s.push(c)) == 10 * decimal_value(s) + (c as u32 - 0x30),
        decimal_up_to(s, max) matches Some(v) ==> v <= max && is_decimal(s),
        is_decimal(s) && s[0] != '+' ==> {
            &&& forall|i: int| 0 <= i < s.len() ==> '0' <= #[trigger] s[i] <= '9'
            &&& decimal_up_to(s, max) == (if decimal_value(s) <= max {
                Some(decimal_value(s))
            } else {
                None
            })
        },
        s.len() > 0 && (forall|i: int| 0 <= i < s.len() ==> '0' <= #[trigger] s[i] <= '9')
            ==> is_decimal(s) && decimal_up_to(seq!['+'] + s, max) == decimal_up_to(s, max),
{
    assert(s.push(c).drop_last() =~= s);
    assert((seq!['+'] + s).skip(1) =~= s);
    assert((seq!['+'] + s)[0] == '+');
}

/// A number is written in decimal digits, the highest first and never a needless zero.
pub proof fn decimals_are_written(n: nat, last: nat)
    requires
        last < 10,
    ensures
        n < 10 ==> decimal_text(n) == seq![(0x30 + n) as char],
        n > 0 ==> decimal_text(10 * n + last) == decimal_text(n).push((0x30 + last) as char),
{
    assert((10 * n + last) / 10 == n);
    assert((10 * n + last) % 10 == last);
}

/// The hexadecimal digits and what they stand for, in both cases.
pub proof fn hexadecimal_digits_are(c: char)
    ensures
        hex_value(c) == (if '0' <= c <= '9' {
            Some((c as u32 - 0x30) as u8)
        } else if 'a' <= c <= 'f' {
            Some((c as u32 - 0x57) as u8)
        } else if 'A' <= c <= 'F' {
            Some((c as u32 - 0x37) as u8)
        } else {
            None
        }),
{
}

/// A byte is written as two digits in lower case, the high one first, and read so.
pub proof fn bytes_are_two_digits(b: Seq<u8>, s: Seq<char>, k: int)
    ensures
        hex_text(b).len() == 2 * b.len(),
        hex_bytes(s).len() == s.len() / 2,
        0 <= k < b.len() ==> {
            let digits = seq![
                '0', '1', '2', '3', '4', '5', '6', '7', '8', '9', 'a', 'b', 'c', 'd', 'e', 'f',
            ];
            &&& hex_text(b)[2 * k] == digits[(b[k] / 16) as int]
            &&& hex_text(b)[2 * k + 1] == digits[(b[k] % 16) as int]
        },
        all_hex(s) && 0 <= 2 * k && 2 * k + 1 < s.len() ==> hex_bytes(s)[k] == 16 * hex_value(
            s[2 * k],
        )->0 + hex_value(s[2 * k + 1])->0,
{
    if all_hex(s) && 0 <= 2 * k && 2 * k + 1 < s.len() {
        assert(hex_value(s[2 * k]) is Some);
        assert(hex_value(s[2 * k + 1]) is Some);
    }
    if 0 <= k < b.len() {
        assert((2 * k) / 2 == k && (2 * k + 1) / 2 == k);
        assert((2 * k) % 2 == 0 && (2 * k + 1) % 2 == 1);
    }
}

/// An address is written as 32 hexadecimal digits, white space around them aside, and
/// as nothing else.
pub proof fn an_address_is_thirty_two_digits(before: Seq<char>, s: Seq<char>, after: Seq<char>)
    requires
        all_white(before),
        all_white(after),
        solid(s),
    ensures
        address_written(before + s + after) == (if s.len() == 32 && all_hex(s) {
            Some(hex_bytes(s))
        } else {
            None
        }),
{
    trimming_takes_the_ends(before, s, after);
}

proof fn lemma_run_shift(s: Seq<char>, i: int, k: int)
    requires
        0 <= i,
        0 <= k,
        i + k <= s.len(),
    ensures
        run_end(s, i + k) == i + run_end(s.skip(i), k),
    decreases s.len() - i - k,
{
    if i + k < s.len() {
        assert(s.skip(i)[k] == s[i + k]);
        lemma_run_shift(s, i, k + 1);
    }
}

proof fn lemma_run_within(s: Seq<char>, i: int)
    requires
        0 <= i <= s.len(),
    ensures
        i <= run_end(s, i) <= s.len(),
        i < s.len() && hex_value(s[i]) is Some ==> i < run_end(s, i),
    decreases s.len() - i,
{
    if i < s.len() {
        lemma_run_within(s, i + 1);
    }
}

proof fn lemma_addresses_shift(s: Seq<char>, i: int)
    requires
        0 <= i <= s.len(),
    ensures
        addresses_from(s, i) == addresses_from(s.skip(i), 0),
    decreases s.len() - i,
{
    let t = s.skip(i);
    if i < s.len() {
        assert(t[0] == s[i]);
        if hex_value(s[i]) is None {
            lemma_addresses_shift(s, i + 1);
            lemma_addresses_shift(t, 1);
            assert(t.skip(1) =~= s.skip(i + 1));
        } else {
            lemma_run_shift(s, i, 0);
            lemma_run_within(s, i);
            let j = run_end(s, i);
            lemma_addresses_shift(s, j);
            lemma_addresses_shift(t, j - i);
            assert(t.skip(j - i) =~= s.skip(j));
            assert(t.subrange(0, j - i) =~= s.subrange(i, j));
        }
    }
}

proof fn lemma_run_at(d: Seq<char>, rest: Seq<char>, k: int)
    requires
        0 <= k <= d.len(),
        all_hex(d),
        rest.len() == 0 || hex_value(rest[0]) is None,
    ensures
        run_end(d + rest, k) == d.len(),
    decreases d.len() - k,
{
    if k < d.len() {
        assert((d + rest)[k] == d[k]);
        assert(hex_value(d[k]) is Some);
        lemma_run_at(d, rest, k + 1);
    } else if rest.len() > 0 {
        assert((d + rest)[k] == rest[0]);
    }
}

/// The addresses that stand in a text: each run of hexadecimal digits that is 32 long,
/// no longer and no shorter, in the order of the text.
pub proof fn addresses_are_runs_of_thirty_two(c: char, d: Seq<char>, rest: Seq<char>)
    requires
        hex_value(c) is None,
        d.len() > 0,
        all_hex(d),
        rest.len() == 0 || hex_value(rest[0]) is None,
    ensures
        addresses_from(Seq::empty(), 0) == Seq::<Seq<u8>>::empty(),
        addresses_from(seq![c] + rest, 0) == addresses_from(rest, 0),
        d.len() == 32 ==> addresses_from(d + rest, 0) == seq![hex_bytes(d)] + addresses_from(
            rest,
            0,
        ),
        d.len() != 32 ==> addresses_from(d + rest, 0) == addresses_from(rest, 0),
{
    let s = seq![c] + rest;
    assert(s[0] == c);
    lemma_addresses_shift(s, 1);
    assert(s.skip(1) =~= rest);
    let t = d + rest;
    assert(t[0] == d[0]);
    assert(hex_value(d[0]) is Some);
    lemma_run_at(d, rest, 0);
    lemma_addresses_shift(t, d.len() as int);
    assert(t.skip(d.len() as int) =~= rest);
    assert(t.subrange(0, d.len() as int) =~= d);
}

/// A character takes one byte under 128, two under 2048, three under 65536 and four from
/// there on.
pub proof fn characters_take_bytes(c: char)
    ensures
        width(c) == (if (c as u32) < 128 {
            1nat
        } else if (c as u32) < 2048 {
            2
        } else if (c as u32) < 65536 {
            3
        } else {
            4
        }),
{
}

} // verus!
