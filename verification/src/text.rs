//! Text as sequences of characters: trimming, splitting, lines, numbers, and
//! how many bytes a text takes in UTF-8.
use vstd::prelude::*;
use vstd::slice::slice_subrange;
use vstd::utf8::*;

verus! {

/// `String::push`: appends one character at the end of the string.
pub assume_specification[ String::push ](s: &mut String, c: char)
    ensures
        final(s)@ == old(s)@.push(c),
;

// ---------------------------------------------------------------------------
// Between strings and characters
// ---------------------------------------------------------------------------

/// The characters of `s`.
pub fn chars_of(s: &str) -> (r: Vec<char>)
    ensures
        r@ == s@,
{
    let mut r: Vec<char> = Vec::new();
    for c in it: s.chars()
        invariant
            it.seq() == s@,
            r@ == s@.take(it.index() as int),
    {
        r.push(c);
    }
    assert(s@.take(s@.len() as int) =~= s@);
    r
}

/// The string made of `chars`.
pub fn string_of(chars: &[char]) -> (r: String)
    ensures
        r@ == chars@,
{
    let mut r = String::new();
    let mut i: usize = 0;
    while i < chars.len()
        invariant
            i <= chars@.len(),
            r@ == chars@.take(i as int),
        decreases chars@.len() - i,
    {
        r.push(chars[i]);
        assert(chars@.take(i + 1) =~= chars@.take(i as int).push(chars@[i as int]));
        i += 1;
    }
    assert(chars@.take(chars@.len() as int) =~= chars@);
    r
}

/// Whether the two texts are the same.
pub fn same_chars(a: &[char], b: &[char]) -> (r: bool)
    ensures
        r == (a@ == b@),
{
    if a.len() != b.len() {
        return false;
    }
    let mut i: usize = 0;
    while i < a.len()
        invariant
            i <= a@.len(),
            a@.len() == b@.len(),
            a@.take(i as int) == b@.take(i as int),
        decreases a@.len() - i,
    {
        if a[i] != b[i] {
            assert(a@ != b@);
            return false;
        }
        assert(a@.take(i + 1) =~= a@.take(i as int).push(a@[i as int]));
        assert(b@.take(i + 1) =~= b@.take(i as int).push(b@[i as int]));
        i += 1;
    }
    assert(a@.take(a@.len() as int) =~= a@);
    assert(b@.take(b@.len() as int) =~= b@);
    true
}

/// Whether `a` spells `word`.
pub fn spells(a: &[char], word: &str) -> (r: bool)
    ensures
        r == (a@ == word@),
{
    let w = chars_of(word);
    same_chars(a, w.as_slice())
}

/// `s` begins with `prefix`.
pub open spec fn starts_with<T>(s: Seq<T>, prefix: Seq<T>) -> bool {
    prefix.len() <= s.len() && s.take(prefix.len() as int) == prefix
}

/// Whether `a` begins with `word`.
pub fn begins(a: &[char], word: &str) -> (r: bool)
    ensures
        r == starts_with(a@, word@),
{
    let w = chars_of(word);
    if w.len() <= a.len() {
        let head = slice_subrange(a, 0, w.len());
        assert(head@ =~= a@.take(w@.len() as int));
        same_chars(head, w.as_slice())
    } else {
        false
    }
}

/// Whether `s` begins with the character `c`.
pub open spec fn begins_with_char(s: Seq<char>, c: char) -> bool {
    s.len() > 0 && s[0] == c
}

// ---------------------------------------------------------------------------
// White space
// ---------------------------------------------------------------------------

/// The characters with the Unicode property `White_Space`.
pub open spec fn white_space(c: char) -> bool {
    let v = c as u32;
    ||| 0x09 <= v <= 0x0d
    ||| v == 0x20
    ||| v == 0x85
    ||| v == 0xa0
    ||| v == 0x1680
    ||| 0x2000 <= v <= 0x200a
    ||| v == 0x2028
    ||| v == 0x2029
    ||| v == 0x202f
    ||| v == 0x205f
    ||| v == 0x3000
}

/// Whether `c` is white space.
pub fn is_white_space(c: char) -> (r: bool)
    ensures
        r == white_space(c),
{
    let v: u32 = c as u32;
    (0x09 <= v && v <= 0x0d) || v == 0x20 || v == 0x85 || v == 0xa0 || v == 0x1680 || (0x2000 <= v
        && v <= 0x200a) || v == 0x2028 || v == 0x2029 || v == 0x202f || v == 0x205f || v == 0x3000
}

/// `s` without the white space it begins with.
pub open spec fn trimmed_start(s: Seq<char>) -> Seq<char>
    decreases s.len(),
{
    if s.len() > 0 && white_space(s[0]) {
        trimmed_start(s.skip(1))
    } else {
        s
    }
}

/// `s` without the white space it ends with.
pub open spec fn trimmed_end(s: Seq<char>) -> Seq<char>
    decreases s.len(),
{
    if s.len() > 0 && white_space(s.last()) {
        trimmed_end(s.drop_last())
    } else {
        s
    }
}

/// `s` without the white space at either end.
pub open spec fn trimmed(s: Seq<char>) -> Seq<char> {
    trimmed_end(trimmed_start(s))
}

/// `s` without the white space it ends with.
pub fn trim_end<'a>(s: &'a [char]) -> (r: &'a [char])
    ensures
        r@ == trimmed_end(s@),
{
    let mut j: usize = s.len();
    assert(s@.take(j as int) =~= s@);
    while j > 0 && is_white_space(s[j - 1])
        invariant
            j <= s@.len(),
            trimmed_end(s@.take(j as int)) == trimmed_end(s@),
        decreases j,
    {
        assert(s@.take(j as int).drop_last() =~= s@.take(j - 1));
        j -= 1;
    }
    let r = slice_subrange(s, 0, j);
    assert(r@ =~= s@.take(j as int));
    r
}

/// `s` without the white space it begins with.
pub fn trim_start<'a>(s: &'a [char]) -> (r: &'a [char])
    ensures
        r@ == trimmed_start(s@),
{
    let mut i: usize = 0;
    assert(s@.skip(0) =~= s@);
    while i < s.len() && is_white_space(s[i])
        invariant
            i <= s@.len(),
            trimmed_start(s@.skip(i as int)) == trimmed_start(s@),
        decreases s@.len() - i,
    {
        assert(s@.skip(i as int).skip(1) =~= s@.skip(i + 1));
        i += 1;
    }
    let r = slice_subrange(s, i, s.len());
    assert(r@ =~= s@.skip(i as int));
    r
}

/// `s` without the white space at either end.
pub fn trim<'a>(s: &'a [char]) -> (r: &'a [char])
    ensures
        r@ == trimmed(s@),
{
    trim_end(trim_start(s))
}

// ---------------------------------------------------------------------------
// Finding and splitting
// ---------------------------------------------------------------------------

/// The first index at or after `from` at which `s` holds `x`, or the length of
/// `s` if there is none.
pub open spec fn find<T>(s: Seq<T>, x: T, from: int) -> int
    decreases s.len() - from,
{
    if from >= s.len() {
        s.len() as int
    } else if s[from] == x {
        from
    } else {
        find(s, x, from + 1)
    }
}

/// What `find` answers, said without recursion.
pub proof fn lemma_find<T>(s: Seq<T>, x: T, from: int)
    requires
        0 <= from <= s.len(),
    ensures
        from <= find(s, x, from) <= s.len(),
        find(s, x, from) < s.len() ==> s[find(s, x, from)] == x,
        forall|i: int| from <= i < find(s, x, from) ==> #[trigger] s[i] != x,
    decreases s.len() - from,
{
    if from < s.len() && s[from] != x {
        lemma_find(s, x, from + 1);
    }
}

/// The first index at or after `from` at which `s` holds `x`.
pub fn find_char(s: &[char], x: char, from: usize) -> (r: usize)
    requires
        from <= s@.len(),
    ensures
        r == find(s@, x, from as int),
        from <= r <= s@.len(),
        r < s@.len() ==> s@[r as int] == x,
{
    let mut i: usize = from;
    while i < s.len() && s[i] != x
        invariant
            from <= i <= s@.len(),
            find(s@, x, from as int) == find(s@, x, i as int),
        decreases s@.len() - i,
    {
        i += 1;
    }
    i
}

/// The pieces of `s` between the characters `sep`; one more than there are
/// separators.
pub open spec fn split(s: Seq<char>, sep: char) -> Seq<Seq<char>>
    decreases s.len(),
    via split_decreases
{
    let k = find(s, sep, 0);
    if k >= s.len() {
        seq![s]
    } else {
        seq![s.take(k)] + split(s.skip(k + 1), sep)
    }
}

#[via_fn]
proof fn split_decreases(s: Seq<char>, sep: char) {
    lemma_find(s, sep, 0);
}

/// One line of text without the carriage return before its line feed.
pub open spec fn without_cr(s: Seq<char>) -> Seq<char> {
    if s.len() > 0 && s.last() == '\r' {
        s.drop_last()
    } else {
        s
    }
}

/// The lines of `s`: ended by a line feed, or by a carriage return and a line
/// feed; the last one may lack its end, and then keeps a carriage return.
pub open spec fn lines_of(s: Seq<char>) -> Seq<Seq<char>>
    decreases s.len(),
    via lines_of_decreases
{
    if s.len() == 0 {
        Seq::empty()
    } else {
        let k = find(s, '\n', 0);
        if k >= s.len() {
            seq![s]
        } else {
            seq![without_cr(s.take(k))] + lines_of(s.skip(k + 1))
        }
    }
}

#[via_fn]
proof fn lines_of_decreases(s: Seq<char>) {
    lemma_find(s, '\n', 0);
}

// ---------------------------------------------------------------------------
// UTF-8
// ---------------------------------------------------------------------------

/// The UTF-8 form of two texts in a row is the two forms in a row.
pub proof fn lemma_encode_concat(a: Seq<char>, b: Seq<char>)
    ensures
        encode_utf8(a + b) == encode_utf8(a) + encode_utf8(b),
    decreases a.len(),
{
    if a.len() == 0 {
        assert(a + b =~= b);
        assert(encode_utf8(a) =~= Seq::<u8>::empty());
        assert(encode_utf8(a) + encode_utf8(b) =~= encode_utf8(b));
    } else {
        assert((a + b).drop_first() =~= a.drop_first() + b);
        lemma_encode_concat(a.drop_first(), b);
        assert(encode_utf8(a + b) =~= encode_scalar(a[0] as u32) + (encode_utf8(a.drop_first())
            + encode_utf8(b)));
        assert(encode_utf8(a + b) =~= encode_utf8(a) + encode_utf8(b));
    }
}

/// How many bytes `c` takes in UTF-8.
pub open spec fn width(c: char) -> nat {
    let v = c as u32;
    if v < 0x80 {
        1
    } else if v < 0x800 {
        2
    } else if v < 0x10000 {
        3
    } else {
        4
    }
}

/// How many bytes `c` takes in UTF-8.
pub fn char_width(c: char) -> (r: usize)
    ensures
        r == width(c),
{
    let v: u32 = c as u32;
    if v < 0x80 {
        1
    } else if v < 0x800 {
        2
    } else if v < 0x10000 {
        3
    } else {
        4
    }
}

/// One more character adds its own width.
pub proof fn lemma_encode_push(s: Seq<char>, c: char)
    ensures
        encode_utf8(s.push(c)).len() == encode_utf8(s).len() + width(c),
{
    lemma_encode_concat(s, seq![c]);
    assert(s.push(c) =~= s + seq![c]);
    assert(seq![c].drop_first() =~= Seq::<char>::empty());
    assert(encode_utf8(seq![c]) =~= encode_scalar(c as u32) + encode_utf8(Seq::<char>::empty()));
    assert(encode_utf8(Seq::<char>::empty()) =~= Seq::<u8>::empty());
    char_is_scalar(c);
}

/// What `String::from_utf8_lossy` makes of bytes that are not UTF-8: their text
/// with a replacement character for each ill-formed part.
pub uninterp spec fn repaired_utf8(bytes: Seq<u8>) -> Seq<char>;

/// The text that bytes stand for: what they write in UTF-8, repaired where they
/// are not UTF-8.
pub open spec fn text_of(bytes: Seq<u8>) -> Seq<char> {
    if valid_utf8(bytes) {
        decode_utf8(bytes)
    } else {
        repaired_utf8(bytes)
    }
}

/// `String::from_utf8_lossy`: the text that the bytes write in UTF-8. Bytes that
/// are not UTF-8 give a text that depends on them alone; which one is left
/// unsaid.
#[verifier::external_body]
pub(crate) fn lossy_string(bytes: &[u8]) -> (r: String)
    ensures
        valid_utf8(bytes@) ==> r@ == decode_utf8(bytes@),
        !valid_utf8(bytes@) ==> r@ == repaired_utf8(bytes@),
{
    String::from_utf8_lossy(bytes).into_owned()
}

/// A text reads back from its UTF-8 form.
pub proof fn text_reads_back(s: Seq<char>)
    ensures
        text_of(encode_utf8(s)) == s,
{
    encode_utf8_valid_utf8(s);
    encode_utf8_decode_utf8(s);
}

// ---------------------------------------------------------------------------
// Decimal numbers
// ---------------------------------------------------------------------------

/// `c` is one of the ten decimal digits.
pub open spec fn digit(c: char) -> bool {
    '0' <= c <= '9'
}

/// The number that a row of decimal digits writes.
pub open spec fn decimal_value(s: Seq<char>) -> nat
    decreases s.len(),
{
    if s.len() == 0 {
        0
    } else {
        decimal_value(s.drop_last()) * 10 + (s.last() as u32 - '0' as u32) as nat
    }
}

/// `s` is a decimal number: at least one digit, and a plus sign before them at
/// most.
pub open spec fn is_decimal(s: Seq<char>) -> bool {
    let d = unsigned_part(s);
    d.len() > 0 && forall|i: int| 0 <= i < d.len() ==> digit(#[trigger] d[i])
}

/// `s` without a plus sign in front.
pub open spec fn unsigned_part(s: Seq<char>) -> Seq<char> {
    if begins_with_char(s, '+') {
        s.skip(1)
    } else {
        s
    }
}

/// The number at most `max` that `s` writes, if it writes one.
pub open spec fn decimal_up_to(s: Seq<char>, max: nat) -> Option<nat> {
    if is_decimal(s) && decimal_value(unsigned_part(s)) <= max {
        Some(decimal_value(unsigned_part(s)))
    } else {
        None
    }
}

/// More digits never make a smaller number.
proof fn lemma_decimal_grows(s: Seq<char>, k: int)
    requires
        0 <= k <= s.len(),
        forall|i: int| 0 <= i < s.len() ==> digit(#[trigger] s[i]),
    ensures
        decimal_value(s.take(k)) <= decimal_value(s),
    decreases s.len() - k,
{
    if k == s.len() {
        assert(s.take(k) =~= s);
    } else {
        assert(s.take(k + 1).drop_last() =~= s.take(k));
        assert(digit(s[k]));
        lemma_decimal_grows(s, k + 1);
    }
}

/// Reads a decimal number of at most `max`.
pub fn parse_decimal(s: &[char], max: u64) -> (r: Option<u64>)
    requires
        max <= 0xffff_ffff,
    ensures
        match r {
            Some(v) => decimal_up_to(s@, max as nat) == Some(v as nat),
            None => decimal_up_to(s@, max as nat) is None,
        },
{
    let start: usize = if s.len() > 0 && s[0] == '+' {
        1
    } else {
        0
    };
    let ghost d = unsigned_part(s@);
    assert(d =~= s@.skip(start as int));
    if s.len() == start {
        return None;
    }
    let mut v: u64 = 0;
    let mut i: usize = start;
    assert(d.take(0) =~= Seq::<char>::empty());
    while i < s.len()
        invariant
            start <= i <= s@.len(),
            d == s@.skip(start as int),
            d == unsigned_part(s@),
            max <= 0xffff_ffff,
            v <= max,
            v == decimal_value(d.take(i - start)),
            forall|k: int| 0 <= k < i - start ==> digit(#[trigger] d[k]),
        decreases s@.len() - i,
    {
        let c = s[i];
        assert(d[i - start] == c);
        if !('0' <= c && c <= '9') {
            assert(!digit(d[i - start]));
            return None;
        }
        assert(d.take(i + 1 - start).drop_last() =~= d.take(i - start));
        v = v * 10 + (c as u32 - '0' as u32) as u64;
        i += 1;
        if v > max {
            proof {
                if is_decimal(s@) {
                    lemma_decimal_grows(d, i - start);
                }
            }
            return None;
        }
    }
    assert(d.take(i - start) =~= d);
    Some(v)
}

/// The decimal digit for a value under ten.
pub open spec fn digit_char(v: nat) -> char {
    ('0' as u32 + v) as char
}

/// The decimal digits of `n`.
pub open spec fn decimal_text(n: nat) -> Seq<char>
    decreases n,
{
    if n < 10 {
        seq![digit_char(n)]
    } else {
        decimal_text(n / 10).push(digit_char(n % 10))
    }
}

/// Appends the decimal digits of `n`.
pub fn push_decimal(s: &mut String, n: u64)
    ensures
        final(s)@ == old(s)@ + decimal_text(n as nat),
    decreases n,
{
    let ghost o = s@;
    if n >= 10 {
        push_decimal(s, n / 10);
    }
    s.push((0x30 + (n % 10) as u8) as char);
    assert(s@ =~= o + decimal_text(n as nat));
}

/// A number reads back from its decimal digits.
pub proof fn decimal_reads_back(n: nat)
    ensures
        is_decimal(decimal_text(n)),
        unsigned_part(decimal_text(n)) == decimal_text(n),
        decimal_value(decimal_text(n)) == n,
    decreases n,
{
    let t = decimal_text(n);
    reveal_with_fuel(decimal_value, 2);
    assert(t.last() as u32 == '0' as u32 + n % 10);
    if n >= 10 {
        decimal_reads_back(n / 10);
        let h = decimal_text(n / 10);
        assert(t.drop_last() =~= h);
        assert(t[0] == h[0]);
        assert forall|i: int| 0 <= i < t.len() implies digit(#[trigger] t[i]) by {
            if i < h.len() {
                assert(t[i] == h[i]);
                assert(digit(unsigned_part(h)[i]));
            }
        }
        assert(digit(h[0]));
    } else {
        assert(t.drop_last() =~= Seq::<char>::empty());
    }
}

/// Two texts in a row.
pub fn join2(a: &str, b: &str) -> (r: String)
    ensures
        r@ == a@ + b@,
{
    let mut r = String::from_str(a);
    r.append(b);
    r
}

/// Three texts in a row.
pub fn join3(a: &str, b: &str, c: &str) -> (r: String)
    ensures
        r@ == a@ + b@ + c@,
{
    let mut r = String::from_str(a);
    r.append(b);
    r.append(c);
    r
}

// ---------------------------------------------------------------------------
// Words
// ---------------------------------------------------------------------------

/// The end of the run from `i` on that has no white space.
pub open spec fn word_end(s: Seq<char>, i: int) -> int
    decreases s.len() - i,
{
    if i >= s.len() || white_space(s[i]) {
        i
    } else {
        word_end(s, i + 1)
    }
}

pub proof fn lemma_word_end(s: Seq<char>, i: int)
    requires
        0 <= i <= s.len(),
    ensures
        i <= word_end(s, i) <= s.len(),
    decreases s.len() - i,
{
    if i < s.len() && !white_space(s[i]) {
        lemma_word_end(s, i + 1);
    }
}

/// The words of `s` from index `i` on: the longest runs without white space.
pub open spec fn words_from(s: Seq<char>, i: int) -> Seq<Seq<char>>
    decreases s.len() - i,
    via words_from_decreases
{
    if i < 0 || i >= s.len() {
        Seq::empty()
    } else if white_space(s[i]) {
        words_from(s, i + 1)
    } else {
        seq![s.subrange(i, word_end(s, i))] + words_from(s, word_end(s, i))
    }
}

#[via_fn]
proof fn words_from_decreases(s: Seq<char>, i: int) {
    if 0 <= i < s.len() {
        lemma_word_end(s, i + 1);
    }
}

/// The words of a text as plain mathematics.
pub open spec fn word_models(v: Seq<Vec<char>>) -> Seq<Seq<char>> {
    v.map_values(|w: Vec<char>| w@)
}

/// The words of a text.
pub fn words(s: &[char]) -> (r: Vec<Vec<char>>)
    ensures
        word_models(r@) == words_from(s@, 0),
{
    let mut out: Vec<Vec<char>> = Vec::new();
    let mut i: usize = 0;
    assert(word_models(out@) + words_from(s@, 0) =~= words_from(s@, 0));
    while i < s.len()
        invariant
            i <= s@.len(),
            word_models(out@) + words_from(s@, i as int) == words_from(s@, 0),
        decreases s@.len() - i,
    {
        if is_white_space(s[i]) {
            i += 1;
        } else {
            let start = i;
            let mut w: Vec<char> = Vec::new();
            while i < s.len() && !is_white_space(s[i])
                invariant
                    start <= i <= s@.len(),
                    w@ == s@.subrange(start as int, i as int),
                    word_end(s@, start as int) == word_end(s@, i as int),
                decreases s@.len() - i,
            {
                w.push(s[i]);
                assert(s@.subrange(start as int, i + 1) =~= s@.subrange(
                    start as int,
                    i as int,
                ).push(s@[i as int]));
                i += 1;
            }
            let ghost o = word_models(out@);
            proof {
                assert(word_end(s@, start as int) == i);
                lemma_word_end(s@, start + 1);
            }
            out.push(w);
            proof {
                assert(word_models(out@) =~= o + seq![w@]);
                assert(o + (seq![w@] + words_from(s@, i as int)) =~= o + seq![w@] + words_from(
                    s@,
                    i as int,
                ));
            }
        }
    }
    assert(word_models(out@) + Seq::<Seq<char>>::empty() =~= word_models(out@));
    out
}

} // verus!
