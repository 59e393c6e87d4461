//! What a page shows of its source, and where its links lead.
use vstd::prelude::*;

use crate::browser::{follows, Follow, Place};
use crate::hex::{all_hex, hex_bytes, hex_value};
use crate::laws::text::{
    all_white, pieces_stand_between_separators, solid, the_first_is_found, trimming_takes_the_ends,
};
use crate::micron::{
    all_shown, applied, blank, component_variables, flushed, heading_from, line_read, link_at,
    page_of, page_read, scanned, shown, tag_at, target_of, title_of, variable, variables, Align,
    Kind, LineModel, LinkModel, PageModel, Scan, ScanState, Style, TagModel, TargetModel,
};
use crate::text::{
    find, lemma_find, lines_of, split, starts_with, trimmed, trimmed_end, trimmed_start,
    white_space,
};

verus! {

/// `after` is `before` with one more line at its end, and nothing else.
pub open spec fn one_line_more(before: PageModel, after: PageModel, line: LineModel) -> bool {
    &&& after.lines.len() == before.lines.len() + 1
    &&& after.lines.last() == line
    &&& after.lines.drop_last() == before.lines
    &&& after.links == before.links
    &&& after.cache_secs == before.cache_secs
}

/// In a literal block each source line is one line of the page, character for
/// character, in fixed width. Only a line that holds nothing but the mark of a block's
/// end is none, and the escaped mark is shown without its escape.
pub proof fn literal_lines_are_shown_as_they_stand(s: Seq<char>, st: ScanState, page: PageModel)
    requires
        st.literal,
        page.lines.len() < 2000,
    ensures
        ({
            let (next, after) = line_read(s, st, page);
            let mono = |text: Seq<char>|
                LineModel { text, style: Style::Mono, align: Align::Left, kind: Kind::Text };
            if trimmed(s) == seq!['`', '='] {
                &&& after == page
                &&& next == (ScanState { literal: false, ..st })
            } else if trimmed(s) == seq!['\\', '`', '='] {
                &&& one_line_more(page, after, mono(seq!['`', '=']))
                &&& next == st
            } else {
                &&& one_line_more(page, after, mono(s))
                &&& next == st
            }
        }),
{
    let (next, after) = line_read(s, st, page);
    if trimmed(s) != seq!['`', '='] {
        assert(after.lines.drop_last() =~= page.lines);
    }
}

/// The mark of a literal block opens one, and closes the one that is open.
pub proof fn a_block_opens_and_closes(s: Seq<char>, st: ScanState, page: PageModel)
    requires
        trimmed(s) == seq!['`', '='],
    ensures
        ({
            let (opened, after) = line_read(s, st, page);
            let (closed, last) = line_read(s, opened, after);
            &&& opened.literal == !st.literal
            &&& after == page && last == page
            &&& closed == st
        }),
{
}

/// A page that is full takes no line more.
pub proof fn a_full_page_stays(s: Seq<char>, st: ScanState, page: PageModel)
    requires
        page.lines.len() >= 2000,
        st.literal || s.len() == 0 || s[0] == '-',
        trimmed(s) != seq!['`', '='],
    ensures
        line_read(s, st, page).1 == page,
{
}

/// Outside a literal block: a line that begins with a hash shows nothing, and neither
/// does one that begins with the mark of a table; a line that begins with a dash is a
/// divider, and an empty line an empty line.
pub proof fn special_lines_are_told_by_their_beginning(
    s: Seq<char>,
    st: ScanState,
    page: PageModel,
)
    requires
        !st.literal,
        page.lines.len() < 2000,
        trimmed(s) != seq!['`', '='],
    ensures
        ({
            let (next, after) = line_read(s, st, page);
            &&& s.len() > 0 && s[0] == '#' ==> next == st && after.lines == page.lines
                && after.links == page.links
            &&& s.len() > 0 && s[0] == '#' && !starts_with(s, seq!['#', '!', 'c', '='])
                ==> after == page
            &&& s.len() > 1 && s[0] == '`' && s[1] == 't' ==> next == st && after == page
            &&& s.len() > 0 && s[0] == '-' ==> next == st && one_line_more(
                page,
                after,
                LineModel {
                    text: Seq::empty(),
                    style: Style::Regular,
                    align: st.align,
                    kind: Kind::Divider,
                },
            )
            &&& s.len() == 0 || s == seq!['<'] ==> next == st && one_line_more(
                page,
                after,
                LineModel {
                    text: Seq::empty(),
                    style: Style::Regular,
                    align: st.align,
                    kind: Kind::Text,
                },
            )
        }),
{
    let (next, after) = line_read(s, st, page);
    if s.len() > 1 && s[0] == '`' && s[1] == 't' {
        assert(s.take(2) =~= seq!['`', 't']);
    }
    if s.len() > 0 && s[0] != '#' && starts_with(s, seq!['#', '!', 'c', '=']) {
        assert(s.take(4)[0] == '#');
        assert(s.take(4)[0] == s[0]);
    }
    if s.len() > 0 && s[0] != '`' && starts_with(s, seq!['`', 't']) {
        assert(s.take(2)[0] == '`');
        assert(s.take(2)[0] == s[0]);
    }
    if s.len() > 0 && s[0] == '-' {
        assert(after.lines.drop_last() =~= page.lines);
    }
    if s == seq!['<'] {
        assert(s.skip(1).len() == 0);
        assert(s[0] == '<');
        assert(after.lines.drop_last() =~= page.lines);
    }
    if s.len() == 0 {
        assert(after.lines.drop_last() =~= page.lines);
    }
}

/// The time for which a page may be kept is what the first such line gives in seconds;
/// a later one changes nothing.
pub proof fn the_first_cache_line_counts(digits: Seq<char>, st: ScanState, page: PageModel)
    requires
        !st.literal,
        solid(digits),
        forall|i: int| 0 <= i < digits.len() ==> '0' <= #[trigger] digits[i] <= '9',
        crate::text::decimal_value(digits) <= 0xffff_ffff,
    ensures
        ({
            let s = seq!['#', '!', 'c', '='] + digits;
            let (next, after) = line_read(s, st, page);
            &&& next == st
            &&& after == (if page.cache_secs is Some {
                page
            } else {
                PageModel { cache_secs: Some(crate::text::decimal_value(digits) as u32), ..page }
            })
        }),
{
    let s = seq!['#', '!', 'c', '='] + digits;
    assert(s.take(4) =~= seq!['#', '!', 'c', '=']);
    assert(s.skip(4) =~= digits);
    assert(s[0] == '#');
    assert(s.last() == digits.last());
    trimming_takes_the_ends(Seq::empty(), s, Seq::empty());
    trimming_takes_the_ends(Seq::empty(), digits, Seq::empty());
    assert(seq!['`', '='][0] == '`');
    crate::laws::text::decimals_are_read(digits, '0', 0xffff_ffff);
    assert(digits[0] != '+');
}

/// `s` holds no mark and no escape.
pub open spec fn plain(s: Seq<char>) -> bool {
    forall|i: int| 0 <= i < s.len() ==> #[trigger] s[i] != '`' && s[i] != '\\'
}

proof fn lemma_visible(s: Seq<char>)
    requires
        !all_white(s),
    ensures
        trimmed(s).len() > 0,
    decreases s.len(),
{
    if white_space(s[0]) {
        let t = s.skip(1);
        assert(!all_white(t)) by {
            let i = choose|i: int| 0 <= i < s.len() && !white_space(#[trigger] s[i]);
            assert(t[i - 1] == s[i]);
        }
        lemma_visible(t);
    } else {
        lemma_visible_end(s);
    }
}

proof fn lemma_visible_end(s: Seq<char>)
    requires
        s.len() > 0,
        !white_space(s[0]),
    ensures
        trimmed_end(s).len() > 0,
    decreases s.len(),
{
    if white_space(s.last()) {
        assert(s.len() > 1);
        assert(s.drop_last()[0] == s[0]);
        lemma_visible_end(s.drop_last());
    }
}

/// Reading on through plain text only adds to what is to be shown.
proof fn lemma_plain_tail(s: Seq<char>, i: int, z: Scan, heading: u8)
    requires
        0 <= i <= s.len(),
        forall|k: int| i <= k < s.len() ==> #[trigger] s[k] != '`' && s[k] != '\\',
        blank(z.seg) ==> z.seg_bold == z.st.bold && z.seg_align == z.st.align,
    ensures
        scanned(s, i, z, heading) == flushed(Scan { seg: z.seg + s.skip(i), ..z }, heading),
    decreases s.len() - i,
{
    if i < s.len() {
        let next = shown(z, s[i]);
        assert(tag_at(s, i) == (TagModel::Plain(s[i]), i + 1));
        if blank(next.seg) {
            assert forall|k: int| 0 <= k < z.seg.len() implies white_space(#[trigger] z.seg[k]) by {
                assert(next.seg[k] == z.seg[k]);
            }
        }
        lemma_plain_tail(s, i + 1, next, heading);
        assert(next.seg + s.skip(i + 1) =~= z.seg + s.skip(i));
        assert(scanned(s, i, z, heading) == scanned(s, i + 1, next, heading));
    } else {
        assert(z.seg + s.skip(i) =~= z.seg);
    }
}

/// White space in front leaves the way the text will look open.
proof fn lemma_white_head(s: Seq<char>, i: int, n: int, z: Scan, heading: u8)
    requires
        0 <= i <= n <= s.len(),
        all_white(s.take(n)),
        z.seg == s.take(i),
        z.seg_bold == z.st.bold,
        z.seg_align == z.st.align,
    ensures
        scanned(s, i, z, heading) == scanned(s, n, Scan { seg: s.take(n), ..z }, heading),
    decreases n - i,
{
    if i < n {
        assert(white_space(s.take(n)[i]));
        assert(s[i] == s.take(n)[i]);
        assert(tag_at(s, i) == (TagModel::Plain(s[i]), i + 1));
        let next = shown(z, s[i]);
        assert(blank(z.seg)) by {
            assert forall|k: int| 0 <= k < z.seg.len() implies white_space(#[trigger] z.seg[k]) by {
                assert(white_space(s.take(n)[k]));
            }
        }
        assert(next.seg =~= s.take(i + 1));
        lemma_white_head(s, i + 1, n, next, heading);
        assert((Scan { seg: s.take(n), ..next }) == (Scan { seg: s.take(n), ..z }));
    }
}

/// A line is read as text: it begins with none of the signs that make another line of
/// it.
pub open spec fn text_line(s: Seq<char>) -> bool {
    s.len() > 0 && s[0] != '#' && s[0] != '-' && s[0] != '>' && s[0] != '<'
}

proof fn lemma_text_line(s: Seq<char>, st: ScanState, page: PageModel)
    requires
        !st.literal,
        text_line(s),
        trimmed(s) != seq!['`', '='],
        s[0] == '`' ==> s.len() > 1 && s[1] != 't',
    ensures
        ({
            let z = scanned(
                s,
                0,
                Scan { st, seg: Seq::empty(), seg_bold: st.bold, seg_align: st.align, page },
                0,
            );
            line_read(s, st, page) == (z.st, z.page)
        }),
{
    if starts_with(s, seq!['#', '!', 'c', '=']) {
        assert(s.take(4)[0] == '#');
        assert(s.take(4)[0] == s[0]);
    }
    if starts_with(s, seq!['`', 't']) {
        assert(s.take(2)[0] == '`');
        assert(s.take(2)[1] == 't');
        assert(s.take(2)[0] == s[0] && s.take(2)[1] == s[1]);
    }
}

/// Plain text is one line of the page, character for character, in the weight and the
/// alignment that the lines before it left.
pub proof fn plain_text_is_shown_as_it_stands(s: Seq<char>, st: ScanState, page: PageModel)
    requires
        !st.literal,
        page.lines.len() < 2000,
        text_line(s),
        plain(s),
        !all_white(s),
    ensures
        ({
            let (next, after) = line_read(s, st, page);
            let style = if st.bold {
                Style::Bold
            } else {
                Style::Regular
            };
            &&& next == st
            &&& one_line_more(
                page,
                after,
                LineModel { text: s, style, align: st.align, kind: Kind::Text },
            )
        }),
{
    lemma_not_the_mark(s);
    lemma_text_line(s, st, page);
    let z = Scan { st, seg: Seq::empty(), seg_bold: st.bold, seg_align: st.align, page };
    lemma_plain_tail(s, 0, z, 0);
    assert(z.seg + s.skip(0) =~= s);
    lemma_visible(s);
    assert(line_read(s, st, page).1.lines.drop_last() =~= page.lines);
}

proof fn lemma_trimmed_start_part(s: Seq<char>)
    ensures
        exists|a: int| 0 <= a <= s.len() && trimmed_start(s) == #[trigger] s.skip(a),
    decreases s.len(),
{
    if s.len() > 0 && white_space(s[0]) {
        lemma_trimmed_start_part(s.skip(1));
        let a = choose|a: int|
            0 <= a <= s.skip(1).len() && trimmed_start(s.skip(1)) == #[trigger] s.skip(1).skip(a);
        assert(s.skip(1).skip(a) =~= s.skip(a + 1));
    } else {
        assert(s.skip(0) =~= s);
    }
}

proof fn lemma_trimmed_end_part(s: Seq<char>)
    ensures
        exists|b: int| 0 <= b <= s.len() && trimmed_end(s) == #[trigger] s.take(b),
    decreases s.len(),
{
    if s.len() > 0 && white_space(s.last()) {
        lemma_trimmed_end_part(s.drop_last());
        let b = choose|b: int|
            0 <= b <= s.drop_last().len() && trimmed_end(s.drop_last())
                == #[trigger] s.drop_last().take(b);
        assert(s.drop_last().take(b) =~= s.take(b));
    } else {
        assert(s.take(s.len() as int) =~= s);
    }
}

/// A line with a character that is neither white space nor part of the mark of a
/// literal block is not that mark.
proof fn lemma_not_the_mark(s: Seq<char>)
    requires
        plain(s),
    ensures
        trimmed(s) != seq!['`', '='],
{
    lemma_trimmed_start_part(s);
    let t = trimmed_start(s);
    let a = choose|a: int| 0 <= a <= s.len() && t == #[trigger] s.skip(a);
    lemma_trimmed_end_part(t);
    let b = choose|b: int| 0 <= b <= t.len() && trimmed_end(t) == #[trigger] t.take(b);
    if trimmed(s) == seq!['`', '='] {
        assert(t.take(b).len() == 2);
        assert(t.take(b)[0] == '`');
        assert(t[0] == s[a]);
        assert(s[a] == '`');
    }
}

/// One to three signs make a heading of that depth; the rest of the line is its text,
/// whatever weight was left.
pub proof fn signs_make_a_heading(body: Seq<char>, depth: int, st: ScanState, page: PageModel)
    requires
        !st.literal,
        page.lines.len() < 2000,
        plain(body),
        !all_white(body),
        1 <= depth <= 3,
        depth < 3 ==> body[0] != '>',
    ensures
        ({
            let signs = Seq::new(depth as nat, |i: int| '>');
            let (next, after) = line_read(signs + body, st, page);
            &&& next == st
            &&& one_line_more(
                page,
                after,
                LineModel {
                    text: body,
                    style: Style::Heading(depth as u8),
                    align: st.align,
                    kind: Kind::Text,
                },
            )
        }),
{
    let signs = Seq::new(depth as nat, |i: int| '>');
    let s = signs + body;
    assert(plain(s)) by {
        assert forall|i: int| 0 <= i < s.len() implies #[trigger] s[i] != '`' && s[i] != '\\' by {
            if i >= depth {
                assert(s[i] == body[i - depth]);
            }
        }
    }
    lemma_not_the_mark(s);
    assert(s[0] == '>');
    if starts_with(s, seq!['#', '!', 'c', '=']) {
        assert(s.take(4)[0] == '#');
        assert(s.take(4)[0] == s[0]);
    }
    if starts_with(s, seq!['`', 't']) {
        assert(s.take(2)[0] == '`');
        assert(s.take(2)[0] == s[0]);
    }
    assert(s.skip(depth) =~= body);
    if depth >= 2 {
        assert(s.skip(1)[0] == '>');
    } else {
        assert(s.skip(1)[0] == body[0]);
    }
    if depth >= 3 {
        assert(s.skip(2)[0] == '>');
    } else if depth == 2 {
        assert(s.skip(2)[0] == body[0]);
    }
    assert(crate::micron::heading_depth(s) == depth);
    let z = Scan { st, seg: Seq::empty(), seg_bold: st.bold, seg_align: st.align, page };
    lemma_plain_tail(body, 0, z, depth as u8);
    assert(z.seg + body.skip(0) =~= body);
    lemma_visible(body);
    assert(line_read(s, st, page).1.lines.drop_last() =~= page.lines);
}

/// The state that a mark leaves: `!` turns the weight over, `c`, `r`, `l` and `a` set
/// the alignment, and the mark itself puts both back.
pub open spec fn marked(st: ScanState, c: char) -> ScanState {
    if c == '!' {
        ScanState { bold: !st.bold, ..st }
    } else if c == 'c' {
        ScanState { align: Align::Center, ..st }
    } else if c == 'r' {
        ScanState { align: Align::Right, ..st }
    } else if c == '`' {
        ScanState { bold: false, align: Align::Left, ..st }
    } else {
        ScanState { align: Align::Left, ..st }
    }
}

/// A mark before the first visible character of a line holds for the line and for the
/// lines after it. It is not shown itself.
pub proof fn a_mark_in_front_holds(
    white: Seq<char>,
    c: char,
    body: Seq<char>,
    st: ScanState,
    page: PageModel,
)
    requires
        !st.literal,
        page.lines.len() < 2000,
        all_white(white),
        c == '!' || c == 'c' || c == 'r' || c == 'l' || c == 'a' || c == '`',
        plain(body),
        solid(body),
    ensures
        ({
            let (next, after) = line_read(white + seq!['`', c] + body, st, page);
            &&& next == marked(st, c)
            &&& one_line_more(
                page,
                after,
                LineModel {
                    text: white + body,
                    style: if marked(st, c).bold {
                        Style::Bold
                    } else {
                        Style::Regular
                    },
                    align: marked(st, c).align,
                    kind: Kind::Text,
                },
            )
        }),
{
    let n = white.len() as int;
    let s = white + seq!['`', c] + body;
    let core = seq!['`', c] + body;
    assert(s =~= white + core + Seq::empty());
    assert(core.last() == body.last());
    trimming_takes_the_ends(white, core, Seq::empty());
    assert(core != seq!['`', '=']) by {
        assert(core.len() > 2);
    }
    if n > 0 {
        assert(s[0] == white[0]);
        assert(white_space(white[0]));
    } else {
        assert(s[0] == '`' && s[1] == c);
    }
    lemma_text_line(s, st, page);
    let z = Scan { st, seg: Seq::empty(), seg_bold: st.bold, seg_align: st.align, page };
    assert(s.take(n) =~= white);
    assert(s.take(0) =~= Seq::empty());
    lemma_white_head(s, 0, n, z, 0);
    let before = Scan { seg: white, ..z };
    assert(s[n] == '`' && s[n + 1] == c);
    let after = Scan { st: marked(st, c), ..before };
    assert(scanned(s, n, before, 0) == scanned(s, n + 2, after, 0));
    // The first visible character takes the weight and the alignment that hold there.
    let first = shown(after, body[0]);
    assert(s[n + 2] == body[0]);
    assert(tag_at(s, n + 2) == (TagModel::Plain(body[0]), n + 3));
    assert(scanned(s, n + 2, after, 0) == scanned(s, n + 3, first, 0));
    assert(!blank(first.seg)) by {
        assert(first.seg[n] == body[0]);
    }
    assert forall|k: int| n + 3 <= k < s.len() implies #[trigger] s[k] != '`' && s[k] != '\\' by {
        assert(s[k] == body[k - n - 2]);
    }
    lemma_plain_tail(s, n + 3, first, 0);
    assert(first.seg + s.skip(n + 3) =~= white + body);
    assert(!all_white(white + body)) by {
        assert((white + body)[n] == body[0]);
    }
    lemma_visible(white + body);
    assert(line_read(s, st, page).1.lines.drop_last() =~= page.lines);
}

/// A mark behind visible text holds for the lines after it; the line keeps the look of
/// its first visible character.
pub proof fn a_mark_inside_holds_from_the_next_line(
    head: Seq<char>,
    c: char,
    tail: Seq<char>,
    st: ScanState,
    page: PageModel,
)
    requires
        !st.literal,
        page.lines.len() < 2000,
        c == '!' || c == 'c' || c == 'r' || c == 'l' || c == 'a' || c == '`',
        plain(head),
        text_line(head),
        solid(head),
        plain(tail),
    ensures
        ({
            let (next, after) = line_read(head + seq!['`', c] + tail, st, page);
            &&& next == marked(st, c)
            &&& one_line_more(
                page,
                after,
                LineModel {
                    text: head + tail,
                    style: if st.bold {
                        Style::Bold
                    } else {
                        Style::Regular
                    },
                    align: st.align,
                    kind: Kind::Text,
                },
            )
        }),
{
    let n = head.len() as int;
    let s = head + seq!['`', c] + tail;
    assert(s[0] == head[0]);
    lemma_first_kept(s);
    lemma_text_line(s, st, page);
    let z = Scan { st, seg: Seq::empty(), seg_bold: st.bold, seg_align: st.align, page };
    assert(s.take(0) =~= Seq::empty());
    assert forall|k: int| 0 <= k < n implies #[trigger] s[k] != '`' && s[k] != '\\' by {
        assert(s[k] == head[k]);
    }
    lemma_plain_head(s, 0, n, z);
    let before = Scan { seg: s.take(n), ..z };
    assert(s.take(n) =~= head);
    assert(s[n] == '`' && s[n + 1] == c);
    let after = Scan { st: marked(st, c), ..before };
    assert(scanned(s, n, before, 0) == scanned(s, n + 2, after, 0));
    assert(!blank(after.seg)) by {
        assert(after.seg[0] == head[0]);
    }
    assert forall|k: int| n + 2 <= k < s.len() implies #[trigger] s[k] != '`' && s[k] != '\\' by {
        assert(s[k] == tail[k - n - 2]);
    }
    lemma_plain_tail(s, n + 2, after, 0);
    assert(after.seg + s.skip(n + 2) =~= head + tail);
    assert(!all_white(head + tail)) by {
        assert((head + tail)[0] == head[0]);
    }
    lemma_visible(head + tail);
    assert(line_read(s, st, page).1.lines.drop_last() =~= page.lines);
}

proof fn lemma_first_kept(s: Seq<char>)
    requires
        s.len() > 0,
        !white_space(s[0]),
        s[0] != '`',
    ensures
        trimmed(s) != seq!['`', '='],
{
    lemma_trimmed_end_part(s);
    let b = choose|b: int| 0 <= b <= s.len() && trimmed_end(s) == #[trigger] s.take(b);
    if trimmed(s) == seq!['`', '='] {
        assert(s.take(b).len() == 2);
        assert(s.take(b)[0] == '`');
        assert(s.take(b)[0] == s[0]);
    }
}

proof fn lemma_plain_head(s: Seq<char>, i: int, n: int, z: Scan)
    requires
        0 <= i <= n <= s.len(),
        forall|k: int| 0 <= k < n ==> #[trigger] s[k] != '`' && s[k] != '\\',
        z.seg == s.take(i),
        z.seg_bold == z.st.bold,
        z.seg_align == z.st.align,
    ensures
        scanned(s, i, z, 0) == scanned(s, n, Scan { seg: s.take(n), ..z }, 0),
    decreases n - i,
{
    if i < n {
        assert(tag_at(s, i) == (TagModel::Plain(s[i]), i + 1));
        let next = shown(z, s[i]);
        assert(next.seg =~= s.take(i + 1));
        lemma_plain_head(s, i + 1, n, next);
        assert((Scan { seg: s.take(n), ..next }) == (Scan { seg: s.take(n), ..z }));
    }
}

/// What a mark or an escape stands for, and how many characters it takes: an escape
/// shows the next character as it is; a colour takes three characters, or `T` and six;
/// a form field runs to its closing sign and so does what is in braces; what is not
/// known is passed over. Anything else is shown.
pub proof fn marks_are(s: Seq<char>, i: int)
    requires
        0 <= i < s.len(),
    ensures
        s[i] != '`' && s[i] != '\\' ==> tag_at(s, i) == (TagModel::Plain(s[i]), i + 1),
        i + 1 < s.len() && s[i] == '\\' ==> tag_at(s, i) == (TagModel::Plain(s[i + 1]), i + 2),
        i + 1 == s.len() && (s[i] == '`' || s[i] == '\\') ==> tag_at(s, i) == (
            TagModel::Dropped,
            i + 1,
        ),
        i + 1 < s.len() && s[i] == '`' ==> {
            let (tag, next) = tag_at(s, i);
            let c = s[i + 1];
            &&& c == '!' ==> tag is Bold && next == i + 2
            &&& c == '`' ==> tag is Reset && next == i + 2
            &&& c == 'c' ==> tag == TagModel::Aligned(Align::Center) && next == i + 2
            &&& c == 'r' ==> tag == TagModel::Aligned(Align::Right) && next == i + 2
            &&& c == 'l' || c == 'a' ==> tag == TagModel::Aligned(Align::Left) && next == i + 2
            &&& (c == 'F' || c == 'B') && i + 5 <= s.len() && s[i + 2] != 'T' ==> tag is Dropped
                && next == i + 5
            &&& (c == 'F' || c == 'B') && i + 9 <= s.len() && s[i + 2] == 'T' ==> tag is Dropped
                && next == i + 9
            &&& c == '*' || c == '_' || c == 'f' || c == 'b' ==> tag is Dropped && next == i + 2
            &&& forall|j: int|
                #![trigger s[j]]
                c == '<' && i + 2 <= j < s.len() && s[j] == '>' && !s.subrange(
                    i + 2,
                    j,
                ).contains('>') ==> tag is Field && next == j + 1
            &&& forall|j: int|
                #![trigger s[j]]
                c == '{' && i + 2 <= j < s.len() && s[j] == '}' && !s.subrange(
                    i + 2,
                    j,
                ).contains('}') ==> tag is Dropped && next == j + 1
        },
{
    if i + 1 < s.len() && s[i] == '`' {
        assert forall|j: int|
            #![trigger s[j]]
            s[i + 1] == '<' && i + 2 <= j < s.len() && s[j] == '>' && !s.subrange(
                i + 2,
                j,
            ).contains('>') implies find(s, '>', i + 2) == j by {
            lemma_first_from(s, '>', i + 2, j);
        }
        assert forall|j: int|
            #![trigger s[j]]
            s[i + 1] == '{' && i + 2 <= j < s.len() && s[j] == '}' && !s.subrange(
                i + 2,
                j,
            ).contains('}') implies find(s, '}', i + 2) == j by {
            lemma_first_from(s, '}', i + 2, j);
        }
    }
}

proof fn lemma_first_from(s: Seq<char>, x: char, from: int, j: int)
    requires
        0 <= from <= j < s.len(),
        s[j] == x,
        !s.subrange(from, j).contains(x),
    ensures
        find(s, x, from) == j,
{
    lemma_find(s, x, from);
    let k = find(s, x, from);
    if k < j {
        assert(s.subrange(from, j)[k - from] == x);
    }
}

/// A link holds its label and where it leads, parted by the mark and closed by the
/// bracket; what follows the bracket is not part of it. With one part alone, that is
/// both. What stands in a third part are its variables.
pub proof fn a_link_holds_label_and_place(
    label: Seq<char>,
    url: Seq<char>,
    vars: Seq<char>,
    rest: Seq<char>,
)
    requires
        label.len() > 0,
        !label.contains('`') && !label.contains(']'),
        !url.contains('`') && !url.contains(']'),
        !vars.contains('`') && !vars.contains(']'),
    ensures
        link_at(seq!['['] + label.push(']') + rest) == Some(
            (LinkModel { label, url: label, fields: Seq::empty() }, label.len() as int + 2),
        ),
        link_at(seq!['['] + (label.push('`') + url).push(']') + rest) == Some(
            (LinkModel { label, url, fields: Seq::empty() }, label.len() as int + url.len() + 3),
        ),
        link_at(seq!['['] + (label.push('`') + (url.push('`') + vars)).push(']') + rest) == Some(
            (
                LinkModel { label, url, fields: variables(split(vars, '|')) },
                label.len() as int + url.len() + vars.len() + 4,
            ),
        ),
{
    pieces_stand_between_separators(label, '`', url);
    pieces_stand_between_separators(url, '`', vars);
    pieces_stand_between_separators(vars, '`', vars);
    lemma_brackets(label, rest);
    let two = label.push('`') + url;
    assert(!two.contains(']')) by {
        if two.contains(']') {
            let i = choose|i: int| 0 <= i < two.len() && two[i] == ']';
            if i < label.len() {
                assert(label[i] == ']');
            } else {
                assert(url[i - label.len() - 1] == ']');
            }
        }
    }
    lemma_brackets(two, rest);
    let more = url.push('`') + vars;
    let three = label.push('`') + more;
    assert(!three.contains(']')) by {
        if three.contains(']') {
            let i = choose|i: int| 0 <= i < three.len() && three[i] == ']';
            if i < label.len() {
                assert(label[i] == ']');
            } else if i - label.len() - 1 < url.len() {
                assert(url[i - label.len() - 1] == ']');
            } else {
                assert(vars[i - label.len() - 1 - url.len() - 1] == ']');
            }
        }
    }
    lemma_brackets(three, rest);
    pieces_stand_between_separators(label, '`', more);
    let parts = split(three, '`');
    assert(parts =~= seq![label, url, vars]);
    assert(parts.skip(2) =~= seq![vars]);
    assert(seq![vars].skip(1).len() == 0);
    reveal_with_fuel(component_variables, 2);
    assert(component_variables(seq![vars]) =~= variables(split(vars, '|')));
    assert(split(two, '`') =~= seq![label, url]);
}

proof fn lemma_brackets(inner: Seq<char>, rest: Seq<char>)
    requires
        inner.len() > 0,
        !inner.contains(']'),
    ensures
        ({
            let s = seq!['['] + inner.push(']') + rest;
            &&& find(s, ']', 0) == inner.len() + 1
            &&& s.subrange(1, inner.len() as int + 1) == inner
        }),
{
    let s = seq!['['] + inner.push(']') + rest;
    let head = seq!['['] + inner;
    assert(!head.contains(']')) by {
        if head.contains(']') {
            let i = choose|i: int| 0 <= i < head.len() && head[i] == ']';
            assert(i > 0);
            assert(inner[i - 1] == ']');
        }
    }
    the_first_is_found(head, ']', rest);
    assert(s =~= head.push(']') + rest);
    assert(s.subrange(1, inner.len() as int + 1) =~= inner);
}

/// A variable of a link is a name, an equals sign and a value; what has no name or no
/// sign is none. The variables keep their order.
pub proof fn a_variable_is_name_and_value(
    name: Seq<char>,
    value: Seq<char>,
    rest: Seq<Seq<char>>,
    before: Seq<Seq<char>>,
)
    requires
        !name.contains('='),
    ensures
        variable(name) is None,
        variable(name.push('=') + value) == (if name.len() > 0 {
            Some((name, value))
        } else {
            None
        }),
        variables(before + rest) == variables(before) + variables(rest),
        name.len() > 0 ==> variables(seq![name.push('=') + value]) == seq![(name, value)],
        variables(seq![name]) == Seq::<(Seq<char>, Seq<char>)>::empty(),
    decreases before.len(),
{
    the_first_is_found(name, '=', value);
    let e = name.push('=') + value;
    assert(e.take(name.len() as int) =~= name);
    assert(e.skip((name.len() + 1) as int) =~= value);
    assert(seq![e].skip(1).len() == 0);
    assert(seq![name].skip(1).len() == 0);
    assert(variables(seq![e].skip(1)) =~= Seq::empty());
    assert(variables(seq![name].skip(1)) =~= Seq::empty());
    if name.len() > 0 {
        assert(variables(seq![e]) =~= seq![(name, value)]);
    }
    if before.len() == 0 {
        assert(before + rest =~= rest);
        assert(variables(before) + variables(rest) =~= variables(rest));
    } else {
        a_variable_is_name_and_value(name, value, rest, before.skip(1));
        assert((before + rest).skip(1) =~= before.skip(1) + rest);
        assert((before + rest)[0] == before[0]);
        assert(variables(before + rest) =~= variables(before) + variables(rest));
    }
}

/// A link that stands alone on a line is one line of the page, under the next number,
/// with its label behind a sign; the page's links gain it.
pub proof fn a_link_is_a_line_of_its_own(
    label: Seq<char>,
    url: Seq<char>,
    st: ScanState,
    page: PageModel,
)
    requires
        !st.literal,
        page.lines.len() < 2000,
        page.links.len() < 65535,
        label.len() > 0,
        !label.contains('`') && !label.contains(']'),
        !url.contains('`') && !url.contains(']'),
    ensures
        ({
            let s = seq!['`', '['] + (label.push('`') + url).push(']');
            let (next, after) = line_read(s, st, page);
            &&& next == st
            &&& after.links == page.links.push(LinkModel { label, url, fields: Seq::empty() })
            &&& after.lines == page.lines.push(
                LineModel {
                    text: seq!['\u{bb}', ' '] + label,
                    style: Style::Regular,
                    align: st.align,
                    kind: Kind::Link(page.links.len() as u16),
                },
            )
            &&& after.cache_secs == page.cache_secs
        }),
{
    let inner = label.push('`') + url;
    let s = seq!['`', '['] + inner.push(']');
    let tail = seq!['['] + inner.push(']') + Seq::empty();
    assert(s.skip(1) =~= tail);
    a_link_holds_label_and_place(label, url, Seq::empty(), Seq::empty());
    assert(s.last() == ']');
    trimming_takes_the_ends(Seq::empty(), s, Seq::empty());
    assert(s.len() > 2);
    assert(seq!['`', '='].len() == 2);
    assert(s[0] == '`' && s[1] == '[');
    lemma_text_line(s, st, page);
    let z = Scan { st, seg: Seq::empty(), seg_bold: st.bold, seg_align: st.align, page };
    assert(trimmed(z.seg).len() == 0);
    let l = LinkModel { label, url, fields: Seq::empty() };
    let n = s.len() as int;
    assert(tag_at(s, 0) == (TagModel::Link(l), n));
    let after = applied(z, TagModel::Link(l), 0);
    assert(scanned(s, 0, z, 0) == scanned(s, n, after, 0));
    assert(after.seg =~= Seq::empty());
    assert(trimmed(after.seg).len() == 0);
    assert(scanned(s, n, after, 0) == flushed(after, 0));
}

/// The lines of the source are read one after the other, each in the state that the one
/// before it left, until the page has 2000 lines.
pub proof fn lines_are_read_in_order(
    first: Seq<char>,
    rest: Seq<Seq<char>>,
    st: ScanState,
    page: PageModel,
)
    ensures
        page_read(Seq::empty(), st, page) == page,
        page.lines.len() < 2000 ==> page_read(seq![first] + rest, st, page) == page_read(
            rest,
            line_read(first, st, page).0,
            line_read(first, st, page).1,
        ),
        page.lines.len() >= 2000 ==> page_read(seq![first] + rest, st, page) == page,
{
    assert((seq![first] + rest).skip(1) =~= rest);
    assert((seq![first] + rest)[0] == first);
}

/// The title of a page is its first heading, of whatever depth.
pub proof fn the_title_is_the_first_heading(p: PageModel, k: int)
    requires
        0 <= k < p.lines.len(),
        p.lines[k].style is Heading,
        forall|i: int| 0 <= i < k ==> !((#[trigger] p.lines[i]).style is Heading),
    ensures
        title_of(p) == Some(p.lines[k].text),
{
    lemma_heading_from(p.lines, 0, k);
}

proof fn lemma_heading_from(lines: Seq<LineModel>, i: int, k: int)
    requires
        0 <= i <= k < lines.len(),
        lines[k].style is Heading,
        forall|j: int| i <= j < k ==> !((#[trigger] lines[j]).style is Heading),
    ensures
        heading_from(lines, i) == Some(lines[k].text),
    decreases k - i,
{
    if i < k {
        lemma_heading_from(lines, i + 1, k);
    }
}

proof fn lemma_no_at(s: Seq<char>)
    requires
        !s.contains('@'),
    ensures
        find(s, '@', 0) == s.len(),
{
    lemma_find(s, '@', 0);
}

/// 32 hexadecimal digits, a colon and a path lead to that path on the node whose address
/// the digits write. The digits alone, with or without a colon, lead to the node's
/// index.
pub proof fn digits_name_the_node(digits: Seq<char>, path: Seq<char>)
    requires
        digits.len() == 32,
        all_hex(digits),
        !path.contains('@'),
        path.len() > 0,
        !white_space(path.last()),
    ensures
        target_of(digits.push(':') + path) == TargetModel::OtherNode(hex_bytes(digits), path),
        target_of(digits) == TargetModel::NodeIndex(hex_bytes(digits)),
        target_of(digits.push(':')) == TargetModel::NodeIndex(hex_bytes(digits)),
{
    let url = digits.push(':') + path;
    assert(hex_value(digits[0]) is Some);
    assert(hex_value(digits[31]) is Some);
    assert(!white_space(digits[0]) && !white_space(digits[31]));
    assert(digits.last() == digits[31]);
    assert(digits[0] != '#');
    assert(!digits.contains(':') && !digits.contains('@')) by {
        assert forall|i: int| 0 <= i < digits.len() implies digits[i] != ':' && digits[i]
            != '@' by {
            assert(hex_value(digits[i]) is Some);
        }
    }
    assert(url[0] == digits[0] && url.last() == path.last());
    trimming_takes_the_ends(Seq::empty(), url, Seq::empty());
    trimming_takes_the_ends(Seq::empty(), digits, Seq::empty());
    let colon = digits.push(':');
    assert(colon[0] == digits[0] && colon.last() == ':');
    trimming_takes_the_ends(Seq::empty(), colon, Seq::empty());
    assert(!url.contains('@')) by {
        if url.contains('@') {
            let i = choose|i: int| 0 <= i < url.len() && url[i] == '@';
            if i < 32 {
                assert(digits[i] == '@');
            } else if i > 32 {
                assert(path[i - 33] == '@');
            }
        }
    }
    assert(!colon.contains('@')) by {
        if colon.contains('@') {
            let i = choose|i: int| 0 <= i < colon.len() && colon[i] == '@';
            if i < 32 {
                assert(digits[i] == '@');
            }
        }
    }
    lemma_no_at(url);
    lemma_no_at(colon);
    lemma_no_at(digits);
    the_first_is_found(digits, ':', path);
    the_first_is_found(digits, ':', Seq::empty());
    assert(colon + Seq::empty() =~= colon);
    assert(url.take(32) =~= digits);
    assert(url.skip(33) =~= path);
    assert(colon.take(32) =~= digits);
    assert(colon.skip(33).len() == 0);
}

/// A colon and a path, or a path from the root, stay on the node of the page.
pub proof fn a_path_stays_on_the_node(path: Seq<char>)
    requires
        !path.contains('@'),
    ensures
        path.len() == 0 || !white_space(path.last()) ==> target_of(seq![':'] + path)
            == TargetModel::SameNode(path),
        path.len() > 0 && path[0] == '/' && !path.contains(':') && !white_space(path.last())
            ==> target_of(path) == TargetModel::SameNode(path),
{
    let url = seq![':'] + path;
    if path.len() == 0 || !white_space(path.last()) {
        assert(url[0] == ':');
        assert(path.len() > 0 ==> url.last() == path.last());
        trimming_takes_the_ends(Seq::empty(), url, Seq::empty());
        assert(!url.contains('@')) by {
            if url.contains('@') {
                let i = choose|i: int| 0 <= i < url.len() && url[i] == '@';
                if i > 0 {
                    assert(path[i - 1] == '@');
                }
            }
        }
        lemma_no_at(url);
        the_first_is_found(Seq::empty(), ':', path);
        assert(Seq::empty().push(':') + path =~= url);
        assert(url.skip(1) =~= path);
    }
    if path.len() > 0 && path[0] == '/' && !path.contains(':') && !white_space(path.last()) {
        trimming_takes_the_ends(Seq::empty(), path, Seq::empty());
        lemma_no_at(path);
        the_first_is_found(path, ':', Seq::empty());
        assert(hex_value(path[0]) is None);
    }
}

/// What leads nowhere: nothing at all, an anchor within the page, and a place that
/// neither names a node nor begins at the root.
pub proof fn other_links_lead_nowhere(white: Seq<char>, s: Seq<char>)
    requires
        all_white(white),
        solid(s),
    ensures
        target_of(white) == TargetModel::Unsupported,
        s[0] == '#' ==> target_of(s) == TargetModel::Anchor,
        s[0] != '#' && s[0] != '/' && hex_value(s[0]) is None && !s.contains(':') && !s.contains(
            '@',
        ) ==> target_of(s) == TargetModel::Unsupported,
        s.contains('@') && s[0] != '#' ==> target_of(s) is Lxmf || target_of(s) is Unsupported,
{
    trimming_takes_the_ends(white, s, white);
    lemma_find(s, '@', 0);
    lemma_find(s, ':', 0);
    if s.contains('@') {
        let i = choose|i: int| 0 <= i < s.len() && s[i] == '@';
        assert(find(s, '@', 0) <= i);
    }
}

/// A messaging address is written as `lxmf`, in either case, an at sign and 32 digits;
/// what follows a colon behind them does not count.
pub proof fn a_messaging_address_is(digits: Seq<char>, rest: Seq<char>)
    requires
        digits.len() == 32,
        all_hex(digits),
        rest.len() > 0 ==> !white_space(rest.last()),
    ensures
        target_of(seq!['l', 'x', 'm', 'f', '@'] + digits) == TargetModel::Lxmf(hex_bytes(digits)),
        target_of(seq!['L', 'X', 'M', 'F', '@'] + digits) == TargetModel::Lxmf(hex_bytes(digits)),
        target_of(seq!['l', 'x', 'm', 'f', '@'] + (digits.push(':') + rest)) == TargetModel::Lxmf(
            hex_bytes(digits),
        ),
{
    assert(hex_value(digits[0]) is Some);
    assert(hex_value(digits[31]) is Some);
    assert(digits.last() == digits[31]);
    assert(!digits.contains(':')) by {
        assert forall|i: int| 0 <= i < digits.len() implies digits[i] != ':' by {
            assert(hex_value(digits[i]) is Some);
        }
    }
    trimming_takes_the_ends(Seq::empty(), digits, Seq::empty());
    the_first_is_found(digits, ':', rest);
    let tail = digits.push(':') + rest;
    assert(tail.take(32) =~= digits);
    assert(digits.take(32) =~= digits);
    assert(tail.last() == (if rest.len() > 0 {
        rest.last()
    } else {
        ':'
    }));
    lemma_scheme('l', 'x', 'm', 'f', digits);
    lemma_scheme('L', 'X', 'M', 'F', digits);
    lemma_scheme('l', 'x', 'm', 'f', tail);
}

proof fn lemma_scheme(a: char, b: char, c: char, d: char, tail: Seq<char>)
    requires
        tail.len() > 0,
        !white_space(tail.last()),
        a != '@' && b != '@' && c != '@' && d != '@',
        !white_space(a),
    ensures
        ({
            let url = seq![a, b, c, d, '@'] + tail;
            &&& trimmed(url) == url
            &&& find(url, '@', 0) == 4
            &&& url.skip(5) == tail
            &&& url.take(4) == seq![a, b, c, d]
            &&& url[0] == a
        }),
{
    let url = seq![a, b, c, d, '@'] + tail;
    assert(url[0] == a && url.last() == tail.last());
    trimming_takes_the_ends(Seq::empty(), url, Seq::empty());
    let head = seq![a, b, c, d];
    assert(!head.contains('@'));
    the_first_is_found(head, '@', tail);
    assert(head.push('@') + tail =~= url);
    assert(url.skip(5) =~= tail);
    assert(url.take(4) =~= head);
}

/// Following a link whose place names a node goes to that node, whatever page is shown;
/// only a place without an address stays on the node of the page, and leads nowhere
/// where no page is shown. The variables go along.
pub proof fn a_link_is_followed_to_its_node(
    f: Follow,
    l: LinkModel,
    digits: Seq<char>,
    path: Seq<char>,
    current: Option<Place>,
)
    requires
        follows(f, l, current),
        digits.len() == 32,
        all_hex(digits),
        path.len() > 0,
        !path.contains('@'),
        !white_space(path.last()),
    ensures
        l.url == digits.push(':') + path ==> {
            &&& f matches Follow::Go(a)
            &&& a@.node@ == hex_bytes(digits)
            &&& a@.path == path
            &&& a@.vars == l.fields
        },
        l.url == digits ==> {
            &&& f matches Follow::Go(a)
            &&& a@.node@ == hex_bytes(digits)
            &&& a@.path == "/page/index.mu"@
            &&& a@.vars == l.fields
        },
        l.url == seq![':'] + path || (l.url == path && path[0] == '/' && !path.contains(':'))
            ==> match current {
            Some(p) => f matches Follow::Go(a) && a@.node == p.node && a@.path == path && a@.vars
                == l.fields,
            None => f is Nothing,
        },
        l.url == seq!['l', 'x', 'm', 'f', '@'] + digits ==> f is Messaging,
        l.url == seq!['#'] + path ==> f is Unsupported,
{
    digits_name_the_node(digits, path);
    a_path_stays_on_the_node(path);
    a_messaging_address_is(digits, Seq::empty());
    let anchor = seq!['#'] + path;
    assert(anchor[0] == '#' && anchor.last() == path.last());
    other_links_lead_nowhere(Seq::empty(), anchor);
}

proof fn lemma_all_shown(z: Scan, cs: Seq<char>)
    requires
        blank(z.seg) ==> z.seg_bold == z.st.bold && z.seg_align == z.st.align,
    ensures
        all_shown(z, cs) == (Scan { seg: z.seg + cs, ..z }),
    decreases cs.len(),
{
    if cs.len() == 0 {
        assert(z.seg + cs =~= z.seg);
    } else {
        lemma_all_shown(z, cs.drop_last());
        let before = all_shown(z, cs.drop_last());
        assert(before.seg.push(cs.last()) =~= z.seg + cs);
        if blank(before.seg) {
            assert forall|k: int| 0 <= k < z.seg.len() implies white_space(#[trigger] z.seg[k]) by {
                assert(before.seg[k] == z.seg[k]);
            }
        }
    }
}

/// Text, something in its middle that only adds to what is shown, and text.
proof fn lemma_middle(
    head: Seq<char>,
    mid: Seq<char>,
    tail: Seq<char>,
    inner: Seq<char>,
    st: ScanState,
    page: PageModel,
)
    requires
        !st.literal,
        page.lines.len() < 2000,
        plain(head),
        text_line(head),
        solid(head),
        plain(tail),
        mid.len() > 0,
        ({
            let s = head + mid + tail;
            let n = head.len() as int;
            let z = Scan { st, seg: head, seg_bold: st.bold, seg_align: st.align, page };
            &&& tag_at(s, n).1 == n + mid.len()
            &&& applied(z, tag_at(s, n).0, 0) == (Scan { seg: head + inner, ..z })
        }),
    ensures
        line_read(head + mid + tail, st, page).0 == st,
        one_line_more(
            page,
            line_read(head + mid + tail, st, page).1,
            LineModel {
                text: head + inner + tail,
                style: if st.bold {
                    Style::Bold
                } else {
                    Style::Regular
                },
                align: st.align,
                kind: Kind::Text,
            },
        ),
{
    let s = head + mid + tail;
    let n = head.len() as int;
    assert(s[0] == head[0]);
    lemma_first_kept(s);
    lemma_text_line(s, st, page);
    let z = Scan { st, seg: Seq::empty(), seg_bold: st.bold, seg_align: st.align, page };
    assert(s.take(0) =~= Seq::empty());
    assert forall|k: int| 0 <= k < n implies #[trigger] s[k] != '`' && s[k] != '\\' by {
        assert(s[k] == head[k]);
    }
    lemma_plain_head(s, 0, n, z);
    assert(s.take(n) =~= head);
    let before = Scan { seg: head, ..z };
    let after = Scan { seg: head + inner, ..before };
    let m = n + mid.len();
    assert(scanned(s, n, before, 0) == scanned(s, m, after, 0));
    assert(!blank(after.seg)) by {
        assert(after.seg[0] == head[0]);
    }
    assert forall|k: int| m <= k < s.len() implies #[trigger] s[k] != '`' && s[k] != '\\' by {
        assert(s[k] == tail[k - m]);
    }
    lemma_plain_tail(s, m, after, 0);
    assert(after.seg + s.skip(m) =~= head + inner + tail);
    assert(!all_white(head + inner + tail)) by {
        assert((head + inner + tail)[0] == head[0]);
    }
    lemma_visible(head + inner + tail);
    assert(line_read(s, st, page).1.lines.drop_last() =~= page.lines);
}

/// A form field shows as an empty box, whatever its name, and an escaped character as
/// itself; a colour and what is in braces leave no trace.
pub proof fn fields_escapes_and_colours(
    head: Seq<char>,
    name: Seq<char>,
    c: char,
    tail: Seq<char>,
    st: ScanState,
    page: PageModel,
)
    requires
        !st.literal,
        page.lines.len() < 2000,
        plain(head),
        text_line(head),
        solid(head),
        plain(tail),
        !name.contains('>') && !name.contains('}'),
    ensures
        ({
            let line = |text: Seq<char>|
                LineModel {
                    text,
                    style: if st.bold {
                        Style::Bold
                    } else {
                        Style::Regular
                    },
                    align: st.align,
                    kind: Kind::Text,
                };
            let field = head + (seq!['`', '<'] + name.push('>')) + tail;
            let braces = head + (seq!['`', '{'] + name.push('}')) + tail;
            let escaped = head + seq!['\\', c] + tail;
            &&& line_read(field, st, page).0 == st
            &&& one_line_more(
                page,
                line_read(field, st, page).1,
                line(head + seq!['[', '_', '_', '_', '_', ']'] + tail),
            )
            &&& line_read(braces, st, page).0 == st
            &&& one_line_more(page, line_read(braces, st, page).1, line(head + tail))
            &&& line_read(escaped, st, page).0 == st
            &&& one_line_more(page, line_read(escaped, st, page).1, line(head.push(c) + tail))
        }),
{
    let n = head.len() as int;
    let z = Scan { st, seg: head, seg_bold: st.bold, seg_align: st.align, page };
    let none = Seq::<char>::empty();
    assert(!blank(head)) by {
        assert(!white_space(head[0]));
    }
    assert(head + none =~= head);
    // A field.
    let mid = seq!['`', '<'] + name.push('>');
    let s = head + mid + tail;
    let j = n + 2 + name.len();
    assert(s[n] == '`' && s[n + 1] == '<' && s[j] == '>');
    assert(s.subrange(n + 2, j) =~= name);
    lemma_first_from(s, '>', n + 2, j);
    let box_shown = seq!['[', '_', '_', '_', '_', ']'];
    lemma_all_shown(z, box_shown);
    lemma_middle(head, mid, tail, box_shown, st, page);
    // Braces.
    let mid = seq!['`', '{'] + name.push('}');
    let s = head + mid + tail;
    assert(s[n] == '`' && s[n + 1] == '{' && s[j] == '}');
    assert(s.subrange(n + 2, j) =~= name);
    lemma_first_from(s, '}', n + 2, j);
    lemma_middle(head, mid, tail, none, st, page);
    assert(head + none + tail =~= head + tail);
    // An escape.
    let mid = seq!['\\', c];
    let s = head + mid + tail;
    assert(s[n] == '\\' && s[n + 1] == c);
    assert(shown(z, c).seg =~= head + seq![c]);
    lemma_middle(head, mid, tail, seq![c], st, page);
    assert(head + seq![c] + tail =~= head.push(c) + tail);
}

/// A colour of three characters, or of `T` and six, leaves no trace.
pub proof fn colours_leave_no_trace(
    head: Seq<char>,
    which: char,
    colour: Seq<char>,
    tail: Seq<char>,
    st: ScanState,
    page: PageModel,
)
    requires
        !st.literal,
        page.lines.len() < 2000,
        plain(head),
        text_line(head),
        solid(head),
        plain(tail),
        which == 'F' || which == 'B',
        (colour.len() == 3 && colour[0] != 'T') || (colour.len() == 7 && colour[0] == 'T'),
    ensures
        ({
            let (next, after) = line_read(head + (seq!['`', which] + colour) + tail, st, page);
            &&& next == st
            &&& one_line_more(
                page,
                after,
                LineModel {
                    text: head + tail,
                    style: if st.bold {
                        Style::Bold
                    } else {
                        Style::Regular
                    },
                    align: st.align,
                    kind: Kind::Text,
                },
            )
        }),
{
    let n = head.len() as int;
    let mid = seq!['`', which] + colour;
    let s = head + mid + tail;
    let none = Seq::<char>::empty();
    assert(s[n] == '`' && s[n + 1] == which && s[n + 2] == colour[0]);
    assert(head + none =~= head);
    lemma_middle(head, mid, tail, none, st, page);
    assert(head + none + tail =~= head + tail);
}

/// A link in a heading is part of the heading and no link: its label shows.
pub proof fn a_link_in_a_heading_is_text(
    label: Seq<char>,
    url: Seq<char>,
    st: ScanState,
    page: PageModel,
)
    requires
        !st.literal,
        page.lines.len() < 2000,
        solid(label),
        !label.contains('`') && !label.contains(']'),
        !url.contains('`') && !url.contains(']'),
    ensures
        ({
            let s = seq!['>', '`', '['] + (label.push('`') + url).push(']');
            let (next, after) = line_read(s, st, page);
            &&& next == st
            &&& one_line_more(
                page,
                after,
                LineModel {
                    text: label,
                    style: Style::Heading(1),
                    align: st.align,
                    kind: Kind::Text,
                },
            )
        }),
{
    let inner = label.push('`') + url;
    let s = seq!['>', '`', '['] + inner.push(']');
    let body = seq!['`', '['] + inner.push(']');
    let tail = seq!['['] + inner.push(']') + Seq::empty();
    assert(s.skip(1) =~= body);
    assert(body.skip(1) =~= tail);
    a_link_holds_label_and_place(label, url, Seq::empty(), Seq::empty());
    assert(s[0] == '>' && s[1] == '`');
    assert(s.skip(1)[0] == '`');
    lemma_first_kept(s);
    if starts_with(s, seq!['#', '!', 'c', '=']) {
        assert(s.take(4)[0] == '#');
        assert(s.take(4)[0] == s[0]);
    }
    if starts_with(s, seq!['`', 't']) {
        assert(s.take(2)[0] == '`');
        assert(s.take(2)[0] == s[0]);
    }
    let z = Scan { st, seg: Seq::empty(), seg_bold: st.bold, seg_align: st.align, page };
    let l = LinkModel { label, url, fields: Seq::empty() };
    let n = body.len() as int;
    assert(body[0] == '`' && body[1] == '[');
    assert(tag_at(body, 0) == (TagModel::Link(l), n));
    lemma_all_shown(z, label);
    assert(z.seg + label =~= label);
    let after = Scan { seg: label, ..z };
    assert(scanned(body, 0, z, 1) == scanned(body, n, after, 1));
    assert(scanned(body, n, after, 1) == flushed(after, 1));
    assert(!all_white(label)) by {
        assert(!white_space(label[0]));
    }
    lemma_visible(label);
    assert(line_read(s, st, page).1.lines.drop_last() =~= page.lines);
}

/// A page is read from its first line on, in regular weight and to the left, outside a
/// literal block; a source of up to 65536 bytes is read whole.
pub proof fn a_page_is_read_from_its_first_line(src: Seq<char>)
    requires
        vstd::utf8::encode_utf8(src).len() <= 65536,
    ensures
        page_of(src) == page_read(
            lines_of(src),
            ScanState { bold: false, align: Align::Left, literal: false },
            PageModel { cache_secs: None, lines: Seq::empty(), links: Seq::empty() },
        ),
{
}

/// A line of nothing but white space shows nothing.
pub proof fn a_blank_line_shows_nothing(s: Seq<char>, st: ScanState, page: PageModel)
    requires
        !st.literal,
        s.len() > 0,
        all_white(s),
    ensures
        line_read(s, st, page) == (st, page),
{
    assert(white_space(s[0]));
    assert forall|i: int| 0 <= i < s.len() implies #[trigger] s[i] != '`' && s[i] != '\\' by {
        assert(white_space(s[i]));
    }
    trimming_takes_the_ends(s, seq!['x'], Seq::empty());
    assert(trimmed(s).len() == 0);
    lemma_text_line(s, st, page);
    let z = Scan { st, seg: Seq::empty(), seg_bold: st.bold, seg_align: st.align, page };
    lemma_plain_tail(s, 0, z, 0);
    assert(z.seg + s.skip(0) =~= s);
}

/// A link inside a line parts it: the text before it, the link and the text behind it are
/// three lines.
pub proof fn a_link_parts_its_line(
    head: Seq<char>,
    label: Seq<char>,
    url: Seq<char>,
    tail: Seq<char>,
    st: ScanState,
    page: PageModel,
)
    requires
        !st.literal,
        page.lines.len() < 1998,
        page.links.len() < 65535,
        plain(head),
        text_line(head),
        solid(head),
        plain(tail),
        !all_white(tail),
        label.len() > 0,
        !label.contains('`') && !label.contains(']'),
        !url.contains('`') && !url.contains(']'),
    ensures
        ({
            let s = head + (seq!['`', '['] + (label.push('`') + url).push(']')) + tail;
            let (next, after) = line_read(s, st, page);
            let style = if st.bold {
                Style::Bold
            } else {
                Style::Regular
            };
            let text = |t: Seq<char>|
                LineModel { text: t, style, align: st.align, kind: Kind::Text };
            &&& next == st
            &&& after.links == page.links.push(LinkModel { label, url, fields: Seq::empty() })
            &&& after.lines == page.lines.push(text(head)).push(
                LineModel {
                    text: seq!['\u{bb}', ' '] + label,
                    style: Style::Regular,
                    align: st.align,
                    kind: Kind::Link(page.links.len() as u16),
                },
            ).push(text(tail))
            &&& after.cache_secs == page.cache_secs
        }),
{
    let inner = label.push('`') + url;
    let mid = seq!['`', '['] + inner.push(']');
    let s = head + mid + tail;
    let n = head.len() as int;
    let m = n + mid.len();
    a_link_holds_label_and_place(label, url, Seq::empty(), tail);
    assert(s[0] == head[0]);
    lemma_first_kept(s);
    lemma_text_line(s, st, page);
    let z = Scan { st, seg: Seq::empty(), seg_bold: st.bold, seg_align: st.align, page };
    assert(s.take(0) =~= Seq::empty());
    assert forall|k: int| 0 <= k < n implies #[trigger] s[k] != '`' && s[k] != '\\' by {
        assert(s[k] == head[k]);
    }
    lemma_plain_head(s, 0, n, z);
    assert(s.take(n) =~= head);
    let before = Scan { seg: head, ..z };
    assert(s[n] == '`' && s[n + 1] == '[');
    assert(s.skip(n + 1) =~= seq!['['] + inner.push(']') + tail);
    let l = LinkModel { label, url, fields: Seq::empty() };
    assert(tag_at(s, n) == (TagModel::Link(l), m));
    assert(!all_white(head)) by {
        assert(!white_space(head[0]));
    }
    lemma_visible(head);
    let after = applied(before, TagModel::Link(l), 0);
    assert(scanned(s, n, before, 0) == scanned(s, m, after, 0));
    assert(after.seg.len() == 0);
    assert(after.seg_bold == st.bold && after.seg_align == st.align && after.st == st);
    assert forall|k: int| m <= k < s.len() implies #[trigger] s[k] != '`' && s[k] != '\\' by {
        assert(s[k] == tail[k - m]);
    }
    lemma_plain_tail(s, m, after, 0);
    assert(after.seg + s.skip(m) =~= tail);
    lemma_visible(tail);
}

} // verus!
