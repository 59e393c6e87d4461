//! A reader for micron, the markup of the pages that NomadNet nodes serve
//! (`.mu` pages).
//!
//! A page becomes a flat list of styled lines. A line has exactly one style, so
//! styling inside a line is flattened: a line takes the bold state and the
//! alignment in effect at its first visible character. Colours, italics,
//! underlines and section indentation are consumed and dropped. Links become
//! lines of their own. Unknown tags are skipped.
use vstd::prelude::*;
use vstd::slice::slice_subrange;
use vstd::utf8::*;

use crate::hex::{all_hex, hash_from_hex, hex_bytes};
use crate::text::{
    begins, begins_with_char, char_width, chars_of, decimal_up_to, find, find_char, is_white_space,
    lemma_encode_push, lemma_find, lines_of, parse_decimal, spells, split, starts_with, string_of,
    trim, trimmed, white_space, without_cr,
};

verus! {

/// A parsed page.
#[derive(Debug, Default)]
pub struct Document {
    /// From a `#!c=<seconds>` header line, if present.
    pub cache_secs: Option<u32>,
    pub lines: Vec<Line>,
    pub links: Vec<Link>,
}

#[derive(Debug, Clone, PartialEq)]
pub struct Line {
    pub text: String,
    pub style: Style,
    pub align: Align,
    pub kind: Kind,
}

#[derive(Debug, Clone, Copy, PartialEq, Eq, Structural)]
pub enum Style {
    Regular,
    Bold,
    Mono,
    /// Heading depth, one to three.
    Heading(u8),
}

#[derive(Debug, Clone, Copy, PartialEq, Eq, Structural)]
pub enum Align {
    Left,
    Center,
    Right,
}

#[derive(Debug, Clone, Copy, PartialEq, Eq, Structural)]
pub enum Kind {
    Text,
    /// Rendered as a horizontal rule; the line's text is empty.
    Divider,
    /// A selectable link line; the value indexes `Document::links`.
    Link(u16),
}

#[derive(Debug, Clone, PartialEq)]
pub struct Link {
    pub label: String,
    pub url: String,
    /// The variables in the link's trailing components, by name and value.
    pub fields: Vec<(String, String)>,
}

/// Where a link points: `:/page/foo.mu` (same node), `<32 hex>:/page/foo.mu`
/// (another node), a bare `<32 hex>` (another node's index page), `#anchor`
/// (in the page), `lxmf@<32 hex>` (a messaging address).
#[derive(Debug, Clone, PartialEq)]
pub enum LinkTarget {
    SameNode(String),
    OtherNode([u8; 16], String),
    NodeIndex([u8; 16]),
    Lxmf([u8; 16]),
    Anchor,
    Unsupported,
}

/// How many bytes of a page are read.
pub const MAX_INPUT_BYTES: usize = 64 * 1024;

/// How many lines a page has at most.
pub const MAX_LINES: usize = 2000;

/// How many links a page has at most.
pub const MAX_LINKS: usize = 65535;

// ---------------------------------------------------------------------------
// The model of a page
// ---------------------------------------------------------------------------

/// A line, its text as characters.
#[verifier::ext_equal]
pub struct LineModel {
    pub text: Seq<char>,
    pub style: Style,
    pub align: Align,
    pub kind: Kind,
}

/// A link, its parts as characters.
#[verifier::ext_equal]
pub struct LinkModel {
    pub label: Seq<char>,
    pub url: Seq<char>,
    pub fields: Seq<(Seq<char>, Seq<char>)>,
}

/// A page, its parts as sequences.
#[verifier::ext_equal]
pub struct PageModel {
    pub cache_secs: Option<u32>,
    pub lines: Seq<LineModel>,
    pub links: Seq<LinkModel>,
}

impl View for Line {
    type V = LineModel;

    open spec fn view(&self) -> LineModel {
        LineModel { text: self.text@, style: self.style, align: self.align, kind: self.kind }
    }
}

/// Name and value of a link's variable, as characters.
pub open spec fn field_model(f: (String, String)) -> (Seq<char>, Seq<char>) {
    (f.0@, f.1@)
}

impl View for Link {
    type V = LinkModel;

    open spec fn view(&self) -> LinkModel {
        LinkModel {
            label: self.label@,
            url: self.url@,
            fields: self.fields@.map_values(|f: (String, String)| field_model(f)),
        }
    }
}

impl View for Document {
    type V = PageModel;

    open spec fn view(&self) -> PageModel {
        PageModel {
            cache_secs: self.cache_secs,
            lines: self.lines@.map_values(|l: Line| l@),
            links: self.links@.map_values(|l: Link| l@),
        }
    }
}

/// The page with nothing on it.
pub open spec fn empty_page() -> PageModel {
    PageModel { cache_secs: None, lines: Seq::empty(), links: Seq::empty() }
}

/// The page with one more line, unless it is full.
pub open spec fn with_line(p: PageModel, l: LineModel) -> PageModel {
    if p.lines.len() < MAX_LINES {
        PageModel { lines: p.lines.push(l), ..p }
    } else {
        p
    }
}

// ---------------------------------------------------------------------------
// Links inside a line
// ---------------------------------------------------------------------------

/// The `name=value` pair that `e` writes; the name ends at the first `=` and is
/// not empty.
pub open spec fn variable(e: Seq<char>) -> Option<(Seq<char>, Seq<char>)> {
    let k = find(e, '=', 0);
    if 0 < k < e.len() {
        Some((e.take(k), e.skip(k + 1)))
    } else {
        None
    }
}

/// The variables among `entries`, in order.
pub open spec fn variables(entries: Seq<Seq<char>>) -> Seq<(Seq<char>, Seq<char>)>
    decreases entries.len(),
{
    if entries.len() == 0 {
        Seq::empty()
    } else {
        let rest = variables(entries.skip(1));
        match variable(entries[0]) {
            Some(v) => seq![v] + rest,
            None => rest,
        }
    }
}

/// The variables of all components, each of which separates them by `|`.
pub open spec fn component_variables(parts: Seq<Seq<char>>) -> Seq<(Seq<char>, Seq<char>)>
    decreases parts.len(),
{
    if parts.len() == 0 {
        Seq::empty()
    } else {
        variables(split(parts[0], '|')) + component_variables(parts.skip(1))
    }
}

/// The link written in brackets at the start of `s`, with the number of
/// characters it takes: `[label`url`variables..]`, or `[url]`, which is its own
/// label. The brackets hold at least one character.
pub open spec fn link_at(s: Seq<char>) -> Option<(LinkModel, int)> {
    let close = find(s, ']', 0);
    if close >= s.len() || close < 2 {
        None
    } else {
        let parts = split(s.subrange(1, close), '`');
        let url = if parts.len() > 1 {
            parts[1]
        } else {
            parts[0]
        };
        let fields = if parts.len() > 2 {
            component_variables(parts.skip(2))
        } else {
            Seq::empty()
        };
        Some((LinkModel { label: parts[0], url, fields }, close + 1))
    }
}

// ---------------------------------------------------------------------------
// Tags inside a line
// ---------------------------------------------------------------------------

/// What stands at one place of a line.
pub enum TagModel {
    /// A character to show.
    Plain(char),
    /// An input field, shown as a placeholder.
    Field,
    /// Back to plain text on the left.
    Reset,
    /// Bold on or off.
    Bold,
    Aligned(Align),
    Link(LinkModel),
    /// Nothing to show.
    Dropped,
}

pub open spec fn smaller(a: int, b: int) -> int {
    if a < b {
        a
    } else {
        b
    }
}

/// What stands at index `i` of the line `s`, and the index after it. A
/// backslash shows the next character as it is; a backtick begins a tag.
pub open spec fn tag_at(s: Seq<char>, i: int) -> (TagModel, int) {
    let n = s.len() as int;
    if s[i] == '\\' {
        if i + 1 < n {
            (TagModel::Plain(s[i + 1]), i + 2)
        } else {
            (TagModel::Dropped, i + 1)
        }
    } else if s[i] != '`' {
        (TagModel::Plain(s[i]), i + 1)
    } else if i + 1 >= n || s[i + 1] == '\0' {
        (TagModel::Dropped, i + 1)
    } else if s[i + 1] == '`' {
        (TagModel::Reset, i + 2)
    } else if s[i + 1] == '!' {
        (TagModel::Bold, i + 2)
    } else if s[i + 1] == 'F' || s[i + 1] == 'B' {
        // A colour: three characters, or `T` and six.
        let skipped: int = if i + 2 < n && s[i + 2] == 'T' {
            7
        } else {
            3
        };
        (TagModel::Dropped, smaller(i + 2 + skipped, n))
    } else if s[i + 1] == 'c' {
        (TagModel::Aligned(Align::Center), i + 2)
    } else if s[i + 1] == 'r' {
        (TagModel::Aligned(Align::Right), i + 2)
    } else if s[i + 1] == 'l' || s[i + 1] == 'a' {
        (TagModel::Aligned(Align::Left), i + 2)
    } else if s[i + 1] == '<' {
        (TagModel::Field, smaller(find(s, '>', i + 2) + 1, n))
    } else if s[i + 1] == '{' {
        (TagModel::Dropped, smaller(find(s, '}', i + 2) + 1, n))
    } else if s[i + 1] == '[' {
        match link_at(s.skip(i + 1)) {
            Some((link, used)) => (TagModel::Link(link), i + 1 + used),
            None => (TagModel::Plain('['), i + 2),
        }
    } else {
        (TagModel::Dropped, i + 2)
    }
}

/// Formatting in effect; it spans lines until it is reset.
pub struct ScanState {
    pub bold: bool,
    pub align: Align,
    pub literal: bool,
}

/// A line while it is scanned: the formatting, the text collected so far with
/// the formatting at its first visible character, and the page.
#[verifier::ext_equal]
pub struct Scan {
    pub st: ScanState,
    pub seg: Seq<char>,
    pub seg_bold: bool,
    pub seg_align: Align,
    pub page: PageModel,
}

/// Nothing of `s` is visible.
pub open spec fn blank(s: Seq<char>) -> bool {
    forall|i: int| 0 <= i < s.len() ==> white_space(#[trigger] s[i])
}

/// The scan with one more character to show. The formatting is taken while nothing
/// visible was collected, so that at the first visible character counts.
pub open spec fn shown(z: Scan, c: char) -> Scan {
    if blank(z.seg) {
        Scan { seg: z.seg.push(c), seg_bold: z.st.bold, seg_align: z.st.align, ..z }
    } else {
        Scan { seg: z.seg.push(c), ..z }
    }
}

/// The scan with several more characters to show.
pub open spec fn all_shown(z: Scan, cs: Seq<char>) -> Scan
    decreases cs.len(),
{
    if cs.len() == 0 {
        z
    } else {
        shown(all_shown(z, cs.drop_last()), cs.last())
    }
}

/// The scan after its collected text became a line; white space alone is
/// dropped.
pub open spec fn flushed(z: Scan, heading: u8) -> Scan {
    let style = if heading > 0 {
        Style::Heading(heading)
    } else if z.seg_bold {
        Style::Bold
    } else {
        Style::Regular
    };
    let page = if trimmed(z.seg).len() > 0 {
        with_line(
            z.page,
            LineModel { text: z.seg, style, align: z.seg_align, kind: Kind::Text },
        )
    } else {
        z.page
    };
    Scan { seg: Seq::empty(), page, ..z }
}

/// The text of a link's line.
pub open spec fn link_text(label: Seq<char>) -> Seq<char> {
    seq!['\u{bb}', ' '] + label
}

/// The scan after the tag `t`. A link in a heading leaves its label in the
/// text; elsewhere it becomes a line of its own.
pub open spec fn applied(z: Scan, t: TagModel, heading: u8) -> Scan {
    match t {
        TagModel::Plain(c) => shown(z, c),
        TagModel::Field => all_shown(z, seq!['[', '_', '_', '_', '_', ']']),
        TagModel::Reset => Scan {
            st: ScanState { bold: false, align: Align::Left, ..z.st },
            ..z
        },
        TagModel::Bold => Scan { st: ScanState { bold: !z.st.bold, ..z.st }, ..z },
        TagModel::Aligned(a) => Scan { st: ScanState { align: a, ..z.st }, ..z },
        TagModel::Link(l) => if heading > 0 {
            all_shown(z, l.label)
        } else {
            let f = flushed(z, heading);
            if f.page.links.len() < MAX_LINKS {
                let line = LineModel {
                    text: link_text(l.label),
                    style: Style::Regular,
                    align: f.st.align,
                    kind: Kind::Link(f.page.links.len() as u16),
                };
                Scan {
                    page: with_line(PageModel { links: f.page.links.push(l), ..f.page }, line),
                    ..f
                }
            } else {
                f
            }
        },
        TagModel::Dropped => z,
    }
}

/// The scan of the rest of the line `s` from index `i`.
pub open spec fn scanned(s: Seq<char>, i: int, z: Scan, heading: u8) -> Scan
    decreases s.len() - i,
{
    if i < 0 || i >= s.len() {
        flushed(z, heading)
    } else {
        let (t, next) = tag_at(s, i);
        if next <= i {
            z
        } else {
            scanned(s, next, applied(z, t, heading), heading)
        }
    }
}

/// Every tag moves the scan forward, and not past the end of the line.
pub proof fn lemma_tag_moves_on(s: Seq<char>, i: int)
    requires
        0 <= i < s.len(),
    ensures
        i < tag_at(s, i).1 <= s.len(),
{
    if i + 2 <= s.len() {
        lemma_find(s, '>', i + 2);
        lemma_find(s, '}', i + 2);
    }
    if i + 1 < s.len() {
        lemma_find(s.skip(i + 1), ']', 0);
    }
}

// ---------------------------------------------------------------------------
// Lines of a page
// ---------------------------------------------------------------------------

/// The number of `>` that a line begins with, three at most.
pub open spec fn heading_depth(s: Seq<char>) -> u8 {
    if !begins_with_char(s, '>') {
        0
    } else if !begins_with_char(s.skip(1), '>') {
        1
    } else if !begins_with_char(s.skip(2), '>') {
        2
    } else {
        3
    }
}

/// The line without its heading marks, or without the `<` that resets the
/// section depth.
pub open spec fn line_body(s: Seq<char>) -> Seq<char> {
    if heading_depth(s) > 0 {
        s.skip(heading_depth(s) as int)
    } else if begins_with_char(s, '<') {
        s.skip(1)
    } else {
        s
    }
}

/// The formatting and the page after one more line of source.
pub open spec fn line_read(s: Seq<char>, st: ScanState, page: PageModel) -> (ScanState, PageModel) {
    if trimmed(s) == seq!['`', '='] {
        (ScanState { literal: !st.literal, ..st }, page)
    } else if st.literal {
        let text = if trimmed(s) == seq!['\\', '`', '='] {
            seq!['`', '=']
        } else {
            s
        };
        let line = LineModel { text, style: Style::Mono, align: Align::Left, kind: Kind::Text };
        (st, with_line(page, line))
    } else if starts_with(s, seq!['#', '!', 'c', '=']) {
        let secs = match decimal_up_to(trimmed(s.skip(4)), 0xffff_ffff) {
            Some(n) => Some(n as u32),
            None => None,
        };
        (
            st,
            if page.cache_secs is None {
                PageModel { cache_secs: secs, ..page }
            } else {
                page
            },
        )
    } else if begins_with_char(s, '#') || starts_with(s, seq!['`', 't']) {
        (st, page)
    } else if begins_with_char(s, '-') {
        let line = LineModel {
            text: Seq::empty(),
            style: Style::Regular,
            align: st.align,
            kind: Kind::Divider,
        };
        (st, with_line(page, line))
    } else if line_body(s).len() == 0 && heading_depth(s) == 0 {
        let line = LineModel {
            text: Seq::empty(),
            style: Style::Regular,
            align: st.align,
            kind: Kind::Text,
        };
        (st, with_line(page, line))
    } else {
        let z = scanned(
            line_body(s),
            0,
            Scan { st, seg: Seq::empty(), seg_bold: st.bold, seg_align: st.align, page },
            heading_depth(s),
        );
        (z.st, z.page)
    }
}

/// The page after the lines `src` were read into it; a full page takes no more.
pub open spec fn page_read(src: Seq<Seq<char>>, st: ScanState, page: PageModel) -> PageModel
    decreases src.len(),
{
    if src.len() == 0 || page.lines.len() >= MAX_LINES {
        page
    } else {
        let (st2, page2) = line_read(src[0], st, page);
        page_read(src.skip(1), st2, page2)
    }
}

/// The formatting at the top of a page.
pub open spec fn initial_state() -> ScanState {
    ScanState { bold: false, align: Align::Left, literal: false }
}

/// The longest start of `s` that takes at most `max` bytes in UTF-8.
pub open spec fn within(s: Seq<char>, max: nat) -> Seq<char>
    decreases s.len(),
{
    if s.len() == 0 || encode_utf8(s).len() <= max {
        s
    } else {
        within(s.drop_last(), max)
    }
}

/// The page that the source `src` writes.
pub open spec fn page_of(src: Seq<char>) -> PageModel {
    page_read(lines_of(within(src, MAX_INPUT_BYTES as nat)), initial_state(), empty_page())
}

// ---------------------------------------------------------------------------
// The reader
// ---------------------------------------------------------------------------

/// Searching what is left of a sequence is searching on from there.
pub proof fn lemma_find_skip<T>(s: Seq<T>, x: T, p: int, i: int)
    requires
        0 <= p <= i <= s.len(),
    ensures
        find(s.skip(p), x, i - p) + p == find(s, x, i),
    decreases s.len() - i,
{
    if i < s.len() && s[i] != x {
        assert(s.skip(p)[i - p] == s[i]);
        lemma_find_skip(s, x, p, i + 1);
    } else if i < s.len() {
        assert(s.skip(p)[i - p] == s[i]);
    }
}

/// The texts that fit are the shorter ones.
proof fn lemma_within(s: Seq<char>, max: nat, k: int)
    requires
        0 <= k <= s.len(),
        encode_utf8(s.take(k)).len() <= max,
        k < s.len() ==> encode_utf8(s.take(k + 1)).len() > max,
    ensures
        within(s, max) == s.take(k),
    decreases s.len(),
{
    if k == s.len() {
        assert(s.take(k) =~= s);
    } else {
        lemma_encode_grows(s, k + 1);
        let t = s.drop_last();
        assert(t.take(k) =~= s.take(k));
        if k < t.len() {
            assert(t.take(k + 1) =~= s.take(k + 1));
        }
        lemma_within(t, max, k);
    }
}

proof fn lemma_encode_grows(s: Seq<char>, k: int)
    requires
        0 <= k <= s.len(),
    ensures
        encode_utf8(s.take(k)).len() <= encode_utf8(s).len(),
    decreases s.len() - k,
{
    if k == s.len() {
        assert(s.take(k) =~= s);
    } else {
        assert(s.take(k + 1) =~= s.take(k).push(s[k]));
        lemma_encode_push(s.take(k), s[k]);
        lemma_encode_grows(s, k + 1);
    }
}

/// The longest start of `s` that takes at most `max` bytes in UTF-8.
pub fn truncate_utf8<'a>(s: &'a [char], max: usize) -> (r: &'a [char])
    ensures
        r@ == within(s@, max as nat),
{
    let mut used: usize = 0;
    let mut k: usize = 0;
    assert(encode_utf8(s@.take(0)) =~= Seq::<u8>::empty());
    while k < s.len()
        invariant
            k <= s@.len(),
            used <= max,
            used == encode_utf8(s@.take(k as int)).len(),
        decreases s@.len() - k,
    {
        proof {
            lemma_encode_push(s@.take(k as int), s@[k as int]);
            assert(s@.take(k + 1) =~= s@.take(k as int).push(s@[k as int]));
        }
        let w = char_width(s[k]);
        if max - used < w {
            proof {
                lemma_within(s@, max as nat, k as int);
            }
            let r = slice_subrange(s, 0, k);
            assert(r@ =~= s@.take(k as int));
            return r;
        }
        used += w;
        k += 1;
    }
    proof {
        lemma_within(s@, max as nat, k as int);
        assert(s@.take(k as int) =~= s@);
    }
    s
}

/// Adds the variables that `s` writes, separated by `|`.
fn push_variables(s: &[char], out: &mut Vec<(String, String)>)
    ensures
        final(out)@.map_values(|f: (String, String)| field_model(f)) == old(out)@.map_values(
            |f: (String, String)| field_model(f),
        ) + variables(split(s@, '|')),
{
    let ghost before = out@.map_values(|f: (String, String)| field_model(f));
    let mut p: usize = 0;
    assert(s@.skip(0) =~= s@);
    loop
        invariant_except_break
            p <= s@.len(),
            out@.map_values(|f: (String, String)| field_model(f)) + variables(
                split(s@.skip(p as int), '|'),
            ) == before + variables(split(s@, '|')),
        ensures
            out@.map_values(|f: (String, String)| field_model(f)) == before + variables(
                split(s@, '|'),
            ),
        decreases s@.len() - p,
    {
        let ghost rest = s@.skip(p as int);
        let ghost made = out@.map_values(|f: (String, String)| field_model(f));
        let k = find_char(s, '|', p);
        let e = slice_subrange(s, p, k);
        proof {
            lemma_find_skip(s@, '|', p as int, p as int);
            lemma_find(rest, '|', 0);
            assert(e@ =~= rest.take(k - p));
            if k == s@.len() {
                assert(rest.take(k - p) =~= rest);
                assert(split(rest, '|').skip(1) =~= Seq::<Seq<char>>::empty());
            } else {
                assert(rest.skip(k - p + 1) =~= s@.skip(k + 1));
                assert(split(rest, '|').skip(1) =~= split(s@.skip(k + 1), '|'));
            }
            assert(split(rest, '|')[0] == e@);
        }
        let q = find_char(e, '=', 0);
        if 0 < q && q < e.len() {
            let name = slice_subrange(e, 0, q);
            let value = slice_subrange(e, q + 1, e.len());
            assert(name@ =~= e@.take(q as int));
            assert(value@ =~= e@.skip(q + 1));
            out.push((string_of(name), string_of(value)));
            proof {
                let now = out@.map_values(|f: (String, String)| field_model(f));
                assert(now =~= made.push((name@, value@)));
                assert(made.push((name@, value@)) =~= made + seq![(name@, value@)]);
                assert(made + (seq![(name@, value@)] + variables(split(rest, '|').skip(1)))
                    =~= made + seq![(name@, value@)] + variables(split(rest, '|').skip(1)));
            }
        }
        if k == s.len() {
            assert(variables(split(rest, '|').skip(1)) =~= Seq::empty());
            break;
        }
        p = k + 1;
    }
}

/// Adds the variables of the components of `s`, which backticks separate.
fn push_components(s: &[char], out: &mut Vec<(String, String)>)
    ensures
        final(out)@.map_values(|f: (String, String)| field_model(f)) == old(out)@.map_values(
            |f: (String, String)| field_model(f),
        ) + component_variables(split(s@, '`')),
{
    let ghost before = out@.map_values(|f: (String, String)| field_model(f));
    let mut p: usize = 0;
    assert(s@.skip(0) =~= s@);
    loop
        invariant_except_break
            p <= s@.len(),
            out@.map_values(|f: (String, String)| field_model(f)) + component_variables(
                split(s@.skip(p as int), '`'),
            ) == before + component_variables(split(s@, '`')),
        ensures
            out@.map_values(|f: (String, String)| field_model(f)) == before + component_variables(
                split(s@, '`'),
            ),
        decreases s@.len() - p,
    {
        let ghost rest = s@.skip(p as int);
        let ghost made = out@.map_values(|f: (String, String)| field_model(f));
        let k = find_char(s, '`', p);
        let e = slice_subrange(s, p, k);
        proof {
            lemma_find_skip(s@, '`', p as int, p as int);
            lemma_find(rest, '`', 0);
            assert(e@ =~= rest.take(k - p));
            if k == s@.len() {
                assert(rest.take(k - p) =~= rest);
                assert(split(rest, '`').skip(1) =~= Seq::<Seq<char>>::empty());
            } else {
                assert(rest.skip(k - p + 1) =~= s@.skip(k + 1));
                assert(split(rest, '`').skip(1) =~= split(s@.skip(k + 1), '`'));
            }
            assert(split(rest, '`')[0] == e@);
        }
        push_variables(e, out);
        proof {
            let more = variables(split(e@, '|'));
            let tail = component_variables(split(rest, '`').skip(1));
            assert(made + (more + tail) =~= made + more + tail);
        }
        if k == s.len() {
            assert(component_variables(split(rest, '`').skip(1)) =~= Seq::empty());
            break;
        }
        p = k + 1;
    }
}

/// Reads the bracket body of a link, starting at the opening bracket: the link,
/// and how many characters it takes with its brackets.
pub fn try_parse_link(chars: &[char]) -> (r: Option<(Link, usize)>)
    ensures
        match r {
            Some((link, used)) => link_at(chars@) == Some((link@, used as int)) && used
                <= chars@.len(),
            None => link_at(chars@) is None,
        },
{
    let close = find_char(chars, ']', 0);
    if close >= chars.len() || close < 2 {
        return None;
    }
    let inner = slice_subrange(chars, 1, close);
    let k0 = find_char(inner, '`', 0);
    let first = slice_subrange(inner, 0, k0);
    assert(first@ =~= inner@.take(k0 as int));
    let ghost parts = split(inner@, '`');
    let mut fields: Vec<(String, String)> = Vec::new();
    assert(fields@.map_values(|f: (String, String)| field_model(f)) =~= Seq::empty());
    if k0 == inner.len() {
        assert(first@ =~= inner@);
        assert(parts =~= seq![inner@]);
        return Some((Link { label: string_of(first), url: string_of(first), fields }, close + 1));
    }
    let tail = slice_subrange(inner, k0 + 1, inner.len());
    assert(tail@ =~= inner@.skip(k0 + 1));
    let k1 = find_char(tail, '`', 0);
    let url = slice_subrange(tail, 0, k1);
    assert(url@ =~= tail@.take(k1 as int));
    proof {
        let more = split(tail@, '`');
        assert(parts == seq![first@] + more);
        if k1 == tail@.len() {
            assert(url@ =~= tail@);
            assert(parts =~= seq![first@, tail@]);
        } else {
            assert(more == seq![url@] + split(tail@.skip(k1 + 1), '`'));
            assert(parts[1] == url@);
            assert(split(tail@.skip(k1 + 1), '`').len() > 0);
            assert(parts.skip(2) =~= split(tail@.skip(k1 + 1), '`'));
        }
    }
    if k1 < tail.len() {
        let rest = slice_subrange(tail, k1 + 1, tail.len());
        assert(rest@ =~= tail@.skip(k1 + 1));
        push_components(rest, &mut fields);
        assert(fields@.map_values(|f: (String, String)| field_model(f)) =~= component_variables(
            parts.skip(2),
        ));
    }
    Some((Link { label: string_of(first), url: string_of(url), fields }, close + 1))
}

/// What stands at one place of a line.
pub enum Tag {
    Plain(char),
    Field,
    Reset,
    Bold,
    Aligned(Align),
    Link(Link),
    Dropped,
}

impl View for Tag {
    type V = TagModel;

    open spec fn view(&self) -> TagModel {
        match *self {
            Tag::Plain(c) => TagModel::Plain(c),
            Tag::Field => TagModel::Field,
            Tag::Reset => TagModel::Reset,
            Tag::Bold => TagModel::Bold,
            Tag::Aligned(a) => TagModel::Aligned(a),
            Tag::Link(l) => TagModel::Link(l@),
            Tag::Dropped => TagModel::Dropped,
        }
    }
}

/// The index after `i`, or the end of the line.
fn step_past(i: usize, len: usize) -> (r: usize)
    requires
        i <= len,
    ensures
        r == smaller(i + 1, len as int),
{
    if i < len {
        i + 1
    } else {
        len
    }
}

/// What stands at index `i` of a line, and the index after it.
pub fn next_tag(s: &[char], i: usize) -> (r: (Tag, usize))
    requires
        i < s@.len(),
    ensures
        (r.0@, r.1 as int) == tag_at(s@, i as int),
        i < r.1 <= s@.len(),
{
    proof {
        lemma_tag_moves_on(s@, i as int);
    }
    let n = s.len();
    let c = s[i];
    if c == '\\' {
        if n - i > 1 {
            return (Tag::Plain(s[i + 1]), i + 2);
        }
        return (Tag::Dropped, i + 1);
    }
    if c != '`' {
        return (Tag::Plain(c), i + 1);
    }
    if n - i <= 1 {
        return (Tag::Dropped, i + 1);
    }
    let t = s[i + 1];
    if t == '\0' {
        (Tag::Dropped, i + 1)
    } else if t == '`' {
        (Tag::Reset, i + 2)
    } else if t == '!' {
        (Tag::Bold, i + 2)
    } else if t == 'F' || t == 'B' {
        let skipped: usize = if n - i > 2 && s[i + 2] == 'T' {
            7
        } else {
            3
        };
        if n - (i + 2) <= skipped {
            (Tag::Dropped, n)
        } else {
            (Tag::Dropped, i + 2 + skipped)
        }
    } else if t == 'c' {
        (Tag::Aligned(Align::Center), i + 2)
    } else if t == 'r' {
        (Tag::Aligned(Align::Right), i + 2)
    } else if t == 'l' || t == 'a' {
        (Tag::Aligned(Align::Left), i + 2)
    } else if t == '<' {
        let k = find_char(s, '>', i + 2);
        (Tag::Field, step_past(k, n))
    } else if t == '{' {
        let k = find_char(s, '}', i + 2);
        (Tag::Dropped, step_past(k, n))
    } else if t == '[' {
        let rest = slice_subrange(s, i + 1, n);
        assert(rest@ =~= s@.skip(i + 1));
        match try_parse_link(rest) {
            Some((link, used)) => (Tag::Link(link), i + 1 + used),
            None => (Tag::Plain('['), i + 2),
        }
    } else {
        (Tag::Dropped, i + 2)
    }
}

/// Adds a line unless the page is full.
pub fn push_line(doc: &mut Document, text: String, style: Style, align: Align, kind: Kind)
    ensures
        final(doc)@ == with_line(old(doc)@, (LineModel { text: text@, style, align, kind })),
{
    let ghost before = doc@;
    if doc.lines.len() < MAX_LINES {
        doc.lines.push(Line { text, style, align, kind });
        assert(doc@.lines =~= before.lines.push(LineModel { text: text@, style, align, kind }));
    }
}

/// The text collected on a line, with the formatting at its first visible character.
struct Segment {
    text: Vec<char>,
    bold: bool,
    align: Align,
    /// Nothing visible was collected.
    blank: bool,
}

impl Segment {
    spec fn wf(&self) -> bool {
        self.blank == blank(self.text@)
    }
}

/// The model of a line while it is scanned.
spec fn scan_model(st: ScanState, seg: Segment, doc: Document) -> Scan {
    Scan { st, seg: seg.text@, seg_bold: seg.bold, seg_align: seg.align, page: doc@ }
}

/// Collects one more character to show.
fn show(seg: &mut Segment, st: &ScanState, c: char)
    requires
        old(seg).wf(),
    ensures
        final(seg).wf(),
        forall|doc: Document| #[trigger]
            scan_model(*st, *final(seg), doc) == shown(scan_model(*st, *old(seg), doc), c),
{
    if seg.blank {
        seg.bold = st.bold;
        seg.align = st.align;
    }
    let ghost t = seg.text@;
    seg.text.push(c);
    proof {
        if blank(t.push(c)) {
            assert(white_space(t.push(c)[t.len() as int]));
            assert forall|i: int| 0 <= i < t.len() implies white_space(#[trigger] t[i]) by {
                assert(t.push(c)[i] == t[i]);
            }
        }
    }
    seg.blank = seg.blank && is_white_space(c);
}

/// Collects several more characters to show.
fn show_all(seg: &mut Segment, st: &ScanState, cs: &[char])
    requires
        old(seg).wf(),
    ensures
        final(seg).wf(),
        forall|doc: Document| #[trigger]
            scan_model(*st, *final(seg), doc) == all_shown(scan_model(*st, *old(seg), doc), cs@),
{
    let ghost seg0 = *seg;
    let mut i: usize = 0;
    assert(cs@.take(0) =~= Seq::<char>::empty());
    while i < cs.len()
        invariant
            i <= cs@.len(),
            seg.wf(),
            forall|doc: Document| #[trigger]
                scan_model(*st, *seg, doc) == all_shown(
                    scan_model(*st, seg0, doc),
                    cs@.take(i as int),
                ),
        decreases cs@.len() - i,
    {
        let ghost seg1 = *seg;
        show(seg, st, cs[i]);
        proof {
            let t = cs@.take(i + 1);
            assert(t.drop_last() =~= cs@.take(i as int));
            assert forall|doc: Document| #[trigger]
                scan_model(*st, *seg, doc) == all_shown(scan_model(*st, seg0, doc), t) by {
                assert(scan_model(*st, seg1, doc) == all_shown(
                    scan_model(*st, seg0, doc),
                    cs@.take(i as int),
                ));
            }
        }
        i += 1;
    }
    assert(cs@.take(cs@.len() as int) =~= cs@);
}

/// Turns the collected text into a line.
fn flush(seg: &mut Segment, st: &ScanState, heading: u8, doc: &mut Document)
    ensures
        final(seg).wf(),
        scan_model(*st, *final(seg), *final(doc)) == flushed(
            scan_model(*st, *old(seg), *old(doc)),
            heading,
        ),
{
    let blank = trim(seg.text.as_slice()).len() == 0;
    if !blank {
        let style = if heading > 0 {
            Style::Heading(heading)
        } else if seg.bold {
            Style::Bold
        } else {
            Style::Regular
        };
        push_line(doc, string_of(seg.text.as_slice()), style, seg.align, Kind::Text);
    }
    seg.text = Vec::new();
    seg.blank = true;
    assert(seg.text@ =~= Seq::<char>::empty());
}

/// Lets one tag take effect.
fn apply(tag: Tag, heading: u8, seg: &mut Segment, st: &mut ScanState, doc: &mut Document)
    requires
        old(seg).wf(),
    ensures
        final(seg).wf(),
        scan_model(*final(st), *final(seg), *final(doc)) == applied(
            scan_model(*old(st), *old(seg), *old(doc)),
            tag@,
            heading,
        ),
{
    match tag {
        Tag::Plain(c) => {
            show(seg, st, c);
        },
        Tag::Field => {
            let placeholder: [char; 6] = ['[', '_', '_', '_', '_', ']'];
            assert(placeholder@ =~= seq!['[', '_', '_', '_', '_', ']']);
            show_all(seg, st, placeholder.as_slice());
        },
        Tag::Reset => {
            st.bold = false;
            st.align = Align::Left;
        },
        Tag::Bold => {
            st.bold = !st.bold;
        },
        Tag::Aligned(a) => {
            st.align = a;
        },
        Tag::Link(link) => {
            if heading > 0 {
                let label = chars_of(link.label.as_str());
                show_all(seg, st, label.as_slice());
            } else {
                flush(seg, st, heading, doc);
                if doc.links.len() < MAX_LINKS {
                    let id = doc.links.len() as u16;
                    let ghost before = doc@;
                    let mut text = String::new();
                    text.push('\u{bb}');
                    text.push(' ');
                    text.append(link.label.as_str());
                    assert(text@ =~= link_text(link.label@));
                    let ghost model = link@;
                    doc.links.push(link);
                    assert(doc@.links =~= before.links.push(model));
                    assert(doc@.lines =~= before.lines);
                    push_line(doc, text, Style::Regular, st.align, Kind::Link(id));
                }
            }
        },
        Tag::Dropped => {},
    }
}

/// Scans one line: lets its tags take effect and adds its text and links to the
/// page.
pub fn scan_inline(body: &[char], heading: u8, st: &mut ScanState, doc: &mut Document)
    ensures
        ({
            let z = scanned(
                body@,
                0,
                (Scan {
                    st: *old(st),
                    seg: Seq::empty(),
                    seg_bold: old(st).bold,
                    seg_align: old(st).align,
                    page: old(doc)@,
                }),
                heading,
            );
            *final(st) == z.st && final(doc)@ == z.page
        }),
{
    let mut seg = Segment { text: Vec::new(), bold: st.bold, align: st.align, blank: true };
    assert(seg.text@ =~= Seq::<char>::empty());
    let ghost z0 = scan_model(*st, seg, *doc);
    let mut i: usize = 0;
    while i < body.len()
        invariant
            i <= body@.len(),
            seg.wf(),
            scanned(body@, i as int, scan_model(*st, seg, *doc), heading) == scanned(
                body@,
                0,
                z0,
                heading,
            ),
        decreases body@.len() - i,
    {
        let (tag, next) = next_tag(body, i);
        apply(tag, heading, &mut seg, st, doc);
        i = next;
    }
    flush(&mut seg, st, heading, doc);
}

/// The number of `>` at the start of a line, three at most.
fn heading_marks(line: &[char]) -> (r: u8)
    ensures
        r == heading_depth(line@),
        r <= line@.len(),
{
    let n = line.len();
    if n == 0 || line[0] != '>' {
        0
    } else if n == 1 || line[1] != '>' {
        1
    } else if n == 2 || line[2] != '>' {
        2
    } else {
        3
    }
}

/// Reads one line of source into the page.
fn read_line(line: &[char], st: &mut ScanState, doc: &mut Document)
    ensures
        (*final(st), final(doc)@) == line_read(line@, *old(st), old(doc)@),
{
    proof {
        reveal_strlit("`=");
        reveal_strlit("\\`=");
        reveal_strlit("#!c=");
        reveal_strlit("`t");
        assert("`="@ =~= seq!['`', '=']);
        assert("\\`="@ =~= seq!['\\', '`', '=']);
        assert("#!c="@ =~= seq!['#', '!', 'c', '=']);
        assert("`t"@ =~= seq!['`', 't']);
    }
    let stripped = trim(line);
    if spells(stripped, "`=") {
        st.literal = !st.literal;
        return ;
    }
    if st.literal {
        let text = if spells(stripped, "\\`=") {
            String::from_str("`=")
        } else {
            string_of(line)
        };
        push_line(doc, text, Style::Mono, Align::Left, Kind::Text);
        return ;
    }
    if begins(line, "#!c=") {
        if doc.cache_secs.is_none() {
            let rest = slice_subrange(line, 4, line.len());
            assert(rest@ =~= line@.skip(4));
            doc.cache_secs = match parse_decimal(trim(rest), 0xffff_ffff) {
                Some(n) => Some(n as u32),
                None => None,
            };
        }
        return ;
    }
    if line.len() > 0 && line[0] == '#' {
        return ;
    }
    if begins(line, "`t") {
        return ;
    }
    if line.len() > 0 && line[0] == '-' {
        push_line(doc, String::new(), Style::Regular, st.align, Kind::Divider);
        return ;
    }
    let heading = heading_marks(line);
    let body = if heading > 0 {
        slice_subrange(line, heading as usize, line.len())
    } else if line.len() > 0 && line[0] == '<' {
        slice_subrange(line, 1, line.len())
    } else {
        line
    };
    assert(body@ =~= line_body(line@));
    if body.len() == 0 && heading == 0 {
        push_line(doc, String::new(), Style::Regular, st.align, Kind::Text);
        return ;
    }
    scan_inline(body, heading, st, doc);
}

/// Reads a page.
pub fn parse(src: &str) -> (doc: Document)
    ensures
        doc@ == page_of(src@),
{
    let all = chars_of(src);
    let chars = truncate_utf8(all.as_slice(), MAX_INPUT_BYTES);
    let mut doc = Document { cache_secs: None, lines: Vec::new(), links: Vec::new() };
    let mut st = ScanState { bold: false, align: Align::Left, literal: false };
    assert(doc@ =~= empty_page());
    let mut p: usize = 0;
    assert(chars@.skip(0) =~= chars@);
    while p < chars.len() && doc.lines.len() < MAX_LINES
        invariant
            p <= chars@.len(),
            page_read(lines_of(chars@.skip(p as int)), st, doc@) == page_read(
                lines_of(chars@),
                initial_state(),
                empty_page(),
            ),
        decreases chars@.len() - p,
    {
        let ghost rest = chars@.skip(p as int);
        let ghost src_lines = lines_of(rest);
        let k = find_char(chars, '\n', p);
        proof {
            lemma_find_skip(chars@, '\n', p as int, p as int);
            lemma_find(rest, '\n', 0);
        }
        let end = if k < chars.len() && k > p && chars[k - 1] == '\r' {
            k - 1
        } else {
            k
        };
        let line = slice_subrange(chars, p, end);
        proof {
            if k < chars@.len() {
                assert(rest.take(k - p) =~= chars@.subrange(p as int, k as int));
                assert(line@ =~= without_cr(rest.take(k - p)));
                assert(rest.skip(k - p + 1) =~= chars@.skip(k + 1));
                assert(src_lines == seq![line@] + lines_of(chars@.skip(k + 1)));
                assert(src_lines.skip(1) =~= lines_of(chars@.skip(k + 1)));
            } else {
                assert(line@ =~= rest);
                assert(src_lines =~= seq![rest]);
                assert(src_lines.skip(1) =~= Seq::<Seq<char>>::empty());
                assert(chars@.skip(k as int) =~= Seq::<char>::empty());
                assert(lines_of(chars@.skip(k as int)) =~= Seq::<Seq<char>>::empty());
            }
            assert(src_lines[0] == line@);
        }
        read_line(line, &mut st, &mut doc);
        p = if k < chars.len() {
            k + 1
        } else {
            k
        };
    }
    proof {
        if p == chars@.len() {
            assert(chars@.skip(p as int) =~= Seq::<char>::empty());
            assert(lines_of(chars@.skip(p as int)).len() == 0);
        }
    }
    doc
}

/// The first heading among `lines` from `i` on.
pub open spec fn heading_from(lines: Seq<LineModel>, i: int) -> Option<Seq<char>>
    decreases lines.len() - i,
{
    if i >= lines.len() {
        None
    } else {
        match lines[i].style {
            Style::Heading(_) => Some(lines[i].text),
            _ => heading_from(lines, i + 1),
        }
    }
}

/// The title of a page: its first heading.
pub open spec fn title_of(p: PageModel) -> Option<Seq<char>> {
    heading_from(p.lines, 0)
}

impl Document {
    /// The title of the page: its first heading.
    pub fn title(&self) -> (r: Option<String>)
        ensures
            match r {
                Some(t) => title_of(self@) == Some(t@),
                None => title_of(self@) is None,
            },
    {
        let mut i: usize = 0;
        while i < self.lines.len()
            invariant
                i <= self.lines@.len(),
                title_of(self@) == heading_from(self@.lines, i as int),
            decreases self.lines@.len() - i,
        {
            assert(self@.lines[i as int] == self.lines@[i as int]@);
            match self.lines[i].style {
                Style::Heading(_) => {
                    return Some(self.lines[i].text.clone());
                },
                _ => {},
            }
            i += 1;
        }
        None
    }
}

// ---------------------------------------------------------------------------
// Where links lead
// ---------------------------------------------------------------------------

/// Where a link points, its path as characters.
#[verifier::ext_equal]
pub enum TargetModel {
    SameNode(Seq<char>),
    OtherNode(Seq<u8>, Seq<char>),
    NodeIndex(Seq<u8>),
    Lxmf(Seq<u8>),
    Anchor,
    Unsupported,
}

impl View for LinkTarget {
    type V = TargetModel;

    open spec fn view(&self) -> TargetModel {
        match *self {
            LinkTarget::SameNode(p) => TargetModel::SameNode(p@),
            LinkTarget::OtherNode(h, p) => TargetModel::OtherNode(h@, p@),
            LinkTarget::NodeIndex(h) => TargetModel::NodeIndex(h@),
            LinkTarget::Lxmf(h) => TargetModel::Lxmf(h@),
            LinkTarget::Anchor => TargetModel::Anchor,
            LinkTarget::Unsupported => TargetModel::Unsupported,
        }
    }
}

/// The address that 32 hexadecimal digits write, white space around them aside.
pub open spec fn hash_written(s: Seq<char>) -> Option<Seq<u8>> {
    if trimmed(s).len() == 32 && all_hex(trimmed(s)) {
        Some(hex_bytes(trimmed(s)))
    } else {
        None
    }
}

/// `s` is the word `lxmf`, in either case.
pub open spec fn lxmf_scheme(s: Seq<char>) -> bool {
    &&& s.len() == 4
    &&& s[0] == 'l' || s[0] == 'L'
    &&& s[1] == 'x' || s[1] == 'X'
    &&& s[2] == 'm' || s[2] == 'M'
    &&& s[3] == 'f' || s[3] == 'F'
}

/// Where the link `raw` points.
pub open spec fn target_of(raw: Seq<char>) -> TargetModel {
    let url = trimmed(raw);
    let at = find(url, '@', 0);
    let colon = find(url, ':', 0);
    if url.len() == 0 {
        TargetModel::Unsupported
    } else if url[0] == '#' {
        TargetModel::Anchor
    } else if at < url.len() {
        let rest = url.skip(at + 1);
        match hash_written(rest.take(find(rest, ':', 0))) {
            Some(h) if lxmf_scheme(url.take(at)) => TargetModel::Lxmf(h),
            _ => TargetModel::Unsupported,
        }
    } else if colon < url.len() {
        let path = url.skip(colon + 1);
        if colon == 0 {
            TargetModel::SameNode(path)
        } else {
            match hash_written(url.take(colon)) {
                Some(h) => if path.len() > 0 {
                    TargetModel::OtherNode(h, path)
                } else {
                    TargetModel::NodeIndex(h)
                },
                None => TargetModel::Unsupported,
            }
        }
    } else {
        match hash_written(url) {
            Some(h) => TargetModel::NodeIndex(h),
            None => if url[0] == '/' {
                TargetModel::SameNode(url)
            } else {
                TargetModel::Unsupported
            },
        }
    }
}

/// The address that 32 hexadecimal digits write, white space around them aside.
pub fn parse_hash(s: &[char]) -> (r: Option<[u8; 16]>)
    ensures
        match r {
            Some(h) => hash_written(s@) == Some(h@),
            None => hash_written(s@) is None,
        },
{
    hash_from_hex(trim(s))
}

/// Where a link points.
pub fn resolve_link(url: &str) -> (r: LinkTarget)
    ensures
        r@ == target_of(url@),
{
    let chars = chars_of(url);
    let url = trim(chars.as_slice());
    if url.len() == 0 {
        return LinkTarget::Unsupported;
    }
    if url[0] == '#' {
        return LinkTarget::Anchor;
    }
    let at = find_char(url, '@', 0);
    if at < url.len() {
        let scheme = slice_subrange(url, 0, at);
        assert(scheme@ =~= url@.take(at as int));
        let rest = slice_subrange(url, at + 1, url.len());
        assert(rest@ =~= url@.skip(at + 1));
        let node = slice_subrange(rest, 0, find_char(rest, ':', 0));
        assert(node@ =~= rest@.take(find(rest@, ':', 0)));
        if scheme.len() == 4 && (scheme[0] == 'l' || scheme[0] == 'L') && (scheme[1] == 'x'
            || scheme[1] == 'X') && (scheme[2] == 'm' || scheme[2] == 'M') && (scheme[3] == 'f'
            || scheme[3] == 'F') {
            if let Some(h) = parse_hash(node) {
                return LinkTarget::Lxmf(h);
            }
        }
        return LinkTarget::Unsupported;
    }
    let colon = find_char(url, ':', 0);
    if colon < url.len() {
        let node = slice_subrange(url, 0, colon);
        assert(node@ =~= url@.take(colon as int));
        let path = slice_subrange(url, colon + 1, url.len());
        assert(path@ =~= url@.skip(colon + 1));
        if colon == 0 {
            return LinkTarget::SameNode(string_of(path));
        }
        return match parse_hash(node) {
            Some(h) => if path.len() > 0 {
                LinkTarget::OtherNode(h, string_of(path))
            } else {
                LinkTarget::NodeIndex(h)
            },
            None => LinkTarget::Unsupported,
        };
    }
    match parse_hash(url) {
        Some(h) => LinkTarget::NodeIndex(h),
        None => if url[0] == '/' {
            LinkTarget::SameNode(string_of(url))
        } else {
            LinkTarget::Unsupported
        },
    }
}

// ---------------------------------------------------------------------------
// What holds of every page
// ---------------------------------------------------------------------------

/// A line fits the links of its page: a link line names a link of the page and
/// shows its label, a divider has no text, a heading is one to three deep.
pub open spec fn line_fits(l: LineModel, links: Seq<LinkModel>) -> bool {
    &&& match l.kind {
        Kind::Link(id) => id < links.len() && l.text == link_text(links[id as int].label) && l.style
            == Style::Regular,
        Kind::Divider => l.text.len() == 0 && l.style == Style::Regular,
        Kind::Text => true,
    }
    &&& match l.style {
        Style::Heading(d) => 1 <= d <= 3,
        _ => true,
    }
}

/// The numbers of link lines increase from line to line.
pub open spec fn links_ascend(lines: Seq<LineModel>) -> bool {
    forall|i: int, j: int|
        0 <= i < j < lines.len() ==> (match ((#[trigger] lines[i]).kind, (
        #[trigger] lines[j]).kind) {
            (Kind::Link(a), Kind::Link(b)) => a < b,
            _ => true,
        })
}

/// A page within its limits whose lines fit its links.
pub open spec fn page_wf(p: PageModel) -> bool {
    &&& p.lines.len() <= MAX_LINES
    &&& p.links.len() <= MAX_LINKS
    &&& forall|i: int| 0 <= i < p.lines.len() ==> line_fits(#[trigger] p.lines[i], p.links)
    &&& links_ascend(p.lines)
}

/// `after` is `before` with lines and links added at the end, and no text line among
/// them is blank.
pub open spec fn appended(before: PageModel, after: PageModel) -> bool {
    &&& after.cache_secs == before.cache_secs
    &&& before.lines.len() <= after.lines.len()
    &&& after.lines.take(before.lines.len() as int) == before.lines
    &&& before.links.len() <= after.links.len()
    &&& after.links.take(before.links.len() as int) == before.links
    &&& forall|i: int|
        before.lines.len() <= i < after.lines.len() ==> (#[trigger] after.lines[i]).kind
            == Kind::Text ==> trimmed(after.lines[i].text).len() > 0
}

proof fn lemma_appended_twice(a: PageModel, b: PageModel, c: PageModel)
    requires
        appended(a, b),
        appended(b, c),
    ensures
        appended(a, c),
{
    assert(c.lines.take(a.lines.len() as int) =~= b.lines.take(a.lines.len() as int));
    assert(c.links.take(a.links.len() as int) =~= b.links.take(a.links.len() as int));
    assert forall|i: int| a.lines.len() <= i < c.lines.len() && (#[trigger] c.lines[i]).kind
        == Kind::Text implies trimmed(c.lines[i].text).len() > 0 by {
        if i < b.lines.len() {
            assert(c.lines.take(b.lines.len() as int)[i] == b.lines[i]);
        }
    }
}

proof fn lemma_with_line_appends(p: PageModel, l: LineModel)
    requires
        l.kind == Kind::Text ==> trimmed(l.text).len() > 0,
    ensures
        appended(p, with_line(p, l)),
{
    assert(with_line(p, l).lines.take(p.lines.len() as int) =~= p.lines);
    assert(p.links.take(p.links.len() as int) =~= p.links);
}

proof fn lemma_flushed_appends(z: Scan, heading: u8)
    ensures
        appended(z.page, flushed(z, heading).page),
        flushed(z, heading).page.links == z.page.links,
        flushed(z, heading).page.lines.len() <= z.page.lines.len() + 1,
        flushed(z, heading).st == z.st,
{
    let style = if heading > 0 {
        Style::Heading(heading)
    } else if z.seg_bold {
        Style::Bold
    } else {
        Style::Regular
    };
    assert(z.page.lines.take(z.page.lines.len() as int) =~= z.page.lines);
    assert(z.page.links.take(z.page.links.len() as int) =~= z.page.links);
    if trimmed(z.seg).len() > 0 {
        lemma_with_line_appends(
            z.page,
            LineModel { text: z.seg, style, align: z.seg_align, kind: Kind::Text },
        );
    }
}

proof fn lemma_applied_appends(z: Scan, t: TagModel, heading: u8)
    ensures
        appended(z.page, applied(z, t, heading).page),
        applied(z, t, heading).st.literal == z.st.literal,
        heading > 0 ==> applied(z, t, heading).page == z.page,
{
    assert(z.page.lines.take(z.page.lines.len() as int) =~= z.page.lines);
    assert(z.page.links.take(z.page.links.len() as int) =~= z.page.links);
    match t {
        TagModel::Field => {
            lemma_all_shown_page(z, seq!['[', '_', '_', '_', '_', ']']);
        },
        TagModel::Link(l) => {
            lemma_all_shown_page(z, l.label);
            let f = flushed(z, heading);
            lemma_flushed_appends(z, heading);
            if heading == 0 && f.page.links.len() < MAX_LINKS {
                let grown = PageModel { links: f.page.links.push(l), ..f.page };
                assert(grown.links.take(f.page.links.len() as int) =~= f.page.links);
                assert(grown.lines.take(f.page.lines.len() as int) =~= f.page.lines);
                let line = LineModel {
                    text: link_text(l.label),
                    style: Style::Regular,
                    align: f.st.align,
                    kind: Kind::Link(f.page.links.len() as u16),
                };
                lemma_with_line_appends(grown, line);
                lemma_appended_twice(z.page, f.page, grown);
                lemma_appended_twice(z.page, grown, with_line(grown, line));
            }
        },
        _ => {},
    }
}

/// The scan of a line only adds to the page: what was there stays, no text line that is
/// added is blank, and the time to keep the page and the literal state stay as they are.
/// A heading adds one line at most, and no link.
pub proof fn a_line_only_adds_to_the_page(s: Seq<char>, i: int, z: Scan, heading: u8)
    ensures
        appended(z.page, scanned(s, i, z, heading).page),
        scanned(s, i, z, heading).st.literal == z.st.literal,
        heading > 0 ==> scanned(s, i, z, heading).page.links == z.page.links && scanned(
            s,
            i,
            z,
            heading,
        ).page.lines.len() <= z.page.lines.len() + 1,
    decreases s.len() - i,
{
    if i < 0 || i >= s.len() {
        lemma_flushed_appends(z, heading);
    } else {
        let (t, next) = tag_at(s, i);
        lemma_tag_moves_on(s, i);
        let y = applied(z, t, heading);
        lemma_applied_appends(z, t, heading);
        a_line_only_adds_to_the_page(s, next, y, heading);
        lemma_appended_twice(z.page, y.page, scanned(s, next, y, heading).page);
    }
}

proof fn lemma_all_shown_page(z: Scan, cs: Seq<char>)
    ensures
        all_shown(z, cs).page == z.page,
        all_shown(z, cs).st == z.st,
    decreases cs.len(),
{
    if cs.len() > 0 {
        lemma_all_shown_page(z, cs.drop_last());
    }
}

proof fn lemma_applied_wf(z: Scan, t: TagModel, heading: u8)
    requires
        page_wf(z.page),
        heading <= 3,
    ensures
        page_wf(applied(z, t, heading).page),
{
    match t {
        TagModel::Field => {
            lemma_all_shown_page(z, seq!['[', '_', '_', '_', '_', ']']);
        },
        TagModel::Link(l) => {
            lemma_all_shown_page(z, l.label);
            let f = flushed(z, heading);
            assert(page_wf(f.page));
            if f.page.links.len() < MAX_LINKS {
                let grown = PageModel { links: f.page.links.push(l), ..f.page };
                assert(page_wf(grown)) by {
                    assert forall|i: int| 0 <= i < grown.lines.len() implies line_fits(
                        #[trigger] grown.lines[i],
                        grown.links,
                    ) by {
                        assert(line_fits(f.page.lines[i], f.page.links));
                    }
                }
            }
        },
        _ => {},
    }
}

proof fn lemma_scanned_wf(s: Seq<char>, i: int, z: Scan, heading: u8)
    requires
        page_wf(z.page),
        heading <= 3,
    ensures
        page_wf(scanned(s, i, z, heading).page),
    decreases s.len() - i,
{
    if 0 <= i < s.len() {
        let (t, next) = tag_at(s, i);
        if next > i {
            lemma_applied_wf(z, t, heading);
            lemma_scanned_wf(s, next, applied(z, t, heading), heading);
        }
    }
}

proof fn lemma_page_read_wf(src: Seq<Seq<char>>, st: ScanState, page: PageModel)
    requires
        page_wf(page),
    ensures
        page_wf(page_read(src, st, page)),
    decreases src.len(),
{
    if src.len() > 0 && page.lines.len() < MAX_LINES {
        let s = src[0];
        lemma_scanned_wf(
            line_body(s),
            0,
            Scan { st, seg: Seq::empty(), seg_bold: st.bold, seg_align: st.align, page },
            heading_depth(s),
        );
        let (st2, page2) = line_read(s, st, page);
        assert(page_wf(page2));
        lemma_page_read_wf(src.skip(1), st2, page2);
    }
}

/// Whatever the source, the page keeps to its limits, every link line names a
/// link of the page and shows its label, the numbers of link lines increase, and no
/// heading is deeper than three.
pub proof fn every_page_is_well_formed(src: Seq<char>)
    ensures
        page_wf(page_of(src)),
{
    lemma_page_read_wf(
        lines_of(within(src, MAX_INPUT_BYTES as nat)),
        initial_state(),
        empty_page(),
    );
}

proof fn lemma_within_prefix(src: Seq<char>, max: nat)
    ensures
        starts_with(src, within(src, max)),
        encode_utf8(within(src, max)).len() <= max,
    decreases src.len(),
{
    if src.len() == 0 {
        assert(src.take(0) =~= src);
        assert(encode_utf8(src) =~= Seq::<u8>::empty());
    } else if encode_utf8(src).len() > max {
        lemma_within_prefix(src.drop_last(), max);
        let r = within(src.drop_last(), max);
        assert(src.take(r.len() as int) =~= src.drop_last().take(r.len() as int));
    } else {
        assert(src.take(src.len() as int) =~= src);
    }
}

/// What a page shows depends on its first `MAX_INPUT_BYTES` bytes alone: two
/// sources that agree there give the same page.
pub proof fn rest_of_a_long_page_is_ignored(src: Seq<char>)
    ensures
        page_of(src) == page_of(within(src, MAX_INPUT_BYTES as nat)),
        starts_with(src, within(src, MAX_INPUT_BYTES as nat)),
        encode_utf8(within(src, MAX_INPUT_BYTES as nat)).len() <= MAX_INPUT_BYTES,
{
    lemma_within_prefix(src, MAX_INPUT_BYTES as nat);
}

} // verus!
