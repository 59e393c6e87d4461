//! Pages in micron.
use lxmfchat::micron::{
    parse, resolve_link, truncate_utf8, try_parse_link, Align, Document, Kind, Link, LinkTarget,
    Style, MAX_INPUT_BYTES, MAX_LINES,
};

fn texts(doc: &Document) -> Vec<&str> {
    doc.lines.iter().map(|l| l.text.as_str()).collect()
}

#[test]
fn headings_dividers_and_text() {
    let doc = parse(">Welcome\n>>Sub\n>>>Deep\nplain text\n-\n-=\n");
    assert_eq!(doc.lines[0].style, Style::Heading(1));
    assert_eq!(doc.lines[0].text, "Welcome");
    assert_eq!(doc.lines[1].style, Style::Heading(2));
    assert_eq!(doc.lines[2].style, Style::Heading(3));
    assert_eq!(doc.lines[3].style, Style::Regular);
    assert_eq!(doc.lines[4].kind, Kind::Divider);
    assert_eq!(doc.lines[5].kind, Kind::Divider);
}

#[test]
fn comments_and_cache_header() {
    let doc = parse("#!c=600\n# a comment\nvisible\n");
    assert_eq!(doc.cache_secs, Some(600));
    assert_eq!(texts(&doc), vec!["visible"]);
}

#[test]
fn literal_mode_is_verbatim_mono() {
    let doc = parse("`=\n># not a heading or comment\n`!still literal\n\\`=\n`=\nafter\n");
    assert_eq!(doc.lines[0].text, "># not a heading or comment");
    assert_eq!(doc.lines[0].style, Style::Mono);
    assert_eq!(doc.lines[1].text, "`!still literal");
    assert_eq!(doc.lines[2].text, "`=");
    assert_eq!(doc.lines[3].text, "after");
    assert_eq!(doc.lines[3].style, Style::Regular);
}

#[test]
fn bold_at_line_start_styles_the_line() {
    let doc = parse("`!bold line\nstill bold\n`!plain again\n");
    assert_eq!(doc.lines[0].style, Style::Bold);
    assert_eq!(doc.lines[0].text, "bold line");
    // Bold state persists across lines until toggled off.
    assert_eq!(doc.lines[1].style, Style::Bold);
    assert_eq!(doc.lines[2].style, Style::Regular);
}

#[test]
fn colors_italic_underline_dropped() {
    let doc = parse("`F0f0green`f `*ital`* `_under`_ done\n`Bf00on red`b\n");
    assert_eq!(doc.lines[0].text, "green ital under done");
    assert_eq!(doc.lines[1].text, "on red");
    // Truecolor variant consumes 7.
    let doc = parse("`FT00ff00x`f y\n");
    assert_eq!(doc.lines[0].text, "x y");
}

#[test]
fn alignment_applies_per_line() {
    let doc = parse("`ccentered\n`rright\n`lleft\n`a default\n");
    assert_eq!(doc.lines[0].align, Align::Center);
    assert_eq!(doc.lines[1].align, Align::Right);
    assert_eq!(doc.lines[2].align, Align::Left);
    assert_eq!(doc.lines[3].align, Align::Left);
}

#[test]
fn reset_clears_bold_and_align() {
    let doc = parse("`!`cstyled\n``plain\n");
    assert_eq!(doc.lines[0].style, Style::Bold);
    assert_eq!(doc.lines[0].align, Align::Center);
    assert_eq!(doc.lines[1].style, Style::Regular);
    assert_eq!(doc.lines[1].align, Align::Left);
}

#[test]
fn links_become_their_own_lines() {
    let doc = parse("Before `[Home`:/page/index.mu] after\n");
    assert_eq!(doc.lines.len(), 3);
    assert_eq!(doc.lines[0].text, "Before ");
    assert_eq!(doc.lines[1].kind, Kind::Link(0));
    assert_eq!(doc.lines[1].text, "\u{00bb} Home");
    assert_eq!(doc.lines[2].text, " after");
    assert_eq!(
        doc.links[0],
        Link { label: "Home".into(), url: ":/page/index.mu".into(), fields: vec![] }
    );
}

#[test]
fn bare_url_link_and_extra_fields() {
    let doc = parse("`[:/page/a.mu]\n`[Send`:/page/b.mu`field_x|1]\n");
    assert_eq!(doc.links[0].label, ":/page/a.mu");
    assert_eq!(doc.links[0].url, ":/page/a.mu");
    assert_eq!(doc.links[1].label, "Send");
    assert_eq!(doc.links[1].url, ":/page/b.mu"); // form fields ignored
}

#[test]
fn real_rngit_page_links_extract() {
    // Cut down from a live rngit index page — the page that exposed the
    // bare-vs-backtick bracket bug (we extracted 0 links from it).
    let doc = parse(
        "#!c=0\n#!bg=1a1d1f\n>Aleph Git\n\
         `!`[Node`:/page/index.mu]`! /\n\
         `!`[  • mirrors`:/page/group.mu`g=mirrors]`! (14 repositories)\n\
         `a`F666`[Served by rngit 1.3.5`:/page/index.mu] - Generated in 0s`f\n",
    );
    assert_eq!(doc.links.len(), 3);
    assert_eq!(
        doc.links[0],
        Link { label: "Node".into(), url: ":/page/index.mu".into(), fields: vec![] }
    );
    assert_eq!(doc.links[1].label, "  • mirrors");
    assert_eq!(doc.links[1].url, ":/page/group.mu");
    assert_eq!(doc.links[1].fields, vec![("g".to_string(), "mirrors".to_string())]);
    assert_eq!(doc.links[2].label, "Served by rngit 1.3.5");
    let link_lines = doc.lines.iter().filter(|l| matches!(l.kind, Kind::Link(_))).count();
    assert_eq!(link_lines, 3);
}

#[test]
fn bare_brackets_are_literal() {
    // Real micron links are backtick-bracket; a plain [ is just text.
    let doc = parse("array[0] = 1\n[Home`:/page/index.mu]\nlone [ bracket\n`[unclosed\n");
    assert_eq!(doc.lines[0].text, "array[0] = 1");
    // The stray ` reads as an unknown tag and eats the ':' — no link either way.
    assert_eq!(doc.lines[1].text, "[Home/page/index.mu]");
    assert_eq!(doc.lines[2].text, "lone [ bracket");
    assert_eq!(doc.lines[3].text, "[unclosed");
    assert!(doc.links.is_empty());
}

#[test]
fn fields_render_placeholder_and_dont_crash() {
    let doc = parse("Name: `<24|username`admin>\n`<!|pass`>\n");
    assert_eq!(doc.lines[0].text, "Name: [____]");
    assert_eq!(doc.lines[1].text, "[____]");
}

#[test]
fn resolve_link_forms() {
    let h = "00112233445566778899aabbccddeeff";
    let mut hb = [0u8; 16];
    for i in 0..16 {
        hb[i] = u8::from_str_radix(&h[i * 2..i * 2 + 2], 16).unwrap();
    }
    assert_eq!(resolve_link(":/page/x.mu"), LinkTarget::SameNode("/page/x.mu".into()));
    assert_eq!(resolve_link("/page/x.mu"), LinkTarget::SameNode("/page/x.mu".into()));
    assert_eq!(
        resolve_link(&format!("{h}:/page/x.mu")),
        LinkTarget::OtherNode(hb, "/page/x.mu".into())
    );
    assert_eq!(resolve_link(h), LinkTarget::NodeIndex(hb));
    assert_eq!(resolve_link("#top"), LinkTarget::Anchor);
    assert_eq!(resolve_link(&format!("lxmf@{h}")), LinkTarget::Lxmf(hb));
    assert_eq!(resolve_link("https://example.com"), LinkTarget::Unsupported);
    assert_eq!(resolve_link("nope"), LinkTarget::Unsupported);
    assert_eq!(resolve_link(""), LinkTarget::Unsupported);
}

#[test]
fn escapes_and_stray_backticks() {
    let doc = parse("a \\`! literal tag\nprice 100`\n\\[not a link]\n");
    assert_eq!(doc.lines[0].text, "a `! literal tag");
    assert_eq!(doc.lines[1].text, "price 100");
    assert_eq!(doc.lines[2].text, "[not a link]");
    assert!(doc.links.is_empty());
}

#[test]
fn crlf_blank_lines_and_depth_reset() {
    let doc = parse("one\r\n\r\n<two\r\n");
    assert_eq!(texts(&doc), vec!["one", "", "two"]);
}

#[test]
fn caps_bound_hostile_input() {
    let big = "x\n".repeat(MAX_LINES * 2);
    let doc = parse(&big);
    assert_eq!(doc.lines.len(), MAX_LINES);
    let long = "y".repeat(MAX_INPUT_BYTES * 2);
    let doc = parse(&long);
    assert_eq!(doc.lines.len(), 1);
    assert!(doc.lines[0].text.len() <= MAX_INPUT_BYTES);
}

#[test]
fn tables_and_partials_degrade() {
    let doc = parse("`tl40\ncell text\n`t\n`{:/page/p.mu`30}embedded\n");
    // Marker lines dropped, buffered line kept as text, partial dropped.
    assert_eq!(texts(&doc), vec!["cell text", "embedded"]);
}

#[test]
fn any_body_in_brackets_is_a_link() {
    let chars: Vec<char> = "[x`]".chars().collect();
    let (link, used) = try_parse_link(&chars).unwrap();
    assert_eq!((link.label.as_str(), link.url.as_str(), used), ("x", "", 4));
    assert!(link.fields.is_empty());
    assert!(matches!(resolve_link(&link.url), LinkTarget::Unsupported));
    let chars: Vec<char> = "[]".chars().collect();
    assert!(try_parse_link(&chars).is_none());
    let doc = parse("`[x`] y\n");
    assert_eq!(texts(&doc), vec!["\u{00bb} x", " y"]);
    assert_eq!(doc.lines[0].kind, Kind::Link(0));
}

#[test]
fn a_line_takes_the_formatting_at_its_first_visible_character() {
    let doc = parse(" `!`cx\n");
    assert_eq!(doc.lines[0].text, " x");
    assert_eq!(doc.lines[0].style, Style::Bold);
    assert_eq!(doc.lines[0].align, Align::Center);
    let doc = parse("x `!y\n");
    assert_eq!(doc.lines[0].style, Style::Regular);
}

#[test]
fn text_is_cut_between_characters() {
    let chars: Vec<char> = "a\u{e9}b".chars().collect();
    assert_eq!(truncate_utf8(&chars, 2), &chars[..1]);
    assert_eq!(truncate_utf8(&chars, 3), &chars[..2]);
    assert_eq!(truncate_utf8(&chars, 0), &chars[..0]);
    assert_eq!(truncate_utf8(&chars, usize::MAX), &chars[..]);
}

#[test]
fn link_lines_are_numbered_in_order() {
    let doc = parse("`[a`:/a]`[b`:/b]\ntext\n`[c`:/c]\n");
    let ids: Vec<u16> = doc
        .lines
        .iter()
        .filter_map(|l| match l.kind {
            Kind::Link(id) => Some(id),
            _ => None,
        })
        .collect();
    assert_eq!(ids, vec![0, 1, 2]);
}

#[test]
fn a_heading_is_one_line_without_links() {
    let doc = parse(">See `[here`:/a] and `[there`:/b]\n>   \n");
    assert_eq!(texts(&doc), vec!["See here and there"]);
    assert!(doc.links.is_empty());
}
