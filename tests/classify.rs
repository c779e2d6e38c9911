use gemtext2md::classify::{line_of_string, link_of_line, make_heading};
use gemtext2md::model::{Heading, HeadingLevel, Line, Link, Malformed};
use gemtext2md::text::trim;

fn classify(s: &str) -> Line {
    line_of_string(s.to_string())
}

fn heading(level: HeadingLevel, text: &str) -> Line {
    Line::HeadingL(Heading(level, text.to_string()))
}

#[test]
fn heading_levels_one_to_three() {
    assert_eq!(classify("# Title"), heading(HeadingLevel::H1, "Title"));
    assert_eq!(classify("## Sub title"), heading(HeadingLevel::H2, "Sub title"));
    assert_eq!(classify("### Deep"), heading(HeadingLevel::H3, "Deep"));
    assert_eq!(classify("# x"), heading(HeadingLevel::H1, "x"));
    assert_eq!(classify("## #tag"), heading(HeadingLevel::H2, "#tag"));
}

#[test]
fn heading_text_is_trimmed_at_the_end() {
    assert_eq!(classify("# Title  \t"), heading(HeadingLevel::H1, "Title"));
}

#[test]
fn heading_with_two_spaces_keeps_the_second() {
    assert_eq!(classify("#  x"), heading(HeadingLevel::H1, " x"));
}

#[test]
fn heading_after_leading_whitespace_is_recognised() {
    // Documented quirk: the line is trimmed before its `#` run is counted.
    assert_eq!(classify("   ## Indented"), heading(HeadingLevel::H2, "Indented"));
    assert_eq!(classify("\t#x"), Line::MalformedL(Malformed::MHeading));
}

#[test]
fn malformed_headings() {
    for s in ["#", "# ", "##", "## ", "###", "### ", "####", "#### x", "#x", "##x", "###x", "#  "] {
        assert_eq!(classify(s), Line::MalformedL(Malformed::MHeading), "line {:?}", s);
    }
}

#[test]
fn link_without_caption() {
    assert_eq!(
        classify("=> https://example.org"),
        Line::LinkL(Link("https://example.org".to_string(), None))
    );
}

#[test]
fn link_with_caption_keeps_its_spaces() {
    assert_eq!(
        classify("=> gemini://x.y/z A long caption"),
        Line::LinkL(Link("gemini://x.y/z".to_string(), Some("A long caption".to_string())))
    );
}

#[test]
fn link_with_trailing_space_has_empty_caption() {
    assert_eq!(
        classify("=> u "),
        Line::LinkL(Link("u".to_string(), Some(String::new())))
    );
}

#[test]
fn malformed_links() {
    for s in ["=>", "=> ", "=>foo", "=>  foo", "=>\tfoo"] {
        assert_eq!(classify(s), Line::MalformedL(Malformed::MLink), "line {:?}", s);
    }
}

#[test]
fn link_of_line_direct() {
    assert_eq!(
        link_of_line("=> a b".to_string()),
        Line::LinkL(Link("a".to_string(), Some("b".to_string())))
    );
    assert_eq!(link_of_line("plain".to_string()), Line::MalformedL(Malformed::MLink));
}

#[test]
fn blank_and_paragraphs() {
    assert_eq!(classify(""), Line::BlankL);
    assert_eq!(classify("  hello world  "), Line::ParaL("hello world".to_string()));
    assert_eq!(classify("   "), Line::ParaL(String::new()));
    assert_eq!(classify("a => b"), Line::ParaL("a => b".to_string()));
    assert_eq!(classify(" => x"), Line::ParaL("=> x".to_string()));
}

#[test]
fn make_heading_strips_offset_from_trimmed_line() {
    assert_eq!(
        make_heading("  ### Three ".to_string(), HeadingLevel::H3, 4),
        heading(HeadingLevel::H3, "Three")
    );
    assert_eq!(make_heading("##".to_string(), HeadingLevel::H2, 2), heading(HeadingLevel::H2, ""));
}

#[test]
fn trim_removes_unicode_whitespace() {
    assert_eq!(trim("\t a b \n".to_string()), "a b");
    assert_eq!(trim("\u{3000}x\u{a0}\u{2009}".to_string()), "x");
    assert_eq!(trim("   ".to_string()), "");
    assert_eq!(trim("é".to_string()), "é");
}
