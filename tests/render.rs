use gemtext2md::classify::line_of_string;
use gemtext2md::model::{Block, Heading, HeadingLevel, Line, Link};
use gemtext2md::render::{heading_chars, render_blocks, string_of_links};

fn link(url: &str, caption: Option<&str>) -> Link {
    Link(url.to_string(), caption.map(|c| c.to_string()))
}

#[test]
fn heading_markers() {
    assert_eq!(heading_chars(&HeadingLevel::H1), "#");
    assert_eq!(heading_chars(&HeadingLevel::H2), "##");
    assert_eq!(heading_chars(&HeadingLevel::H3), "###");
}

#[test]
fn heading_rendering() {
    let h = Heading(HeadingLevel::H2, "Sub".to_string());
    assert_eq!(h.to_text(), "## Sub");
    assert_eq!(Block::HeadingB(h).to_text(), "## Sub\n\n");
}

#[test]
fn link_rendering_defaults_caption_to_url() {
    assert_eq!(link("https://a.b", None).to_text(), "* [https://a.b](https://a.b)\n");
    assert_eq!(link("https://a.b", Some("A B")).to_text(), "* [A B](https://a.b)\n");
}

#[test]
fn links_rendering() {
    assert_eq!(string_of_links(&vec![]), "");
    let ll = vec![link("a", None), link("b", Some("c"))];
    assert_eq!(string_of_links(&ll), "* [a](a)\n* [c](b)\n\n");
    assert_eq!(Block::LinksB(ll).to_text(), "* [a](a)\n* [c](b)\n\n");
}

#[test]
fn paragraph_rendering() {
    assert_eq!(Block::ParaB("text".to_string()).to_text(), "text\n\n");
}

#[test]
fn preformatted_rendering() {
    let b = Block::PreformattedB(vec!["a".to_string(), "  b".to_string()]);
    assert_eq!(b.to_text(), "```\na\n  b\n```\n\n");
    assert_eq!(Block::PreformattedB(vec!["x".to_string()]).to_text(), "```\nx\n```\n\n");
}

#[test]
fn rendering_twice_is_identical() {
    let bs = vec![
        Block::HeadingB(Heading(HeadingLevel::H1, "T".to_string())),
        Block::ParaB("p".to_string()),
        Block::LinksB(vec![link("u", None)]),
        Block::PreformattedB(vec!["code".to_string()]),
    ];
    let first = render_blocks(&bs);
    let second = render_blocks(&bs);
    assert_eq!(first, second);
    assert_eq!(first, "# T\n\np\n\n* [u](u)\n\n```\ncode\n```\n\n");
}

#[test]
fn render_no_blocks() {
    assert_eq!(render_blocks(&vec![]), "");
}

#[test]
fn heading_lines_round_trip_through_rendering() {
    for line in ["# One", "## Two words", "### #3", "#  spaced"] {
        match line_of_string(line.to_string()) {
            Line::HeadingL(h) => {
                assert_eq!(h.to_text(), line);
                assert_eq!(Block::HeadingB(h).to_text(), format!("{}\n\n", line));
            }
            other => panic!("not a heading: {:?}", other),
        }
    }
}
