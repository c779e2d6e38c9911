use gemtext2md::model::{Block, Heading, HeadingLevel, Line, Link, Malformed, NumLine, NumString};
use gemtext2md::pipeline::{
    MalformedInput, blocks_of_lines, convert, decode_lines, gather_preformatted, parse_document,
};

fn lines(ls: &[&str]) -> Vec<String> {
    ls.iter().map(|s| s.to_string()).collect()
}

fn strings(ls: &[&str]) -> Vec<String> {
    lines(ls)
}

fn link(url: &str, caption: Option<&str>) -> Link {
    Link(url.to_string(), caption.map(|c| c.to_string()))
}

#[test]
fn end_to_end_example() {
    let doc = lines(&["# Title", "", "=> https://example.org Example", "plain text"]);
    assert_eq!(
        parse_document(doc.clone()),
        Ok(vec![
            Block::HeadingB(Heading(HeadingLevel::H1, "Title".to_string())),
            Block::LinksB(vec![link("https://example.org", Some("Example"))]),
            Block::ParaB("plain text".to_string()),
        ])
    );
    assert_eq!(
        convert(doc),
        Ok("# Title\n\n* [Example](https://example.org)\n\nplain text\n\n".to_string())
    );
}

#[test]
fn empty_document() {
    assert_eq!(convert(vec![]), Ok(String::new()));
    assert_eq!(parse_document(vec![]), Ok(vec![]));
}

#[test]
fn fences_are_dropped_and_lines_numbered_from_one() {
    let tagged = gather_preformatted(lines(&["a", "```", "b", "```rust", "c"]));
    assert_eq!(
        tagged,
        vec![
            (false, NumString("a".to_string(), 1)),
            (true, NumString("b".to_string(), 3)),
            (false, NumString("c".to_string(), 5)),
        ]
    );
}

#[test]
fn decode_flushes_preformatted_run_before_next_line() {
    let tagged = vec![
        (true, NumString("x".to_string(), 2)),
        (true, NumString("y".to_string(), 3)),
        (false, NumString("p".to_string(), 5)),
    ];
    assert_eq!(
        decode_lines(tagged),
        vec![
            NumLine(Line::PreformattedL(strings(&["x", "y"])), 5),
            NumLine(Line::ParaL("p".to_string()), 5),
        ]
    );
}

#[test]
fn decode_flushes_unterminated_run_at_end() {
    let tagged = vec![
        (false, NumString("".to_string(), 1)),
        (true, NumString("z".to_string(), 3)),
    ];
    assert_eq!(
        decode_lines(tagged),
        vec![NumLine(Line::BlankL, 1), NumLine(Line::PreformattedL(strings(&["z"])), 3)]
    );
}

#[test]
fn closed_region_is_verbatim() {
    let doc = lines(&["```", "  => not a link", "# nor a heading", "```", "after"]);
    assert_eq!(
        parse_document(doc),
        Ok(vec![
            Block::PreformattedB(strings(&["  => not a link", "# nor a heading"])),
            Block::ParaB("after".to_string()),
        ])
    );
}

#[test]
fn odd_number_of_fences_ends_in_one_preformatted_block() {
    let doc = lines(&["# T", "```", "x", "=>", "y"]);
    assert_eq!(
        parse_document(doc.clone()),
        Ok(vec![
            Block::HeadingB(Heading(HeadingLevel::H1, "T".to_string())),
            Block::PreformattedB(strings(&["x", "=>", "y"])),
        ])
    );
    assert_eq!(convert(doc), Ok("# T\n\n```\nx\n=>\ny\n```\n\n".to_string()));
}

#[test]
fn three_fences_last_region_open() {
    let doc = lines(&["```", "a", "```", "p", "```", "q", "r"]);
    assert_eq!(
        parse_document(doc),
        Ok(vec![
            Block::PreformattedB(strings(&["a"])),
            Block::ParaB("p".to_string()),
            Block::PreformattedB(strings(&["q", "r"])),
        ])
    );
}

#[test]
fn adjacent_regions_merge() {
    let doc = lines(&["```", "a", "```", "```", "b", "```"]);
    assert_eq!(parse_document(doc), Ok(vec![Block::PreformattedB(strings(&["a", "b"]))]));
}

#[test]
fn consecutive_links_form_one_block() {
    let doc = lines(&["=> a", "=> b c", "=> d", "text"]);
    assert_eq!(
        parse_document(doc),
        Ok(vec![
            Block::LinksB(vec![link("a", None), link("b", Some("c")), link("d", None)]),
            Block::ParaB("text".to_string()),
        ])
    );
}

#[test]
fn blank_line_splits_links() {
    let doc = lines(&["=> a", "", "=> b"]);
    assert_eq!(
        parse_document(doc.clone()),
        Ok(vec![Block::LinksB(vec![link("a", None)]), Block::LinksB(vec![link("b", None)])])
    );
    assert_eq!(convert(doc), Ok("* [a](a)\n\n* [b](b)\n\n".to_string()));
}

#[test]
fn heading_and_preformatted_flush_links() {
    let doc = lines(&["=> a", "## H", "=> b", "```", "c"]);
    assert_eq!(
        parse_document(doc),
        Ok(vec![
            Block::LinksB(vec![link("a", None)]),
            Block::HeadingB(Heading(HeadingLevel::H2, "H".to_string())),
            Block::LinksB(vec![link("b", None)]),
            Block::PreformattedB(strings(&["c"])),
        ])
    );
}

#[test]
fn empty_flushes_emit_nothing() {
    let doc = lines(&["", "", "p", ""]);
    assert_eq!(parse_document(doc), Ok(vec![Block::ParaB("p".to_string())]));
}

#[test]
fn malformed_link_reports_its_line() {
    let doc = lines(&["# T", "p", "=>", "q"]);
    assert_eq!(
        convert(doc),
        Err(("# T\n\np\n\n".to_string(), MalformedInput { kind: Malformed::MLink, line: 3 }))
    );
}

#[test]
fn malformed_heading_reports_its_line() {
    let doc = lines(&["=> a", "", "##x", "=>"]);
    assert_eq!(
        parse_document(doc),
        Err((
            vec![Block::LinksB(vec![link("a", None)])],
            MalformedInput { kind: Malformed::MHeading, line: 3 },
        ))
    );
}

#[test]
fn line_numbers_count_fence_markers() {
    let doc = lines(&["```", "x", "```", "#nope"]);
    assert_eq!(
        convert(doc),
        Err(("```\nx\n```\n\n".to_string(), MalformedInput { kind: Malformed::MHeading, line: 4 }))
    );
}

#[test]
fn blocks_of_lines_stops_at_first_malformed() {
    let ls = vec![
        NumLine(Line::LinkL(link("a", None)), 1),
        NumLine(Line::MalformedL(Malformed::MLink), 2),
        NumLine(Line::MalformedL(Malformed::MHeading), 3),
    ];
    assert_eq!(
        blocks_of_lines(ls),
        Err((vec![], MalformedInput { kind: Malformed::MLink, line: 2 }))
    );
}

#[test]
fn blocks_of_lines_flushes_links_at_end() {
    let ls = vec![
        NumLine(Line::ParaL("p".to_string()), 1),
        NumLine(Line::LinkL(link("a", Some("b"))), 2),
    ];
    assert_eq!(
        blocks_of_lines(ls),
        Ok(vec![Block::ParaB("p".to_string()), Block::LinksB(vec![link("a", Some("b"))])])
    );
}

#[test]
fn blocks_before_malformed_line_are_kept() {
    let doc = lines(&["# ok", "=>", "para"]);
    assert_eq!(
        parse_document(doc.clone()),
        Err((
            vec![Block::HeadingB(Heading(HeadingLevel::H1, "ok".to_string()))],
            MalformedInput { kind: Malformed::MLink, line: 2 },
        ))
    );
    assert_eq!(
        convert(doc),
        Err(("# ok\n\n".to_string(), MalformedInput { kind: Malformed::MLink, line: 2 }))
    );
}

#[test]
fn closed_link_run_is_kept_before_malformed_line() {
    let doc = lines(&["=> a", "p", "=>"]);
    assert_eq!(
        parse_document(doc),
        Err((
            vec![Block::LinksB(vec![link("a", None)]), Block::ParaB("p".to_string())],
            MalformedInput { kind: Malformed::MLink, line: 3 },
        ))
    );
}

#[test]
fn pending_links_are_not_flushed_on_malformed_line() {
    let doc = lines(&["# h", "=> a", "=> b", "##x", "tail"]);
    assert_eq!(
        parse_document(doc),
        Err((
            vec![Block::HeadingB(Heading(HeadingLevel::H1, "h".to_string()))],
            MalformedInput { kind: Malformed::MHeading, line: 4 },
        ))
    );
}
