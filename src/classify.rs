//! Lexical classification of a single line outside preformatted regions.

use vstd::prelude::*;
use crate::model::{Heading, HeadingLevel, Line, LineModel, Link, Malformed};
use crate::text::{find_char, find_char_from, run_end, run_end_from, trim, trimmed};

verus! {

/// The line starts with the two-character link marker `=>`.
pub open spec fn has_link_marker(s: Seq<char>) -> bool {
    s.len() >= 2 && s[0] == '=' && s[1] == '>'
}

/// The line starts with the link marker followed by one space.
pub open spec fn has_link_prefix(s: Seq<char>) -> bool {
    s.len() >= 3 && s[0] == '=' && s[1] == '>' && s[2] == ' '
}

/// Classification of a line that starts with the link marker: after `=> `,
/// the url runs up to the next space and the caption is everything after it.
/// An empty url makes the line malformed.
pub open spec fn link_model(s: Seq<char>) -> LineModel {
    if has_link_prefix(s) {
        let r = s.subrange(3, s.len() as int);
        let k = find_char(r, ' ', 0);
        if k == 0 {
            LineModel::Malformed(Malformed::MLink)
        } else if k == r.len() {
            LineModel::Link((r, None))
        } else {
            LineModel::Link((r.subrange(0, k), Some(r.subrange(k + 1, r.len() as int))))
        }
    } else {
        LineModel::Malformed(Malformed::MLink)
    }
}

/// The heading level marked by `n` leading `#` characters.
pub open spec fn level_of(n: int) -> HeadingLevel {
    if n == 1 {
        HeadingLevel::H1
    } else if n == 2 {
        HeadingLevel::H2
    } else {
        HeadingLevel::H3
    }
}

/// Classification of a trimmed line that starts with `#`: exactly one to
/// three `#`, one space, then at least one more character.
pub open spec fn heading_model(t: Seq<char>) -> LineModel {
    let n = run_end(t, '#', 0);
    if 1 <= n <= 3 && t.len() > n + 1 && t[n] == ' ' {
        LineModel::Heading((level_of(n), t.subrange(n + 1, t.len() as int)))
    } else {
        LineModel::Malformed(Malformed::MHeading)
    }
}

/// Classification of a line outside preformatted regions, in priority order:
/// empty, link marker, heading marker (looked for after trimming, so that
/// whitespace before `#` is allowed), paragraph.
pub open spec fn classify(s: Seq<char>) -> LineModel {
    if s.len() == 0 {
        LineModel::Blank
    } else if has_link_marker(s) {
        link_model(s)
    } else {
        let t = trimmed(s);
        if t.len() > 0 && t[0] == '#' {
            heading_model(t)
        } else {
            LineModel::Para(t)
        }
    }
}

/// Parses a line as a link (see `link_model`).
pub fn link_of_line(line: String) -> (r: Line)
    ensures
        r@ == link_model(line@),
{
    let s = line.as_str();
    let n = s.unicode_len();
    if n < 3 || s.get_char(0) != '=' || s.get_char(1) != '>' || s.get_char(2) != ' ' {
        return Line::MalformedL(Malformed::MLink);
    }
    let r = s.substring_char(3, n);
    let k = find_char_from(r, ' ', 0);
    let m = r.unicode_len();
    if k == 0 {
        Line::MalformedL(Malformed::MLink)
    } else if k == m {
        Line::LinkL(Link(String::from_str(r), None))
    } else {
        let url = String::from_str(r.substring_char(0, k));
        let caption = String::from_str(r.substring_char(k + 1, m));
        Line::LinkL(Link(url, Some(caption)))
    }
}

/// A heading of the given level whose text is the trimmed line without its
/// first `offset` characters.
pub fn make_heading(s: String, level: HeadingLevel, offset: usize) -> (r: Line)
    requires
        offset <= trimmed(s@).len(),
    ensures
        r@ == LineModel::Heading(
            (level, trimmed(s@).subrange(offset as int, trimmed(s@).len() as int)),
        ),
{
    let t = trim(s);
    let n = t.as_str().unicode_len();
    let after_hashes = String::from_str(t.as_str().substring_char(offset, n));
    Line::HeadingL(Heading(level, after_hashes))
}

/// Classifies one line outside preformatted regions (see `classify`).
pub fn line_of_string(s: String) -> (r: Line)
    ensures
        r@ == classify(s@),
{
    let n = s.as_str().unicode_len();
    if n == 0 {
        return Line::BlankL;
    }
    if n >= 2 && s.as_str().get_char(0) == '=' && s.as_str().get_char(1) == '>' {
        return link_of_line(s);
    }
    let t = trim(s.clone());
    let m = t.as_str().unicode_len();
    if m == 0 || t.as_str().get_char(0) != '#' {
        return Line::ParaL(t);
    }
    let h = run_end_from(t.as_str(), '#', 0);
    if h <= 3 && m > h + 1 && t.as_str().get_char(h) == ' ' {
        let level = if h == 1 {
            HeadingLevel::H1
        } else if h == 2 {
            HeadingLevel::H2
        } else {
            HeadingLevel::H3
        };
        make_heading(s, level, h + 1)
    } else {
        Line::MalformedL(Malformed::MHeading)
    }
}

} // verus!
