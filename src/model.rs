//! The data model: headings, links, classified lines and blocks, each with
//! a mathematical view over character sequences.

use vstd::prelude::*;

verus! {

/// Level of a heading: one, two or three leading `#` characters.
#[derive(Debug, Clone, Copy, PartialEq, Eq, Structural)]
pub enum HeadingLevel {
    H1,
    H2,
    H3,
}

/// The kind of a malformed line.
#[derive(Debug, Clone, Copy, PartialEq, Eq, Structural)]
pub enum Malformed {
    /// A line that starts with `=>` but is not a well-formed link.
    MLink,
    /// A line that starts with `#` but is not a well-formed heading.
    MHeading,
}

/// A heading: its level and its text.
#[derive(Debug, Clone, PartialEq, Eq)]
pub struct Heading(pub HeadingLevel, pub String);

/// A link: its url and an optional caption.
#[derive(Debug, Clone, PartialEq, Eq)]
pub struct Link(pub String, pub Option<String>);

/// One classified line of a document, or one completed preformatted run.
#[derive(Debug, Clone, PartialEq, Eq)]
pub enum Line {
    PreformattedL(Vec<String>),
    ParaL(String),
    LinkL(Link),
    HeadingL(Heading),
    BlankL,
    MalformedL(Malformed),
}

/// The unit of rendering.
#[derive(Debug, Clone, PartialEq, Eq)]
pub enum Block {
    PreformattedB(Vec<String>),
    ParaB(String),
    LinksB(Vec<Link>),
    HeadingB(Heading),
}

/// A raw line with its 1-based line number.
#[derive(Debug, Clone, PartialEq, Eq)]
pub struct NumString(pub String, pub usize);

/// A classified line with the 1-based number of the line it came from.
#[derive(Debug, Clone, PartialEq, Eq)]
pub struct NumLine(pub Line, pub usize);

/// Mathematical value of a heading: level and text.
pub type HeadingModel = (HeadingLevel, Seq<char>);

/// Mathematical value of a link: url and optional caption.
pub type LinkModel = (Seq<char>, Option<Seq<char>>);

/// Mathematical value of a classified line.
pub enum LineModel {
    Preformatted(Seq<Seq<char>>),
    Para(Seq<char>),
    Link(LinkModel),
    Heading(HeadingModel),
    Blank,
    Malformed(Malformed),
}

/// Mathematical value of a block.
pub enum BlockModel {
    Preformatted(Seq<Seq<char>>),
    Para(Seq<char>),
    Links(Seq<LinkModel>),
    Heading(HeadingModel),
}

/// The characters of each string of a sequence.
pub open spec fn texts(v: Seq<String>) -> Seq<Seq<char>> {
    v.map_values(|s: String| s@)
}

/// The values of a sequence of links.
pub open spec fn links_view(v: Seq<Link>) -> Seq<LinkModel> {
    v.map_values(|l: Link| l@)
}

impl View for Heading {
    type V = HeadingModel;

    open spec fn view(&self) -> HeadingModel {
        (self.0, self.1@)
    }
}

impl View for Link {
    type V = LinkModel;

    open spec fn view(&self) -> LinkModel {
        (self.0@, self.1.deep_view())
    }
}

impl View for Line {
    type V = LineModel;

    open spec fn view(&self) -> LineModel {
        match self {
            Line::PreformattedL(v) => LineModel::Preformatted(texts(v@)),
            Line::ParaL(p) => LineModel::Para(p@),
            Line::LinkL(l) => LineModel::Link(l@),
            Line::HeadingL(h) => LineModel::Heading(h@),
            Line::BlankL => LineModel::Blank,
            Line::MalformedL(m) => LineModel::Malformed(*m),
        }
    }
}

impl View for Block {
    type V = BlockModel;

    open spec fn view(&self) -> BlockModel {
        match self {
            Block::PreformattedB(v) => BlockModel::Preformatted(texts(v@)),
            Block::ParaB(p) => BlockModel::Para(p@),
            Block::LinksB(ll) => BlockModel::Links(links_view(ll@)),
            Block::HeadingB(h) => BlockModel::Heading(h@),
        }
    }
}

impl View for NumString {
    type V = (Seq<char>, nat);

    open spec fn view(&self) -> (Seq<char>, nat) {
        (self.0@, self.1 as nat)
    }
}

impl View for NumLine {
    type V = (LineModel, nat);

    open spec fn view(&self) -> (LineModel, nat) {
        (self.0@, self.1 as nat)
    }
}

/// Number of `#` characters that mark a heading of level `h`.
pub open spec fn level_count(h: HeadingLevel) -> nat {
    match h {
        HeadingLevel::H1 => 1,
        HeadingLevel::H2 => 2,
        HeadingLevel::H3 => 3,
    }
}

} // verus!
