//! Rendering of blocks as Markdown text.

use vstd::prelude::*;
use crate::model::{
    Block, BlockModel, Heading, HeadingLevel, HeadingModel, Link, LinkModel, level_count,
    links_view, texts,
};

verus! {

/// `n` copies of `#`.
pub open spec fn hashes(n: nat) -> Seq<char>
    decreases n,
{
    if n == 0 {
        Seq::empty()
    } else {
        hashes((n - 1) as nat).push('#')
    }
}

/// The caption shown for a link: its own, or else its url.
pub open spec fn caption_of(l: LinkModel) -> Seq<char> {
    match l.1 {
        Some(c) => c,
        None => l.0,
    }
}

/// One Markdown list item: `* [caption](url)` and a newline.
pub open spec fn link_text(l: LinkModel) -> Seq<char> {
    seq!['*', ' ', '['] + caption_of(l) + seq![']', '('] + l.0 + seq![')', '\n']
}

/// The list items of `ls`, in order.
pub open spec fn link_items(ls: Seq<LinkModel>) -> Seq<char>
    decreases ls.len(),
{
    if ls.len() == 0 {
        Seq::empty()
    } else {
        link_items(ls.drop_last()) + link_text(ls.last())
    }
}

/// A list of links: its items and one blank line, or nothing when empty.
pub open spec fn links_text(ls: Seq<LinkModel>) -> Seq<char> {
    if ls.len() == 0 {
        Seq::empty()
    } else {
        link_items(ls) + seq!['\n']
    }
}

/// A heading line: its `#` marker, one space and its text.
pub open spec fn heading_text(h: HeadingModel) -> Seq<char> {
    hashes(level_count(h.0)) + seq![' '] + h.1
}

/// The lines of `ls` joined by newlines.
pub open spec fn join_lines(ls: Seq<Seq<char>>) -> Seq<char>
    decreases ls.len(),
{
    if ls.len() == 0 {
        Seq::empty()
    } else if ls.len() == 1 {
        ls[0]
    } else {
        join_lines(ls.drop_last()) + seq!['\n'] + ls.last()
    }
}

/// The fence marker line.
pub open spec fn fence_line() -> Seq<char> {
    seq!['`', '`', '`', '\n']
}

/// The Markdown text of one block.
pub open spec fn block_text(b: BlockModel) -> Seq<char> {
    match b {
        BlockModel::Para(p) => p + seq!['\n', '\n'],
        BlockModel::Preformatted(ls) => fence_line() + join_lines(ls) + seq!['\n'] + fence_line()
            + seq!['\n'],
        BlockModel::Links(ls) => links_text(ls),
        BlockModel::Heading(h) => heading_text(h) + seq!['\n', '\n'],
    }
}

/// The Markdown text of a sequence of blocks, in order.
pub open spec fn blocks_text(bs: Seq<BlockModel>) -> Seq<char>
    decreases bs.len(),
{
    if bs.len() == 0 {
        Seq::empty()
    } else {
        blocks_text(bs.drop_last()) + block_text(bs.last())
    }
}

/// The `#` marker of a heading level.
pub fn heading_chars(h: &HeadingLevel) -> (r: String)
    ensures
        r@ == hashes(level_count(*h)),
{
    proof {
        reveal_strlit("#");
        reveal_strlit("##");
        reveal_strlit("###");
        reveal_with_fuel(hashes, 4);
    }
    let s = match h {
        HeadingLevel::H1 => "#",
        HeadingLevel::H2 => "##",
        HeadingLevel::H3 => "###",
    };
    String::from_str(s)
}

impl Heading {
    /// The heading line, without a line break.
    pub fn to_text(&self) -> (r: String)
        ensures
            r@ == heading_text(self@),
    {
        let mut r = heading_chars(&self.0);
        r.append(" ");
        r.append(self.1.as_str());
        proof {
            reveal_strlit(" ");
        }
        r
    }
}

impl Link {
    /// The list item of this link, with its line break.
    pub fn to_text(&self) -> (r: String)
        ensures
            r@ == link_text(self@),
    {
        let caption = match &self.1 {
            Some(c) => c.as_str(),
            None => self.0.as_str(),
        };
        let mut r = String::from_str("* [");
        r.append(caption);
        r.append("](");
        r.append(self.0.as_str());
        r.append(")\n");
        proof {
            reveal_strlit("* [");
            reveal_strlit("](");
            reveal_strlit(")\n");
        }
        r
    }
}

/// A list of links as Markdown; the empty list renders as nothing.
pub fn string_of_links(ll: &Vec<Link>) -> (r: String)
    ensures
        r@ == links_text(links_view(ll@)),
{
    if ll.len() == 0 {
        return String::new();
    }
    let mut r = String::new();
    let mut i: usize = 0;
    while i < ll.len()
        invariant
            i <= ll.len(),
            r@ == link_items(links_view(ll@.subrange(0, i as int))),
        decreases ll.len() - i,
    {
        let item = ll[i].to_text();
        r.append(item.as_str());
        proof {
            let ls = links_view(ll@.subrange(0, i + 1));
            assert(ls.drop_last() =~= links_view(ll@.subrange(0, i as int)));
        }
        i = i + 1;
    }
    assert(ll@.subrange(0, ll.len() as int) =~= ll@);
    r.append("\n");
    proof {
        reveal_strlit("\n");
    }
    r
}

/// The lines of `v` joined by newlines.
fn join_with_newlines(v: &Vec<String>) -> (r: String)
    ensures
        r@ == join_lines(texts(v@)),
{
    let mut r = String::new();
    let mut i: usize = 0;
    while i < v.len()
        invariant
            i <= v.len(),
            r@ == join_lines(texts(v@.subrange(0, i as int))),
        decreases v.len() - i,
    {
        let ghost prev = r@;
        proof {
            reveal_strlit("\n");
        }
        if i > 0 {
            r.append("\n");
        }
        r.append(v[i].as_str());
        proof {
            let ls = texts(v@.subrange(0, i + 1));
            assert(ls.drop_last() =~= texts(v@.subrange(0, i as int)));
            if i == 0 {
                assert(prev =~= Seq::<char>::empty());
                assert(r@ =~= ls[0]);
            } else {
                assert(r@ =~= prev + seq!['\n'] + ls.last());
            }
        }
        i = i + 1;
    }
    assert(v@.subrange(0, v.len() as int) =~= v@);
    r
}

impl Block {
    /// The Markdown text of this block.
    pub fn to_text(&self) -> (r: String)
        ensures
            r@ == block_text(self@),
    {
        proof {
            reveal_strlit("\n\n");
            reveal_strlit("```\n");
            reveal_strlit("\n```\n\n");
        }
        match self {
            Block::ParaB(p) => {
                let mut r = p.clone();
                r.append("\n\n");
                assert(r@ =~= block_text(self@));
                r
            },
            Block::PreformattedB(v) => {
                let mut r = String::from_str("```\n");
                let body = join_with_newlines(v);
                r.append(body.as_str());
                r.append("\n```\n\n");
                assert(r@ =~= block_text(self@));
                r
            },
            Block::LinksB(ll) => string_of_links(ll),
            Block::HeadingB(h) => {
                let mut r = h.to_text();
                r.append("\n\n");
                assert(r@ =~= block_text(self@));
                r
            },
        }
    }
}

/// The Markdown text of a sequence of blocks, in order.
pub fn render_blocks(bs: &Vec<Block>) -> (r: String)
    ensures
        r@ == blocks_text(bs@.map_values(|b: Block| b@)),
{
    let mut r = String::new();
    let mut i: usize = 0;
    while i < bs.len()
        invariant
            i <= bs.len(),
            r@ == blocks_text(bs@.subrange(0, i as int).map_values(|b: Block| b@)),
        decreases bs.len() - i,
    {
        let t = bs[i].to_text();
        r.append(t.as_str());
        proof {
            let ms = bs@.subrange(0, i + 1).map_values(|b: Block| b@);
            assert(ms.drop_last() =~= bs@.subrange(0, i as int).map_values(|b: Block| b@));
        }
        i = i + 1;
    }
    assert(bs@.subrange(0, bs.len() as int) =~= bs@);
    r
}

} // verus!
