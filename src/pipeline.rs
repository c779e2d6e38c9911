//! The conversion pipeline: fence tracking, line decoding and block
//! aggregation, each a function from one stage's sequence to the next.

use vstd::prelude::*;
use crate::classify::{classify, line_of_string};
use crate::render::{blocks_text, render_blocks};
use crate::model::{
    Block, BlockModel, LineModel, Line, LinkModel, Link, Malformed, NumLine, NumString, links_view,
    texts,
};

verus! {

/// A raw line tagged with whether it lies in a preformatted region.
pub type TaggedModel = (bool, (Seq<char>, nat));

/// A classified line with its line number.
pub type NumLineModel = (LineModel, nat);

/// Report of the first malformed line of a document.
#[derive(Debug, Clone, Copy, PartialEq, Eq, Structural)]
pub struct MalformedInput {
    /// What was wrong with the line.
    pub kind: Malformed,
    /// Its 1-based line number.
    pub line: usize,
}

/// The line starts with the fence marker, three backticks.
pub open spec fn is_fence(s: Seq<char>) -> bool {
    s.len() >= 3 && s[0] == '`' && s[1] == '`' && s[2] == '`'
}

/// Whether a preformatted region is open after the first `n` lines.
pub open spec fn fence_open(ls: Seq<Seq<char>>, n: int) -> bool
    decreases n,
{
    if n <= 0 {
        false
    } else if is_fence(ls[n - 1]) {
        !fence_open(ls, n - 1)
    } else {
        fence_open(ls, n - 1)
    }
}

/// The first `n` lines without fence markers, each with the region flag in
/// force where it stands and its 1-based line number.
pub open spec fn tagged(ls: Seq<Seq<char>>, n: int) -> Seq<TaggedModel>
    decreases n,
{
    if n <= 0 {
        Seq::empty()
    } else if is_fence(ls[n - 1]) {
        tagged(ls, n - 1)
    } else {
        tagged(ls, n - 1).push((fence_open(ls, n - 1), (ls[n - 1], n as nat)))
    }
}

/// The preformatted lines buffered after the first `n` tagged lines.
pub open spec fn pre_buffer(ts: Seq<TaggedModel>, n: int) -> Seq<Seq<char>>
    decreases n,
{
    if n <= 0 {
        Seq::empty()
    } else if ts[n - 1].0 {
        pre_buffer(ts, n - 1).push(ts[n - 1].1.0)
    } else {
        Seq::empty()
    }
}

/// The classified lines emitted for the first `n` tagged lines: a
/// preformatted run is emitted when the first line after it arrives.
pub open spec fn decoded(ts: Seq<TaggedModel>, n: int) -> Seq<NumLineModel>
    decreases n,
{
    if n <= 0 {
        Seq::empty()
    } else {
        let prev = decoded(ts, n - 1);
        let buf = pre_buffer(ts, n - 1);
        let (flag, (s, k)) = ts[n - 1];
        if flag {
            prev
        } else if buf.len() > 0 {
            prev.push((LineModel::Preformatted(buf), k)).push((classify(s), k))
        } else {
            prev.push((classify(s), k))
        }
    }
}

/// All classified lines of a tagged sequence, with a final preformatted
/// run that no fence closed.
pub open spec fn decode_all(ts: Seq<TaggedModel>) -> Seq<NumLineModel> {
    let buf = pre_buffer(ts, ts.len() as int);
    if buf.len() > 0 {
        decoded(ts, ts.len() as int).push(
            (LineModel::Preformatted(buf), ts[ts.len() - 1].1.1),
        )
    } else {
        decoded(ts, ts.len() as int)
    }
}

/// The links pending after the first `n` classified lines.
pub open spec fn pending(ds: Seq<NumLineModel>, n: int) -> Seq<LinkModel>
    decreases n,
{
    if n <= 0 {
        Seq::empty()
    } else {
        match ds[n - 1].0 {
            LineModel::Link(l) => pending(ds, n - 1).push(l),
            _ => Seq::empty(),
        }
    }
}

/// Flushing the pending links: one links block, or nothing when none pend.
pub open spec fn flush(bs: Seq<BlockModel>, p: Seq<LinkModel>) -> Seq<BlockModel> {
    if p.len() > 0 {
        bs.push(BlockModel::Links(p))
    } else {
        bs
    }
}

/// The blocks emitted for the first `n` classified lines.
pub open spec fn blocks_upto(ds: Seq<NumLineModel>, n: int) -> Seq<BlockModel>
    decreases n,
{
    if n <= 0 {
        Seq::empty()
    } else {
        let prev = blocks_upto(ds, n - 1);
        let p = pending(ds, n - 1);
        match ds[n - 1].0 {
            LineModel::Link(_) => prev,
            LineModel::Blank => flush(prev, p),
            LineModel::Para(t) => flush(prev, p).push(BlockModel::Para(t)),
            LineModel::Heading(h) => flush(prev, p).push(BlockModel::Heading(h)),
            LineModel::Preformatted(ls) => flush(prev, p).push(BlockModel::Preformatted(ls)),
            LineModel::Malformed(_) => prev,
        }
    }
}

/// The kind and line number of the first malformed line among the first `n`.
pub open spec fn first_malformed(ds: Seq<NumLineModel>, n: int) -> Option<(Malformed, nat)>
    decreases n,
{
    if n <= 0 {
        None
    } else {
        match first_malformed(ds, n - 1) {
            Some(e) => Some(e),
            None => match ds[n - 1].0 {
                LineModel::Malformed(m) => Some((m, ds[n - 1].1)),
                _ => None,
            },
        }
    }
}

/// The blocks emitted while the first `n` classified lines are processed:
/// processing stops at the first malformed line, so these are the blocks
/// finished before it, without the links still pending there.
pub open spec fn emitted(ds: Seq<NumLineModel>, n: int) -> Seq<BlockModel>
    decreases n,
{
    if n <= 0 {
        Seq::empty()
    } else if first_malformed(ds, n - 1) is Some {
        emitted(ds, n - 1)
    } else {
        blocks_upto(ds, n)
    }
}

/// An aborted aggregation: the blocks emitted before the first malformed
/// line, and that line's kind and line number.
pub type AbortModel = (Seq<BlockModel>, (Malformed, nat));

/// The blocks of a classified sequence or, where a line is malformed, the
/// blocks emitted before the first such line together with it.
pub open spec fn aggregate(ds: Seq<NumLineModel>) -> Result<Seq<BlockModel>, AbortModel> {
    let n = ds.len() as int;
    match first_malformed(ds, n) {
        Some(e) => Err((emitted(ds, n), e)),
        None => Ok(flush(blocks_upto(ds, n), pending(ds, n))),
    }
}

/// The values of a tagged sequence.
pub open spec fn tagged_view(v: Seq<(bool, NumString)>) -> Seq<TaggedModel> {
    v.map_values(|t: (bool, NumString)| (t.0, t.1@))
}

/// The values of a sequence of numbered lines.
pub open spec fn num_lines_view(v: Seq<NumLine>) -> Seq<NumLineModel> {
    v.map_values(|l: NumLine| l@)
}

/// The values of a sequence of blocks.
pub open spec fn blocks_view(v: Seq<Block>) -> Seq<BlockModel> {
    v.map_values(|b: Block| b@)
}

/// The value of an aggregation result.
pub open spec fn result_view(r: Result<Vec<Block>, (Vec<Block>, MalformedInput)>) -> Result<
    Seq<BlockModel>,
    AbortModel,
> {
    match r {
        Ok(bs) => Ok(blocks_view(bs@)),
        Err((bs, e)) => Err((blocks_view(bs@), (e.kind, e.line as nat))),
    }
}

/// The elements of `v` in reverse order.
fn reversed<T>(v: Vec<T>) -> (r: Vec<T>)
    ensures
        r.len() == v.len(),
        forall|j: int| 0 <= j < v.len() ==> r@[j] == v@[v.len() - 1 - j],
{
    let ghost orig = v@;
    let mut v = v;
    let mut r: Vec<T> = Vec::new();
    while v.len() > 0
        invariant
            v.len() + r.len() == orig.len(),
            v@ == orig.subrange(0, v.len() as int),
            forall|j: int| 0 <= j < r.len() ==> r@[j] == orig[orig.len() - 1 - j],
        decreases v.len(),
    {
        let x = v.pop().unwrap();
        r.push(x);
    }
    r
}

/// Executable fence-marker test.
fn starts_with_fence(s: &str) -> (r: bool)
    ensures
        r == is_fence(s@),
{
    s.unicode_len() >= 3 && s.get_char(0) == '`' && s.get_char(1) == '`' && s.get_char(2)
        == '`'
}

/// Drops the fence-marker lines and tags every other line with whether it
/// lies in a preformatted region and with its 1-based line number.
pub fn gather_preformatted(lines: Vec<String>) -> (r: Vec<(bool, NumString)>)
    ensures
        tagged_view(r@) == tagged(texts(lines@), lines.len() as int),
{
    let ghost ls = texts(lines@);
    let n = lines.len();
    let mut rev = reversed(lines);
    let mut out: Vec<(bool, NumString)> = Vec::new();
    let mut pref = false;
    let mut i: usize = 0;
    while i < n
        invariant
            n == ls.len(),
            i <= n,
            rev.len() == n - i,
            forall|j: int| 0 <= j < rev.len() ==> rev@[j]@ == ls[n - 1 - j],
            pref == fence_open(ls, i as int),
            tagged_view(out@) == tagged(ls, i as int),
        decreases n - i,
    {
        let s = rev.pop().unwrap();
        assert(s@ == ls[i as int]);
        if starts_with_fence(s.as_str()) {
            pref = !pref;
        } else {
            out.push((pref, NumString(s, i + 1)));
            assert(tagged_view(out@) =~= tagged(ls, i + 1));
        }
        i = i + 1;
    }
    out
}

/// Classifies the tagged lines: lines of a preformatted region are gathered
/// into one preformatted line, emitted before the first line after the run
/// or at the end; every other line is classified on its own.
pub fn decode_lines(tagged: Vec<(bool, NumString)>) -> (r: Vec<NumLine>)
    ensures
        num_lines_view(r@) == decode_all(tagged_view(tagged@)),
{
    let ghost ts = tagged_view(tagged@);
    let n = tagged.len();
    let mut rev = reversed(tagged);
    let mut out: Vec<NumLine> = Vec::new();
    let mut pref_acc: Vec<String> = Vec::new();
    let mut last: usize = 0;
    let mut i: usize = 0;
    while i < n
        invariant
            n == ts.len(),
            i <= n,
            rev.len() == n - i,
            forall|j: int| 0 <= j < rev.len() ==> (rev@[j].0, rev@[j].1@) == ts[n - 1 - j],
            texts(pref_acc@) == pre_buffer(ts, i as int),
            num_lines_view(out@) == decoded(ts, i as int),
            i > 0 ==> last as nat == ts[i - 1].1.1,
        decreases n - i,
    {
        let (pref, ns) = rev.pop().unwrap();
        let NumString(s, lineno) = ns;
        assert((pref, (s@, lineno as nat)) == ts[i as int]);
        if pref {
            pref_acc.push(s);
            assert(texts(pref_acc@) =~= pre_buffer(ts, i + 1));
        } else {
            if pref_acc.len() > 0 {
                let body = pref_acc;
                pref_acc = Vec::new();
                out.push(NumLine(Line::PreformattedL(body), lineno));
            }
            out.push(NumLine(line_of_string(s), lineno));
            assert(texts(pref_acc@) =~= pre_buffer(ts, i + 1));
        }
        assert(num_lines_view(out@) =~= decoded(ts, i + 1));
        last = lineno;
        i = i + 1;
    }
    if pref_acc.len() > 0 {
        out.push(NumLine(Line::PreformattedL(pref_acc), last));
    }
    assert(num_lines_view(out@) =~= decode_all(ts));
    out
}

/// Once a malformed line has been seen, it stays the first one.
pub proof fn lemma_first_malformed_stays(ds: Seq<NumLineModel>, i: int, n: int)
    requires
        0 <= i <= n,
        first_malformed(ds, i) is Some,
    ensures
        first_malformed(ds, n) == first_malformed(ds, i),
    decreases n - i,
{
    if i < n {
        lemma_first_malformed_stays(ds, i, n - 1);
    }
}

/// After the first malformed line, at `i`, nothing more is emitted.
pub proof fn lemma_emitted_stops(ds: Seq<NumLineModel>, i: int, n: int)
    requires
        0 <= i < n,
        first_malformed(ds, i) is None,
        ds[i].0 is Malformed,
    ensures
        emitted(ds, n) == blocks_upto(ds, i),
    decreases n - i,
{
    if n > i + 1 {
        lemma_emitted_stops(ds, i, n - 1);
        assert(first_malformed(ds, i + 1) is Some);
        lemma_first_malformed_stays(ds, i + 1, n - 1);
    }
}

/// Groups classified lines into blocks: consecutive links form one links
/// block, flushed by any other line; an empty flush emits nothing. The first
/// malformed line ends the work: the error holds the blocks finished before
/// it (pending links are not flushed) and its kind and line number.
pub fn blocks_of_lines(lines: Vec<NumLine>) -> (r: Result<Vec<Block>, (Vec<Block>, MalformedInput)>)
    ensures
        result_view(r) == aggregate(num_lines_view(lines@)),
{
    let ghost ds = num_lines_view(lines@);
    let n = lines.len();
    let mut rev = reversed(lines);
    let mut out: Vec<Block> = Vec::new();
    let mut links: Vec<Link> = Vec::new();
    let mut i: usize = 0;
    while i < n
        invariant
            ds == num_lines_view(lines@),
            n == ds.len(),
            i <= n,
            rev.len() == n - i,
            forall|j: int| 0 <= j < rev.len() ==> rev@[j]@ == ds[n - 1 - j],
            first_malformed(ds, i as int) is None,
            links_view(links@) == pending(ds, i as int),
            blocks_view(out@) == blocks_upto(ds, i as int),
        decreases n - i,
    {
        let NumLine(line, lineno) = rev.pop().unwrap();
        assert((line@, lineno as nat) == ds[i as int]);
        let payload: Option<Block> = match line {
            Line::MalformedL(m) => {
                proof {
                    assert(first_malformed(ds, i + 1) == Some((m, lineno as nat)));
                    lemma_first_malformed_stays(ds, i + 1, n as int);
                    lemma_emitted_stops(ds, i as int, n as int);
                }
                return Err((out, MalformedInput { kind: m, line: lineno }));
            },
            Line::LinkL(link) => {
                links.push(link);
                assert(links_view(links@) =~= pending(ds, i + 1));
                assert(blocks_view(out@) =~= blocks_upto(ds, i + 1));
                i = i + 1;
                continue;
            },
            Line::BlankL => None,
            Line::ParaL(p) => Some(Block::ParaB(p)),
            Line::HeadingL(h) => Some(Block::HeadingB(h)),
            Line::PreformattedL(p) => Some(Block::PreformattedB(p)),
        };
        if links.len() > 0 {
            let group = links;
            links = Vec::new();
            out.push(Block::LinksB(group));
        }
        if let Some(b) = payload {
            out.push(b);
        }
        assert(links_view(links@) =~= pending(ds, i + 1));
        assert(blocks_view(out@) =~= blocks_upto(ds, i + 1));
        i = i + 1;
    }
    if links.len() > 0 {
        out.push(Block::LinksB(links));
    }
    assert(blocks_view(out@) =~= flush(blocks_upto(ds, n as int), pending(ds, n as int)));
    Ok(out)
}

/// The blocks of a document given as its raw lines or, where a line is
/// malformed, the blocks finished before the first such line and that line.
pub open spec fn document_blocks(ls: Seq<Seq<char>>) -> Result<Seq<BlockModel>, AbortModel> {
    aggregate(decode_all(tagged(ls, ls.len() as int)))
}

/// The Markdown text of a document given as its raw lines or, where a line
/// is malformed, the text of the blocks finished before the first such line
/// and that line.
pub open spec fn document_text(ls: Seq<Seq<char>>) -> Result<Seq<char>, (Seq<char>, (Malformed, nat))> {
    match document_blocks(ls) {
        Ok(bs) => Ok(blocks_text(bs)),
        Err((bs, e)) => Err((blocks_text(bs), e)),
    }
}

/// Runs fence tracking, classification and aggregation over a document.
pub fn parse_document(lines: Vec<String>) -> (r: Result<Vec<Block>, (Vec<Block>, MalformedInput)>)
    ensures
        result_view(r) == document_blocks(texts(lines@)),
{
    let tagged = gather_preformatted(lines);
    let decoded = decode_lines(tagged);
    blocks_of_lines(decoded)
}

/// Converts a Gemtext document, given as its lines, into Markdown text. On a
/// malformed line the error holds the text of the blocks finished before it.
pub fn convert(lines: Vec<String>) -> (r: Result<String, (String, MalformedInput)>)
    ensures
        match r {
            Ok(t) => document_text(texts(lines@)) == Ok::<Seq<char>, (Seq<char>, (Malformed, nat))>(
                t@,
            ),
            Err((t, e)) => document_text(texts(lines@)) == Err::<
                Seq<char>,
                (Seq<char>, (Malformed, nat)),
            >((t@, (e.kind, e.line as nat))),
        },
{
    match parse_document(lines) {
        Ok(blocks) => Ok(render_blocks(&blocks)),
        Err((blocks, e)) => Err((render_blocks(&blocks), e)),
    }
}

} // verus!
