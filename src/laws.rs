//! General laws of the conversion, stated over the models and proved.

use vstd::prelude::*;
use crate::classify::{classify, level_of};
use crate::model::{BlockModel, LineModel, LinkModel, level_count};
use crate::model::Malformed;
use crate::pipeline::{
    AbortModel, NumLineModel, TaggedModel, aggregate, blocks_upto, decode_all, decoded, document_blocks,
    fence_open, first_malformed, flush, is_fence, lemma_emitted_stops,
    lemma_first_malformed_stays, pending,
    pre_buffer, tagged,
};
use crate::render::{blocks_text, hashes, heading_text, link_text};
use crate::text::{is_ws, lemma_find_char_at, lemma_run_end_at, lemma_trimmed_unchanged};

verus! {

proof fn lemma_hashes(n: nat)
    ensures
        hashes(n).len() == n,
        forall|j: int| 0 <= j < n ==> hashes(n)[j] == '#',
    decreases n,
{
    if n > 0 {
        lemma_hashes((n - 1) as nat);
    }
}

/// A well-formed heading line, `n` (one to three) `#` characters, one space
/// and a text that does not end in whitespace, is classified as a heading of
/// level `n` with exactly that text, and rendering the heading gives back
/// the line.
pub proof fn law_heading_line(n: nat, t: Seq<char>)
    requires
        1 <= n <= 3,
        t.len() > 0,
        !is_ws(t.last()),
    ensures
        level_count(level_of(n as int)) == n,
        classify(hashes(n) + seq![' '] + t) == LineModel::Heading((level_of(n as int), t)),
        heading_text((level_of(n as int), t)) == hashes(n) + seq![' '] + t,
{
    let line = hashes(n) + seq![' '] + t;
    lemma_hashes(n);
    assert(line[0] == '#');
    assert(line.last() == t.last());
    lemma_trimmed_unchanged(line);
    assert(line[n as int] == ' ');
    lemma_run_end_at(line, '#', 0, n as int);
    assert(line.subrange(n as int + 1, line.len() as int) =~= t);
}

/// The link line `=> url` is a link without caption and `=> url caption` a
/// link with that caption, for every non-empty url without spaces; they
/// render as `* [url](url)` and `* [caption](url)`, each with a newline.
pub proof fn law_link_lines(url: Seq<char>, caption: Seq<char>)
    requires
        url.len() > 0,
        forall|j: int| 0 <= j < url.len() ==> url[j] != ' ',
    ensures
        classify(seq!['=', '>', ' '] + url) == LineModel::Link((url, None)),
        classify(seq!['=', '>', ' '] + url + seq![' '] + caption) == LineModel::Link(
            (url, Some(caption)),
        ),
        link_text((url, None)) == seq!['*', ' ', '['] + url + seq![']', '('] + url + seq![
            ')',
            '\n',
        ],
        link_text((url, Some(caption))) == seq!['*', ' ', '['] + caption + seq![']', '('] + url
            + seq![')', '\n'],
{
    let a = seq!['=', '>', ' '] + url;
    let ra = a.subrange(3, a.len() as int);
    assert(ra =~= url);
    lemma_find_char_at(url, ' ', 0, url.len() as int);
    let b = seq!['=', '>', ' '] + url + seq![' '] + caption;
    let rb = b.subrange(3, b.len() as int);
    assert(rb =~= url + seq![' '] + caption);
    lemma_find_char_at(rb, ' ', 0, url.len() as int);
    assert(rb.subrange(0, url.len() as int) =~= url);
    assert(rb.subrange(url.len() as int + 1, rb.len() as int) =~= caption);
}

/// Rendering keeps no state between blocks: a sequence of blocks renders as
/// the text of its first part followed by the text of the rest, so the same
/// blocks always render to the same text, whole or piece by piece.
pub proof fn law_render_concat(a: Seq<BlockModel>, b: Seq<BlockModel>)
    ensures
        blocks_text(a + b) == blocks_text(a) + blocks_text(b),
    decreases b.len(),
{
    if b.len() == 0 {
        assert(a + b =~= a);
        assert(blocks_text(a) + blocks_text(b) =~= blocks_text(a));
    } else {
        assert((a + b).drop_last() =~= a + b.drop_last());
        assert((a + b).last() == b.last());
        law_render_concat(a, b.drop_last());
        assert(blocks_text(a + b) =~= blocks_text(a) + blocks_text(b));
    }
}

/// Consecutive link lines numbered from `first`.
pub open spec fn link_run(ls: Seq<LinkModel>, first: nat) -> Seq<NumLineModel> {
    Seq::new(ls.len(), |i: int| (LineModel::Link(ls[i]), (first + i) as nat))
}

/// The aggregation of the first `n` lines depends on those lines alone.
proof fn lemma_aggregate_prefix(ds1: Seq<NumLineModel>, ds2: Seq<NumLineModel>, n: int)
    requires
        0 <= n <= ds1.len(),
        n <= ds2.len(),
        forall|j: int| 0 <= j < n ==> ds1[j] == ds2[j],
    ensures
        pending(ds1, n) == pending(ds2, n),
        blocks_upto(ds1, n) == blocks_upto(ds2, n),
        first_malformed(ds1, n) == first_malformed(ds2, n),
    decreases n,
{
    if n > 0 {
        lemma_aggregate_prefix(ds1, ds2, n - 1);
    }
}

/// Link lines only extend the pending links.
proof fn lemma_link_run(ds: Seq<NumLineModel>, s: int, ls: Seq<LinkModel>, m: int)
    requires
        0 <= s,
        0 <= m <= ls.len(),
        s + m <= ds.len(),
        forall|j: int| 0 <= j < m ==> ds[s + j].0 == LineModel::Link(ls[j]),
    ensures
        pending(ds, s + m) == pending(ds, s) + ls.subrange(0, m),
        blocks_upto(ds, s + m) == blocks_upto(ds, s),
        first_malformed(ds, s + m) == first_malformed(ds, s),
    decreases m,
{
    if m == 0 {
        assert(pending(ds, s) + ls.subrange(0, 0) =~= pending(ds, s));
    } else {
        lemma_link_run(ds, s, ls, m - 1);
        assert(ds[s + m - 1].0 == LineModel::Link(ls[m - 1]));
        assert(pending(ds, s) + ls.subrange(0, m) =~= (pending(ds, s) + ls.subrange(0, m - 1)).push(
            ls[m - 1],
        ));
    }
}

/// A maximal run of link lines, one that follows no pending link and is
/// followed by a line that is neither a link nor malformed, adds exactly one
/// links block holding the run's links in order, before the block of the
/// line that ends it.
pub proof fn law_links_grouped(
    a: Seq<NumLineModel>,
    ls: Seq<LinkModel>,
    first: nat,
    x: NumLineModel,
)
    requires
        pending(a, a.len() as int).len() == 0,
        ls.len() > 0,
        !(x.0 is Link),
        !(x.0 is Malformed),
    ensures
        blocks_upto(a + link_run(ls, first) + seq![x], a.len() + ls.len() + 1int) == blocks_upto(
            a,
            a.len() as int,
        ) + seq![BlockModel::Links(ls)] + blocks_upto(seq![x], 1),
{
    let ds = a + link_run(ls, first) + seq![x];
    let n = a.len() as int;
    lemma_aggregate_prefix(ds, a, n);
    lemma_link_run(ds, n, ls, ls.len() as int);
    assert(ls.subrange(0, ls.len() as int) =~= ls);
    assert(pending(ds, n) + ls =~= ls);
    assert(ds[n + ls.len()] == x);
    let e = Seq::<BlockModel>::empty();
    let one = seq![x];
    assert(pending(one, 0) =~= Seq::<LinkModel>::empty());
    assert(blocks_upto(one, 0) =~= e);
    assert(flush(e, Seq::<LinkModel>::empty()) == e);
    assert(blocks_upto(ds, ds.len() as int) =~= blocks_upto(a, n) + seq![BlockModel::Links(ls)]
        + blocks_upto(one, 1));
}

/// A run of link lines at the end of the input becomes one final links
/// block, in order.
pub proof fn law_links_flushed_at_end(a: Seq<NumLineModel>, ls: Seq<LinkModel>, first: nat)
    requires
        pending(a, a.len() as int).len() == 0,
        first_malformed(a, a.len() as int) is None,
        ls.len() > 0,
    ensures
        aggregate(a + link_run(ls, first)) == Ok::<Seq<BlockModel>, AbortModel>(
            blocks_upto(a, a.len() as int).push(BlockModel::Links(ls)),
        ),
{
    let ds = a + link_run(ls, first);
    let n = a.len() as int;
    lemma_aggregate_prefix(ds, a, n);
    lemma_link_run(ds, n, ls, ls.len() as int);
    assert(ls.subrange(0, ls.len() as int) =~= ls);
    assert(pending(ds, n) + ls =~= ls);
}

/// A blank line between two runs of link lines splits them into two links
/// blocks.
pub proof fn law_blank_splits_links(
    ls1: Seq<LinkModel>,
    f1: nat,
    k: nat,
    ls2: Seq<LinkModel>,
    f2: nat,
)
    requires
        ls1.len() > 0,
        ls2.len() > 0,
    ensures
        aggregate(link_run(ls1, f1) + seq![(LineModel::Blank, k)] + link_run(ls2, f2)) == Ok::<
            Seq<BlockModel>,
            AbortModel,
        >(seq![BlockModel::Links(ls1), BlockModel::Links(ls2)]),
{
    let a = link_run(ls1, f1) + seq![(LineModel::Blank, k)];
    let ds = a + link_run(ls2, f2);
    let n1 = ls1.len() as int;
    lemma_link_run(a, 0, ls1, n1);
    assert(pending(a, 0) + ls1.subrange(0, n1) =~= ls1);
    assert(blocks_upto(a, 0) =~= Seq::<BlockModel>::empty());
    assert(a[n1].0 == LineModel::Blank);
    assert(pending(a, a.len() as int) =~= Seq::<LinkModel>::empty());
    assert(blocks_upto(a, a.len() as int) =~= seq![BlockModel::Links(ls1)]);
    law_links_flushed_at_end(a, ls2, f2);
    assert(seq![BlockModel::Links(ls1)].push(BlockModel::Links(ls2)) =~= seq![
        BlockModel::Links(ls1),
        BlockModel::Links(ls2),
    ]);
}

/// Tagging more lines only appends to the tagged sequence.
proof fn lemma_tagged_prefix(ls: Seq<Seq<char>>, i: int, n: int)
    requires
        0 <= i <= n <= ls.len(),
    ensures
        tagged(ls, i).len() <= tagged(ls, n).len(),
        forall|k: int| 0 <= k < tagged(ls, i).len() ==> tagged(ls, n)[k] == tagged(ls, i)[k],
    decreases n - i,
{
    if i < n {
        lemma_tagged_prefix(ls, i, n - 1);
    }
}

/// Each tagged line is a line of the input that is no fence marker, with
/// the region flag in force there and its 1-based number.
proof fn lemma_tagged_elements(ls: Seq<Seq<char>>, i: int)
    requires
        0 <= i <= ls.len(),
    ensures
        forall|k: int|
            #![trigger tagged(ls, i)[k]]
            0 <= k < tagged(ls, i).len() ==> {
                let e = tagged(ls, i)[k];
                let j = e.1.1 - 1;
                &&& 0 <= j < i
                &&& !is_fence(ls[j])
                &&& e.0 == fence_open(ls, j)
                &&& e.1.0 == ls[j]
            },
    decreases i,
{
    if i > 0 {
        lemma_tagged_elements(ls, i - 1);
        let prev = tagged(ls, i - 1);
        assert forall|k: int| 0 <= k < tagged(ls, i).len() implies {
            let e = #[trigger] tagged(ls, i)[k];
            let j = e.1.1 - 1;
            &&& 0 <= j < i
            &&& !is_fence(ls[j])
            &&& e.0 == fence_open(ls, j)
            &&& e.1.0 == ls[j]
        } by {
            if k < prev.len() {
                assert(tagged(ls, i)[k] == prev[k]);
            }
        }
    }
}

/// Decoding more tagged lines only appends to the decoded sequence.
proof fn lemma_decoded_prefix(ts: Seq<TaggedModel>, m: int, n: int)
    requires
        0 <= m <= n <= ts.len(),
    ensures
        decoded(ts, m).len() <= decoded(ts, n).len(),
        forall|k: int| 0 <= k < decoded(ts, m).len() ==> decoded(ts, n)[k] == decoded(ts, m)[k],
    decreases n - m,
{
    if m < n {
        lemma_decoded_prefix(ts, m, n - 1);
    }
}

/// When no tagged line outside a region is malformed, no decoded line is.
proof fn lemma_decoded_not_malformed(ts: Seq<TaggedModel>, m: int)
    requires
        0 <= m <= ts.len(),
        forall|q: int| 0 <= q < m && !ts[q].0 ==> !(crate::classify::classify(ts[q].1.0) is Malformed),
    ensures
        forall|k: int| 0 <= k < decoded(ts, m).len() ==> !(decoded(ts, m)[k].0 is Malformed),
    decreases m,
{
    if m > 0 {
        lemma_decoded_not_malformed(ts, m - 1);
    }
}

/// A prefix without malformed lines has no first malformed line.
proof fn lemma_no_malformed(ds: Seq<NumLineModel>, n: int)
    requires
        0 <= n <= ds.len(),
        forall|k: int| 0 <= k < n ==> !(ds[k].0 is Malformed),
    ensures
        first_malformed(ds, n) is None,
    decreases n,
{
    if n > 0 {
        lemma_no_malformed(ds, n - 1);
    }
}

/// The first malformed line outside preformatted regions stops the
/// conversion, which reports its kind and its 1-based line number; no block
/// after it is emitted (see `law_blocks_before_malformed`).
pub proof fn law_first_malformed_reported(ls: Seq<Seq<char>>, i: int, m: Malformed)
    requires
        0 <= i < ls.len(),
        !is_fence(ls[i]),
        !fence_open(ls, i),
        classify(ls[i]) == LineModel::Malformed(m),
        forall|j: int|
            0 <= j < i && !is_fence(ls[j]) && !fence_open(ls, j) ==> !(classify(ls[j]) is Malformed),
    ensures
        document_blocks(ls) is Err,
        document_blocks(ls)->Err_0.1 == (m, (i + 1) as nat),
{
    let n = ls.len() as int;
    let t = tagged(ls, n);
    let p = tagged(ls, i).len() as int;
    lemma_tagged_prefix(ls, i, i + 1);
    lemma_tagged_prefix(ls, i + 1, n);
    lemma_tagged_prefix(ls, i, n);
    lemma_tagged_elements(ls, i);
    assert(t[p] == (false, (ls[i], (i + 1) as nat)));
    assert forall|q: int| 0 <= q < p && !t[q].0 implies !(classify(t[q].1.0) is Malformed) by {
        assert(t[q] == tagged(ls, i)[q]);
    }
    lemma_decoded_not_malformed(t, p);
    lemma_decoded_prefix(t, p + 1, t.len() as int);
    let d0 = decoded(t, p);
    let d1 = decoded(t, p + 1);
    let dd = decode_all(t);
    let q0 = d1.len() - 1;
    assert(d1.last() == (LineModel::Malformed(m), (i + 1) as nat));
    assert forall|k: int| 0 <= k < q0 implies !(dd[k].0 is Malformed) by {
        assert(dd[k] == d1[k]);
        if k < d0.len() {
            assert(d1[k] == d0[k]);
        }
    }
    lemma_no_malformed(dd, q0);
    assert(dd[q0] == d1[q0]);
    assert(first_malformed(dd, q0 + 1) == Some((m, (i + 1) as nat)));
    lemma_first_malformed_stays(dd, q0 + 1, dd.len() as int);
}

/// Where the first malformed line of a classified sequence stands at `p`,
/// aggregation stops there: it hands back exactly the blocks finished before
/// that line, in order, without flushing the links still pending there, and
/// the line's kind and number.
pub proof fn law_blocks_before_malformed(ds: Seq<NumLineModel>, p: int, m: Malformed)
    requires
        0 <= p < ds.len(),
        forall|j: int| 0 <= j < p ==> !(ds[j].0 is Malformed),
        ds[p].0 == LineModel::Malformed(m),
    ensures
        aggregate(ds) == Err::<Seq<BlockModel>, AbortModel>((blocks_upto(ds, p), (m, ds[p].1))),
{
    lemma_no_malformed(ds, p);
    assert(first_malformed(ds, p + 1) == Some((m, ds[p].1)));
    lemma_first_malformed_stays(ds, p + 1, ds.len() as int);
    lemma_emitted_stops(ds, p, ds.len() as int);
}

/// Number of fence markers among the first `n` lines.
pub open spec fn fence_count(ls: Seq<Seq<char>>, n: int) -> nat
    decreases n,
{
    if n <= 0 {
        0
    } else if is_fence(ls[n - 1]) {
        fence_count(ls, n - 1) + 1
    } else {
        fence_count(ls, n - 1)
    }
}

/// A region is open exactly after an odd number of fence markers.
proof fn lemma_fence_open_parity(ls: Seq<Seq<char>>, n: int)
    requires
        0 <= n <= ls.len(),
    ensures
        fence_open(ls, n) == (fence_count(ls, n) % 2 == 1),
    decreases n,
{
    if n > 0 {
        lemma_fence_open_parity(ls, n - 1);
    }
}

/// Lines that are no fence markers leave the region flag as it is.
proof fn lemma_no_fence_between(ls: Seq<Seq<char>>, j: int, n: int)
    requires
        0 <= j <= n <= ls.len(),
        forall|q: int| j <= q < n ==> !is_fence(ls[q]),
    ensures
        fence_open(ls, j) == fence_open(ls, n),
    decreases n - j,
{
    if j < n {
        lemma_no_fence_between(ls, j, n - 1);
    }
}

/// The preformatted buffer after `n` tagged lines depends on those alone.
proof fn lemma_pre_buffer_prefix(ts1: Seq<TaggedModel>, ts2: Seq<TaggedModel>, n: int)
    requires
        0 <= n <= ts1.len(),
        n <= ts2.len(),
        forall|k: int| 0 <= k < n ==> ts1[k] == ts2[k],
    ensures
        pre_buffer(ts1, n) == pre_buffer(ts2, n),
    decreases n,
{
    if n > 0 {
        lemma_pre_buffer_prefix(ts1, ts2, n - 1);
    }
}

/// Inside a region opened at line `f` and never closed, the buffer holds
/// every line after `f` so far.
proof fn lemma_open_region_buffer(ls: Seq<Seq<char>>, f: int, j: int)
    requires
        0 <= f < j <= ls.len(),
        is_fence(ls[f]),
        forall|q: int| f < q < ls.len() ==> !is_fence(ls[q]),
        fence_open(ls, ls.len() as int),
        pre_buffer(tagged(ls, f), tagged(ls, f).len() as int).len() == 0,
    ensures
        pre_buffer(tagged(ls, j), tagged(ls, j).len() as int) == ls.subrange(f + 1, j),
    decreases j - f,
{
    if j == f + 1 {
        assert(tagged(ls, j) == tagged(ls, f));
        assert(ls.subrange(f + 1, j) =~= Seq::<Seq<char>>::empty());
    } else {
        lemma_open_region_buffer(ls, f, j - 1);
        lemma_no_fence_between(ls, j - 1, ls.len() as int);
        let prev = tagged(ls, j - 1);
        let cur = tagged(ls, j);
        assert(cur == prev.push((true, (ls[j - 1], j as nat))));
        lemma_pre_buffer_prefix(cur, prev, prev.len() as int);
        assert(ls.subrange(f + 1, j) =~= ls.subrange(f + 1, j - 1).push(ls[j - 1]));
    }
}

/// With an odd number of fence markers the last region is never closed: it
/// still ends the document as one preformatted line, and one final
/// preformatted block, holding every line after the last marker. This holds
/// where such lines exist and no lines of an earlier region are still
/// buffered when the last marker comes (the lines of a region closed by the
/// marker just before it would join the same block).
pub proof fn law_unclosed_region(ls: Seq<Seq<char>>, f: int)
    requires
        0 <= f < ls.len() - 1,
        is_fence(ls[f]),
        forall|q: int| f < q < ls.len() ==> !is_fence(ls[q]),
        fence_count(ls, ls.len() as int) % 2 == 1,
        pre_buffer(tagged(ls, f), tagged(ls, f).len() as int).len() == 0,
    ensures
        decode_all(tagged(ls, ls.len() as int)).last() == (
            LineModel::Preformatted(ls.subrange(f + 1, ls.len() as int)),
            ls.len() as nat,
        ),
        document_blocks(ls) is Ok ==> document_blocks(ls)->Ok_0.last() == BlockModel::Preformatted(
            ls.subrange(f + 1, ls.len() as int),
        ),
{
    let n = ls.len() as int;
    lemma_fence_open_parity(ls, n);
    lemma_no_fence_between(ls, n - 1, n);
    lemma_open_region_buffer(ls, f, n);
    let t = tagged(ls, n);
    assert(t.last() == (true, (ls[n - 1], n as nat)));
    let d = decode_all(t);
    assert(d.last().0 is Preformatted);
    assert(pending(d, d.len() as int) =~= Seq::<LinkModel>::empty());
}

} // verus!
