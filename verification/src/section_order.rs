//! The order of an answer's sections does not matter: an answer made of
//! distinctly named sections, each starting on its own line, parses the same
//! whatever order its sections come in.
use vstd::prelude::*;
use vstd::utf8::decode_utf8;
use crate::process_article::{
    content_end, fact_items, find_byte, header_at, header_spans_from, header_spans_usize,
    keyword_items, llm_sections, section_content, section_name, sections_upto, with_defaults,
};
use crate::text::trim;

verus! {

/// The bytes of one section: `[`, its name, `]`, its content.
pub open spec fn block_bytes(bl: (Seq<u8>, Seq<u8>)) -> Seq<u8> {
    seq![91u8] + bl.0 + seq![93u8] + bl.1
}

/// The bytes of sections one after another.
pub open spec fn join_blocks(blocks: Seq<(Seq<u8>, Seq<u8>)>) -> Seq<u8>
    decreases blocks.len(),
{
    if blocks.len() == 0 {
        seq![]
    } else {
        join_blocks(blocks.drop_last()) + block_bytes(blocks.last())
    }
}

/// Where section `k` begins.
pub open spec fn block_offset(blocks: Seq<(Seq<u8>, Seq<u8>)>, k: int) -> int {
    join_blocks(blocks.take(k)).len() as int
}

/// A section with a non-empty name without `]`, and content that ends a line
/// and in which no later line begins with `[`.
pub open spec fn well_formed_block(bl: (Seq<u8>, Seq<u8>)) -> bool {
    &&& bl.0.len() > 0
    &&& forall|t: int| 0 <= t < bl.0.len() ==> #[trigger] bl.0[t] != 93u8
    &&& bl.1.len() > 0
    &&& bl.1.last() == 10u8
    &&& forall|t: int| 0 <= t < bl.1.len() - 1 && #[trigger] bl.1[t] == 10u8 ==> bl.1[t + 1] != 91u8
}

/// The name of a section.
pub open spec fn block_name(bl: (Seq<u8>, Seq<u8>)) -> Seq<char> {
    decode_utf8(bl.0)
}

/// The trimmed content of a section.
pub open spec fn block_content(bl: (Seq<u8>, Seq<u8>)) -> Seq<char> {
    trim(decode_utf8(bl.1))
}

/// The header spans of the sections from `k` on.
pub open spec fn block_spans(blocks: Seq<(Seq<u8>, Seq<u8>)>, k: int) -> Seq<(int, int)> {
    Seq::new(
        (blocks.len() - k) as nat,
        |j: int| (block_offset(blocks, k + j), block_offset(blocks, k + j) + blocks[k + j].0.len() + 2),
    )
}

/// The summary, facts and keywords after the first `n` sections.
pub open spec fn block_fold(blocks: Seq<(Seq<u8>, Seq<u8>)>, n: int) -> (
    Seq<char>,
    Seq<Seq<char>>,
    Seq<Seq<char>>,
)
    decreases n,
{
    if n <= 0 {
        (seq![], seq![], seq![])
    } else {
        let prev = block_fold(blocks, n - 1);
        let name = block_name(blocks[n - 1]);
        let content = block_content(blocks[n - 1]);
        if name == "SUMMARY"@ {
            (content, prev.1, prev.2)
        } else if name == "FACTS"@ {
            (prev.0, fact_items(content), prev.2)
        } else if name == "KEYWORDS"@ {
            (prev.0, prev.1, keyword_items(content))
        } else {
            prev
        }
    }
}

/// Some section among the first `n` is named `x`.
pub open spec fn has_named(blocks: Seq<(Seq<u8>, Seq<u8>)>, x: Seq<char>, n: int) -> bool {
    exists|i: int| 0 <= i < n && i < blocks.len() && block_name(#[trigger] blocks[i]) == x
}

/// The content of the section named `x`.
pub open spec fn named_content(blocks: Seq<(Seq<u8>, Seq<u8>)>, x: Seq<char>) -> Seq<char> {
    block_content(blocks[choose|i: int| 0 <= i < blocks.len() && block_name(#[trigger] blocks[i]) == x])
}

/// What the sections give, read by name.
pub open spec fn blocks_result(blocks: Seq<(Seq<u8>, Seq<u8>)>) -> (
    Seq<char>,
    Seq<Seq<char>>,
    Seq<Seq<char>>,
) {
    let n = blocks.len() as int;
    with_defaults(
        (
            if has_named(blocks, "SUMMARY"@, n) {
                named_content(blocks, "SUMMARY"@)
            } else {
                seq![]
            },
            if has_named(blocks, "FACTS"@, n) {
                fact_items(named_content(blocks, "FACTS"@))
            } else {
                seq![]
            },
            if has_named(blocks, "KEYWORDS"@, n) {
                keyword_items(named_content(blocks, "KEYWORDS"@))
            } else {
                seq![]
            },
        ),
    )
}

/// The sections rearranged: position `i` holds section `perm[i]`.
pub open spec fn permute(blocks: Seq<(Seq<u8>, Seq<u8>)>, perm: Seq<int>) -> Seq<(Seq<u8>, Seq<u8>)> {
    Seq::new(perm.len(), |i: int| blocks[perm[i]])
}

/// `perm` is a permutation of `0..n`.
pub open spec fn is_permutation(perm: Seq<int>, n: int) -> bool {
    &&& perm.len() == n
    &&& forall|i: int| 0 <= i < n ==> 0 <= #[trigger] perm[i] < n
    &&& forall|i: int, j: int| 0 <= i < n && 0 <= j < n && i != j ==> #[trigger] perm[i] != #[trigger] perm[j]
    &&& forall|j: int| 0 <= j < n ==> #[trigger] occurs_in(perm, j)
}

/// `j` is one of the values of `perm`.
pub open spec fn occurs_in(perm: Seq<int>, j: int) -> bool {
    exists|i: int| 0 <= i < perm.len() && #[trigger] perm[i] == j
}

// ---------------------------------------------------------------------------
// Bytes of joined sections
// ---------------------------------------------------------------------------

proof fn lemma_join_take_step(blocks: Seq<(Seq<u8>, Seq<u8>)>, m: int)
    requires
        0 <= m < blocks.len(),
    ensures
        join_blocks(blocks.take(m + 1)) == join_blocks(blocks.take(m)) + block_bytes(blocks[m]),
{
    assert(blocks.take(m + 1).drop_last() =~= blocks.take(m));
}

/// The bytes of the first `m` sections begin the bytes of all of them.
proof fn lemma_join_prefix(blocks: Seq<(Seq<u8>, Seq<u8>)>, m: int)
    requires
        0 <= m <= blocks.len(),
    ensures
        join_blocks(blocks.take(m)).len() <= join_blocks(blocks).len(),
        forall|t: int|
            0 <= t < join_blocks(blocks.take(m)).len() ==> #[trigger] join_blocks(blocks)[t]
                == join_blocks(blocks.take(m))[t],
    decreases blocks.len() - m,
{
    if m == blocks.len() {
        assert(blocks.take(m) =~= blocks);
    } else {
        lemma_join_prefix(blocks, m + 1);
        lemma_join_take_step(blocks, m);
    }
}

/// The bytes at and around section `k`.
proof fn lemma_block_bytes_at(blocks: Seq<(Seq<u8>, Seq<u8>)>, k: int)
    requires
        0 <= k < blocks.len(),
    ensures
        block_offset(blocks, k + 1) == block_offset(blocks, k) + blocks[k].0.len() + 2
            + blocks[k].1.len(),
        block_offset(blocks, k + 1) <= join_blocks(blocks).len(),
        forall|t: int|
            0 <= t < block_bytes(blocks[k]).len() ==> join_blocks(blocks)[block_offset(blocks, k)
                + t] == #[trigger] block_bytes(blocks[k])[t],
{
    lemma_join_prefix(blocks, k + 1);
    lemma_join_take_step(blocks, k);
    let o = block_offset(blocks, k);
    assert forall|t: int| 0 <= t < block_bytes(blocks[k]).len() implies join_blocks(blocks)[o + t]
        == #[trigger] block_bytes(blocks[k])[t] by {
        assert(join_blocks(blocks.take(k + 1))[o + t] == block_bytes(blocks[k])[t]);
    }
}

proof fn lemma_offsets_bounds(blocks: Seq<(Seq<u8>, Seq<u8>)>)
    ensures
        block_offset(blocks, 0) == 0,
        block_offset(blocks, blocks.len() as int) == join_blocks(blocks).len(),
{
    assert(blocks.take(0) =~= Seq::<(Seq<u8>, Seq<u8>)>::empty());
    assert(blocks.take(blocks.len() as int) =~= blocks);
}

// ---------------------------------------------------------------------------
// Headers of joined sections
// ---------------------------------------------------------------------------

proof fn lemma_find_byte_at(b: Seq<u8>, from: int, q: int, x: u8)
    requires
        0 <= from <= q < b.len(),
        b[q] == x,
        forall|t: int| from <= t < q ==> b[t] != x,
    ensures
        find_byte(b, from, x) == q,
    decreases q - from,
{
    if from < q {
        lemma_find_byte_at(b, from + 1, q, x);
    }
}

proof fn lemma_no_headers_between(b: Seq<u8>, a: int, c: int)
    requires
        0 <= a <= c <= b.len(),
        forall|p: int| a <= p < c ==> !#[trigger] header_at(b, p),
    ensures
        header_spans_from(b, a) == header_spans_from(b, c),
    decreases c - a,
{
    if a < c {
        assert(!header_at(b, a));
        lemma_no_headers_between(b, a + 1, c);
    }
}

/// The headers found from section `k` on are exactly the sections' headers.
proof fn lemma_block_headers(blocks: Seq<(Seq<u8>, Seq<u8>)>, k: int)
    requires
        0 <= k <= blocks.len(),
        forall|i: int| 0 <= i < blocks.len() ==> well_formed_block(#[trigger] blocks[i]),
    ensures
        header_spans_from(join_blocks(blocks), block_offset(blocks, k)) == block_spans(blocks, k),
    decreases blocks.len() - k,
{
    let b = join_blocks(blocks);
    lemma_offsets_bounds(blocks);
    if k == blocks.len() {
        assert(block_spans(blocks, k) =~= Seq::<(int, int)>::empty());
    } else {
        lemma_block_headers(blocks, k + 1);
        lemma_block_bytes_at(blocks, k);
        let bl = blocks[k];
        assert(well_formed_block(bl));
        let o = block_offset(blocks, k);
        let nl = bl.0.len() as int;
        let e = o + nl + 2;
        let o2 = block_offset(blocks, k + 1);
        assert(b[o] == 91u8) by {
            assert(block_bytes(bl)[0] == 91u8);
        }
        assert forall|t: int| o + 1 <= t < o + 1 + nl implies b[t] != 93u8 by {
            assert(block_bytes(bl)[t - o] == bl.0[t - o - 1]);
        }
        assert(b[o + 1 + nl] == 93u8) by {
            assert(block_bytes(bl)[1 + nl] == 93u8);
        }
        lemma_find_byte_at(b, o + 1, o + 1 + nl, 93u8);
        assert(at_line_start_here(b, o)) by {
            if k > 0 {
                lemma_block_bytes_at(blocks, k - 1);
                let pb = blocks[k - 1];
                assert(well_formed_block(pb));
                let po = block_offset(blocks, k - 1);
                let t = block_bytes(pb).len() - 1;
                assert(b[po + t] == block_bytes(pb)[t]);
                assert(block_bytes(pb)[t] == pb.1.last());
            }
        }
        assert(header_at(b, o));
        assert forall|p: int| e <= p < o2 implies !#[trigger] header_at(b, p) by {
            if header_at(b, p) {
                assert(b[p] == block_bytes(bl)[p - o]);
                if p == e {
                    assert(b[p - 1] == block_bytes(bl)[nl + 1]);
                } else {
                    let t = p - 1 - e;
                    assert(b[p - 1] == block_bytes(bl)[p - 1 - o]);
                    assert(block_bytes(bl)[p - 1 - o] == bl.1[t]);
                    assert(block_bytes(bl)[p - o] == bl.1[t + 1]);
                }
            }
        }
        lemma_no_headers_between(b, e, o2);
        assert(header_spans_from(b, o) == seq![(o, e)] + header_spans_from(b, e));
        assert(block_spans(blocks, k) =~= seq![(o, e)] + block_spans(blocks, k + 1));
    }
}

/// `o` starts a line of `b`.
spec fn at_line_start_here(b: Seq<u8>, o: int) -> bool {
    o == 0 || (0 < o <= b.len() && b[o - 1] == 10u8)
}

/// Section `k`'s header span, name and content as the parser reads them.
proof fn lemma_block_section(blocks: Seq<(Seq<u8>, Seq<u8>)>, k: int)
    requires
        0 <= k < blocks.len(),
        forall|i: int| 0 <= i < blocks.len() ==> well_formed_block(#[trigger] blocks[i]),
        join_blocks(blocks).len() <= usize::MAX,
    ensures
        ({
            let b = join_blocks(blocks);
            let hs = header_spans_usize(b);
            &&& hs.len() == blocks.len()
            &&& section_name(b, hs, k) == block_name(blocks[k])
            &&& section_content(b, hs, k) == block_content(blocks[k])
        }),
{
    let b = join_blocks(blocks);
    let n = blocks.len() as int;
    lemma_offsets_bounds(blocks);
    lemma_block_headers(blocks, 0);
    let hs = header_spans_usize(b);
    let bs = block_spans(blocks, 0);
    assert(hs.len() == n);
    lemma_block_bytes_at(blocks, k);
    let bl = blocks[k];
    let o = block_offset(blocks, k);
    let nl = bl.0.len() as int;
    let o2 = block_offset(blocks, k + 1);
    lemma_offset_nonneg(blocks, k);
    assert(hs[k] == (bs[k].0 as usize, bs[k].1 as usize));
    assert(bs[k] == (o, o + nl + 2));
    assert(hs[k].0 as int == o);
    assert(hs[k].1 as int == o + nl + 2);
    assert(b.subrange(o + 1, o + 1 + nl) =~= bl.0) by {
        assert forall|t: int| 0 <= t < nl implies b.subrange(o + 1, o + 1 + nl)[t] == bl.0[t] by {
            assert(b[o + 1 + t] == block_bytes(bl)[1 + t]);
        }
    }
    assert(content_end(b, hs, k) == o2) by {
        if k + 1 < n {
            lemma_block_bytes_at(blocks, k + 1);
            lemma_offset_nonneg(blocks, k + 1);
            assert(hs[k + 1] == (bs[k + 1].0 as usize, bs[k + 1].1 as usize));
            assert(bs[k + 1].0 == o2);
        } else {
            assert(k + 1 == n);
        }
    }
    assert(b.subrange(o + nl + 2, o2) =~= bl.1) by {
        assert forall|t: int| 0 <= t < bl.1.len() implies b.subrange(o + nl + 2, o2)[t] == bl.1[t] by {
            assert(b[o + nl + 2 + t] == block_bytes(bl)[nl + 2 + t]);
        }
    }
}

proof fn lemma_offset_nonneg(blocks: Seq<(Seq<u8>, Seq<u8>)>, k: int)
    requires
        0 <= k <= blocks.len(),
    ensures
        0 <= block_offset(blocks, k) <= join_blocks(blocks).len(),
{
    lemma_join_prefix(blocks, k);
}

/// Parsing joined sections reads them one after another.
proof fn lemma_sections_are_blocks(blocks: Seq<(Seq<u8>, Seq<u8>)>, m: int)
    requires
        0 <= m <= blocks.len(),
        forall|i: int| 0 <= i < blocks.len() ==> well_formed_block(#[trigger] blocks[i]),
        join_blocks(blocks).len() <= usize::MAX,
    ensures
        sections_upto(join_blocks(blocks), header_spans_usize(join_blocks(blocks)), m) == block_fold(blocks, m),
    decreases m,
{
    if m > 0 {
        lemma_sections_are_blocks(blocks, m - 1);
        lemma_block_section(blocks, m - 1);
    }
}

/// The sections' names differ from each other.
pub open spec fn distinct_names(blocks: Seq<(Seq<u8>, Seq<u8>)>) -> bool {
    forall|i: int, j: int|
        0 <= i < blocks.len() && 0 <= j < blocks.len() && i != j ==> block_name(#[trigger] blocks[i])
            != block_name(#[trigger] blocks[j])
}

proof fn lemma_has_named_step(blocks: Seq<(Seq<u8>, Seq<u8>)>, x: Seq<char>, m: int)
    requires
        0 < m <= blocks.len(),
    ensures
        has_named(blocks, x, m) == (has_named(blocks, x, m - 1) || block_name(blocks[m - 1]) == x),
{
    if has_named(blocks, x, m) {
        let i = choose|i: int| 0 <= i < m && i < blocks.len() && block_name(#[trigger] blocks[i]) == x;
        if i < m - 1 {
            assert(has_named(blocks, x, m - 1));
        }
    }
    if block_name(blocks[m - 1]) == x {
        assert(has_named(blocks, x, m));
    }
    if has_named(blocks, x, m - 1) {
        let i = choose|i: int| 0 <= i < m - 1 && i < blocks.len() && block_name(#[trigger] blocks[i]) == x;
        assert(has_named(blocks, x, m));
    }
}

proof fn lemma_named_content_at(blocks: Seq<(Seq<u8>, Seq<u8>)>, x: Seq<char>, k: int)
    requires
        distinct_names(blocks),
        0 <= k < blocks.len(),
        block_name(blocks[k]) == x,
    ensures
        named_content(blocks, x) == block_content(blocks[k]),
{
    let c = choose|i: int| 0 <= i < blocks.len() && block_name(#[trigger] blocks[i]) == x;
    assert(0 <= c < blocks.len() && block_name(blocks[c]) == x);
    if c != k {
        assert(block_name(blocks[c]) != block_name(blocks[k]));
    }
}

/// With distinct names, the sections are read by name.
proof fn lemma_fold_by_name(blocks: Seq<(Seq<u8>, Seq<u8>)>, m: int)
    requires
        distinct_names(blocks),
        0 <= m <= blocks.len(),
    ensures
        ({
            let r = block_fold(blocks, m);
            &&& r.0 == (if has_named(blocks, "SUMMARY"@, m) {
                named_content(blocks, "SUMMARY"@)
            } else {
                Seq::<char>::empty()
            })
            &&& r.1 == (if has_named(blocks, "FACTS"@, m) {
                fact_items(named_content(blocks, "FACTS"@))
            } else {
                Seq::<Seq<char>>::empty()
            })
            &&& r.2 == (if has_named(blocks, "KEYWORDS"@, m) {
                keyword_items(named_content(blocks, "KEYWORDS"@))
            } else {
                Seq::<Seq<char>>::empty()
            })
        }),
    decreases m,
{
    if m > 0 {
        reveal_strlit("SUMMARY");
        reveal_strlit("FACTS");
        reveal_strlit("KEYWORDS");
        assert("SUMMARY"@ != "FACTS"@ && "SUMMARY"@ != "KEYWORDS"@ && "FACTS"@ != "KEYWORDS"@) by {
            assert("SUMMARY"@.len() != "FACTS"@.len());
            assert("SUMMARY"@.len() != "KEYWORDS"@.len());
            assert("FACTS"@.len() != "KEYWORDS"@.len());
        }
        lemma_fold_by_name(blocks, m - 1);
        lemma_has_named_step(blocks, "SUMMARY"@, m);
        lemma_has_named_step(blocks, "FACTS"@, m);
        lemma_has_named_step(blocks, "KEYWORDS"@, m);
        let x = block_name(blocks[m - 1]);
        if x == "SUMMARY"@ {
            lemma_named_content_at(blocks, "SUMMARY"@, m - 1);
        } else if x == "FACTS"@ {
            lemma_named_content_at(blocks, "FACTS"@, m - 1);
        } else if x == "KEYWORDS"@ {
            lemma_named_content_at(blocks, "KEYWORDS"@, m - 1);
        }
    } else {
        assert(!has_named(blocks, "SUMMARY"@, 0));
        assert(!has_named(blocks, "FACTS"@, 0));
        assert(!has_named(blocks, "KEYWORDS"@, 0));
    }
}

/// Well-formed, distinctly named sections parse to what their names give.
pub proof fn lemma_sections_read_by_name(blocks: Seq<(Seq<u8>, Seq<u8>)>)
    requires
        forall|i: int| 0 <= i < blocks.len() ==> well_formed_block(#[trigger] blocks[i]),
        distinct_names(blocks),
        join_blocks(blocks).len() <= usize::MAX,
    ensures
        llm_sections(join_blocks(blocks), header_spans_usize(join_blocks(blocks))) == blocks_result(blocks),
{
    let b = join_blocks(blocks);
    let n = blocks.len() as int;
    lemma_offsets_bounds(blocks);
    lemma_block_headers(blocks, 0);
    assert(header_spans_usize(b).len() == n);
    lemma_sections_are_blocks(blocks, n);
    lemma_fold_by_name(blocks, n);
}

proof fn lemma_permuted_named(
    blocks: Seq<(Seq<u8>, Seq<u8>)>,
    perm: Seq<int>,
    x: Seq<char>,
)
    requires
        distinct_names(blocks),
        distinct_names(permute(blocks, perm)),
        is_permutation(perm, blocks.len() as int),
    ensures
        has_named(permute(blocks, perm), x, blocks.len() as int) == has_named(
            blocks,
            x,
            blocks.len() as int,
        ),
        has_named(blocks, x, blocks.len() as int) ==> named_content(permute(blocks, perm), x)
            == named_content(blocks, x),
{
    let n = blocks.len() as int;
    let p = permute(blocks, perm);
    if has_named(p, x, n) {
        let i = choose|i: int| 0 <= i < n && i < p.len() && block_name(#[trigger] p[i]) == x;
        assert(p[i] == blocks[perm[i]]);
        assert(has_named(blocks, x, n));
    }
    if has_named(blocks, x, n) {
        let j = choose|j: int| 0 <= j < n && j < blocks.len() && block_name(#[trigger] blocks[j]) == x;
        assert(occurs_in(perm, j));
        let i = choose|i: int| 0 <= i < perm.len() && #[trigger] perm[i] == j;
        assert(p[i] == blocks[j]);
        assert(has_named(p, x, n));
        let c = choose|c: int| 0 <= c < p.len() && block_name(#[trigger] p[c]) == x;
        assert(0 <= c < p.len() && block_name(p[c]) == x);
        assert(p[c] == blocks[perm[c]]);
        lemma_named_content_at(blocks, x, perm[c]);
    }
}

/// Rearranging an answer's sections changes nothing: when the answer is made
/// of sections `[name]content` with distinct names, each content ending a
/// line and no later line of it beginning with `[`, any order of the same
/// sections parses to the same summary, facts and keywords.
pub proof fn lemma_section_order_irrelevant(blocks: Seq<(Seq<u8>, Seq<u8>)>, perm: Seq<int>)
    requires
        forall|i: int| 0 <= i < blocks.len() ==> well_formed_block(#[trigger] blocks[i]),
        distinct_names(blocks),
        is_permutation(perm, blocks.len() as int),
        join_blocks(blocks).len() <= usize::MAX,
        join_blocks(permute(blocks, perm)).len() <= usize::MAX,
    ensures
        llm_sections(
            join_blocks(permute(blocks, perm)),
            header_spans_usize(join_blocks(permute(blocks, perm))),
        ) == llm_sections(join_blocks(blocks), header_spans_usize(join_blocks(blocks))),
{
    let n = blocks.len() as int;
    let p = permute(blocks, perm);
    assert forall|i: int| 0 <= i < p.len() implies well_formed_block(#[trigger] p[i]) by {
        assert(p[i] == blocks[perm[i]]);
    }
    assert forall|i: int, j: int|
        0 <= i < p.len() && 0 <= j < p.len() && i != j implies block_name(#[trigger] p[i])
        != block_name(#[trigger] p[j]) by {
        assert(p[i] == blocks[perm[i]]);
        assert(p[j] == blocks[perm[j]]);
        assert(perm[i] != perm[j]);
    }
    lemma_sections_read_by_name(blocks);
    lemma_sections_read_by_name(p);
    lemma_permuted_named(blocks, perm, "SUMMARY"@);
    lemma_permuted_named(blocks, perm, "FACTS"@);
    lemma_permuted_named(blocks, perm, "KEYWORDS"@);
    assert(p.len() == n);
}

}
