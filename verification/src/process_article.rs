//! Parsing of the model's answer for an article's metadata: the sections
//! `[SUMMARY]`, `[FACTS]` and `[KEYWORDS]`, each found at the start of a line.
use vstd::prelude::*;
use vstd::utf8::*;
use vstd::string::StringSliceAdditionalSpecFns;
use crate::text::{
    is_white_space, lemma_trim_ends, no_char, lemma_lines_no_newline, lemma_split_no_sep,
    lemma_trim_keeps_no_char,
    chars_of, lines, split_chars, split_lines, split_on, string_of, string_views, strip_leading,
    strip_leading_chars, trim, trim_chars, views,
};

verus! {

broadcast use vstd::string::group_string_axioms;

// ---------------------------------------------------------------------------
// Section headers: the matches of `(?m)^\[([^\]]+)\]` over the bytes of a text
// ---------------------------------------------------------------------------

/// The first index `>= from` of byte `x` in `b`, or `b.len()`.
pub open spec fn find_byte(b: Seq<u8>, from: int, x: u8) -> int
    decreases b.len() - from,
{
    if from < 0 || from >= b.len() {
        b.len() as int
    } else if b[from] == x {
        from
    } else {
        find_byte(b, from + 1, x)
    }
}

/// `i` is the start of the text or follows a `\n`.
pub open spec fn at_line_start(b: Seq<u8>, i: int) -> bool {
    i == 0 || (0 < i <= b.len() && b[i - 1] == 10u8)
}

/// A header `[name]` (a non-empty name without `]`) begins at `i`, at the start of a line.
pub open spec fn header_at(b: Seq<u8>, i: int) -> bool {
    &&& 0 <= i < b.len()
    &&& at_line_start(b, i)
    &&& b[i] == 91u8
    &&& find_byte(b, i + 1, 93u8) < b.len()
    &&& find_byte(b, i + 1, 93u8) >= i + 2
}

/// The headers found scanning from `pos`, leftmost first and without overlap,
/// each as (index of `[`, index after `]`).
pub open spec fn header_spans_from(b: Seq<u8>, pos: int) -> Seq<(int, int)>
    decreases b.len() - pos,
{
    if pos < 0 || pos >= b.len() {
        seq![]
    } else if header_at(b, pos) {
        let e = find_byte(b, pos + 1, 93u8) + 1;
        seq![(pos, e)] + header_spans_from(b, e)
    } else {
        header_spans_from(b, pos + 1)
    }
}

/// All section headers of the text whose bytes are `b`.
pub open spec fn header_spans(b: Seq<u8>) -> Seq<(int, int)> {
    header_spans_from(b, 0)
}

/// `spans` holds the same pairs as `hs`.
pub open spec fn spans_agree(spans: Seq<(usize, usize)>, hs: Seq<(int, int)>) -> bool {
    &&& spans.len() == hs.len()
    &&& forall|k: int| 0 <= k < hs.len() ==> spans[k].0 == hs[k].0 && spans[k].1 == hs[k].1
}

/// Each span runs from a `[` to a `]` with at least one byte between them,
/// within `b`, and the spans are in order without overlap.
pub open spec fn well_formed_headers(b: Seq<u8>, hs: Seq<(usize, usize)>) -> bool {
    &&& forall|k: int|
        0 <= k < hs.len() ==> {
            &&& hs[k].0 + 2 <= hs[k].1 <= b.len()
            &&& b[hs[k].0 as int] == 91u8
            &&& b[hs[k].1 - 1] == 93u8
        }
    &&& forall|k: int, j: int| 0 <= k < j < hs.len() ==> #[trigger] hs[k].1 <= #[trigger] hs[j].0
}

// ---------------------------------------------------------------------------
// Sections
// ---------------------------------------------------------------------------

/// Where the content of header `k` ends: at the next header, or at the end.
pub open spec fn content_end(b: Seq<u8>, hs: Seq<(usize, usize)>, k: int) -> int {
    if k + 1 < hs.len() {
        hs[k + 1].0 as int
    } else {
        b.len() as int
    }
}

/// The name between the brackets of header `k`.
pub open spec fn section_name(b: Seq<u8>, hs: Seq<(usize, usize)>, k: int) -> Seq<char> {
    decode_utf8(b.subrange(hs[k].0 + 1, hs[k].1 - 1))
}

/// The trimmed text after header `k`, up to the next header.
pub open spec fn section_content(b: Seq<u8>, hs: Seq<(usize, usize)>, k: int) -> Seq<char> {
    trim(decode_utf8(b.subrange(hs[k].1 as int, content_end(b, hs, k))))
}

/// A piece cleaned as a fact (leading dashes dropped, then trimmed) or as a
/// keyword (trimmed).
pub open spec fn clean_item(piece: Seq<char>, dashes: bool) -> Seq<char> {
    if dashes {
        trim(strip_leading(piece, '-'))
    } else {
        trim(piece)
    }
}

/// The cleaned pieces, in order, without the empty ones.
pub open spec fn clean_items(pieces: Seq<Seq<char>>, dashes: bool) -> Seq<Seq<char>>
    decreases pieces.len(),
{
    if pieces.len() == 0 {
        seq![]
    } else {
        let t = clean_item(pieces.last(), dashes);
        let rest = clean_items(pieces.drop_last(), dashes);
        if t.len() > 0 {
            rest.push(t)
        } else {
            rest
        }
    }
}

/// The facts of a `[FACTS]` section: one per non-empty line.
pub open spec fn fact_items(content: Seq<char>) -> Seq<Seq<char>> {
    clean_items(lines(content), true)
}

/// The keywords of a `[KEYWORDS]` section: its non-empty comma-separated items.
pub open spec fn keyword_items(content: Seq<char>) -> Seq<Seq<char>> {
    clean_items(split_on(content, ','), false)
}

/// Summary, facts and keywords after the first `n` headers; a later section
/// of the same name replaces an earlier one, other names are ignored.
pub open spec fn sections_upto(b: Seq<u8>, hs: Seq<(usize, usize)>, n: int) -> (
    Seq<char>,
    Seq<Seq<char>>,
    Seq<Seq<char>>,
)
    decreases n,
{
    if n <= 0 {
        (seq![], seq![], seq![])
    } else {
        let prev = sections_upto(b, hs, n - 1);
        let name = section_name(b, hs, n - 1);
        let content = section_content(b, hs, n - 1);
        if name == "SUMMARY"@ {
            (content, prev.1, prev.2)
        } else if name == "FACTS"@ {
            (prev.0, fact_items(content), prev.2)
        } else if name == "KEYWORDS"@ {
            (prev.0, prev.1, keyword_items(content))
        } else {
            prev
        }
    }
}

/// The placeholders for missing sections.
pub open spec fn with_defaults(r: (Seq<char>, Seq<Seq<char>>, Seq<Seq<char>>)) -> (
    Seq<char>,
    Seq<Seq<char>>,
    Seq<Seq<char>>,
) {
    (
        if r.0.len() == 0 || r.0 == "N/A"@ {
            "No summary available"@
        } else {
            r.0
        },
        if r.1.len() == 0 {
            seq!["No facts available"@]
        } else {
            r.1
        },
        if r.2.len() == 0 {
            seq!["No keywords available"@]
        } else {
            r.2
        },
    )
}

/// What a response with bytes `b` and headers `hs` yields.
pub open spec fn llm_sections(b: Seq<u8>, hs: Seq<(usize, usize)>) -> (
    Seq<char>,
    Seq<Seq<char>>,
    Seq<Seq<char>>,
) {
    with_defaults(sections_upto(b, hs, hs.len() as int))
}

/// The views of a parsed answer.
pub open spec fn parsed_view(r: (String, Vec<String>, Vec<String>)) -> (
    Seq<char>,
    Seq<Seq<char>>,
    Seq<Seq<char>>,
) {
    (r.0@, string_views(r.1@), string_views(r.2@))
}

// ---------------------------------------------------------------------------
// Lemmas
// ---------------------------------------------------------------------------

proof fn lemma_find_byte(b: Seq<u8>, from: int, x: u8)
    requires
        0 <= from,
    ensures
        from <= find_byte(b, from, x) <= b.len() || (from > b.len() && find_byte(b, from, x)
            == b.len()),
        find_byte(b, from, x) < b.len() ==> b[find_byte(b, from, x)] == x,
    decreases b.len() - from,
{
    if from < b.len() && b[from] != x {
        lemma_find_byte(b, from + 1, x);
    }
}

/// The headers found from `pos` start at or after `pos` and are well formed.
proof fn lemma_header_spans_from(b: Seq<u8>, pos: int)
    requires
        0 <= pos,
    ensures
        ({
            let hs = header_spans_from(b, pos);
            &&& forall|k: int|
                0 <= k < hs.len() ==> {
                    &&& pos <= hs[k].0
                    &&& hs[k].0 + 2 <= hs[k].1 <= b.len()
                    &&& b[hs[k].0] == 91u8
                    &&& b[hs[k].1 - 1] == 93u8
                }
            &&& forall|k: int, j: int| 0 <= k < j < hs.len() ==> #[trigger] hs[k].1 <= #[trigger] hs[j].0
        }),
    decreases b.len() - pos,
{
    if pos < b.len() {
        if header_at(b, pos) {
            lemma_find_byte(b, pos + 1, 93u8);
            let e = find_byte(b, pos + 1, 93u8) + 1;
            lemma_header_spans_from(b, e);
            let rest = header_spans_from(b, e);
            let hs = header_spans_from(b, pos);
            assert(hs == seq![(pos, e)] + rest);
            assert(hs[0] == (pos, e));
            assert(b[e - 1] == 93u8);
            assert forall|k: int| 0 < k < hs.len() implies hs[k] == rest[k - 1] && e <= rest[k
                - 1].0 by {}
            assert forall|k: int, j: int| 0 <= k < j < hs.len() implies #[trigger] hs[k].1
                <= #[trigger] hs[j].0 by {
                assert(hs[j] == rest[j - 1]);
                if k > 0 {
                    assert(hs[k] == rest[k - 1]);
                    assert(rest[k - 1].1 <= rest[j - 1].0);
                }
            }
        } else {
            lemma_header_spans_from(b, pos + 1);
            assert(header_spans_from(b, pos) == header_spans_from(b, pos + 1));
        }
    }
}

/// Spans that agree with `header_spans(b)` are well formed.
pub proof fn lemma_header_spans_well_formed(b: Seq<u8>, spans: Seq<(usize, usize)>)
    requires
        spans_agree(spans, header_spans(b)),
    ensures
        well_formed_headers(b, spans),
{
    lemma_header_spans_from(b, 0);
    let hs = header_spans(b);
    assert forall|k: int, j: int| 0 <= k < j < spans.len() implies #[trigger] spans[k].1
        <= #[trigger] spans[j].0 by {
        assert(hs[k].1 <= hs[j].0);
    }
}

/// An ASCII byte of valid UTF-8 is the first byte of a character.
proof fn lemma_ascii_boundary(b: Seq<u8>, i: int)
    requires
        valid_utf8(b),
        0 <= i < b.len(),
        b[i] < 0x80,
    ensures
        is_char_boundary(b, i),
{
    is_char_boundary_iff_not_is_continuation_byte(b, i);
}

/// A character boundary at an ASCII byte is followed by another one.
proof fn lemma_after_ascii_boundary(b: Seq<u8>, i: int)
    requires
        valid_utf8(b),
        0 <= i < b.len(),
        b[i] < 0x80,
    ensures
        is_char_boundary(b, i + 1),
{
    lemma_ascii_boundary(b, i);
    if i + 1 == b.len() {
        is_char_boundary_start_end_of_seq(b);
    } else {
        valid_utf8_split(b, i);
        let t = b.subrange(i, b.len() as int);
        assert(t[0] == b[i]);
        assert(valid_first_scalar(t) && valid_utf8(pop_first_scalar(t)));
        let u = pop_first_scalar(t);
        assert(u =~= b.subrange(i + 1, b.len() as int));
        assert(u.len() > 0);
        assert(valid_first_scalar(u));
        assert(u[0] == b[i + 1]);
        is_char_boundary_iff_not_is_continuation_byte(b, i + 1);
    }
}

/// A character boundary of `b` before `end` is one of `b[..end]` too.
proof fn lemma_prefix_boundary(b: Seq<u8>, end: int, a: int)
    requires
        valid_utf8(b),
        valid_utf8(b.subrange(0, end)),
        0 <= a <= end <= b.len(),
        is_char_boundary(b, a),
    ensures
        is_char_boundary(b.subrange(0, end), a),
{
    let p = b.subrange(0, end);
    if a == end {
        is_char_boundary_start_end_of_seq(p);
    } else {
        is_char_boundary_iff_not_is_continuation_byte(b, a);
        is_char_boundary_iff_not_is_continuation_byte(p, a);
    }
}

/// Non-empty, and without whitespace at either end.
pub open spec fn clean_text(s: Seq<char>) -> bool {
    s.len() > 0 && !is_white_space(s[0]) && !is_white_space(s.last())
}

/// Every cleaned piece is non-empty and trimmed.
proof fn lemma_clean_items(pieces: Seq<Seq<char>>, dashes: bool)
    ensures
        forall|i: int| 0 <= i < clean_items(pieces, dashes).len() ==> clean_text(
            #[trigger] clean_items(pieces, dashes)[i],
        ),
    decreases pieces.len(),
{
    if pieces.len() > 0 {
        lemma_clean_items(pieces.drop_last(), dashes);
        let p = pieces.last();
        if dashes {
            lemma_trim_ends(strip_leading(p, '-'));
        } else {
            lemma_trim_ends(p);
        }
        let rest = clean_items(pieces.drop_last(), dashes);
        let r = clean_items(pieces, dashes);
        assert forall|i: int| 0 <= i < r.len() implies clean_text(#[trigger] r[i]) by {
            if i < rest.len() {
                assert(r[i] == rest[i]);
            }
        }
    }
}

/// Cleaning adds no character: when no piece holds `c`, no cleaned item does.
proof fn lemma_clean_items_no_char(pieces: Seq<Seq<char>>, dashes: bool, c: char)
    requires
        forall|i: int| 0 <= i < pieces.len() ==> no_char(#[trigger] pieces[i], c),
    ensures
        forall|i: int| 0 <= i < clean_items(pieces, dashes).len() ==> no_char(
            #[trigger] clean_items(pieces, dashes)[i],
            c,
        ),
    decreases pieces.len(),
{
    if pieces.len() > 0 {
        let front = pieces.drop_last();
        assert forall|i: int| 0 <= i < front.len() implies no_char(#[trigger] front[i], c) by {
            assert(front[i] == pieces[i]);
        }
        lemma_clean_items_no_char(front, dashes, c);
        assert(no_char(pieces.last(), c)) by {
            assert(pieces.last() == pieces[pieces.len() - 1]);
        }
        lemma_trim_keeps_no_char(pieces.last(), c, '-');
        let rest = clean_items(front, dashes);
        let r = clean_items(pieces, dashes);
        assert forall|i: int| 0 <= i < r.len() implies no_char(#[trigger] r[i], c) by {
            if i < rest.len() {
                assert(r[i] == rest[i]);
            }
        }
    }
}

/// Before the placeholders: no fact holds a line break, no keyword a comma.
proof fn lemma_sections_upto_separators(b: Seq<u8>, hs: Seq<(usize, usize)>, n: int)
    ensures
        ({
            let r = sections_upto(b, hs, n);
            &&& forall|i: int| 0 <= i < r.1.len() ==> no_char(#[trigger] r.1[i], '\n')
            &&& forall|i: int| 0 <= i < r.2.len() ==> no_char(#[trigger] r.2[i], ',')
        }),
    decreases n,
{
    if n > 0 {
        lemma_sections_upto_separators(b, hs, n - 1);
        let content = section_content(b, hs, n - 1);
        lemma_lines_no_newline(content);
        lemma_split_no_sep(content, ',');
        lemma_clean_items_no_char(lines(content), true, '\n');
        lemma_clean_items_no_char(split_on(content, ','), false, ',');
        let r = sections_upto(b, hs, n);
        let prev = sections_upto(b, hs, n - 1);
        let f = fact_items(content);
        let k = keyword_items(content);
        assert(r.1 == prev.1 || r.1 == f);
        assert(r.2 == prev.2 || r.2 == k);
        assert forall|i: int| 0 <= i < r.1.len() implies no_char(#[trigger] r.1[i], '\n') by {
            if r.1 == f {
                assert(no_char(f[i], '\n'));
            } else {
                assert(no_char(prev.1[i], '\n'));
            }
        }
        assert forall|i: int| 0 <= i < r.2.len() implies no_char(#[trigger] r.2[i], ',') by {
            if r.2 == k {
                assert(no_char(k[i], ','));
            } else {
                assert(no_char(prev.2[i], ','));
            }
        }
    }
}

/// Cleaning pieces keeps, in order, every piece's cleaned form that is not
/// empty, and nothing else.
pub proof fn lemma_clean_items_filter(pieces: Seq<Seq<char>>, dashes: bool)
    ensures
        clean_items(pieces, dashes) == pieces.map_values(|p: Seq<char>| clean_item(p, dashes)).filter(
            |t: Seq<char>| t.len() > 0,
        ),
    decreases pieces.len(),
{
    let f = |p: Seq<char>| clean_item(p, dashes);
    let keep = |t: Seq<char>| t.len() > 0;
    let m = pieces.map_values(f);
    reveal_with_fuel(Seq::filter, 1);
    if pieces.len() > 0 {
        lemma_clean_items_filter(pieces.drop_last(), dashes);
        assert(m.drop_last() =~= pieces.drop_last().map_values(f));
        assert(m.last() == clean_item(pieces.last(), dashes));
    } else {
        assert(m =~= Seq::<Seq<char>>::empty());
    }
}

/// The keywords of a `[KEYWORDS]` section are all of its comma-separated
/// pieces, trimmed, that are not empty, in order: there is no limit on their
/// number.
pub proof fn lemma_keywords_are_all_pieces(content: Seq<char>)
    ensures
        keyword_items(content) == split_on(content, ',').map_values(|p: Seq<char>| trim(p)).filter(
            |t: Seq<char>| t.len() > 0,
        ),
        keyword_items(content).len() == split_on(content, ',').map_values(|p: Seq<char>| trim(p)).filter(
            |t: Seq<char>| t.len() > 0,
        ).len(),
{
    lemma_clean_items_filter(split_on(content, ','), false);
    assert(split_on(content, ',').map_values(|p: Seq<char>| clean_item(p, false)) =~= split_on(
        content,
        ',',
    ).map_values(|p: Seq<char>| trim(p)));
}

/// The facts of a `[FACTS]` section are all of its lines, with leading dashes
/// dropped and trimmed, that are not empty, in order.
pub proof fn lemma_facts_are_all_lines(content: Seq<char>)
    ensures
        fact_items(content) == lines(content).map_values(|l: Seq<char>| trim(strip_leading(l, '-'))).filter(
            |t: Seq<char>| t.len() > 0,
        ),
{
    lemma_clean_items_filter(lines(content), true);
    assert(lines(content).map_values(|p: Seq<char>| clean_item(p, true)) =~= lines(
        content,
    ).map_values(|l: Seq<char>| trim(strip_leading(l, '-'))));
}

/// The metadata is stored only when the answer gave all three parts: a
/// result is complete exactly when the paragraph, the facts and the keywords
/// are each other than their placeholder.
pub proof fn lemma_complete_iff_all_found(
    article_id: u128,
    parsed: (Seq<char>, Seq<Seq<char>>, Seq<Seq<char>>),
)
    ensures
        result_from_sections(article_id, parsed).complete() <==> (parsed.0 != "No summary available"@
            && parsed.1 != seq!["No facts available"@] && parsed.2 != seq![
            "No keywords available"@,
        ]),
        parsed.2 == seq!["No keywords available"@] ==> !result_from_sections(
            article_id,
            parsed,
        ).complete(),
        result_from_sections(article_id, parsed).complete() ==> result_from_sections(
            article_id,
            parsed,
        ).keywords == Some(parsed.2),
{
}

/// Before the placeholders: the summary is empty or trimmed and non-empty,
/// and every fact and keyword is non-empty and trimmed.
proof fn lemma_sections_upto_clean(b: Seq<u8>, hs: Seq<(usize, usize)>, n: int)
    ensures
        ({
            let r = sections_upto(b, hs, n);
            &&& r.0.len() == 0 || clean_text(r.0)
            &&& forall|i: int| 0 <= i < r.1.len() ==> clean_text(#[trigger] r.1[i])
            &&& forall|i: int| 0 <= i < r.2.len() ==> clean_text(#[trigger] r.2[i])
        }),
    decreases n,
{
    if n > 0 {
        lemma_sections_upto_clean(b, hs, n - 1);
        let content = section_content(b, hs, n - 1);
        lemma_trim_ends(decode_utf8(b.subrange(hs[n - 1].1 as int, content_end(b, hs, n - 1))));
        lemma_clean_items(lines(content), true);
        lemma_clean_items(split_on(content, ','), false);
    }
}

/// Parsing an answer always yields a summary other than `N/A`, at least one
/// fact and at least one keyword, each non-empty and without whitespace at
/// either end; no fact holds a line break and no keyword a comma.
pub proof fn lemma_parsed_sections_are_clean(b: Seq<u8>, hs: Seq<(usize, usize)>)
    ensures
        ({
            let r = llm_sections(b, hs);
            &&& clean_text(r.0)
            &&& r.1.len() > 0
            &&& r.2.len() > 0
            &&& forall|i: int| 0 <= i < r.1.len() ==> clean_text(#[trigger] r.1[i])
            &&& forall|i: int| 0 <= i < r.2.len() ==> clean_text(#[trigger] r.2[i])
            &&& r.0 != "N/A"@
            &&& forall|i: int| 0 <= i < r.1.len() ==> no_char(#[trigger] r.1[i], '\n')
            &&& forall|i: int| 0 <= i < r.2.len() ==> no_char(#[trigger] r.2[i], ',')
        }),
{
    lemma_sections_upto_clean(b, hs, hs.len() as int);
    lemma_sections_upto_separators(b, hs, hs.len() as int);
    reveal_strlit("N/A");
    reveal_strlit("No summary available");
    reveal_strlit("No facts available");
    reveal_strlit("No keywords available");
    let r = sections_upto(b, hs, hs.len() as int);
    let d = llm_sections(b, hs);
    if r.1.len() == 0 {
        assert(d.1 == seq!["No facts available"@]);
        assert(clean_text(d.1[0]));
        assert(no_char(d.1[0], '\n'));
    }
    if r.2.len() == 0 {
        assert(d.2 == seq!["No keywords available"@]);
        assert(clean_text(d.2[0]));
        assert(no_char(d.2[0], ','));
    }
    if r.0.len() == 0 || r.0 == "N/A"@ {
        assert(d.0 == "No summary available"@);
        assert(d.0.len() != "N/A"@.len());
    }
}

// ---------------------------------------------------------------------------
// Executable parts
// ---------------------------------------------------------------------------

/// The spans of `(?m)^\[([^\]]+)\]` in `text`.
///
/// Calls `regex::Regex::new` on that pattern and collects `Regex::find_iter`
/// as (start, end) byte offsets. Trusted: the matches are the leftmost-first,
/// non-overlapping matches that the pattern's semantics (as documented by the
/// `regex` crate: `(?m)^` matches at the start of the text and after `\n`,
/// `[^\]]` matches any character but `]`, including `\n`) gives, which is
/// `header_spans` of the text's UTF-8 bytes. The result is `Ok`: `Regex::new`
/// fails only for an invalid pattern or one over the size limit, and this
/// fixed pattern is valid and small.
#[verifier::external_body]
fn find_section_headers(text: &str) -> (res: Result<Vec<(usize, usize)>, ()>)
    ensures
        res is Ok,
        res matches Ok(spans) ==> spans_agree(spans@, header_spans(text.spec_bytes())),
{
    match regex::Regex::new(r"(?m)^\[([^\]]+)\]") {
        Ok(re) => Ok(re.find_iter(text).map(|m| (m.start(), m.end())).collect()),
        Err(_) => Err(()),
    }
}

/// `text[a..b]` for byte offsets on character boundaries.
fn slice_str(text: &str, a: usize, b: usize) -> (r: &str)
    requires
        a <= b <= text.spec_bytes().len(),
        is_char_boundary(text.spec_bytes(), a as int),
        is_char_boundary(text.spec_bytes(), b as int),
    ensures
        r.spec_bytes() == text.spec_bytes().subrange(a as int, b as int),
        r@ == decode_utf8(text.spec_bytes().subrange(a as int, b as int)),
{
    proof {
        encode_utf8_valid_utf8(text@);
    }
    let (left, _) = text.split_at(b);
    proof {
        encode_utf8_valid_utf8(left@);
        lemma_prefix_boundary(text.spec_bytes(), b as int, a as int);
    }
    let (_, mid) = left.split_at(a);
    proof {
        assert(mid.spec_bytes() =~= text.spec_bytes().subrange(a as int, b as int));
        encode_utf8_decode_utf8(mid@);
    }
    mid
}

/// Cleans each piece (dropping leading dashes first when `dashes`), keeping
/// the non-empty results in order.
pub fn clean_pieces(pieces: &Vec<Vec<char>>, dashes: bool) -> (r: Vec<String>)
    ensures
        string_views(r@) == clean_items(views(pieces@), dashes),
{
    let mut out: Vec<String> = Vec::new();
    let mut i: usize = 0;
    assert(views(pieces@).take(0) =~= Seq::<Seq<char>>::empty());
    assert(string_views(out@) =~= Seq::<Seq<char>>::empty());
    while i < pieces.len()
        invariant
            i <= pieces.len(),
            string_views(out@) == clean_items(views(pieces@).take(i as int), dashes),
        decreases pieces.len() - i,
    {
        let t = if dashes {
            let s = strip_leading_chars(&pieces[i], '-');
            trim_chars(&s)
        } else {
            trim_chars(&pieces[i])
        };
        let ghost pre = views(pieces@).take(i + 1);
        assert(pre.drop_last() =~= views(pieces@).take(i as int));
        assert(pre.last() == pieces@[i as int]@);
        if t.len() > 0 {
            let ghost before = string_views(out@);
            out.push(string_of(&t));
            assert(string_views(out@) =~= before.push(t@));
        }
        i += 1;
    }
    assert(views(pieces@).take(pieces.len() as int) =~= views(pieces@));
    out
}

/// Splits `text` into its summary, facts and keywords along the given headers.
pub fn sections_from_headers(text: &str, headers: &Vec<(usize, usize)>) -> (r: (
    String,
    Vec<String>,
    Vec<String>,
))
    requires
        well_formed_headers(text.spec_bytes(), headers@),
    ensures
        parsed_view(r) == llm_sections(text.spec_bytes(), headers@),
{
    let ghost b = text.spec_bytes();
    proof {
        encode_utf8_valid_utf8(text@);
        is_char_boundary_start_end_of_seq(b);
    }
    let len = text.as_bytes().len();
    let mut summary: Vec<char> = Vec::new();
    let mut facts: Vec<String> = Vec::new();
    let mut keywords: Vec<String> = Vec::new();
    let mut k: usize = 0;
    let n = headers.len();
    while k < n
        invariant
            k <= n == headers.len(),
            len == b.len(),
            b == text.spec_bytes(),
            valid_utf8(b),
            is_char_boundary(b, b.len() as int),
            well_formed_headers(b, headers@),
            (summary@, string_views(facts@), string_views(keywords@)) == sections_upto(
                b,
                headers@,
                k as int,
            ),
        decreases n - k,
    {
        let (s, e) = headers[k];
        let end = if k + 1 < n {
            headers[k + 1].0
        } else {
            len
        };
        proof {
            lemma_after_ascii_boundary(b, s as int);
            lemma_ascii_boundary(b, e - 1);
            lemma_after_ascii_boundary(b, e - 1);
            if k + 1 < n {
                assert(headers@[k as int].1 <= headers@[k + 1].0);
                lemma_ascii_boundary(b, end as int);
            }
        }
        let name = slice_str(text, s + 1, e - 1).to_owned();
        let content_chars = chars_of(slice_str(text, e, end));
        let content = trim_chars(&content_chars);
        assert(content@ == section_content(b, headers@, k as int));
        assert(name@ == section_name(b, headers@, k as int));
        if name == "SUMMARY".to_owned() {
            summary = content;
        } else if name == "FACTS".to_owned() {
            let pieces = split_lines(&content);
            facts = clean_pieces(&pieces, true);
        } else if name == "KEYWORDS".to_owned() {
            let pieces = split_chars(&content, ',');
            keywords = clean_pieces(&pieces, false);
        }
        k += 1;
    }
    let summary_s = if summary.len() == 0 {
        "No summary available".to_owned()
    } else {
        let s = string_of(&summary);
        if s == "N/A".to_owned() {
            "No summary available".to_owned()
        } else {
            s
        }
    };
    if facts.len() == 0 {
        facts.push("No facts available".to_owned());
        assert(string_views(facts@) =~= seq!["No facts available"@]);
    }
    if keywords.len() == 0 {
        keywords.push("No keywords available".to_owned());
        assert(string_views(keywords@) =~= seq!["No keywords available"@]);
    }
    (summary_s, facts, keywords)
}

/// Error of `parse_llm_response`: the header pattern could not be compiled
/// (which, for its fixed pattern, does not happen).
#[derive(Debug, Clone, Copy, PartialEq, Eq)]
pub struct PatternError;

/// Parses the model's answer into (summary, facts, keywords), with a
/// placeholder for each section that is missing or empty.
pub fn parse_llm_response(response: &str) -> (r: Result<(String, Vec<String>, Vec<String>), PatternError>)
    ensures
        r is Ok,
        r matches Ok(parsed) ==> parsed_view(parsed) == llm_sections(
            response.spec_bytes(),
            header_spans_usize(response.spec_bytes()),
        ),
{
    match find_section_headers(response) {
        Ok(headers) => {
            proof {
                lemma_header_spans_well_formed(response.spec_bytes(), headers@);
                lemma_spans_agree_unique(headers@, response.spec_bytes());
            }
            Ok(sections_from_headers(response, &headers))
        },
        Err(_) => Err(PatternError),
    }
}

/// The headers of `b` as byte offsets.
pub open spec fn header_spans_usize(b: Seq<u8>) -> Seq<(usize, usize)> {
    header_spans(b).map_values(|p: (int, int)| (p.0 as usize, p.1 as usize))
}

proof fn lemma_spans_agree_unique(spans: Seq<(usize, usize)>, b: Seq<u8>)
    requires
        spans_agree(spans, header_spans(b)),
    ensures
        spans == header_spans_usize(b),
{
    assert(spans =~= header_spans_usize(b));
}


// ---------------------------------------------------------------------------
// The outcome of processing one article, and the attempts at it
// ---------------------------------------------------------------------------

/// `items` joined with `", "` between neighbours.
pub open spec fn join_commas(items: Seq<Seq<char>>) -> Seq<char>
    decreases items.len(),
{
    if items.len() == 0 {
        seq![]
    } else if items.len() == 1 {
        items[0]
    } else {
        join_commas(items.drop_last()) + ", "@ + items.last()
    }
}

/// The metadata found for an article; a field is `None` when the model's
/// answer only held its placeholder.
pub struct ProcessResult {
    pub article_id: u128,
    pub paragraph: Option<String>,
    pub bullets: Option<Vec<String>>,
    pub keywords: Option<Vec<String>>,
}

/// The view of a `ProcessResult`.
pub struct ProcessResultView {
    pub article_id: u128,
    pub paragraph: Option<Seq<char>>,
    pub bullets: Option<Seq<Seq<char>>>,
    pub keywords: Option<Seq<Seq<char>>>,
}

impl View for ProcessResult {
    type V = ProcessResultView;

    open spec fn view(&self) -> ProcessResultView {
        ProcessResultView {
            article_id: self.article_id,
            paragraph: match self.paragraph {
                Some(p) => Some(p@),
                None => None,
            },
            bullets: match self.bullets {
                Some(b) => Some(string_views(b@)),
                None => None,
            },
            keywords: match self.keywords {
                Some(k) => Some(string_views(k@)),
                None => None,
            },
        }
    }
}

impl ProcessResultView {
    /// All three parts were found.
    pub open spec fn complete(self) -> bool {
        self.paragraph is Some && self.bullets is Some && self.keywords is Some
    }
}

/// The result for `article_id` built from a parsed answer: each part kept
/// unless it is exactly its placeholder.
pub open spec fn result_from_sections(
    article_id: u128,
    parsed: (Seq<char>, Seq<Seq<char>>, Seq<Seq<char>>),
) -> ProcessResultView {
    ProcessResultView {
        article_id,
        paragraph: if parsed.0 == "No summary available"@ {
            None
        } else {
            Some(parsed.0)
        },
        bullets: if parsed.1 == seq!["No facts available"@] {
            None
        } else {
            Some(parsed.1)
        },
        keywords: if parsed.2 == seq!["No keywords available"@] {
            None
        } else {
            Some(parsed.2)
        },
    }
}

impl ProcessResult {
    /// An empty result for `article_id`.
    pub fn new(article_id: u128) -> (r: ProcessResult)
        ensures
            r@ == (ProcessResultView {
                article_id,
                paragraph: None,
                bullets: None,
                keywords: None,
            }),
    {
        ProcessResult { article_id, paragraph: None, bullets: None, keywords: None }
    }

    /// Whether paragraph, bullets and keywords were all found.
    pub fn is_complete(&self) -> (r: bool)
        ensures
            r == self@.complete(),
    {
        self.paragraph.is_some() && self.bullets.is_some() && self.keywords.is_some()
    }

    /// `items` joined with `", "`.
    pub fn join_with_commas(items: &Vec<String>) -> (r: String)
        ensures
            r@ == join_commas(string_views(items@)),
    {
        let mut out = String::new();
        let mut i: usize = 0;
        while i < items.len()
            invariant
                i <= items.len(),
                out@ == join_commas(string_views(items@).take(i as int)),
            decreases items.len() - i,
        {
            let ghost pre = string_views(items@).take(i + 1);
            assert(pre.drop_last() =~= string_views(items@).take(i as int));
            if i > 0 {
                out.append(", ");
                proof {
                    reveal_strlit(", ");
                }
            } else {
                assert(pre =~= seq![items@[0]@]);
            }
            out.append(items[i].as_str());
            i += 1;
        }
        assert(string_views(items@).take(items.len() as int) =~= string_views(items@));
        out
    }
}

/// The number of times the model is asked for one article's metadata.
pub const MAX_ATTEMPTS: u8 = 3;

/// What the processing of one article asks of its caller next.
pub enum MetadataStep {
    /// Ask the model for the article's metadata and report the parsed answer.
    RequestMetadata,
    /// Compute the embeddings of the result's paragraph and of the two joined
    /// texts, store them with the metadata, and return `result`.
    StoreMetadata { result: ProcessResult, joined_bullets: String, joined_keywords: String },
    /// Return this result; nothing is stored.
    Finish(ProcessResult),
}

/// The state of the attempts at one article's metadata.
pub struct MetadataAttempts {
    pub article_id: u128,
    pub attempts: u8,
}

impl MetadataAttempts {
    /// Begins processing `article_id`: the first step asks the model.
    pub fn start(article_id: u128) -> (r: (MetadataAttempts, MetadataStep))
        ensures
            r.0.article_id == article_id,
            r.0.attempts == 0,
            r.1 is RequestMetadata,
    {
        (MetadataAttempts { article_id, attempts: 0 }, MetadataStep::RequestMetadata)
    }

    /// Takes the parsed answer of the model. A parsed answer ends the
    /// processing: with the result to store when it is complete, else with
    /// the partial result. A failed parse costs an attempt; after
    /// `MAX_ATTEMPTS` of them the result is empty.
    pub fn on_parsed(
        self,
        parsed: Result<(String, Vec<String>, Vec<String>), PatternError>,
    ) -> (r: (MetadataAttempts, MetadataStep))
        requires
            self.attempts < MAX_ATTEMPTS,
        ensures
            r.0.article_id == self.article_id,
            match parsed {
                Ok(p) => {
                    let expected = result_from_sections(self.article_id, parsed_view(p));
                    &&& r.0.attempts == self.attempts
                    &&& match r.1 {
                        MetadataStep::StoreMetadata { result, joined_bullets, joined_keywords } => {
                            &&& expected.complete()
                            &&& result@ == expected
                            &&& joined_bullets@ == join_commas(parsed_view(p).1)
                            &&& joined_keywords@ == join_commas(parsed_view(p).2)
                        },
                        MetadataStep::Finish(result) => !expected.complete() && result@ == expected,
                        MetadataStep::RequestMetadata => false,
                    }
                },
                Err(_) => {
                    &&& r.0.attempts == self.attempts + 1
                    &&& if self.attempts + 1 < MAX_ATTEMPTS {
                        r.1 is RequestMetadata
                    } else {
                        r.1 matches MetadataStep::Finish(result) && result@ == (ProcessResultView {
                            article_id: self.article_id,
                            paragraph: None,
                            bullets: None,
                            keywords: None,
                        })
                    }
                },
            },
    {
        match parsed {
            Ok((paragraph, bullets, keywords)) => {
                let joined_bullets = ProcessResult::join_with_commas(&bullets);
                let joined_keywords = ProcessResult::join_with_commas(&keywords);
                let no_summary = paragraph == "No summary available".to_owned();
                let no_facts = bullets.len() == 1 && bullets[0] == "No facts available".to_owned();
                let no_keywords = keywords.len() == 1 && keywords[0]
                    == "No keywords available".to_owned();
                proof {
                    let pv = parsed_view((paragraph, bullets, keywords));
                    assert(no_facts == (pv.1 == seq!["No facts available"@])) by {
                        if pv.1 == seq!["No facts available"@] {
                            assert(pv.1[0] == bullets@[0]@);
                        }
                        if no_facts {
                            assert(pv.1 =~= seq!["No facts available"@]);
                        }
                    }
                    assert(no_keywords == (pv.2 == seq!["No keywords available"@])) by {
                        if pv.2 == seq!["No keywords available"@] {
                            assert(pv.2[0] == keywords@[0]@);
                        }
                        if no_keywords {
                            assert(pv.2 =~= seq!["No keywords available"@]);
                        }
                    }
                }
                let mut result = ProcessResult::new(self.article_id);
                if !no_summary {
                    result.paragraph = Some(paragraph);
                }
                if !no_facts {
                    result.bullets = Some(bullets);
                }
                if !no_keywords {
                    result.keywords = Some(keywords);
                }
                if result.is_complete() {
                    (self, MetadataStep::StoreMetadata { result, joined_bullets, joined_keywords })
                } else {
                    (self, MetadataStep::Finish(result))
                }
            },
            Err(_) => {
                let attempts = self.attempts + 1;
                let next = MetadataAttempts { article_id: self.article_id, attempts };
                if attempts < MAX_ATTEMPTS {
                    (next, MetadataStep::RequestMetadata)
                } else {
                    (next, MetadataStep::Finish(ProcessResult::new(self.article_id)))
                }
            },
        }
    }
}

}
