//! Parsing of a numbered metadata answer: the text after a line starting with
//! `1.` is the paragraph, after `2.` the bullets, after `3.` the keywords, and
//! after `4.` nothing is kept.
use vstd::prelude::*;
use crate::text::{is_white_space, lemma_trim_ends, chars_of, lines, push_all, split_lines, starts_with2, string_of, trim, trim_chars};

verus! {

/// The section a line opens (1 to 4), or 0 when it opens none.
pub open spec fn section_marker(l: Seq<char>) -> int {
    if starts_with2(l, '1', '.') {
        1
    } else if starts_with2(l, '2', '.') {
        2
    } else if starts_with2(l, '3', '.') {
        3
    } else if starts_with2(l, '4', '.') {
        4
    } else {
        0
    }
}

/// After the first `n` lines: the current section and the text gathered for
/// paragraph, bullets and keywords (lines joined with nothing between them).
pub open spec fn metadata_upto(ls: Seq<Seq<char>>, n: int) -> (int, Seq<char>, Seq<char>, Seq<char>)
    decreases n,
{
    if n <= 0 {
        (0, seq![], seq![], seq![])
    } else {
        let prev = metadata_upto(ls, n - 1);
        let l = ls[n - 1];
        let m = section_marker(l);
        if m != 0 {
            (m, prev.1, prev.2, prev.3)
        } else if prev.0 == 1 {
            (prev.0, prev.1 + l, prev.2, prev.3)
        } else if prev.0 == 2 {
            (prev.0, prev.1, prev.2 + l, prev.3)
        } else if prev.0 == 3 {
            (prev.0, prev.1, prev.2, prev.3 + l)
        } else {
            prev
        }
    }
}

/// Paragraph, bullets and keywords of `response`, each trimmed.
pub open spec fn metadata_sections(response: Seq<char>) -> (Seq<char>, Seq<char>, Seq<char>) {
    let ls = lines(response);
    let r = metadata_upto(ls, ls.len() as int);
    (trim(r.1), trim(r.2), trim(r.3))
}

/// Each part of a numbered answer is empty or non-empty without whitespace
/// at either end.
pub proof fn lemma_metadata_parts_trimmed(response: Seq<char>)
    ensures
        ({
            let r = metadata_sections(response);
            &&& r.0.len() == 0 || (!is_white_space(r.0[0]) && !is_white_space(r.0.last()))
            &&& r.1.len() == 0 || (!is_white_space(r.1[0]) && !is_white_space(r.1.last()))
            &&& r.2.len() == 0 || (!is_white_space(r.2[0]) && !is_white_space(r.2.last()))
        }),
{
    let ls = lines(response);
    let r = metadata_upto(ls, ls.len() as int);
    lemma_trim_ends(r.1);
    lemma_trim_ends(r.2);
    lemma_trim_ends(r.3);
}

/// While no line has opened section 1, 2 or 3, nothing is gathered.
proof fn lemma_nothing_gathered(ls: Seq<Seq<char>>, n: int)
    requires
        forall|i: int| 0 <= i < n && i < ls.len() ==> !(1 <= #[trigger] section_marker(ls[i]) <= 3),
        n <= ls.len(),
    ensures
        ({
            let r = metadata_upto(ls, n);
            &&& r.0 == 0 || r.0 == 4
            &&& r.1.len() == 0 && r.2.len() == 0 && r.3.len() == 0
        }),
    decreases n,
{
    if n > 0 {
        lemma_nothing_gathered(ls, n - 1);
        assert(!(1 <= section_marker(ls[n - 1]) <= 3));
    }
}

/// An answer in which no line starts with `1.`, `2.` or `3.` yields three
/// empty parts.
pub proof fn lemma_unnumbered_answer_is_empty(response: Seq<char>)
    requires
        forall|i: int|
            0 <= i < lines(response).len() ==> !(1 <= #[trigger] section_marker(lines(response)[i]) <= 3),
    ensures
        metadata_sections(response) == (Seq::<char>::empty(), Seq::<char>::empty(), Seq::<char>::empty()),
{
    let ls = lines(response);
    lemma_nothing_gathered(ls, ls.len() as int);
    let r = metadata_upto(ls, ls.len() as int);
    assert(r.1 =~= Seq::<char>::empty());
    assert(r.2 =~= Seq::<char>::empty());
    assert(r.3 =~= Seq::<char>::empty());
    assert(trim(Seq::<char>::empty()) =~= Seq::<char>::empty());
}

/// The section open before line `i`: the one the last marker line before it
/// opened, or 0.
pub open spec fn open_section(ls: Seq<Seq<char>>, i: int) -> int
    decreases i,
{
    if i <= 0 {
        0
    } else if section_marker(ls[i - 1]) != 0 {
        section_marker(ls[i - 1])
    } else {
        open_section(ls, i - 1)
    }
}

/// All the lines among the first `n` that are not marker lines and stand in
/// section `s`, one after another.
pub open spec fn lines_in_section(ls: Seq<Seq<char>>, s: int, n: int) -> Seq<char>
    decreases n,
{
    if n <= 0 {
        seq![]
    } else {
        lines_in_section(ls, s, n - 1) + (if section_marker(ls[n - 1]) == 0 && open_section(
            ls,
            n - 1,
        ) == s {
            ls[n - 1]
        } else {
            seq![]
        })
    }
}

proof fn lemma_upto_by_section(ls: Seq<Seq<char>>, n: int)
    requires
        0 <= n <= ls.len(),
    ensures
        metadata_upto(ls, n) == (
            open_section(ls, n),
            lines_in_section(ls, 1, n),
            lines_in_section(ls, 2, n),
            lines_in_section(ls, 3, n),
        ),
    decreases n,
{
    if n > 0 {
        lemma_upto_by_section(ls, n - 1);
        let l = ls[n - 1];
        if section_marker(l) == 0 {
            let s = open_section(ls, n - 1);
            assert(lines_in_section(ls, 1, n) =~= lines_in_section(ls, 1, n - 1) + (if s == 1 {
                l
            } else {
                seq![]
            }));
            assert(lines_in_section(ls, 2, n) =~= lines_in_section(ls, 2, n - 1) + (if s == 2 {
                l
            } else {
                seq![]
            }));
            assert(lines_in_section(ls, 3, n) =~= lines_in_section(ls, 3, n - 1) + (if s == 3 {
                l
            } else {
                seq![]
            }));
        } else {
            assert(lines_in_section(ls, 1, n) =~= lines_in_section(ls, 1, n - 1));
            assert(lines_in_section(ls, 2, n) =~= lines_in_section(ls, 2, n - 1));
            assert(lines_in_section(ls, 3, n) =~= lines_in_section(ls, 3, n - 1));
        }
    }
}

/// Each part of a numbered answer is every line of its section, run together
/// and trimmed: the paragraph holds all lines after a `1.` line, the bullets
/// all after a `2.` line and the keywords all after a `3.` line, each up to
/// the next marker line; adding a line to a section appends it to that part.
pub proof fn lemma_parts_are_section_lines(response: Seq<char>)
    ensures
        ({
            let ls = lines(response);
            let n = ls.len() as int;
            metadata_sections(response) == (
                trim(lines_in_section(ls, 1, n)),
                trim(lines_in_section(ls, 2, n)),
                trim(lines_in_section(ls, 3, n)),
            )
        }),
{
    let ls = lines(response);
    lemma_upto_by_section(ls, ls.len() as int);
}

/// One more line that is not a marker, in the section open at its place,
/// is appended whole to that section's text.
pub proof fn lemma_line_appends_to_section(ls: Seq<Seq<char>>, n: int, s: int)
    requires
        0 <= n < ls.len(),
        section_marker(ls[n]) == 0,
        open_section(ls, n) == s,
    ensures
        lines_in_section(ls, s, n + 1) == lines_in_section(ls, s, n) + ls[n],
        metadata_upto(ls, n + 1).0 == s,
        s == 1 ==> metadata_upto(ls, n + 1).1 == metadata_upto(ls, n).1 + ls[n],
        s == 2 ==> metadata_upto(ls, n + 1).2 == metadata_upto(ls, n).2 + ls[n],
        s == 3 ==> metadata_upto(ls, n + 1).3 == metadata_upto(ls, n).3 + ls[n],
{
    lemma_upto_by_section(ls, n);
    lemma_upto_by_section(ls, n + 1);
}

/// Whether `l` begins with the digit `d` and a dot.
fn starts_with_marker(l: &Vec<char>, d: char) -> (r: bool)
    ensures
        r == starts_with2(l@, d, '.'),
{
    l.len() >= 2 && l[0] == d && l[1] == '.'
}

/// Splits a numbered answer into (paragraph, bullets, keywords).
pub fn parse_metadata(response: &str) -> (r: (String, String, String))
    ensures
        (r.0@, r.1@, r.2@) == metadata_sections(response@),
{
    let text = chars_of(response);
    let ls = split_lines(&text);
    let ghost gl = lines(response@);
    let mut paragraph: Vec<char> = Vec::new();
    let mut bullets: Vec<char> = Vec::new();
    let mut keywords: Vec<char> = Vec::new();
    let mut current_section: u8 = 0;
    let mut i: usize = 0;
    assert(crate::text::views(ls@).len() == ls@.len());
    while i < ls.len()
        invariant
            i <= ls.len(),
            crate::text::views(ls@) == gl,
            gl.len() == ls.len(),
            metadata_upto(gl, i as int) == (
                current_section as int,
                paragraph@,
                bullets@,
                keywords@,
            ),
        decreases ls.len() - i,
    {
        let line = &ls[i];
        assert(gl[i as int] == line@);
        if starts_with_marker(line, '1') {
            current_section = 1;
        } else if starts_with_marker(line, '2') {
            current_section = 2;
        } else if starts_with_marker(line, '3') {
            current_section = 3;
        } else if starts_with_marker(line, '4') {
            current_section = 4;
        } else {
            if current_section == 1 {
                push_all(&mut paragraph, line);
            } else if current_section == 2 {
                push_all(&mut bullets, line);
            } else if current_section == 3 {
                push_all(&mut keywords, line);
            }
        }
        i += 1;
    }
    let p = trim_chars(&paragraph);
    let b = trim_chars(&bullets);
    let k = trim_chars(&keywords);
    (string_of(&p), string_of(&b), string_of(&k))
}

}
