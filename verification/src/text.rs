//! Character-level text handling: the views that the parsers of this crate are
//! specified over (whitespace trimming, line and separator splitting, decimal
//! numerals), each with an executable counterpart proved against it.
use vstd::prelude::*;

verus! {

broadcast use vstd::string::group_string_axioms;

// ---------------------------------------------------------------------------
// Specifications
// ---------------------------------------------------------------------------

/// The Unicode `White_Space` property, the set that `char::is_whitespace`
/// (and so `str::trim`) uses.
pub open spec fn is_white_space(c: char) -> bool {
    let u = c as u32;
    ||| 0x09 <= u <= 0x0d
    ||| u == 0x20
    ||| u == 0x85
    ||| u == 0xa0
    ||| u == 0x1680
    ||| 0x2000 <= u <= 0x200a
    ||| u == 0x2028
    ||| u == 0x2029
    ||| u == 0x202f
    ||| u == 0x205f
    ||| u == 0x3000
}

/// `s` without its leading whitespace.
pub open spec fn trim_start(s: Seq<char>) -> Seq<char>
    decreases s.len(),
{
    if s.len() > 0 && is_white_space(s[0]) {
        trim_start(s.drop_first())
    } else {
        s
    }
}

/// `s` without its trailing whitespace.
pub open spec fn trim_end(s: Seq<char>) -> Seq<char>
    decreases s.len(),
{
    if s.len() > 0 && is_white_space(s.last()) {
        trim_end(s.drop_last())
    } else {
        s
    }
}

/// `s` without leading and trailing whitespace (`str::trim`).
pub open spec fn trim(s: Seq<char>) -> Seq<char> {
    trim_end(trim_start(s))
}

/// `s` without every leading occurrence of `c` (`str::trim_start_matches(c)`).
pub open spec fn strip_leading(s: Seq<char>, c: char) -> Seq<char>
    decreases s.len(),
{
    if s.len() > 0 && s[0] == c {
        strip_leading(s.drop_first(), c)
    } else {
        s
    }
}

/// Index of the first `c` in `s`, or `s.len()` when there is none.
pub open spec fn index_of_or_len(s: Seq<char>, c: char) -> int
    decreases s.len(),
{
    if s.len() == 0 {
        0
    } else if s[0] == c {
        0
    } else {
        1 + index_of_or_len(s.drop_first(), c)
    }
}

/// `l` without one trailing carriage return.
pub open spec fn strip_cr(l: Seq<char>) -> Seq<char> {
    if l.len() > 0 && l.last() == '\r' {
        l.drop_last()
    } else {
        l
    }
}

/// The lines of `s` as `str::lines` yields them: split at `\n`, a `\r` right
/// before the `\n` dropped, and no empty line after a final `\n`.
pub open spec fn lines(s: Seq<char>) -> Seq<Seq<char>>
    decreases s.len(),
{
    if s.len() == 0 {
        seq![]
    } else {
        let i = index_of_or_len(s, '\n');
        proof {
            lemma_index_bounds(s, '\n');
        }
        if i >= s.len() {
            seq![s]
        } else {
            seq![strip_cr(s.subrange(0, i))] + lines(s.subrange(i + 1, s.len() as int))
        }
    }
}

/// The pieces of `s` between occurrences of `sep`, as `str::split(sep)`
/// yields them (an empty `s` gives one empty piece).
pub open spec fn split_on(s: Seq<char>, sep: char) -> Seq<Seq<char>>
    decreases s.len(),
{
    let i = index_of_or_len(s, sep);
    proof {
        lemma_index_bounds(s, sep);
    }
    if i >= s.len() {
        seq![s]
    } else {
        seq![s.subrange(0, i)] + split_on(s.subrange(i + 1, s.len() as int), sep)
    }
}

/// Whether `s` begins with the two characters `a`, `b`.
pub open spec fn starts_with2(s: Seq<char>, a: char, b: char) -> bool {
    s.len() >= 2 && s[0] == a && s[1] == b
}

/// The views of a sequence of character vectors.
pub open spec fn views(v: Seq<Vec<char>>) -> Seq<Seq<char>> {
    v.map_values(|l: Vec<char>| l@)
}

/// The views of a sequence of strings.
pub open spec fn string_views(v: Seq<String>) -> Seq<Seq<char>> {
    v.map_values(|l: String| l@)
}

/// The ASCII digit for `d < 10`.
pub open spec fn digit_char(d: nat) -> char {
    (48 + d) as char
}

/// The decimal numeral of `n`, without leading zeros.
pub open spec fn decimal(n: nat) -> Seq<char>
    decreases n,
{
    if n < 10 {
        seq![digit_char(n)]
    } else {
        decimal(n / 10) + seq![digit_char(n % 10)]
    }
}

// ---------------------------------------------------------------------------
// Lemmas
// ---------------------------------------------------------------------------

/// When `c` does not occur in `pre` and `rest` is empty or begins with `c`,
/// the first `c` of `pre + rest` is at `pre.len()`.
pub proof fn lemma_index_after_prefix(pre: Seq<char>, rest: Seq<char>, c: char)
    requires
        forall|k: int| 0 <= k < pre.len() ==> pre[k] != c,
        rest.len() == 0 || rest[0] == c,
    ensures
        index_of_or_len(pre + rest, c) == pre.len(),
    decreases pre.len(),
{
    if pre.len() == 0 {
        assert(pre + rest =~= rest);
    } else {
        assert((pre + rest).drop_first() =~= pre.drop_first() + rest);
        lemma_index_after_prefix(pre.drop_first(), rest, c);
    }
}

/// `index_of_or_len` lies within `0..=s.len()`.
pub proof fn lemma_index_bounds(s: Seq<char>, c: char)
    ensures
        0 <= index_of_or_len(s, c) <= s.len(),
        index_of_or_len(s, c) < s.len() ==> s[index_of_or_len(s, c)] == c,
        forall|k: int| 0 <= k < index_of_or_len(s, c) ==> s[k] != c,
    decreases s.len(),
{
    if s.len() > 0 && s[0] != c {
        lemma_index_bounds(s.drop_first(), c);
        assert forall|k: int| 0 <= k < index_of_or_len(s, c) implies s[k] != c by {
            if k > 0 {
                assert(s[k] == s.drop_first()[k - 1]);
            }
        }
    }
}

/// One step of `lines` over a line-in-progress `cur` that holds no `\n`.
pub proof fn lemma_lines_step(cur: Seq<char>, rest: Seq<char>)
    requires
        forall|k: int| 0 <= k < cur.len() ==> cur[k] != '\n',
    ensures
        rest.len() == 0 ==> lines(cur + rest) == (if cur.len() == 0 {
            Seq::<Seq<char>>::empty()
        } else {
            seq![cur]
        }),
        rest.len() > 0 && rest[0] == '\n' ==> lines(cur + rest) == seq![strip_cr(cur)] + lines(
            rest.drop_first(),
        ),
{
    let s = cur + rest;
    if rest.len() == 0 || rest[0] == '\n' {
        lemma_index_after_prefix(cur, rest, '\n');
    }
    if rest.len() == 0 {
        assert(s =~= cur);
    } else if rest[0] == '\n' {
        assert(s.subrange(0, cur.len() as int) =~= cur);
        assert(s.subrange(cur.len() as int + 1, s.len() as int) =~= rest.drop_first());
    }
}

/// One step of `split_on` over a piece-in-progress `cur` that holds no `sep`.
pub proof fn lemma_split_step(cur: Seq<char>, rest: Seq<char>, sep: char)
    requires
        forall|k: int| 0 <= k < cur.len() ==> cur[k] != sep,
    ensures
        rest.len() == 0 ==> split_on(cur + rest, sep) == seq![cur],
        rest.len() > 0 && rest[0] == sep ==> split_on(cur + rest, sep) == seq![cur] + split_on(
            rest.drop_first(),
            sep,
        ),
{
    let s = cur + rest;
    if rest.len() == 0 || rest[0] == sep {
        lemma_index_after_prefix(cur, rest, sep);
    }
    if rest.len() == 0 {
        assert(s =~= cur);
    } else if rest[0] == sep {
        assert(s.subrange(0, cur.len() as int) =~= cur);
        assert(s.subrange(cur.len() as int + 1, s.len() as int) =~= rest.drop_first());
    }
}

/// `trim` leaves no whitespace at either end.
pub proof fn lemma_trim_ends(s: Seq<char>)
    ensures
        trim(s).len() > 0 ==> !is_white_space(trim(s)[0]) && !is_white_space(trim(s).last()),
        trim(s).len() <= s.len(),
{
    lemma_trim_start_shape(s);
    lemma_trim_end_shape(trim_start(s));
}

/// `trim_start` removes a prefix and leaves no leading whitespace.
pub proof fn lemma_trim_start_shape(s: Seq<char>)
    ensures
        trim_start(s).len() <= s.len(),
        trim_start(s) =~= s.subrange(s.len() - trim_start(s).len(), s.len() as int),
        trim_start(s).len() > 0 ==> !is_white_space(trim_start(s)[0]),
    decreases s.len(),
{
    if s.len() > 0 && is_white_space(s[0]) {
        lemma_trim_start_shape(s.drop_first());
    }
}

/// `trim_end` removes a suffix and leaves no trailing whitespace; it keeps a
/// first character that is not whitespace.
pub proof fn lemma_trim_end_shape(s: Seq<char>)
    ensures
        trim_end(s).len() <= s.len(),
        trim_end(s) =~= s.subrange(0, trim_end(s).len() as int),
        trim_end(s).len() > 0 ==> !is_white_space(trim_end(s).last()),
        s.len() > 0 && !is_white_space(s[0]) ==> trim_end(s).len() > 0,
    decreases s.len(),
{
    if s.len() > 0 && is_white_space(s.last()) {
        lemma_trim_end_shape(s.drop_last());
    }
}

/// `c` does not occur in `s`.
pub open spec fn no_char(s: Seq<char>, c: char) -> bool {
    forall|k: int| 0 <= k < s.len() ==> s[k] != c
}

/// No line of `s` holds a `\n`.
pub proof fn lemma_lines_no_newline(s: Seq<char>)
    ensures
        forall|i: int| 0 <= i < lines(s).len() ==> no_char(#[trigger] lines(s)[i], '\n'),
    decreases s.len(),
{
    if s.len() > 0 {
        lemma_index_bounds(s, '\n');
        let i = index_of_or_len(s, '\n');
        if i < s.len() {
            let rest = s.subrange(i + 1, s.len() as int);
            lemma_lines_no_newline(rest);
            let first = strip_cr(s.subrange(0, i));
            assert(no_char(first, '\n'));
            let ls = lines(s);
            assert(ls == seq![first] + lines(rest));
            assert forall|j: int| 0 <= j < ls.len() implies no_char(#[trigger] ls[j], '\n') by {
                if j > 0 {
                    assert(ls[j] == lines(rest)[j - 1]);
                }
            }
        }
    }
}

/// No piece of `split_on(s, sep)` holds `sep`.
pub proof fn lemma_split_no_sep(s: Seq<char>, sep: char)
    ensures
        forall|i: int| 0 <= i < split_on(s, sep).len() ==> no_char(#[trigger] split_on(s, sep)[i], sep),
    decreases s.len(),
{
    lemma_index_bounds(s, sep);
    let i = index_of_or_len(s, sep);
    if i < s.len() {
        let rest = s.subrange(i + 1, s.len() as int);
        lemma_split_no_sep(rest, sep);
        let ps = split_on(s, sep);
        assert(ps == seq![s.subrange(0, i)] + split_on(rest, sep));
        assert forall|j: int| 0 <= j < ps.len() implies no_char(#[trigger] ps[j], sep) by {
            if j > 0 {
                assert(ps[j] == split_on(rest, sep)[j - 1]);
            }
        }
    }
}

/// `strip_leading` keeps a suffix of `s`.
pub proof fn lemma_strip_leading_suffix(s: Seq<char>, c: char)
    ensures
        strip_leading(s, c).len() <= s.len(),
        strip_leading(s, c) =~= s.subrange(s.len() - strip_leading(s, c).len(), s.len() as int),
    decreases s.len(),
{
    if s.len() > 0 && s[0] == c {
        lemma_strip_leading_suffix(s.drop_first(), c);
    }
}

/// Trimming and dropping leading characters add no character.
pub proof fn lemma_trim_keeps_no_char(s: Seq<char>, c: char, d: char)
    requires
        no_char(s, c),
    ensures
        no_char(trim(s), c),
        no_char(trim(strip_leading(s, d)), c),
{
    lemma_trim_start_shape(s);
    lemma_trim_end_shape(trim_start(s));
    lemma_strip_leading_suffix(s, d);
    let t = strip_leading(s, d);
    assert(no_char(t, c)) by {
        assert forall|k: int| 0 <= k < t.len() implies t[k] != c by {
            assert(t[k] == s[s.len() - t.len() + k]);
        }
    }
    assert(no_char(trim_start(s), c)) by {
        let u = trim_start(s);
        assert forall|k: int| 0 <= k < u.len() implies u[k] != c by {
            assert(u[k] == s[s.len() - u.len() + k]);
        }
    }
    lemma_trim_start_shape(t);
    lemma_trim_end_shape(trim_start(t));
    assert(no_char(trim_start(t), c)) by {
        let u = trim_start(t);
        assert forall|k: int| 0 <= k < u.len() implies u[k] != c by {
            assert(u[k] == t[t.len() - u.len() + k]);
        }
    }
    assert(no_char(trim(s), c)) by {
        let u = trim(s);
        assert forall|k: int| 0 <= k < u.len() implies u[k] != c by {
            assert(u[k] == trim_start(s)[k]);
        }
    }
    assert(no_char(trim(t), c)) by {
        let u = trim(t);
        assert forall|k: int| 0 <= k < u.len() implies u[k] != c by {
            assert(u[k] == trim_start(t)[k]);
        }
    }
}

// ---------------------------------------------------------------------------
// Executable counterparts
// ---------------------------------------------------------------------------

/// The characters of `s`, in order.
pub fn chars_of(s: &str) -> (v: Vec<char>)
    ensures
        v@ == s@,
{
    let mut v: Vec<char> = Vec::new();
    for c in it: s.chars()
        invariant
            v@ == it.seq().take(it.index()),
    {
        v.push(c);
    }
    v
}

/// Appends one character (`String::push`).
#[verifier::external_body]
pub fn push_char(s: &mut String, c: char)
    ensures
        final(s)@ == old(s)@.push(c),
{
    s.push(c);
}

/// A `String` holding exactly the characters of `v`.
pub fn string_of(v: &Vec<char>) -> (s: String)
    ensures
        s@ == v@,
{
    let mut s = String::new();
    let mut i: usize = 0;
    while i < v.len()
        invariant
            i <= v.len(),
            s@ == v@.take(i as int),
        decreases v.len() - i,
    {
        push_char(&mut s, v[i]);
        assert(v@.take(i + 1) =~= v@.take(i as int).push(v@[i as int]));
        i += 1;
    }
    assert(v@.take(v.len() as int) =~= v@);
    s
}

/// `char::is_whitespace`.
pub fn is_white_space_char(c: char) -> (r: bool)
    ensures
        r == is_white_space(c),
{
    let u = c as u32;
    (0x09 <= u && u <= 0x0d) || u == 0x20 || u == 0x85 || u == 0xa0 || u == 0x1680 || (0x2000 <= u
        && u <= 0x200a) || u == 0x2028 || u == 0x2029 || u == 0x202f || u == 0x205f || u == 0x3000
}

/// The characters `v[from..to]`.
pub fn copy_range(v: &Vec<char>, from: usize, to: usize) -> (r: Vec<char>)
    requires
        from <= to <= v.len(),
    ensures
        r@ == v@.subrange(from as int, to as int),
{
    let mut r: Vec<char> = Vec::new();
    let mut i = from;
    while i < to
        invariant
            from <= i <= to <= v.len(),
            r@ == v@.subrange(from as int, i as int),
        decreases to - i,
    {
        r.push(v[i]);
        assert(v@.subrange(from as int, i + 1) =~= v@.subrange(from as int, i as int).push(
            v@[i as int],
        ));
        i += 1;
    }
    r
}

/// `v` without leading and trailing whitespace.
pub fn trim_chars(v: &Vec<char>) -> (r: Vec<char>)
    ensures
        r@ == trim(v@),
{
    let n = v.len();
    let mut i: usize = 0;
    assert(v@.subrange(0, n as int) =~= v@);
    while i < n && is_white_space_char(v[i])
        invariant
            i <= n == v.len(),
            trim_start(v@) == trim_start(v@.subrange(i as int, n as int)),
        decreases n - i,
    {
        assert(v@.subrange(i as int, n as int).drop_first() =~= v@.subrange(i + 1, n as int));
        i += 1;
    }
    assert(trim_start(v@) == v@.subrange(i as int, n as int));
    let mut j: usize = n;
    while j > i && is_white_space_char(v[j - 1])
        invariant
            i <= j <= n == v.len(),
            trim_end(v@.subrange(i as int, n as int)) == trim_end(v@.subrange(i as int, j as int)),
        decreases j,
    {
        assert(v@.subrange(i as int, j as int).drop_last() =~= v@.subrange(i as int, j - 1));
        j -= 1;
    }
    copy_range(v, i, j)
}

/// `v` without every leading `c`.
pub fn strip_leading_chars(v: &Vec<char>, c: char) -> (r: Vec<char>)
    ensures
        r@ == strip_leading(v@, c),
{
    let n = v.len();
    let mut i: usize = 0;
    assert(v@.subrange(0, n as int) =~= v@);
    while i < n && v[i] == c
        invariant
            i <= n == v.len(),
            strip_leading(v@, c) == strip_leading(v@.subrange(i as int, n as int), c),
        decreases n - i,
    {
        assert(v@.subrange(i as int, n as int).drop_first() =~= v@.subrange(i + 1, n as int));
        i += 1;
    }
    copy_range(v, i, n)
}

/// The lines of `v`, as `str::lines` splits them.
pub fn split_lines(v: &Vec<char>) -> (r: Vec<Vec<char>>)
    ensures
        views(r@) == lines(v@),
{
    let n = v.len();
    let mut out: Vec<Vec<char>> = Vec::new();
    let mut cur: Vec<char> = Vec::new();
    let mut i: usize = 0;
    assert(cur@ + v@.subrange(0, n as int) =~= v@);
    assert(views(out@) + lines(v@) =~= lines(v@));
    while i < n
        invariant
            i <= n == v.len(),
            forall|k: int| 0 <= k < cur@.len() ==> cur@[k] != '\n',
            lines(v@) == views(out@) + lines(cur@ + v@.subrange(i as int, n as int)),
        decreases n - i,
    {
        let c = v[i];
        let ghost rest = v@.subrange(i as int, n as int);
        assert(rest.drop_first() =~= v@.subrange(i + 1, n as int));
        if c == '\n' {
            let ghost cur_v = cur@;
            let ghost before = views(out@);
            proof {
                lemma_lines_step(cur_v, rest);
            }
            let mut line = cur;
            if line.len() > 0 && line[line.len() - 1] == '\r' {
                line.pop();
            }
            assert(line@ == strip_cr(cur_v));
            out.push(line);
            assert(views(out@) =~= before.push(strip_cr(cur_v)));
            cur = Vec::new();
            assert(cur@ + v@.subrange(i + 1, n as int) =~= v@.subrange(i + 1, n as int));
        } else {
            let ghost old_cur = cur@;
            cur.push(c);
            assert(cur@ + v@.subrange(i + 1, n as int) =~= old_cur + rest);
        }
        i += 1;
    }
    proof {
        lemma_lines_step(cur@, v@.subrange(n as int, n as int));
        assert(cur@ + v@.subrange(n as int, n as int) =~= cur@);
    }
    if cur.len() > 0 {
        out.push(cur);
    }
    assert(views(out@) =~= lines(v@));
    out
}

/// The pieces of `v` between occurrences of `sep`, as `str::split` yields them.
pub fn split_chars(v: &Vec<char>, sep: char) -> (r: Vec<Vec<char>>)
    ensures
        views(r@) == split_on(v@, sep),
{
    let n = v.len();
    let mut out: Vec<Vec<char>> = Vec::new();
    let mut cur: Vec<char> = Vec::new();
    let mut i: usize = 0;
    assert(cur@ + v@.subrange(0, n as int) =~= v@);
    assert(views(out@) + split_on(v@, sep) =~= split_on(v@, sep));
    while i < n
        invariant
            i <= n == v.len(),
            forall|k: int| 0 <= k < cur@.len() ==> cur@[k] != sep,
            split_on(v@, sep) == views(out@) + split_on(cur@ + v@.subrange(i as int, n as int), sep),
        decreases n - i,
    {
        let c = v[i];
        let ghost rest = v@.subrange(i as int, n as int);
        assert(rest.drop_first() =~= v@.subrange(i + 1, n as int));
        if c == sep {
            let ghost cur_v = cur@;
            let ghost before = views(out@);
            proof {
                lemma_split_step(cur_v, rest, sep);
            }
            out.push(cur);
            assert(views(out@) =~= before.push(cur_v));
            cur = Vec::new();
            assert(cur@ + v@.subrange(i + 1, n as int) =~= v@.subrange(i + 1, n as int));
        } else {
            let ghost old_cur = cur@;
            cur.push(c);
            assert(cur@ + v@.subrange(i + 1, n as int) =~= old_cur + rest);
        }
        i += 1;
    }
    proof {
        lemma_split_step(cur@, v@.subrange(n as int, n as int), sep);
        assert(cur@ + v@.subrange(n as int, n as int) =~= cur@);
    }
    let ghost before = views(out@);
    out.push(cur);
    assert(views(out@) =~= before.push(cur@));
    out
}

/// The decimal numeral of `n`.
pub fn decimal_string(n: u64) -> (r: String)
    ensures
        r@ == decimal(n as nat),
{
    let mut m = n;
    let mut out: Vec<char> = Vec::new();
    while m >= 10
        invariant
            decimal(n as nat) == decimal(m as nat) + out@,
        decreases m,
    {
        let d = (m % 10) as u8;
        let ghost old_out = out@;
        out.insert(0, (48u8 + d) as char);
        assert(decimal(m as nat) == decimal((m / 10) as nat) + seq![digit_char((m % 10) as nat)]);
        assert(out@ =~= seq![digit_char((m % 10) as nat)] + old_out);
        m = m / 10;
    }
    let ghost old_out = out@;
    out.insert(0, (48u8 + m as u8) as char);
    assert(out@ =~= decimal(m as nat) + old_out);
    string_of(&out)
}

/// Appends the characters of `src` to `dst`.
pub fn push_all(dst: &mut Vec<char>, src: &Vec<char>)
    ensures
        final(dst)@ == old(dst)@ + src@,
{
    let mut i: usize = 0;
    while i < src.len()
        invariant
            i <= src.len(),
            dst@ == old(dst)@ + src@.take(i as int),
        decreases src.len() - i,
    {
        dst.push(src[i]);
        assert(src@.take(i + 1) =~= src@.take(i as int).push(src@[i as int]));
        i += 1;
    }
    assert(src@.take(src.len() as int) =~= src@);
}

}
