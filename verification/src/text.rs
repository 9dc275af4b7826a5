//! Character-level text primitives with exact specifications: Unicode
//! white space, trimming, line splitting, joining and decimal rendering.

use vstd::prelude::*;

verus! {

/// The Unicode `White_Space` property (PropList.txt), which is what
/// `char::is_whitespace` reports.
pub open spec fn is_white_space(c: char) -> bool {
    let u = c as u32;
    ||| 0x09 <= u <= 0x0D
    ||| u == 0x20
    ||| u == 0x85
    ||| u == 0xA0
    ||| u == 0x1680
    ||| 0x2000 <= u <= 0x200A
    ||| u == 0x2028
    ||| u == 0x2029
    ||| u == 0x202F
    ||| u == 0x205F
    ||| u == 0x3000
}

/// Executable test for [`is_white_space`].
pub fn char_is_white_space(c: char) -> (b: bool)
    ensures
        b == is_white_space(c),
{
    let u = c as u32;
    (0x09 <= u && u <= 0x0D) || u == 0x20 || u == 0x85 || u == 0xA0 || u == 0x1680 || (0x2000
        <= u && u <= 0x200A) || u == 0x2028 || u == 0x2029 || u == 0x202F || u == 0x205F || u
        == 0x3000
}

/// The characters of `s`, in order.
pub fn chars_of(s: &str) -> (v: Vec<char>)
    ensures
        v@ == s@,
{
    let mut v: Vec<char> = Vec::new();
    for c in it: s.chars()
        invariant
            v@ == it.seq().take(it.index() as int),
    {
        v.push(c);
    }
    v
}


/// `s` without its leading white space (`str::trim_start`).
pub open spec fn trim_start(s: Seq<char>) -> Seq<char>
    decreases s.len(),
{
    if s.len() > 0 && is_white_space(s[0]) {
        trim_start(s.drop_first())
    } else {
        s
    }
}

/// `s` without its trailing white space (`str::trim_end`).
pub open spec fn trim_end(s: Seq<char>) -> Seq<char>
    decreases s.len(),
{
    if s.len() > 0 && is_white_space(s.last()) {
        trim_end(s.drop_last())
    } else {
        s
    }
}

/// `s` without leading and trailing white space (`str::trim`).
pub open spec fn trim(s: Seq<char>) -> Seq<char> {
    trim_end(trim_start(s))
}

/// Trimming the start of a text that holds a non-white-space character
/// leaves whatever follows that text untouched.
pub proof fn lemma_trim_start_append(a: Seq<char>, b: Seq<char>, i: int)
    requires
        0 <= i < a.len(),
        !is_white_space(a[i]),
    ensures
        trim_start(a + b) == trim_start(a) + b,
    decreases a.len(),
{
    if is_white_space(a[0]) {
        assert((a + b).drop_first() =~= a.drop_first() + b);
        lemma_trim_start_append(a.drop_first(), b, i - 1);
    }
}

/// What `trim_start` keeps is a suffix of its input that starts with a
/// non-white-space character, and every character it drops is white space.
pub proof fn lemma_trim_start_shape(s: Seq<char>)
    ensures
        trim_start(s).len() <= s.len(),
        trim_start(s) =~= s.skip(s.len() - trim_start(s).len()),
        trim_start(s).len() > 0 ==> !is_white_space(trim_start(s)[0]),
        forall|j: int| 0 <= j < s.len() - trim_start(s).len() ==> is_white_space(#[trigger] s[j]),
    decreases s.len(),
{
    if s.len() > 0 && is_white_space(s[0]) {
        lemma_trim_start_shape(s.drop_first());
        assert forall|j: int| 0 <= j < s.len() - trim_start(s).len() implies is_white_space(
            #[trigger] s[j],
        ) by {
            if j > 0 {
                assert(s[j] == s.drop_first()[j - 1]);
            }
        }
    }
}

/// What `trim_end` keeps is a prefix of its input that ends with a
/// non-white-space character and reaches past every non-white-space one.
pub proof fn lemma_trim_end_shape(s: Seq<char>)
    ensures
        trim_end(s).len() <= s.len(),
        trim_end(s) =~= s.take(trim_end(s).len() as int),
        trim_end(s).len() > 0 ==> !is_white_space(trim_end(s).last()),
        forall|j: int| 0 <= j < s.len() && !is_white_space(s[j]) ==> j < trim_end(s).len(),
    decreases s.len(),
{
    if s.len() > 0 && is_white_space(s.last()) {
        lemma_trim_end_shape(s.drop_last());
        assert forall|j: int| 0 <= j < s.len() && !is_white_space(s[j]) implies j < trim_end(
            s,
        ).len() by {
            assert(j < s.len() - 1);
            assert(s.drop_last()[j] == s[j]);
        }
    }
}

/// Trimming is idempotent: a trimmed text has no white space to remove.
pub proof fn lemma_trim_idempotent(s: Seq<char>)
    ensures
        trim(trim(s)) == trim(s),
{
    let a = trim_start(s);
    let t = trim_end(a);
    lemma_trim_start_shape(s);
    lemma_trim_end_shape(a);
    if t.len() > 0 {
        assert(t[0] == a[0]);
        assert(trim_start(t) == t);
        assert(trim_end(t) == t);
    } else {
        assert(trim_start(t) == t);
        assert(trim_end(t) == t);
    }
}

/// The bounds of the trimmed part of `v[a..b]`.
pub fn trim_bounds(v: &Vec<char>, a: usize, b: usize) -> (r: (usize, usize))
    requires
        a <= b <= v@.len(),
    ensures
        a <= r.0 <= r.1 <= b,
        v@.subrange(r.0 as int, r.1 as int) == trim(v@.subrange(a as int, b as int)),
{
    let ghost s = v@.subrange(a as int, b as int);
    let mut lo = a;
    while lo < b && char_is_white_space(v[lo])
        invariant
            a <= lo <= b <= v@.len(),
            s == v@.subrange(a as int, b as int),
            trim_start(s) == trim_start(v@.subrange(lo as int, b as int)),
        decreases b - lo,
    {
        assert(v@.subrange(lo as int, b as int).drop_first() =~= v@.subrange(
            lo + 1,
            b as int,
        ));
        lo = lo + 1;
    }
    let ghost t = v@.subrange(lo as int, b as int);
    assert(trim_start(t) == t);
    let mut hi = b;
    while hi > lo && char_is_white_space(v[hi - 1])
        invariant
            a <= lo <= hi <= b <= v@.len(),
            t == v@.subrange(lo as int, b as int),
            trim_end(t) == trim_end(v@.subrange(lo as int, hi as int)),
        decreases hi - lo,
    {
        assert(v@.subrange(lo as int, hi as int).drop_last() =~= v@.subrange(
            lo as int,
            hi - 1,
        ));
        hi = hi - 1;
    }
    assert(trim_end(v@.subrange(lo as int, hi as int)) == v@.subrange(lo as int, hi as int));
    (lo, hi)
}


/// The index of the first line feed in `s` at or after `k`, or `s.len()`
/// when there is none.
pub open spec fn next_newline(s: Seq<char>, k: int) -> int
    decreases s.len() - k,
{
    if k >= s.len() {
        s.len() as int
    } else if s[k] == '\n' {
        k
    } else {
        next_newline(s, k + 1)
    }
}

/// `next_newline` finds the first line feed from `k` on.
pub proof fn lemma_next_newline(s: Seq<char>, k: int)
    requires
        0 <= k,
    ensures
        k <= next_newline(s, k) <= s.len() || (k > s.len() && next_newline(s, k) == s.len()),
        next_newline(s, k) < s.len() ==> s[next_newline(s, k)] == '\n',
        forall|j: int| k <= j < next_newline(s, k) ==> s[j] != '\n',
    decreases s.len() - k,
{
    if k < s.len() && s[k] != '\n' {
        lemma_next_newline(s, k + 1);
    }
}

/// A line without the carriage return that ended it before its line feed.
pub open spec fn strip_carriage_return(l: Seq<char>) -> Seq<char> {
    if l.len() > 0 && l.last() == '\r' {
        l.drop_last()
    } else {
        l
    }
}

/// The lines of `s` from position `pos` on, as `str::lines` yields them:
/// split at each line feed, a carriage return right before a line feed
/// dropped, and no empty line after a final line feed.
pub open spec fn lines_from(s: Seq<char>, pos: int) -> Seq<Seq<char>>
    decreases s.len() - pos,
{
    if pos < 0 || pos >= s.len() {
        Seq::empty()
    } else {
        let i = next_newline(s, pos);
        if i >= s.len() {
            seq![s.subrange(pos, s.len() as int)]
        } else {
            proof {
                lemma_next_newline(s, pos);
            }
            seq![strip_carriage_return(s.subrange(pos, i))] + lines_from(s, i + 1)
        }
    }
}

/// The lines of `s` (`str::lines`).
pub open spec fn lines_of(s: Seq<char>) -> Seq<Seq<char>> {
    lines_from(s, 0)
}

/// Every range of `r` is ordered and ends within `n`.
pub open spec fn ranges_within(r: Seq<(usize, usize)>, n: nat) -> bool {
    forall|k: int| 0 <= k < r.len() ==> #[trigger] r[k].0 <= r[k].1 <= n
}

/// Searching for a line feed in `p + c` past the end of `p` searches `c`.
proof fn lemma_next_newline_shift(p: Seq<char>, c: Seq<char>, j: int)
    requires
        0 <= j,
    ensures
        next_newline(p + c, p.len() + j) == p.len() + next_newline(c, j),
    decreases c.len() - j,
{
    if j < c.len() {
        assert((p + c)[p.len() + j] == c[j]);
        if c[j] != '\n' {
            lemma_next_newline_shift(p, c, j + 1);
        }
    }
}

/// The lines of `p + c` from a position past the end of `p` are those of `c`.
proof fn lemma_lines_from_shift(p: Seq<char>, c: Seq<char>, j: int)
    requires
        0 <= j,
    ensures
        lines_from(p + c, p.len() + j) == lines_from(c, j),
    decreases c.len() - j,
{
    let s = p + c;
    let pos = p.len() + j;
    if j < c.len() {
        lemma_next_newline_shift(p, c, j);
        lemma_next_newline(c, j);
        let i = next_newline(c, j);
        if i < c.len() {
            assert(s.subrange(pos, p.len() + i) =~= c.subrange(j, i));
            lemma_lines_from_shift(p, c, i + 1);
            assert(lines_from(s, pos) == seq![strip_carriage_return(c.subrange(j, i))]
                + lines_from(s, p.len() + i + 1));
        } else {
            assert(s.subrange(pos, s.len() as int) =~= c.subrange(j, c.len() as int));
        }
    }
}

/// A line feed that `p` holds at or after `i` is found in `p + c` too.
proof fn lemma_next_newline_prefix(p: Seq<char>, c: Seq<char>, i: int)
    requires
        0 <= i,
        next_newline(p, i) < p.len(),
    ensures
        next_newline(p + c, i) == next_newline(p, i),
    decreases p.len() - i,
{
    assert((p + c)[i] == p[i]);
    if p[i] != '\n' {
        lemma_next_newline_prefix(p, c, i + 1);
    }
}

/// The lines of a text that ends with a line feed, followed by more text,
/// are the lines of the first text followed by those of the second.
pub proof fn lemma_lines_of_append(p: Seq<char>, c: Seq<char>)
    requires
        p.len() == 0 || p.last() == '\n',
    ensures
        lines_of(p + c) == lines_of(p) + lines_of(c),
{
    lemma_lines_from_append(p, c, 0);
}

proof fn lemma_lines_from_append(p: Seq<char>, c: Seq<char>, i: int)
    requires
        p.len() == 0 || p.last() == '\n',
        0 <= i <= p.len(),
    ensures
        lines_from(p + c, i) == lines_from(p, i) + lines_from(c, 0),
    decreases p.len() - i,
{
    if i == p.len() {
        lemma_lines_from_shift(p, c, 0);
        assert(lines_from(p, i) =~= Seq::<Seq<char>>::empty());
        assert(lines_from(p + c, i) =~= lines_from(p, i) + lines_from(c, 0));
    } else {
        lemma_next_newline(p, i);
        let nn = next_newline(p, i);
        if nn == p.len() {
            assert(p[p.len() - 1] == '\n');
            assert(false);
        }
        lemma_next_newline_prefix(p, c, i);
        assert((p + c).subrange(i, nn) =~= p.subrange(i, nn));
        lemma_lines_from_append(p, c, nn + 1);
        assert(lines_from(p + c, i) =~= lines_from(p, i) + lines_from(c, 0));
    }
}

/// The text that a list of (start, end) ranges of `s` denotes.
pub open spec fn ranges_text(s: Seq<char>, r: Seq<(usize, usize)>) -> Seq<Seq<char>> {
    r.map_values(|p: (usize, usize)| s.subrange(p.0 as int, p.1 as int))
}

/// The ranges of the lines of `v`, each without its line ending.
pub fn line_ranges(v: &Vec<char>) -> (r: Vec<(usize, usize)>)
    ensures
        ranges_within(r@, v@.len()),
        ranges_text(v@, r@) == lines_of(v@),
{
    let n = v.len();
    let mut r: Vec<(usize, usize)> = Vec::new();
    let mut pos: usize = 0;
    while pos < n
        invariant
            n == v@.len(),
            pos <= n,
            ranges_within(r@, v@.len()),
            ranges_text(v@, r@) + lines_from(v@, pos as int) == lines_of(v@),
        decreases n - pos,
    {
        let mut i = pos;
        while i < n && v[i] != '\n'
            invariant
                n == v@.len(),
                pos <= i <= n,
                next_newline(v@, i as int) == next_newline(v@, pos as int),
            decreases n - i,
        {
            i = i + 1;
        }
        let ghost old_r = r@;
        if i == n {
            r.push((pos, n));
            assert(lines_from(v@, pos as int) == seq![v@.subrange(pos as int, n as int)]);
            assert(ranges_text(v@, r@) =~= ranges_text(v@, old_r).push(
                v@.subrange(pos as int, n as int),
            ));
            assert(lines_from(v@, n as int) =~= Seq::<Seq<char>>::empty());
            assert(ranges_text(v@, r@) + lines_from(v@, n as int) =~= ranges_text(v@, old_r)
                + lines_from(v@, pos as int));
            pos = n;
        } else {
            let e = if i > pos && v[i - 1] == '\r' {
                i - 1
            } else {
                i
            };
            r.push((pos, e));
            let ghost line = v@.subrange(pos as int, e as int);
            assert(line == strip_carriage_return(v@.subrange(pos as int, i as int))) by {
                if i > pos && v@[i - 1] == '\r' {
                    assert(line =~= v@.subrange(pos as int, i as int).drop_last());
                }
            }
            assert(lines_from(v@, pos as int) == seq![line] + lines_from(v@, i + 1));
            assert(ranges_text(v@, r@) =~= ranges_text(v@, old_r).push(line));
            assert(ranges_text(v@, r@) + lines_from(v@, i + 1) =~= ranges_text(v@, old_r)
                + lines_from(v@, pos as int));
            pos = i + 1;
        }
    }
    assert(lines_from(v@, pos as int) =~= Seq::<Seq<char>>::empty());
    assert(ranges_text(v@, r@) =~= ranges_text(v@, r@) + lines_from(v@, pos as int));
    r
}


/// The lines of `ls` joined with a line feed between each two
/// (`[&str]::join("\n")`).
pub open spec fn join_lines(ls: Seq<Seq<char>>) -> Seq<char>
    decreases ls.len(),
{
    if ls.len() == 0 {
        Seq::empty()
    } else if ls.len() == 1 {
        ls[0]
    } else {
        join_lines(ls.drop_last()) + seq!['\n'] + ls.last()
    }
}

/// A joined list of lines begins with its first line.
pub proof fn lemma_join_lines_starts_with_first(ls: Seq<Seq<char>>)
    requires
        ls.len() > 0,
    ensures
        join_lines(ls).len() >= ls[0].len(),
        join_lines(ls).take(ls[0].len() as int) =~= ls[0],
    decreases ls.len(),
{
    if ls.len() > 1 {
        lemma_join_lines_starts_with_first(ls.drop_last());
        let j = join_lines(ls.drop_last());
        assert(join_lines(ls) == j + seq!['\n'] + ls.last());
        assert forall|i: int| 0 <= i < ls[0].len() implies join_lines(ls)[i] == ls[0][i] by {
            assert(j.take(ls[0].len() as int)[i] == j[i]);
        }
    }
}

/// Appends one character to a `String`: `String::push`, which the
/// standard library documents as appending the given `char` to the end.
#[verifier::external_body]
pub(crate) fn push_char(s: &mut String, c: char)
    ensures
        final(s)@ == old(s)@.push(c),
{
    s.push(c);
}

/// Appends the characters `v[a..b]` to `s`.
pub fn push_range(s: &mut String, v: &Vec<char>, a: usize, b: usize)
    requires
        a <= b <= v@.len(),
    ensures
        final(s)@ == old(s)@ + v@.subrange(a as int, b as int),
{
    let ghost start = s@;
    let mut i = a;
    while i < b
        invariant
            a <= i <= b <= v@.len(),
            s@ == start + v@.subrange(a as int, i as int),
        decreases b - i,
    {
        push_char(s, v[i]);
        assert(v@.subrange(a as int, i + 1) =~= v@.subrange(a as int, i as int).push(v@[i as int]));
        i = i + 1;
    }
}

/// The decimal digit character for `d < 10`.
pub open spec fn digit_char(d: nat) -> char {
    if d == 0 {
        '0'
    } else if d == 1 {
        '1'
    } else if d == 2 {
        '2'
    } else if d == 3 {
        '3'
    } else if d == 4 {
        '4'
    } else if d == 5 {
        '5'
    } else if d == 6 {
        '6'
    } else if d == 7 {
        '7'
    } else if d == 8 {
        '8'
    } else {
        '9'
    }
}

/// The decimal rendering of `n`, as `format!("{}", n)` writes it.
pub open spec fn decimal(n: nat) -> Seq<char>
    decreases n,
{
    if n < 10 {
        seq![digit_char(n)]
    } else {
        decimal(n / 10).push(digit_char(n % 10))
    }
}

fn digit(d: usize) -> (c: char)
    requires
        d < 10,
    ensures
        c == digit_char(d as nat),
{
    match d {
        0 => '0',
        1 => '1',
        2 => '2',
        3 => '3',
        4 => '4',
        5 => '5',
        6 => '6',
        7 => '7',
        8 => '8',
        _ => '9',
    }
}

/// Appends the decimal rendering of `n` to `s`.
pub fn push_decimal(s: &mut String, n: usize)
    ensures
        final(s)@ == old(s)@ + decimal(n as nat),
    decreases n,
{
    if n >= 10 {
        push_decimal(s, n / 10);
    }
    push_char(s, digit(n % 10));
    assert(s@ =~= old(s)@ + decimal(n as nat));
}


/// `s` holds a character that is not white space.
pub open spec fn has_non_white_space(s: Seq<char>) -> bool {
    exists|i: int| 0 <= i < s.len() && !is_white_space(#[trigger] s[i])
}

/// `l` holds neither a line feed nor a carriage return.
pub open spec fn is_clean_line(l: Seq<char>) -> bool {
    forall|i: int| 0 <= i < l.len() ==> #[trigger] l[i] != '\n' && l[i] != '\r'
}

/// Trimming the end of a text that ends with a part holding a
/// non-white-space character touches that part only.
pub proof fn lemma_trim_end_append(a: Seq<char>, b: Seq<char>, i: int)
    requires
        0 <= i < b.len(),
        !is_white_space(b[i]),
    ensures
        trim_end(a + b) == a + trim_end(b),
    decreases b.len(),
{
    if is_white_space(b.last()) {
        assert((a + b).drop_last() =~= a + b.drop_last());
        assert((a + b).last() == b.last());
        lemma_trim_end_append(a, b.drop_last(), i);
    } else {
        assert((a + b).last() == b.last());
    }
}

/// Trailing white space is dropped by `trim_end` whatever precedes it.
pub proof fn lemma_trim_end_white_suffix(a: Seq<char>, w: Seq<char>)
    requires
        forall|i: int| 0 <= i < w.len() ==> is_white_space(#[trigger] w[i]),
    ensures
        trim_end(a + w) == trim_end(a),
    decreases w.len(),
{
    if w.len() == 0 {
        assert(a + w =~= a);
    } else {
        assert((a + w).last() == w.last());
        assert((a + w).drop_last() =~= a + w.drop_last());
        lemma_trim_end_white_suffix(a, w.drop_last());
    }
}

/// `trim_start` removes nothing from its own result.
pub proof fn lemma_trim_start_idempotent(s: Seq<char>)
    ensures
        trim_start(trim_start(s)) == trim_start(s),
{
    lemma_trim_start_shape(s);
}

/// Trimming what `trim_end` left gives the trim of the whole text.
pub proof fn lemma_trim_of_trim_end(x: Seq<char>)
    ensures
        trim(trim_end(x)) == trim(x),
{
    let te = trim_end(x);
    lemma_trim_end_shape(x);
    let w = x.skip(te.len() as int);
    assert(x =~= te + w);
    if has_non_white_space(x) {
        let j = choose|j: int| 0 <= j < x.len() && !is_white_space(#[trigger] x[j]);
        assert(te[j] == x[j]);
        lemma_trim_start_append(te, w, j);
        assert forall|i: int| 0 <= i < w.len() implies is_white_space(#[trigger] w[i]) by {
            assert(w[i] == x[te.len() + i]);
        }
        lemma_trim_end_white_suffix(trim_start(te), w);
    } else {
        if te.len() > 0 {
            assert(te.last() == x[te.len() - 1]);
        }
        lemma_trim_start_shape(x);
        if trim_start(x).len() > 0 {
            assert(trim_start(x)[0] == x[x.len() - trim_start(x).len()]);
        }
        assert(trim_start(te) == te);
        assert(trim_end(trim_start(x)) == trim_start(x));
    }
}

/// Replacing the first of a list of lines replaces the start of their join.
pub proof fn lemma_join_lines_update_first(ls: Seq<Seq<char>>, x: Seq<char>)
    requires
        ls.len() > 0,
    ensures
        join_lines(ls.update(0, x)) == x + join_lines(ls).skip(ls[0].len() as int),
    decreases ls.len(),
{
    lemma_join_lines_starts_with_first(ls);
    if ls.len() == 1 {
        assert(join_lines(ls).skip(ls[0].len() as int) =~= Seq::<char>::empty());
        assert(x + Seq::<char>::empty() =~= x);
    } else {
        let d = ls.drop_last();
        assert(ls.update(0, x).drop_last() =~= d.update(0, x));
        assert(ls.update(0, x).last() == ls.last());
        lemma_join_lines_update_first(d, x);
        lemma_join_lines_starts_with_first(d);
        assert(join_lines(ls).skip(ls[0].len() as int) =~= join_lines(d).skip(
            ls[0].len() as int,
        ) + seq!['\n'] + ls.last());
        assert(join_lines(ls.update(0, x)) =~= x + join_lines(ls).skip(ls[0].len() as int));
    }
}

/// Trimming the end of joined lines cuts the lines back to the last one that
/// holds a non-white-space character, and trims the end of that one.
pub proof fn lemma_trim_end_join_lines(ls: Seq<Seq<char>>) -> (k: int)
    requires
        exists|i: int| 0 <= i < ls.len() && has_non_white_space(#[trigger] ls[i]),
    ensures
        0 <= k < ls.len(),
        has_non_white_space(ls[k]),
        trim_end(join_lines(ls)) == join_lines(ls.take(k).push(trim_end(ls[k]))),
    decreases ls.len(),
{
    let n = ls.len() as int;
    let last = ls[n - 1];
    if has_non_white_space(last) {
        let j = choose|j: int| 0 <= j < last.len() && !is_white_space(#[trigger] last[j]);
        if n == 1 {
            assert(ls.take(0).push(trim_end(last)) =~= seq![trim_end(last)]);
        } else {
            let d = ls.drop_last();
            lemma_trim_end_append(join_lines(d) + seq!['\n'], last, j);
            let t = ls.take(n - 1).push(trim_end(last));
            assert(t.drop_last() =~= d);
            assert(ls.take(n - 1) =~= d);
        }
        n - 1
    } else {
        let d = ls.drop_last();
        let w = seq!['\n'] + last;
        assert forall|i: int| 0 <= i < w.len() implies is_white_space(#[trigger] w[i]) by {
            if i > 0 {
                assert(w[i] == last[i - 1]);
                if !is_white_space(last[i - 1]) {
                    assert(has_non_white_space(last));
                }
            }
        }
        let i0 = choose|i: int| 0 <= i < ls.len() && has_non_white_space(#[trigger] ls[i]);
        assert(i0 < n - 1);
        assert(d[i0] == ls[i0]);
        assert(join_lines(ls) =~= join_lines(d) + w);
        lemma_trim_end_white_suffix(join_lines(d), w);
        let k = lemma_trim_end_join_lines(d);
        assert(d.take(k) =~= ls.take(k));
        k
    }
}

/// The index of the first line feed, found by a search from `k` that
/// passes no other.
proof fn lemma_next_newline_at(s: Seq<char>, k: int, m: int)
    requires
        0 <= k <= m < s.len(),
        s[m] == '\n',
        forall|j: int| k <= j < m ==> s[j] != '\n',
    ensures
        next_newline(s, k) == m,
    decreases m - k,
{
    if k < m {
        lemma_next_newline_at(s, k + 1, m);
    }
}

/// A clean line followed by a line feed is that one line.
proof fn lemma_lines_of_line_with_feed(d: Seq<char>)
    requires
        is_clean_line(d),
    ensures
        lines_of(d + seq!['\n']) == seq![d],
{
    let s = d + seq!['\n'];
    assert forall|j: int| 0 <= j < d.len() implies s[j] != '\n' by {
        assert(s[j] == d[j]);
    }
    lemma_next_newline_at(s, 0, d.len() as int);
    assert(s.subrange(0, d.len() as int) =~= d);
    if d.len() > 0 {
        assert(d.last() == d[d.len() - 1]);
    }
    assert(strip_carriage_return(d) == d);
    assert(lines_from(s, d.len() as int + 1) =~= Seq::<Seq<char>>::empty());
    assert(lines_from(s, 0) =~= seq![d]);
}

/// Clean lines joined, with a final line feed, split back into the same lines.
proof fn lemma_lines_of_join_lines_with_feed(ls: Seq<Seq<char>>)
    requires
        ls.len() > 0,
        forall|i: int| 0 <= i < ls.len() ==> is_clean_line(#[trigger] ls[i]),
    ensures
        lines_of(join_lines(ls) + seq!['\n']) == ls,
    decreases ls.len(),
{
    let n = ls.len() as int;
    if n == 1 {
        lemma_lines_of_line_with_feed(ls[0]);
        assert(seq![ls[0]] =~= ls);
    } else {
        let d = ls.drop_last();
        let p = join_lines(d) + seq!['\n'];
        let q = ls.last() + seq!['\n'];
        assert(join_lines(ls) + seq!['\n'] =~= p + q);
        lemma_lines_of_append(p, q);
        lemma_lines_of_join_lines_with_feed(d);
        lemma_lines_of_line_with_feed(ls.last());
        assert(d + seq![ls.last()] =~= ls);
    }
}

/// Clean lines whose last one is not empty, joined, split back into the
/// same lines.
pub proof fn lemma_lines_of_join_lines(ls: Seq<Seq<char>>)
    requires
        ls.len() > 0,
        ls.last().len() > 0,
        forall|i: int| 0 <= i < ls.len() ==> is_clean_line(#[trigger] ls[i]),
    ensures
        lines_of(join_lines(ls)) == ls,
{
    let n = ls.len() as int;
    let last = ls[n - 1];
    lemma_next_newline(last, 0);
    if next_newline(last, 0) < last.len() {
        assert(last[next_newline(last, 0)] == '\n');
    }
    assert(last.subrange(0, last.len() as int) =~= last);
    assert(lines_of(last) =~= seq![last]);
    if n == 1 {
        assert(seq![last] =~= ls);
    } else {
        let d = ls.drop_last();
        let p = join_lines(d) + seq!['\n'];
        assert(join_lines(ls) =~= p + last);
        lemma_lines_of_append(p, last);
        lemma_lines_of_join_lines_with_feed(d);
        assert(d + seq![last] =~= ls);
    }
}

/// The lines of a text without carriage returns are clean.
pub proof fn lemma_lines_are_clean(s: Seq<char>, pos: int)
    requires
        forall|i: int| 0 <= i < s.len() ==> #[trigger] s[i] != '\r',
    ensures
        forall|k: int|
            0 <= k < lines_from(s, pos).len() ==> is_clean_line(#[trigger] lines_from(s, pos)[k]),
    decreases s.len() - pos,
{
    if 0 <= pos < s.len() {
        lemma_next_newline(s, pos);
        let i = next_newline(s, pos);
        let line = s.subrange(pos, if i >= s.len() {
            s.len() as int
        } else {
            i
        });
        assert forall|j: int| 0 <= j < line.len() implies #[trigger] line[j] != '\n' && line[j]
            != '\r' by {
            assert(line[j] == s[pos + j]);
        }
        if i < s.len() {
            lemma_lines_are_clean(s, i + 1);
            if line.len() > 0 {
                assert(line.last() == line[line.len() - 1]);
            }
            assert(strip_carriage_return(line) == line);
            let ls = lines_from(s, pos);
            assert(ls == seq![line] + lines_from(s, i + 1));
            assert forall|k: int| 0 <= k < ls.len() implies is_clean_line(#[trigger] ls[k]) by {
                if k > 0 {
                    assert(ls[k] == lines_from(s, i + 1)[k - 1]);
                }
            }
        }
    }
}

} // verus!
