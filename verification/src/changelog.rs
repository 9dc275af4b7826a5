//! Locating the newest release section of a changelog and shortening it for
//! inline display.

use vstd::prelude::*;
use vstd::string::StringExecFns;

use crate::text::{
    chars_of, decimal, is_white_space, join_lines, lemma_join_lines_starts_with_first,
    lemma_lines_of_append, lemma_trim_end_shape, lemma_trim_idempotent, lemma_trim_start_append, lemma_join_lines_update_first,
    lemma_lines_are_clean, lemma_lines_of_join_lines, lemma_trim_end_join_lines,
    lemma_trim_of_trim_end, lemma_trim_start_idempotent, has_non_white_space, is_clean_line,
    lemma_trim_start_shape, line_ranges, lines_of, push_decimal, push_range, ranges_text,
    ranges_within, trim, trim_bounds, trim_end, trim_start,
};

verus! {

/// The longest changelog excerpt, in characters, that is shown inline.
pub const MAX_INLINE_CHANGELOG_CHARS: usize = 4096;

/// Whether `t` begins with the version-heading marker `## [`.
pub open spec fn starts_with_heading_marker(t: Seq<char>) -> bool {
    &&& t.len() >= 4
    &&& t[0] == '#'
    &&& t[1] == '#'
    &&& t[2] == ' '
    &&& t[3] == '['
}

/// A line that, trimmed, starts with `## [`: the heading of a release
/// section, such as `## [0.8.26] - 2026-05-09`.
pub open spec fn is_version_heading(line: Seq<char>) -> bool {
    starts_with_heading_marker(trim(line))
}

/// The index of the first version heading among `ls[k..]`, or `ls.len()`
/// when there is none.
pub open spec fn first_heading_from(ls: Seq<Seq<char>>, k: int) -> int
    decreases ls.len() - k,
{
    if k >= ls.len() {
        ls.len() as int
    } else if is_version_heading(ls[k]) {
        k
    } else {
        first_heading_from(ls, k + 1)
    }
}

/// The newest release section of a changelog: the lines from the first
/// version heading up to, not including, the next one (or the end), joined
/// with line feeds and trimmed; `None` when there is no version heading or
/// that text is empty.
pub open spec fn latest_section(content: Seq<char>) -> Option<Seq<char>> {
    let ls = lines_of(content);
    let start = first_heading_from(ls, 0);
    if start >= ls.len() {
        None
    } else {
        let end = first_heading_from(ls, start + 1);
        let section = trim(join_lines(ls.subrange(start, end)));
        if section.len() == 0 {
            None
        } else {
            Some(section)
        }
    }
}

/// Whether the line `v[a..b]` is a version heading.
fn is_heading_at(v: &Vec<char>, a: usize, b: usize) -> (h: bool)
    requires
        a <= b <= v@.len(),
    ensures
        h == is_version_heading(v@.subrange(a as int, b as int)),
{
    let (lo, hi) = trim_bounds(v, a, b);
    let ghost t = v@.subrange(lo as int, hi as int);
    if hi - lo >= 4 {
        assert(t[0] == v@[lo as int] && t[1] == v@[lo + 1] && t[2] == v@[lo + 2] && t[3]
            == v@[lo + 3]);
        v[lo] == '#' && v[lo + 1] == '#' && v[lo + 2] == ' ' && v[lo + 3] == '['
    } else {
        false
    }
}

/// The index of the first version heading among the lines `r[k..]` of `v`.
fn find_heading(v: &Vec<char>, r: &Vec<(usize, usize)>, k: usize) -> (i: usize)
    requires
        k <= r@.len(),
        ranges_within(r@, v@.len()),
    ensures
        i == first_heading_from(ranges_text(v@, r@), k as int),
{
    let ghost ls = ranges_text(v@, r@);
    let mut i = k;
    while i < r.len() && !is_heading_at(v, r[i].0, r[i].1)
        invariant
            k <= i <= r@.len(),
            ls == ranges_text(v@, r@),
            ranges_within(r@, v@.len()),
            first_heading_from(ls, i as int) == first_heading_from(ls, k as int),
        decreases r@.len() - i,
    {
        assert(ls[i as int] == v@.subrange(r@[i as int].0 as int, r@[i as int].1 as int));
        i = i + 1;
    }
    if i < r.len() {
        assert(ls[i as int] == v@.subrange(r@[i as int].0 as int, r@[i as int].1 as int));
    }
    i
}

/// The lines `r[start..end]` of `v` joined with line feeds.
fn join_range(v: &Vec<char>, r: &Vec<(usize, usize)>, start: usize, end: usize) -> (j: Vec<char>)
    requires
        start <= end <= r@.len(),
        ranges_within(r@, v@.len()),
    ensures
        j@ == join_lines(ranges_text(v@, r@).subrange(start as int, end as int)),
{
    let ghost ls = ranges_text(v@, r@);
    let mut j: Vec<char> = Vec::new();
    let mut k = start;
    while k < end
        invariant
            start <= k <= end <= r@.len(),
            ls == ranges_text(v@, r@),
            ranges_within(r@, v@.len()),
            j@ == join_lines(ls.subrange(start as int, k as int)),
        decreases end - k,
    {
        let ghost before = j@;
        if k > start {
            j.push('\n');
        }
        let (a, b) = r[k];
        let mut i = a;
        while i < b
            invariant
                a <= i <= b <= v@.len(),
                j@ == (if k > start {
                    before + seq!['\n']
                } else {
                    before
                }) + v@.subrange(a as int, i as int),
            decreases b - i,
        {
            j.push(v[i]);
            assert(v@.subrange(a as int, i + 1) =~= v@.subrange(a as int, i as int).push(
                v@[i as int],
            ));
            i = i + 1;
        }
        let ghost next = ls.subrange(start as int, k + 1);
        assert(next.last() == v@.subrange(a as int, b as int));
        assert(next.drop_last() =~= ls.subrange(start as int, k as int));
        if k > start {
            assert(j@ =~= join_lines(next));
        } else {
            assert(before =~= Seq::<char>::empty());
            assert(j@ =~= join_lines(next));
        }
        k = k + 1;
    }
    j
}

/// The newest release section of a changelog: from the first line whose
/// trimmed text starts with `## [` up to the next such line (or the end),
/// joined with line feeds and trimmed.
pub fn extract_latest_changelog_section(content: &str) -> (res: Option<String>)
    ensures
        res is Some <==> latest_section(content@) is Some,
        res matches Some(s) ==> latest_section(content@) == Some(s@),
{
    let v = chars_of(content);
    let r = line_ranges(&v);
    let start = find_heading(&v, &r, 0);
    if start >= r.len() {
        return None;
    }
    let end = find_heading(&v, &r, start + 1);
    proof {
        lemma_first_heading_bounds(ranges_text(v@, r@), start + 1);
    }
    let joined = join_range(&v, &r, start, end);
    let (lo, hi) = trim_bounds(&joined, 0, joined.len());
    assert(joined@.subrange(0, joined@.len() as int) =~= joined@);
    if lo == hi {
        return None;
    }
    let mut s = String::new();
    push_range(&mut s, &joined, lo, hi);
    Some(s)
}

/// `first_heading_from(ls, k)` is the index of the first version heading
/// among `ls[k..]`, or `ls.len()` when there is none.
pub proof fn lemma_first_heading_bounds(ls: Seq<Seq<char>>, k: int)
    requires
        0 <= k <= ls.len(),
    ensures
        k <= first_heading_from(ls, k) <= ls.len(),
        first_heading_from(ls, k) < ls.len() ==> is_version_heading(
            ls[first_heading_from(ls, k)],
        ),
        forall|j: int| k <= j < first_heading_from(ls, k) ==> !is_version_heading(#[trigger] ls[j]),
    decreases ls.len() - k,
{
    if k < ls.len() && !is_version_heading(ls[k]) {
        lemma_first_heading_bounds(ls, k + 1);
    }
}

/// A section that begins with a version heading keeps, once joined and
/// trimmed, the heading's `## [` at its start.
proof fn lemma_section_begins_with_marker(ls: Seq<Seq<char>>)
    requires
        ls.len() > 0,
        is_version_heading(ls[0]),
    ensures
        trim(join_lines(ls)).len() >= 4,
        trim(join_lines(ls)).take(4) == trim(ls[0]).take(4),
{
    let l = ls[0];
    let j = join_lines(ls);
    lemma_join_lines_starts_with_first(ls);
    let rest = j.skip(l.len() as int);
    assert(j =~= l + rest);
    lemma_trim_start_shape(l);
    let ts = trim_start(l);
    let i = l.len() - ts.len();
    assert(ts[0] == l[i]);
    lemma_trim_start_append(l, rest, i);
    let a = trim_start(j);
    assert(a == ts + rest);
    lemma_trim_end_shape(ts);
    assert(!is_white_space(ts[3]));
    assert(trim(l) == trim_end(ts));
    assert(trim_end(ts).len() > 3);
    assert(trim_end(ts)[3] == ts[3]);
    lemma_trim_end_shape(a);
    assert(a[3] == ts[3]);
    assert(trim_end(a).len() > 3);
    assert forall|k: int| 0 <= k < 4 implies trim(j)[k] == trim(l)[k] by {
        assert(trim(j)[k] == a[k]);
        assert(a[k] == ts[k]);
        assert(trim(l)[k] == ts[k]);
    }
    assert(trim(j).take(4) =~= trim(l).take(4));
}

/// A changelog has a newest release section exactly when one of its lines
/// is a version heading; that section then starts with `## [` and carries
/// no leading or trailing white space.
pub proof fn law_section_exists_iff_heading(content: Seq<char>)
    ensures
        latest_section(content) is Some <==> exists|k: int|
            0 <= k < lines_of(content).len() && is_version_heading(
                #[trigger] lines_of(content)[k],
            ),
        latest_section(content) matches Some(s) ==> starts_with_heading_marker(s) && trim(s)
            == s,
{
    let ls = lines_of(content);
    lemma_first_heading_bounds(ls, 0);
    let start = first_heading_from(ls, 0);
    if start < ls.len() {
        lemma_first_heading_bounds(ls, start + 1);
        let end = first_heading_from(ls, start + 1);
        let part = ls.subrange(start, end);
        assert(part[0] == ls[start]);
        lemma_section_begins_with_marker(part);
        let t = trim(join_lines(part));
        assert(t[0] == t.take(4)[0] && t[1] == t.take(4)[1] && t[2] == t.take(4)[2] && t[3]
            == t.take(4)[3]);
        lemma_trim_idempotent(join_lines(part));
    }
}

/// `s` is the text of the lines `ls[start..end]`, joined with line feeds
/// and trimmed, where `ls[start]` is the first version heading of `ls` and
/// `ls[end]`, if there is one, the next.
pub open spec fn spans_first_release(
    ls: Seq<Seq<char>>,
    start: int,
    end: int,
    s: Seq<char>,
) -> bool {
    &&& 0 <= start < end <= ls.len()
    &&& is_version_heading(ls[start])
    &&& (forall|k: int| 0 <= k < start ==> !is_version_heading(#[trigger] ls[k]))
    &&& (forall|k: int| start < k < end ==> !is_version_heading(#[trigger] ls[k]))
    &&& (end == ls.len() || is_version_heading(ls[end]))
    &&& s == trim(join_lines(ls.subrange(start, end)))
}

/// The newest release section is the text of the lines from the first
/// version heading up to the next version heading or the end, joined with
/// line feeds and trimmed; no line before it and none inside it after its
/// first line is a version heading.
pub proof fn law_section_spans_first_release(content: Seq<char>)
    ensures
        latest_section(content) matches Some(s) ==> exists|start: int, end: int|
            #[trigger] spans_first_release(lines_of(content), start, end, s),
{
    let ls = lines_of(content);
    lemma_first_heading_bounds(ls, 0);
    let start = first_heading_from(ls, 0);
    if start < ls.len() {
        lemma_first_heading_bounds(ls, start + 1);
        let end = first_heading_from(ls, start + 1);
        if let Some(s) = latest_section(content) {
            assert(spans_first_release(ls, start, end, s));
        }
    }
}


/// Searching `a + b` for a version heading past the end of `a` searches `b`.
proof fn lemma_first_heading_shift(a: Seq<Seq<char>>, b: Seq<Seq<char>>, j: int)
    requires
        0 <= j,
    ensures
        first_heading_from(a + b, a.len() + j) == a.len() + first_heading_from(b, j),
    decreases b.len() - j,
{
    if j < b.len() {
        assert((a + b)[a.len() + j] == b[j]);
        lemma_first_heading_shift(a, b, j + 1);
    }
}

/// Searching `a + b` from `k` finds nothing in `a` when `a` holds no version
/// heading.
proof fn lemma_first_heading_skips(a: Seq<Seq<char>>, b: Seq<Seq<char>>, k: int)
    requires
        0 <= k <= a.len(),
        forall|i: int| 0 <= i < a.len() ==> !is_version_heading(#[trigger] a[i]),
    ensures
        first_heading_from(a + b, k) == a.len() + first_heading_from(b, 0),
    decreases a.len() - k,
{
    if k == a.len() {
        lemma_first_heading_shift(a, b, 0);
    } else {
        assert((a + b)[k] == a[k]);
        lemma_first_heading_skips(a, b, k + 1);
    }
}

/// Text before the first version heading does not change the newest release
/// section: prefixing a changelog with whole lines none of which is a
/// version heading leaves it as it was.
pub proof fn law_text_before_first_heading_is_ignored(prefix: Seq<char>, content: Seq<char>)
    requires
        prefix.len() == 0 || prefix.last() == '\n',
        forall|k: int|
            0 <= k < lines_of(prefix).len() ==> !is_version_heading(#[trigger] lines_of(prefix)[k]),
    ensures
        latest_section(prefix + content) == latest_section(content),
{
    let a = lines_of(prefix);
    let b = lines_of(content);
    lemma_lines_of_append(prefix, content);
    let ls = lines_of(prefix + content);
    assert(ls == a + b);
    lemma_first_heading_skips(a, b, 0);
    lemma_first_heading_bounds(b, 0);
    let start = first_heading_from(b, 0);
    if start < b.len() {
        lemma_first_heading_shift(a, b, start + 1);
        lemma_first_heading_bounds(b, start + 1);
        let end = first_heading_from(b, start + 1);
        assert(ls.subrange(a.len() + start, a.len() + end) =~= b.subrange(start, end));
    }
}

/// Searching `a + b` from `k` within `a` finds the heading that `a` holds
/// from `k` on, or else the first one of `b`.
proof fn lemma_first_heading_append(a: Seq<Seq<char>>, b: Seq<Seq<char>>, k: int)
    requires
        0 <= k <= a.len(),
    ensures
        first_heading_from(a + b, k) == if first_heading_from(a, k) < a.len() {
            first_heading_from(a, k)
        } else {
            a.len() + first_heading_from(b, 0)
        },
    decreases a.len() - k,
{
    if k == a.len() {
        lemma_first_heading_shift(a, b, 0);
    } else {
        assert((a + b)[k] == a[k]);
        lemma_first_heading_append(a, b, k + 1);
    }
}

/// Everything from the next version heading on is outside the newest release
/// section: appending, to a changelog that ends with a line feed and has a
/// release section, text whose first line is a version heading leaves that
/// section as it was.
pub proof fn law_text_from_next_heading_is_excluded(changelog: Seq<char>, rest: Seq<char>)
    requires
        changelog.len() == 0 || changelog.last() == '\n',
        latest_section(changelog) is Some,
        lines_of(rest).len() > 0,
        is_version_heading(lines_of(rest)[0]),
    ensures
        latest_section(changelog + rest) == latest_section(changelog),
{
    let a = lines_of(changelog);
    let b = lines_of(rest);
    lemma_lines_of_append(changelog, rest);
    let ls = lines_of(changelog + rest);
    assert(ls == a + b);
    lemma_first_heading_bounds(a, 0);
    let start = first_heading_from(a, 0);
    lemma_first_heading_append(a, b, 0);
    lemma_first_heading_bounds(a, start + 1);
    lemma_first_heading_append(a, b, start + 1);
    assert(first_heading_from(b, 0) == 0);
    let end = first_heading_from(a, start + 1);
    assert(first_heading_from(ls, start + 1) == end);
    assert(ls.subrange(start, end) =~= a.subrange(start, end));
}

/// Extracting again from an extracted section gives it back: for a
/// changelog without carriage returns, the newest release section of the
/// newest release section is that section.
pub proof fn law_extracting_again_gives_section_back(content: Seq<char>)
    requires
        forall|i: int| 0 <= i < content.len() ==> #[trigger] content[i] != '\r',
    ensures
        latest_section(content) matches Some(r) ==> latest_section(r) == Some(r),
{
    let ls = lines_of(content);
    lemma_first_heading_bounds(ls, 0);
    let start = first_heading_from(ls, 0);
    if start < ls.len() {
        lemma_first_heading_bounds(ls, start + 1);
        let end = first_heading_from(ls, start + 1);
        lemma_lines_are_clean(content, 0);
        let part = ls.subrange(start, end);
        let l0 = part[0];
        assert(l0 == ls[start]);
        let j = join_lines(part);
        // The heading line holds a non-white-space character where its trim starts.
        lemma_trim_start_shape(l0);
        let l0t = trim_start(l0);
        lemma_trim_end_shape(l0t);
        let m = l0.len() - l0t.len();
        assert(l0t[0] == trim_end(l0t)[0]);
        assert(l0[m] == l0t[0]);
        assert(!is_white_space(l0t[0]));
        // Trimming the start of the joined text trims the start of its first line.
        lemma_join_lines_starts_with_first(part);
        let tail = j.skip(l0.len() as int);
        assert(j =~= l0 + tail);
        lemma_trim_start_append(l0, tail, m);
        let part1 = part.update(0, l0t);
        lemma_join_lines_update_first(part, l0t);
        assert(trim_start(j) == join_lines(part1));
        // Trimming the end cuts the lines back to the last one with content.
        assert(has_non_white_space(part1[0]));
        let k = lemma_trim_end_join_lines(part1);
        let part2 = part1.take(k).push(trim_end(part1[k]));
        let r = trim(j);
        assert(r == join_lines(part2));
        // The cut lines are still clean, and the last one is not empty.
        assert forall|i: int| 0 <= i < part2.len() implies is_clean_line(#[trigger] part2[i]) by {
            let src = part[i];
            assert(src == ls[start + i]);
            assert(is_clean_line(src));
            if i == 0 {
                assert forall|c: int| 0 <= c < l0t.len() implies #[trigger] l0t[c] != '\n' && l0t[c]
                    != '\r' by {
                    assert(l0t[c] == l0[m + c]);
                }
            }
            if i == k {
                let x = part1[k];
                assert(is_clean_line(x));
                lemma_trim_end_shape(x);
                assert forall|c: int| 0 <= c < trim_end(x).len() implies #[trigger] trim_end(x)[c]
                    != '\n' && trim_end(x)[c] != '\r' by {
                    assert(trim_end(x)[c] == x[c]);
                }
            } else {
                assert(part2[i] == part1[i]);
            }
        }
        let xk = part1[k];
        let jk = choose|c: int| 0 <= c < xk.len() && !is_white_space(#[trigger] xk[c]);
        lemma_trim_end_shape(xk);
        assert(part2.last().len() > 0);
        lemma_lines_of_join_lines(part2);
        assert(lines_of(r) == part2);
        // Only the first of the cut lines is a version heading.
        lemma_trim_start_idempotent(l0);
        assert(trim(l0t) == trim(l0));
        assert(is_version_heading(part2[0])) by {
            if k == 0 {
                lemma_trim_of_trim_end(l0t);
            }
        }
        assert forall|i: int| 1 <= i < part2.len() implies !is_version_heading(#[trigger] part2[i]) by {
            assert(part[i] == ls[start + i]);
            assert(!is_version_heading(ls[start + i]));
            if i == k {
                lemma_trim_of_trim_end(part[k]);
            } else {
                assert(part2[i] == part[i]);
            }
        }
        lemma_first_heading_bounds(part2, 1);
        if first_heading_from(part2, 1) < part2.len() {
            assert(is_version_heading(part2[first_heading_from(part2, 1)]));
        }
        assert(part2.subrange(0, part2.len() as int) =~= part2);
        lemma_trim_idempotent(j);
    }
}

/// The inline form of a changelog section: the section itself when it has
/// at most `MAX_INLINE_CHANGELOG_CHARS` characters; otherwise its first
/// `MAX_INLINE_CHANGELOG_CHARS` characters followed by a notice of how many
/// characters were left out.
pub open spec fn inline_section(section: Seq<char>) -> Seq<char> {
    if section.len() <= MAX_INLINE_CHANGELOG_CHARS {
        section
    } else {
        section.take(MAX_INLINE_CHANGELOG_CHARS as int) + "\n\n[... "@ + decimal(
            (section.len() - MAX_INLINE_CHANGELOG_CHARS) as nat,
        ) + " characters omitted from the bundled DeepSeek-TUI changelog]"@
    }
}

/// The inline form of a section always begins with the section's own
/// beginning: a section within the limit is shown whole, and a longer one
/// shows exactly its first `MAX_INLINE_CHANGELOG_CHARS` characters, followed
/// by the notice of how many characters were left out, and nothing else.
pub proof fn law_inline_section_keeps_the_start(section: Seq<char>)
    ensures
        section.len() <= MAX_INLINE_CHANGELOG_CHARS ==> inline_section(section) == section,
        section.len() > MAX_INLINE_CHANGELOG_CHARS ==> {
            &&& section.take(MAX_INLINE_CHANGELOG_CHARS as int).is_prefix_of(
                inline_section(section),
            )
            &&& inline_section(section).skip(MAX_INLINE_CHANGELOG_CHARS as int) == "\n\n[... "@
                + decimal((section.len() - MAX_INLINE_CHANGELOG_CHARS) as nat)
                + " characters omitted from the bundled DeepSeek-TUI changelog]"@
        },
        section.take(
            if section.len() <= MAX_INLINE_CHANGELOG_CHARS {
                section.len() as int
            } else {
                MAX_INLINE_CHANGELOG_CHARS as int
            },
        ).is_prefix_of(inline_section(section)),
{
    if section.len() > MAX_INLINE_CHANGELOG_CHARS {
        let t = section.take(MAX_INLINE_CHANGELOG_CHARS as int);
        let i = inline_section(section);
        assert(t =~= i.subrange(0, t.len() as int));
        assert(i.skip(MAX_INLINE_CHANGELOG_CHARS as int) =~= "\n\n[... "@ + decimal(
            (section.len() - MAX_INLINE_CHANGELOG_CHARS) as nat,
        ) + " characters omitted from the bundled DeepSeek-TUI changelog]"@);
    } else {
        assert(section.take(section.len() as int) =~= section);
        assert(section =~= section.subrange(0, section.len() as int));
    }
}

/// Shortens a changelog section for inline display (see [`inline_section`]).
pub fn inline_changelog_section(section: &str) -> (res: String)
    ensures
        res@ == inline_section(section@),
        section@.len() <= MAX_INLINE_CHANGELOG_CHARS ==> res@ == section@,
        section@.len() > MAX_INLINE_CHANGELOG_CHARS ==> {
            &&& section@.take(MAX_INLINE_CHANGELOG_CHARS as int).is_prefix_of(res@)
            &&& res@.skip(MAX_INLINE_CHANGELOG_CHARS as int) == "\n\n[... "@ + decimal(
                (section@.len() - MAX_INLINE_CHANGELOG_CHARS) as nat,
            ) + " characters omitted from the bundled DeepSeek-TUI changelog]"@
        },
{
    proof {
        law_inline_section_keeps_the_start(section@);
    }
    let v = chars_of(section);
    if v.len() <= MAX_INLINE_CHANGELOG_CHARS {
        return section.to_owned();
    }
    let mut s = String::new();
    push_range(&mut s, &v, 0, MAX_INLINE_CHANGELOG_CHARS);
    s.append("\n\n[... ");
    push_decimal(&mut s, v.len() - MAX_INLINE_CHANGELOG_CHARS);
    s.append(" characters omitted from the bundled DeepSeek-TUI changelog]");
    s
}

} // verus!
