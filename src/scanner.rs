//! Line-oriented scanning of a build script: indentation, parenthesis depth
//! and recognition of the lines the injector cares about.

use vstd::prelude::*;
use crate::text::{
    chars_of, eq_exec, is_space, is_space_char, lines_view, starts_with, starts_with_exec,
    total_len,
};

verus! {

/// A line that marks where registered sources begin.
pub const BEGIN_MARKER: &'static str = "# jumake:sources-begin";

/// A line that marks where registered sources end; new entries go right above it.
pub const END_MARKER: &'static str = "# jumake:sources-end";

/// The statement that opens the list of a target's sources.
pub const OPENING: &'static str = "target_sources(";

/// The sub-section label under which new sources are listed.
pub const PRIVATE_LABEL: &'static str = "PRIVATE";

pub const PUBLIC_LABEL: &'static str = "PUBLIC";

pub const INTERFACE_LABEL: &'static str = "INTERFACE";

pub const CLOSING: &'static str = ")";

/// The first index at or after `i` that does not hold whitespace.
pub open spec fn indent_end(l: Seq<char>, i: int) -> int
    decreases l.len() - i,
{
    if 0 <= i < l.len() && is_space(l[i]) {
        indent_end(l, i + 1)
    } else {
        i
    }
}

/// The number of leading whitespace characters of `l`.
pub open spec fn indent_width(l: Seq<char>) -> int {
    indent_end(l, 0)
}

/// The leading whitespace of `l`.
pub open spec fn indent_of(l: Seq<char>) -> Seq<char> {
    l.take(indent_width(l))
}

/// `l` without its leading whitespace.
pub open spec fn trim_start(l: Seq<char>) -> Seq<char> {
    l.skip(indent_width(l))
}

/// The length of `l.take(j)` once trailing whitespace is dropped.
pub open spec fn content_end(l: Seq<char>, j: int) -> int
    decreases j,
{
    if 0 < j <= l.len() && is_space(l[j - 1]) {
        content_end(l, j - 1)
    } else {
        j
    }
}

/// `l` without leading and trailing whitespace.
pub open spec fn trim(l: Seq<char>) -> Seq<char> {
    let t = trim_start(l);
    t.take(content_end(t, t.len() as int))
}

pub proof fn lemma_indent_end(l: Seq<char>, i: int)
    requires
        0 <= i <= l.len(),
    ensures
        i <= indent_end(l, i) <= l.len(),
        forall|k: int| i <= k < indent_end(l, i) ==> is_space(#[trigger] l[k]),
        indent_end(l, i) < l.len() ==> !is_space(l[indent_end(l, i)]),
    decreases l.len() - i,
{
    if i < l.len() && is_space(l[i]) {
        lemma_indent_end(l, i + 1);
    }
}

pub proof fn lemma_indent_width(l: Seq<char>)
    ensures
        0 <= indent_width(l) <= l.len(),
        forall|k: int| 0 <= k < indent_width(l) ==> is_space(#[trigger] l[k]),
        indent_width(l) < l.len() ==> !is_space(l[indent_width(l)]),
{
    lemma_indent_end(l, 0);
}

/// The number of leading whitespace characters of `line`.
pub fn leading_whitespace_width(line: &Vec<char>) -> (r: usize)
    ensures
        r == indent_width(line@),
{
    let mut i: usize = 0;
    while i < line.len() && is_space_char(line[i])
        invariant
            i <= line@.len(),
            indent_end(line@, 0) == indent_end(line@, i as int),
        decreases line@.len() - i,
    {
        i = i + 1;
    }
    i
}

/// `line` without leading and trailing whitespace.
pub fn trimmed(line: &Vec<char>) -> (r: Vec<char>)
    ensures
        r@ == trim(line@),
{
    let start = leading_whitespace_width(line);
    proof {
        lemma_indent_width(line@);
    }
    let ghost t = trim_start(line@);
    let n = line.len();
    let mut end: usize = n - start;
    while end > 0 && is_space_char(line[start + end - 1])
        invariant
            n == line@.len(),
            start + t.len() == line@.len(),
            t == line@.skip(start as int),
            end <= t.len(),
            content_end(t, t.len() as int) == content_end(t, end as int),
        decreases end,
    {
        end = end - 1;
    }
    let mut r: Vec<char> = Vec::new();
    for k in 0..end
        invariant
            n == line@.len(),
            start + t.len() == line@.len(),
            t == line@.skip(start as int),
            end <= t.len(),
            r@ == t.take(k as int),
    {
        r.push(line[start + k]);
        assert(r@ =~= t.take(k + 1));
    }
    r
}

/// Opening parentheses minus closing parentheses.
pub open spec fn paren_delta(l: Seq<char>) -> int
    decreases l.len(),
{
    if l.len() == 0 {
        0
    } else {
        paren_delta(l.drop_last()) + if l.last() == '(' {
            1int
        } else if l.last() == ')' {
            -1int
        } else {
            0int
        }
    }
}

/// Opening parentheses minus closing parentheses on `line`.
pub fn paren_delta_of(line: &Vec<char>) -> (r: i128)
    ensures
        r == paren_delta(line@),
        -line@.len() <= r <= line@.len(),
{
    let mut d: i128 = 0;
    for i in 0..line.len()
        invariant
            d == paren_delta(line@.take(i as int)),
            -i <= d <= i,
    {
        assert(line@.take(i + 1).drop_last() =~= line@.take(i as int));
        let c = line[i];
        if c == '(' {
            d = d + 1;
        } else if c == ')' {
            d = d - 1;
        }
    }
    assert(line@.take(line@.len() as int) =~= line@);
    d
}

/// The kinds of line that the injector looks for.
#[derive(Clone, Copy, Debug, PartialEq, Eq, Structural)]
pub enum LineKind {
    /// The begin marker, alone on its line.
    BeginMarker,
    /// The end marker, alone on its line.
    EndMarker,
    /// A line opening the source-list statement.
    Opening,
    /// A line starting with the `PRIVATE` label.
    PrivateLabel,
    /// A line that ends a label's entries: any label, or the closing parenthesis.
    SectionStop,
    /// A line holding an entry: not blank, and not a line that ends a label's
    /// entries.
    Entry,
}

pub open spec fn starts_trimmed(l: Seq<char>, p: Seq<char>) -> bool {
    starts_with(trim_start(l), p)
}

pub open spec fn has_kind(l: Seq<char>, k: LineKind) -> bool {
    match k {
        LineKind::BeginMarker => trim(l) == BEGIN_MARKER@,
        LineKind::EndMarker => trim(l) == END_MARKER@,
        LineKind::Opening => starts_trimmed(l, OPENING@),
        LineKind::PrivateLabel => starts_trimmed(l, PRIVATE_LABEL@),
        LineKind::SectionStop => ends_section(l),
        LineKind::Entry => indent_width(l) < l.len() && !ends_section(l),
    }
}

/// The line starts with a label or with the closing parenthesis.
pub open spec fn ends_section(l: Seq<char>) -> bool {
    ||| starts_trimmed(l, PRIVATE_LABEL@)
    ||| starts_trimmed(l, PUBLIC_LABEL@)
    ||| starts_trimmed(l, INTERFACE_LABEL@)
    ||| starts_trimmed(l, CLOSING@)
}

fn ends_section_exec(line: &Vec<char>) -> (r: bool)
    ensures
        r == ends_section(line@),
{
    starts_trimmed_exec(line, PRIVATE_LABEL) || starts_trimmed_exec(line, PUBLIC_LABEL)
        || starts_trimmed_exec(line, INTERFACE_LABEL) || starts_trimmed_exec(line, CLOSING)
}

/// Whether `line`, without its leading whitespace, starts with `p`.
pub fn starts_trimmed_exec(line: &Vec<char>, p: &str) -> (r: bool)
    ensures
        r == starts_trimmed(line@, p@),
{
    let start = leading_whitespace_width(line);
    proof {
        lemma_indent_width(line@);
    }
    let n = line.len();
    let mut rest: Vec<char> = Vec::new();
    for k in start..n
        invariant
            n == line@.len(),
            start <= n,
            rest@ == line@.subrange(start as int, k as int),
    {
        rest.push(line[k]);
        assert(rest@ =~= line@.subrange(start as int, k + 1));
    }
    assert(rest@ =~= trim_start(line@));
    starts_with_exec(&rest, &chars_of(p))
}

/// Whether `line` is of kind `k`.
pub fn has_kind_exec(line: &Vec<char>, k: LineKind) -> (r: bool)
    ensures
        r == has_kind(line@, k),
{
    match k {
        LineKind::BeginMarker => eq_exec(&trimmed(line), &chars_of(BEGIN_MARKER)),
        LineKind::EndMarker => eq_exec(&trimmed(line), &chars_of(END_MARKER)),
        LineKind::Opening => starts_trimmed_exec(line, OPENING),
        LineKind::PrivateLabel => starts_trimmed_exec(line, PRIVATE_LABEL),
        LineKind::SectionStop => ends_section_exec(line),
        LineKind::Entry => leading_whitespace_width(line) < line.len() && !ends_section_exec(line),
    }
}

/// The first index in `from..to` whose line is of kind `k`.
pub open spec fn first_in(ls: Seq<Seq<char>>, k: LineKind, from: int, to: int) -> Option<int>
    decreases to - from,
{
    if from < 0 || from >= to || from >= ls.len() {
        None
    } else if has_kind(ls[from], k) {
        Some(from)
    } else {
        first_in(ls, k, from + 1, to)
    }
}

pub open spec fn as_index(o: Option<usize>) -> Option<int> {
    match o {
        Some(i) => Some(i as int),
        None => None,
    }
}

pub proof fn lemma_first_in(ls: Seq<Seq<char>>, k: LineKind, from: int, to: int)
    requires
        0 <= from,
        to <= ls.len(),
    ensures
        first_in(ls, k, from, to) matches Some(i) ==> from <= i < to && has_kind(ls[i], k)
            && forall|j: int| from <= j < i ==> !has_kind(#[trigger] ls[j], k),
        first_in(ls, k, from, to) is None ==> forall|j: int|
            from <= j < to ==> !has_kind(#[trigger] ls[j], k),
    decreases to - from,
{
    if from < to {
        lemma_first_in(ls, k, from + 1, to);
    }
}

/// The first index in `from..to` whose line is of kind `k`.
pub fn find_first(lines: &Vec<Vec<char>>, k: LineKind, from: usize, to: usize) -> (r: Option<
    usize,
>)
    requires
        to <= lines@.len(),
    ensures
        as_index(r) == first_in(lines_view(lines@), k, from as int, to as int),
{
    let ghost ls = lines_view(lines@);
    let mut i = from;
    while i < to
        invariant
            ls == lines_view(lines@),
            to <= lines@.len(),
            from <= i,
            first_in(ls, k, from as int, to as int) == first_in(ls, k, i as int, to as int),
        decreases to - i,
    {
        if has_kind_exec(&lines[i], k) {
            return Some(i);
        }
        i = i + 1;
    }
    None
}

/// The index of the line on which the parenthesis depth, counted from
/// line `j` on with `depth` open before it, drops to zero or below; the
/// number of lines where it never does.
pub open spec fn block_end_from(ls: Seq<Seq<char>>, j: int, depth: int) -> int
    decreases ls.len() - j,
{
    if j < 0 || j >= ls.len() {
        ls.len() as int
    } else if depth + paren_delta(ls[j]) <= 0 {
        j
    } else {
        block_end_from(ls, j + 1, depth + paren_delta(ls[j]))
    }
}

/// Where the block opened on line `o` ends.
pub open spec fn block_end(ls: Seq<Seq<char>>, o: int) -> int {
    block_end_from(ls, o, 0)
}

pub proof fn lemma_block_end_from(ls: Seq<Seq<char>>, j: int, depth: int)
    requires
        0 <= j <= ls.len(),
    ensures
        j <= block_end_from(ls, j, depth) <= ls.len(),
    decreases ls.len() - j,
{
    if j < ls.len() && depth + paren_delta(ls[j]) > 0 {
        lemma_block_end_from(ls, j + 1, depth + paren_delta(ls[j]));
    }
}

pub proof fn lemma_total_len_prefix(ls: Seq<Seq<char>>, j: int)
    requires
        0 <= j <= ls.len(),
    ensures
        0 <= total_len(ls.take(j)) <= total_len(ls),
    decreases ls.len(),
{
    if ls.len() > 0 {
        if j == ls.len() {
            assert(ls.take(j) =~= ls);
            lemma_total_len_prefix(ls.drop_last(), ls.len() - 1);
            assert(ls.drop_last().take(ls.len() - 1) =~= ls.drop_last());
        } else {
            lemma_total_len_prefix(ls.drop_last(), j);
            assert(ls.drop_last().take(j) =~= ls.take(j));
        }
    } else {
        assert(ls.take(j).len() == 0);
    }
}

/// Where the block opened on line `o` ends: the first line from `o` on at
/// which the running parenthesis depth is zero or below.
pub fn find_block_end(lines: &Vec<Vec<char>>, o: usize) -> (r: usize)
    requires
        o < lines@.len(),
        total_len(lines_view(lines@)) <= usize::MAX,
    ensures
        r == block_end(lines_view(lines@), o as int),
{
    let ghost ls = lines_view(lines@);
    let mut j = o;
    let mut depth: i128 = 0;
    proof {
        lemma_total_len_prefix(ls, o as int);
    }
    while j < lines.len()
        invariant
            ls == lines_view(lines@),
            total_len(ls) <= usize::MAX,
            o <= j <= lines@.len(),
            0 <= depth <= total_len(ls.take(j as int)),
            block_end(ls, o as int) == block_end_from(ls, j as int, depth as int),
        decreases lines@.len() - j,
    {
        let d = paren_delta_of(&lines[j]);
        proof {
            assert(ls.take(j + 1).drop_last() =~= ls.take(j as int));
            lemma_total_len_prefix(ls, j + 1);
        }
        if depth + d <= 0 {
            return j;
        }
        depth = depth + d;
        j = j + 1;
    }
    j
}

} // verus!
