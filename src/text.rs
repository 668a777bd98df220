//! Character-sequence helpers shared by the build-script scanner, the source
//! injector and the artifact resolver.

use vstd::prelude::*;

verus! {

/// Unicode `White_Space`: the characters for which `char::is_whitespace` holds.
pub open spec fn is_space(c: char) -> bool {
    let u = c as u32;
    ||| u == 0x20
    ||| 0x09 <= u <= 0x0d
    ||| u == 0x85
    ||| u == 0xa0
    ||| u == 0x1680
    ||| 0x2000 <= u <= 0x200a
    ||| u == 0x2028
    ||| u == 0x2029
    ||| u == 0x202f
    ||| u == 0x205f
    ||| u == 0x3000
}

/// `p` occurs in `s` starting at position `i`.
pub open spec fn occurs_at(s: Seq<char>, p: Seq<char>, i: int) -> bool {
    0 <= i && i + p.len() <= s.len() && s.subrange(i, i + p.len()) == p
}

/// `p` occurs somewhere in `s`.
pub open spec fn contains(s: Seq<char>, p: Seq<char>) -> bool {
    exists|i: int| #[trigger] occurs_at(s, p, i)
}

pub open spec fn starts_with(s: Seq<char>, p: Seq<char>) -> bool {
    occurs_at(s, p, 0)
}

pub open spec fn ends_with(s: Seq<char>, p: Seq<char>) -> bool {
    p.len() <= s.len() && occurs_at(s, p, s.len() - p.len())
}

/// The characters of `s`, in order.
pub fn chars_of(s: &str) -> (r: Vec<char>)
    ensures
        r@ == s@,
{
    let mut r: Vec<char> = Vec::new();
    for c in it: s.chars()
        invariant
            it.seq() == s@,
            r@ == s@.take(it.index()),
    {
        r.push(c);
        assert(r@ == s@.take(it.index() + 1));
    }
    assert(r@ == s@);
    r
}

/// Relies on `FromIterator<char>` for `String`: the string holds the
/// characters in order.
#[verifier::external_body]
pub(crate) fn string_of(v: &Vec<char>) -> (r: String)
    ensures
        r@ == v@,
{
    v.iter().collect()
}

pub fn is_space_char(c: char) -> (r: bool)
    ensures
        r == is_space(c),
{
    let u = c as u32;
    u == 0x20 || (0x09 <= u && u <= 0x0d) || u == 0x85 || u == 0xa0 || u == 0x1680 || (0x2000
        <= u && u <= 0x200a) || u == 0x2028 || u == 0x2029 || u == 0x202f || u == 0x205f || u
        == 0x3000
}

/// Whether `p` occurs in `s` at position `i`.
pub fn occurs_at_exec(s: &Vec<char>, p: &Vec<char>, i: usize) -> (r: bool)
    ensures
        r == occurs_at(s@, p@, i as int),
{
    if i > s.len() || p.len() > s.len() - i {
        return false;
    }
    let n = s.len();
    let mut k: usize = 0;
    while k < p.len()
        invariant
            n == s@.len(),
            i + p@.len() <= s@.len(),
            0 <= k <= p@.len(),
            forall|j: int| 0 <= j < k ==> s@[i + j] == p@[j],
        decreases p@.len() - k,
    {
        if s[i + k] != p[k] {
            assert(s@.subrange(i as int, i + p@.len())[k as int] != p@[k as int]);
            return false;
        }
        k = k + 1;
    }
    assert(s@.subrange(i as int, i + p@.len()) =~= p@);
    true
}

/// Whether `p` occurs anywhere in `s`.
pub fn contains_exec(s: &Vec<char>, p: &Vec<char>) -> (r: bool)
    ensures
        r == contains(s@, p@),
{
    if p.len() > s.len() {
        assert forall|i: int| !occurs_at(s@, p@, i) by {}
        return false;
    }
    let last = s.len() - p.len();
    let mut i: usize = 0;
    loop
        invariant
            last == s@.len() - p@.len(),
            i <= last,
            forall|j: int| 0 <= j < i ==> !occurs_at(s@, p@, j),
        decreases last - i,
    {
        if occurs_at_exec(s, p, i) {
            return true;
        }
        if i == last {
            assert forall|j: int| !occurs_at(s@, p@, j) by {
                if 0 <= j < i {
                }
            }
            return false;
        }
        i = i + 1;
    }
}

pub fn starts_with_exec(s: &Vec<char>, p: &Vec<char>) -> (r: bool)
    ensures
        r == starts_with(s@, p@),
{
    occurs_at_exec(s, p, 0)
}

pub fn ends_with_exec(s: &Vec<char>, p: &Vec<char>) -> (r: bool)
    ensures
        r == ends_with(s@, p@),
{
    if p.len() > s.len() {
        return false;
    }
    occurs_at_exec(s, p, s.len() - p.len())
}

pub fn eq_exec(a: &Vec<char>, b: &Vec<char>) -> (r: bool)
    ensures
        r == (a@ == b@),
{
    if a.len() != b.len() {
        return false;
    }
    let r = occurs_at_exec(a, b, 0);
    assert(a@.subrange(0, a@.len() as int) =~= a@);
    r
}

/// An occurrence of `p` inside an occurrence of `m` is an occurrence in `s`.
pub proof fn lemma_occurs_within(s: Seq<char>, m: Seq<char>, p: Seq<char>, off: int, j: int)
    requires
        occurs_at(s, m, off),
        occurs_at(m, p, j),
    ensures
        occurs_at(s, p, off + j),
{
    assert(s.subrange(off + j, off + j + p.len()) =~= m.subrange(j, j + p.len()));
}

/// The lines of `t`: the pieces between its `'\n'` characters. A text
/// without any `'\n'` is one line; a trailing `'\n'` ends in an empty line.
pub open spec fn lines_of(t: Seq<char>) -> Seq<Seq<char>>
    decreases t.len(),
{
    if t.len() == 0 {
        seq![Seq::empty()]
    } else {
        let ls = lines_of(t.drop_last());
        if t.last() == '\n' {
            ls.push(Seq::empty())
        } else {
            ls.update(ls.len() - 1, ls.last().push(t.last()))
        }
    }
}

/// The lines `ls` joined by `'\n'`.
pub open spec fn join_lines(ls: Seq<Seq<char>>) -> Seq<char>
    decreases ls.len(),
{
    if ls.len() == 0 {
        Seq::empty()
    } else if ls.len() == 1 {
        ls[0]
    } else {
        join_lines(ls.drop_last()) + seq!['\n'] + ls.last()
    }
}

/// The number of characters over all lines, separators not counted.
pub open spec fn total_len(ls: Seq<Seq<char>>) -> int
    decreases ls.len(),
{
    if ls.len() == 0 {
        0
    } else {
        total_len(ls.drop_last()) + ls.last().len()
    }
}

pub open spec fn lines_view(v: Seq<Vec<char>>) -> Seq<Seq<char>> {
    v.map_values(|l: Vec<char>| l@)
}

/// Splits `t` into its lines.
pub fn split_lines(t: &Vec<char>) -> (r: Vec<Vec<char>>)
    ensures
        lines_view(r@) == lines_of(t@),
{
    let mut done: Vec<Vec<char>> = Vec::new();
    let mut cur: Vec<char> = Vec::new();
    assert(t@.take(0) =~= Seq::<char>::empty());
    assert(lines_view(done@).push(cur@) =~= seq![Seq::<char>::empty()]);
    for i in 0..t.len()
        invariant
            lines_view(done@).push(cur@) == lines_of(t@.take(i as int)),
    {
        let c = t[i];
        let ghost before = lines_of(t@.take(i as int));
        assert(t@.take(i + 1).drop_last() =~= t@.take(i as int));
        if c == '\n' {
            done.push(cur);
            cur = Vec::new();
            assert(lines_view(done@).push(cur@) =~= before.push(Seq::empty()));
        } else {
            cur.push(c);
            assert(lines_view(done@).push(cur@) =~= before.update(
                before.len() - 1,
                before.last().push(c),
            ));
        }
    }
    assert(t@.take(t@.len() as int) =~= t@);
    done.push(cur);
    assert(lines_view(done@) =~= lines_of(t@));
    done
}

/// Joins `ls` with `'\n'` between consecutive lines.
pub fn join_lines_exec(ls: &Vec<Vec<char>>) -> (r: Vec<char>)
    ensures
        r@ == join_lines(lines_view(ls@)),
{
    let ghost v = lines_view(ls@);
    let mut out: Vec<char> = Vec::new();
    assert(v.take(0) =~= Seq::<Seq<char>>::empty());
    for i in 0..ls.len()
        invariant
            v == lines_view(ls@),
            out@ == join_lines(v.take(i as int)),
    {
        let ghost before = out@;
        if i > 0 {
            out.push('\n');
        }
        let ghost mid = out@;
        let line = &ls[i];
        for j in 0..line.len()
            invariant
                out@ == mid + line@.take(j as int),
        {
            out.push(line[j]);
            assert(out@ =~= mid + line@.take(j + 1));
        }
        assert(line@.take(line@.len() as int) =~= line@);
        assert(v.take(i + 1).drop_last() =~= v.take(i as int));
        if i == 0 {
            assert(mid =~= Seq::<char>::empty());
            assert(out@ =~= line@);
        } else {
            assert(out@ =~= before + seq!['\n'] + line@);
        }
    }
    assert(v.take(ls@.len() as int) =~= v);
    out
}

pub proof fn lemma_lines_nonempty(t: Seq<char>)
    ensures
        lines_of(t).len() >= 1,
    decreases t.len(),
{
    if t.len() > 0 {
        lemma_lines_nonempty(t.drop_last());
    }
}

/// Splitting and joining again gives back the text.
pub proof fn lemma_join_lines_of(t: Seq<char>)
    ensures
        join_lines(lines_of(t)) == t,
    decreases t.len(),
{
    if t.len() > 0 {
        let p = t.drop_last();
        let ls = lines_of(p);
        lemma_join_lines_of(p);
        lemma_lines_nonempty(p);
        let r = lines_of(t);
        if t.last() == '\n' {
            assert(r.drop_last() =~= ls);
            assert(join_lines(r) =~= t);
        } else if ls.len() == 1 {
            assert(r.len() == 1);
            assert(t =~= p.push(t.last()));
            assert(join_lines(ls) == ls[0]);
            assert(join_lines(r) == r[0]);
            assert(r[0] == ls[0].push(t.last()));
        } else {
            assert(r.drop_last() =~= ls.drop_last());
            assert(join_lines(ls) == join_lines(ls.drop_last()) + seq!['\n'] + ls.last());
            assert(join_lines(r) == join_lines(ls.drop_last()) + seq!['\n'] + r.last());
            assert(r.last() == ls.last().push(t.last()));
            assert(t =~= p.push(t.last()));
            assert(join_lines(r) =~= t);
        }
    }
}

/// Each line occurs in the joined text.
pub proof fn lemma_line_occurs(ls: Seq<Seq<char>>, k: int)
    requires
        0 <= k < ls.len(),
    ensures
        exists|off: int| occurs_at(join_lines(ls), ls[k], off),
    decreases ls.len(),
{
    let j = join_lines(ls);
    if ls.len() == 1 {
        assert(occurs_at(j, ls[k], 0)) by {
            assert(j.subrange(0, ls[k].len() as int) =~= ls[k]);
        }
    } else if k == ls.len() - 1 {
        let off: int = join_lines(ls.drop_last()).len() as int + 1;
        assert(occurs_at(j, ls[k], off)) by {
            assert(j.subrange(off, off + ls[k].len()) =~= ls[k]);
        }
    } else {
        let d = ls.drop_last();
        lemma_line_occurs(d, k);
        let off = choose|off: int| occurs_at(join_lines(d), d[k], off);
        assert(occurs_at(j, ls[k], off)) by {
            assert(j.subrange(off, off + ls[k].len()) =~= join_lines(d).subrange(
                off,
                off + ls[k].len(),
            ));
        }
    }
}

/// What occurs in one line occurs in the joined text.
pub proof fn lemma_contains_line(ls: Seq<Seq<char>>, k: int, p: Seq<char>)
    requires
        0 <= k < ls.len(),
        contains(ls[k], p),
    ensures
        contains(join_lines(ls), p),
{
    lemma_line_occurs(ls, k);
    let off = choose|off: int| occurs_at(join_lines(ls), ls[k], off);
    let j = choose|j: int| occurs_at(ls[k], p, j);
    lemma_occurs_within(join_lines(ls), ls[k], p, off, j);
}

/// The joined text is as long as its lines and the separators together.
pub proof fn lemma_join_len(ls: Seq<Seq<char>>)
    requires
        ls.len() >= 1,
    ensures
        join_lines(ls).len() == total_len(ls) + ls.len() - 1,
    decreases ls.len(),
{
    if ls.len() > 1 {
        lemma_join_len(ls.drop_last());
    } else {
        assert(ls.drop_last().len() == 0);
        assert(total_len(ls.drop_last()) == 0);
    }
}

} // verus!
