//! Registers a new source file in a CMake build script by a targeted,
//! line-oriented edit.
//!
//! Strategies, first applicable wins: the entry is already present (no
//! change); a marker pair (insert right above the end marker); a
//! `target_sources(` block (insert under its `PRIVATE` label, or add that
//! label); otherwise a new, marker-delimited block is appended and the caller
//! is warned that the script's structure was not recognised.

use vstd::prelude::*;
use vstd::utf8::{
    decode_utf8, encode_utf8, encode_utf8_decode_utf8, encode_utf8_valid_utf8, valid_utf8,
};
use crate::text::{
    chars_of, contains, contains_exec, is_space, join_lines, join_lines_exec, lemma_contains_line,
    lemma_join_len, lemma_join_lines_of, lemma_lines_nonempty, lines_of, lines_view, occurs_at,
    split_lines, string_of, total_len,
};
use crate::scanner::{
    block_end, find_block_end, find_first, first_in, has_kind, indent_end, indent_of, indent_width,
    leading_whitespace_width, lemma_block_end_from, lemma_first_in, lemma_indent_width, LineKind,
    BEGIN_MARKER, CLOSING, END_MARKER, PRIVATE_LABEL,
};

verus! {

/// The statement that opens an appended block.
pub const APPENDED_OPENING: &'static str = "target_sources(${PROJECT_NAME}";

/// One level of indentation.
pub open spec fn step() -> Seq<char> {
    seq![' ', ' ', ' ', ' ']
}

/// The end marker that closes the first begin marker, if there is one.
pub open spec fn marker_end(ls: Seq<Seq<char>>) -> Option<int> {
    match first_in(ls, LineKind::BeginMarker, 0, ls.len() as int) {
        Some(b) => first_in(ls, LineKind::EndMarker, b + 1, ls.len() as int),
        None => None,
    }
}

/// The first line that opens a source-list statement.
pub open spec fn opening(ls: Seq<Seq<char>>) -> Option<int> {
    first_in(ls, LineKind::Opening, 0, ls.len() as int)
}

/// The `PRIVATE` label inside the block opened on line `o`.
pub open spec fn label_in_block(ls: Seq<Seq<char>>, o: int) -> Option<int> {
    first_in(ls, LineKind::PrivateLabel, o + 1, block_end(ls, o))
}

/// Where the entries under the label on line `p` stop, `end` being the block's end.
pub open spec fn section_end(ls: Seq<Seq<char>>, p: int, end: int) -> int {
    match first_in(ls, LineKind::SectionStop, p + 1, end) {
        Some(q) => q,
        None => end,
    }
}

/// The first entry under the label on line `p`, looked for up to and
/// including line `q` (where the new entry goes): a line there that closes
/// the block but also holds an entry counts; blank lines do not.
pub open spec fn sibling(ls: Seq<Seq<char>>, p: int, q: int) -> Option<int> {
    first_in(ls, LineKind::Entry, p + 1, if q < ls.len() { q + 1 } else { ls.len() as int })
}

/// Indentation for an entry under the label on line `p`, inserted at line `q`:
/// that of the first entry under the label, or one step past the label where
/// it has none.
pub open spec fn entry_indent(ls: Seq<Seq<char>>, p: int, q: int) -> Seq<char> {
    match sibling(ls, p, q) {
        Some(j) => indent_of(ls[j]),
        None => indent_of(ls[p]) + step(),
    }
}

/// The block appended when the script has no recognisable structure.
pub open spec fn appended_block(e: Seq<char>) -> Seq<Seq<char>> {
    seq![
        APPENDED_OPENING@,
        step() + PRIVATE_LABEL@,
        step() + step() + BEGIN_MARKER@,
        step() + step() + e,
        step() + step() + END_MARKER@,
        CLOSING@,
    ]
}

/// The script has a marker pair or a source-list statement.
pub open spec fn recognized(ls: Seq<Seq<char>>) -> bool {
    marker_end(ls) is Some || opening(ls) is Some
}

/// The lines after registering `e`, by the first strategy that applies.
pub open spec fn edited_lines(ls: Seq<Seq<char>>, e: Seq<char>) -> Seq<Seq<char>> {
    match marker_end(ls) {
        Some(m) => ls.insert(m, indent_of(ls[m]) + e),
        None => match opening(ls) {
            Some(o) => match label_in_block(ls, o) {
                Some(p) => {
                    let q = section_end(ls, p, block_end(ls, o));
                    ls.insert(q, entry_indent(ls, p, q) + e)
                },
                None => {
                    let base = indent_of(ls[o]) + step();
                    ls.insert(o + 1, base + PRIVATE_LABEL@).insert(o + 2, base + step() + e)
                },
            },
            None => ls + appended_block(e),
        },
    }
}

/// The text after registering `e` in `t`; `t` itself where `e` is present.
pub open spec fn injected(t: Seq<char>, e: Seq<char>) -> Seq<char> {
    if contains(t, e) {
        t
    } else {
        join_lines(edited_lines(lines_of(t), e))
    }
}

/// What an injection did.
#[derive(Debug)]
pub enum Injection {
    /// The entry already appears in the script.
    NoChangeNeeded,
    /// The entry was registered in the script's existing structure.
    Updated(String),
    /// No structure was recognised: a new block holding the entry was
    /// appended. The caller should warn about it.
    AppendedWithWarning(String),
}

/// `r` is the outcome of registering `e` in the text `t`.
pub open spec fn injection_of(r: Injection, t: Seq<char>, e: Seq<char>) -> bool {
    match r {
        Injection::NoChangeNeeded => contains(t, e),
        Injection::Updated(s) => !contains(t, e) && recognized(lines_of(t)) && s@ == injected(t, e),
        Injection::AppendedWithWarning(s) => !contains(t, e) && !recognized(lines_of(t)) && s@
            == injected(t, e),
    }
}

/// Why a script could not be edited.
#[derive(Debug, PartialEq, Eq)]
pub enum InjectionError {
    /// The script is not UTF-8 text.
    NotText,
}

fn concat(a: &Vec<char>, b: &Vec<char>) -> (r: Vec<char>)
    ensures
        r@ == a@ + b@,
{
    let mut r: Vec<char> = Vec::new();
    for i in 0..a.len()
        invariant
            r@ == a@.take(i as int),
    {
        r.push(a[i]);
        assert(r@ =~= a@.take(i + 1));
    }
    for i in 0..b.len()
        invariant
            r@ == a@ + b@.take(i as int),
    {
        r.push(b[i]);
        assert(r@ =~= a@ + b@.take(i + 1));
    }
    assert(a@.take(a@.len() as int) =~= a@);
    assert(b@.take(b@.len() as int) =~= b@);
    r
}

fn indent_prefix(line: &Vec<char>) -> (r: Vec<char>)
    ensures
        r@ == indent_of(line@),
{
    let w = leading_whitespace_width(line);
    proof {
        lemma_indent_width(line@);
    }
    let mut r: Vec<char> = Vec::new();
    for i in 0..w
        invariant
            w <= line@.len(),
            r@ == line@.take(i as int),
    {
        r.push(line[i]);
        assert(r@ =~= line@.take(i + 1));
    }
    r
}

fn step_chars() -> (r: Vec<char>)
    ensures
        r@ == step(),
{
    let r = vec![' ', ' ', ' ', ' '];
    assert(r@ =~= step());
    r
}

/// Applies the first strategy that fits; also says whether the script's
/// structure was recognised.
fn edit_lines(lines: Vec<Vec<char>>, e: &Vec<char>) -> (r: (Vec<Vec<char>>, bool))
    requires
        total_len(lines_view(lines@)) <= usize::MAX,
    ensures
        lines_view(r.0@) == edited_lines(lines_view(lines@), e@),
        r.1 == recognized(lines_view(lines@)),
{
    let ghost ls = lines_view(lines@);
    let mut lines = lines;
    let n = lines.len();
    let begin = find_first(&lines, LineKind::BeginMarker, 0, n);
    proof {
        lemma_first_in(ls, LineKind::BeginMarker, 0, n as int);
    }
    let end_marker = match begin {
        Some(b) => find_first(&lines, LineKind::EndMarker, b + 1, n),
        None => None,
    };
    if let Some(m) = end_marker {
        proof {
            lemma_first_in(ls, LineKind::EndMarker, begin.unwrap() + 1, n as int);
        }
        let line = concat(&indent_prefix(&lines[m]), e);
        lines.insert(m, line);
        assert(lines_view(lines@) =~= ls.insert(m as int, indent_of(ls[m as int]) + e@));
        return (lines, true);
    }
    assert(marker_end(ls) is None);
    let open = find_first(&lines, LineKind::Opening, 0, n);
    proof {
        lemma_first_in(ls, LineKind::Opening, 0, n as int);
    }
    match open {
        Some(o) => {
            let end = find_block_end(&lines, o);
            proof {
                lemma_block_end_from(ls, o as int, 0);
            }
            let label = find_first(&lines, LineKind::PrivateLabel, o + 1, end);
            match label {
                Some(p) => {
                    proof {
                        lemma_first_in(ls, LineKind::PrivateLabel, o + 1, end as int);
                        lemma_first_in(ls, LineKind::SectionStop, p + 1, end as int);
                    }
                    let q = match find_first(&lines, LineKind::SectionStop, p + 1, end) {
                        Some(q) => q,
                        None => end,
                    };
                    let to = if q < n {
                        q + 1
                    } else {
                        n
                    };
                    proof {
                        lemma_first_in(ls, LineKind::Entry, p + 1, to as int);
                    }
                    let indent = match find_first(&lines, LineKind::Entry, p + 1, to) {
                        Some(j) => indent_prefix(&lines[j]),
                        None => concat(&indent_prefix(&lines[p]), &step_chars()),
                    };
                    let line = concat(&indent, e);
                    lines.insert(q, line);
                    assert(lines_view(lines@) =~= ls.insert(
                        q as int,
                        entry_indent(ls, p as int, q as int) + e@,
                    ));
                },
                None => {
                    let base = concat(&indent_prefix(&lines[o]), &step_chars());
                    let label_line = concat(&base, &chars_of(PRIVATE_LABEL));
                    let entry_line = concat(&concat(&base, &step_chars()), e);
                    let ghost once = ls.insert(o + 1, label_line@);
                    lines.insert(o + 1, label_line);
                    assert(lines_view(lines@) =~= once);
                    assert(o + 2 <= lines.len());
                    lines.insert(o + 2, entry_line);
                    assert(lines_view(lines@) =~= once.insert(o + 2, entry_line@));
                },
            }
            (lines, true)
        },
        None => {
            let s = step_chars();
            let ss = concat(&s, &s);
            lines.push(chars_of(APPENDED_OPENING));
            lines.push(concat(&s, &chars_of(PRIVATE_LABEL)));
            lines.push(concat(&ss, &chars_of(BEGIN_MARKER)));
            lines.push(concat(&ss, e));
            lines.push(concat(&ss, &chars_of(END_MARKER)));
            lines.push(chars_of(CLOSING));
            assert(lines_view(lines@) =~= ls + appended_block(e@));
            (lines, false)
        },
    }
}

/// Registers `entry` in the build script `document`.
pub fn inject_text(document: &str, entry: &str) -> (r: Injection)
    ensures
        injection_of(r, document@, entry@),
{
    let t = chars_of(document);
    let e = chars_of(entry);
    if contains_exec(&t, &e) {
        return Injection::NoChangeNeeded;
    }
    let n = t.len();
    let lines = split_lines(&t);
    proof {
        lemma_lines_nonempty(t@);
        lemma_join_lines_of(t@);
        lemma_join_len(lines_of(t@));
        assert(total_len(lines_view(lines@)) <= n);
    }
    let (edited, recognised) = edit_lines(lines, &e);
    let out = string_of(&join_lines_exec(&edited));
    if recognised {
        Injection::Updated(out)
    } else {
        Injection::AppendedWithWarning(out)
    }
}

/// The error `std::str::from_utf8` reports for bytes that are not UTF-8.
#[verifier::external_type_specification]
#[verifier::external_body]
pub struct ExUtf8Error(std::str::Utf8Error);

/// Relies on `std::str::from_utf8`: succeeds exactly on valid UTF-8 and then
/// holds the decoded characters.
#[verifier::external_body]
fn decode_text(bytes: &[u8]) -> (r: Result<&str, std::str::Utf8Error>)
    ensures
        r is Ok <==> valid_utf8(bytes@),
        r matches Ok(s) ==> s@ == decode_utf8(bytes@),
{
    std::str::from_utf8(bytes)
}

/// Registers `entry` in the build script whose bytes are `document`.
/// Fails only where the bytes are not UTF-8 text.
pub fn inject(document: &[u8], entry: &str) -> (r: Result<Injection, InjectionError>)
    ensures
        r is Err <==> !valid_utf8(document@),
        r matches Err(err) ==> err == InjectionError::NotText,
        r matches Ok(i) ==> injection_of(i, decode_utf8(document@), entry@),
{
    match decode_text(document) {
        Ok(text) => Ok(inject_text(text, entry)),
        Err(_) => Err(InjectionError::NotText),
    }
}

/// The index at which the entry's line stands after the edit.
pub open spec fn entry_index(ls: Seq<Seq<char>>) -> int {
    match marker_end(ls) {
        Some(m) => m,
        None => match opening(ls) {
            Some(o) => match label_in_block(ls, o) {
                Some(p) => section_end(ls, p, block_end(ls, o)),
                None => o + 2,
            },
            None => ls.len() as int + 3,
        },
    }
}

/// The whitespace put in front of the entry.
pub open spec fn entry_prefix(ls: Seq<Seq<char>>) -> Seq<char> {
    match marker_end(ls) {
        Some(m) => indent_of(ls[m]),
        None => match opening(ls) {
            Some(o) => match label_in_block(ls, o) {
                Some(p) => entry_indent(ls, p, section_end(ls, p, block_end(ls, o))),
                None => indent_of(ls[o]) + step() + step(),
            },
            None => step() + step(),
        },
    }
}

/// The indentation width the entry's line should have: that of the end
/// marker, of the first entry under the label (blank lines skipped, the
/// line the entry goes above included), or one step past the label
/// (a new label being one step past the opening line, and an appended block's
/// entries two steps in).
pub open spec fn reference_width(ls: Seq<Seq<char>>) -> int {
    match marker_end(ls) {
        Some(m) => indent_width(ls[m]),
        None => match opening(ls) {
            Some(o) => match label_in_block(ls, o) {
                Some(p) => {
                    match sibling(ls, p, section_end(ls, p, block_end(ls, o))) {
                        Some(j) => indent_width(ls[j]),
                        None => indent_width(ls[p]) + 4,
                    }
                },
                None => indent_width(ls[o]) + 8,
            },
            None => 8,
        },
    }
}

/// Where each strategy puts the entry, and what precedes it on its line.
pub proof fn lemma_entry_line(ls: Seq<Seq<char>>, e: Seq<char>)
    ensures
        0 <= entry_index(ls) < edited_lines(ls, e).len(),
        edited_lines(ls, e)[entry_index(ls)] == entry_prefix(ls) + e,
        forall|k: int| 0 <= k < entry_prefix(ls).len() ==> is_space(#[trigger] entry_prefix(ls)[k]),
        entry_prefix(ls).len() == reference_width(ls),
{
    let n = ls.len() as int;
    lemma_first_in(ls, LineKind::BeginMarker, 0, n);
    lemma_first_in(ls, LineKind::Opening, 0, n);
    assert(is_space(' '));
    if let Some(m) = marker_end(ls) {
        let b = first_in(ls, LineKind::BeginMarker, 0, n)->0;
        lemma_first_in(ls, LineKind::EndMarker, b + 1, n);
        ls.insert_ensures(m, indent_of(ls[m]) + e);
        lemma_indent_width(ls[m]);
    } else if let Some(o) = opening(ls) {
        let end = block_end(ls, o);
        lemma_block_end_from(ls, o, 0);
        lemma_first_in(ls, LineKind::PrivateLabel, o + 1, end);
        lemma_indent_width(ls[o]);
        if let Some(p) = label_in_block(ls, o) {
            lemma_first_in(ls, LineKind::SectionStop, p + 1, end);
            let q = section_end(ls, p, end);
            ls.insert_ensures(q, entry_indent(ls, p, q) + e);
            lemma_indent_width(ls[p]);
            let to = if q < n {
                q + 1
            } else {
                n
            };
            lemma_first_in(ls, LineKind::Entry, p + 1, to);
            if let Some(j) = sibling(ls, p, q) {
                lemma_indent_width(ls[j]);
            }
        } else {
            let base = indent_of(ls[o]) + step();
            ls.insert_ensures(o + 1, base + PRIVATE_LABEL@);
            ls.insert(o + 1, base + PRIVATE_LABEL@).insert_ensures(o + 2, base + step() + e);
        }
    } else {
        assert(edited_lines(ls, e)[n + 3] == appended_block(e)[3]);
    }
}

proof fn lemma_indent_end_at(s: Seq<char>, w: int, i: int)
    requires
        0 <= i <= w < s.len(),
        forall|k: int| 0 <= k < w ==> is_space(#[trigger] s[k]),
        !is_space(s[w]),
    ensures
        indent_end(s, i) == w,
    decreases w - i,
{
    if i < w {
        lemma_indent_end_at(s, w, i + 1);
    }
}

/// Injecting the same entry twice changes nothing the second time: the
/// edited script, written back as UTF-8 and read again, already holds the
/// entry, so a second injection reports no change and leaves the text as the
/// first one made it.
pub proof fn lemma_inject_idempotent(document: Seq<u8>, e: Seq<char>)
    requires
        valid_utf8(document),
    ensures
        ({
            let once = injected(decode_utf8(document), e);
            &&& valid_utf8(encode_utf8(once))
            &&& decode_utf8(encode_utf8(once)) == once
            &&& contains(once, e)
            &&& injected(once, e) == once
        }),
{
    let t = decode_utf8(document);
    let once = injected(t, e);
    encode_utf8_valid_utf8(once);
    encode_utf8_decode_utf8(once);
    if !contains(t, e) {
        let ls = lines_of(t);
        let out = edited_lines(ls, e);
        lemma_entry_line(ls, e);
        let k = entry_index(ls);
        let pre = entry_prefix(ls);
        assert(occurs_at(out[k], e, pre.len() as int)) by {
            assert((pre + e).subrange(pre.len() as int, (pre.len() + e.len()) as int) =~= e);
        }
        lemma_contains_line(out, k, e);
    }
}

/// With a begin marker followed by an end marker, the entry goes on a new
/// line right above that end marker, whatever else the script holds; every
/// other line keeps its place and content.
pub proof fn lemma_marker_priority(t: Seq<char>, e: Seq<char>)
    requires
        !contains(t, e),
        marker_end(lines_of(t)) is Some,
    ensures
        ({
            let ls = lines_of(t);
            let m = marker_end(ls)->0;
            let out = edited_lines(ls, e);
            &&& out.len() == ls.len() + 1
            &&& out[m] == indent_of(ls[m]) + e
            &&& has_kind(out[m + 1], LineKind::EndMarker)
            &&& out.take(m) == ls.take(m)
            &&& out.skip(m + 1) == ls.skip(m)
            &&& injected(t, e) == join_lines(out)
        }),
{
    let ls = lines_of(t);
    let m = marker_end(ls)->0;
    let n = ls.len() as int;
    lemma_first_in(ls, LineKind::BeginMarker, 0, n);
    let b = first_in(ls, LineKind::BeginMarker, 0, n)->0;
    lemma_first_in(ls, LineKind::EndMarker, b + 1, n);
    let out = edited_lines(ls, e);
    ls.insert_ensures(m, indent_of(ls[m]) + e);
    assert(out.take(m) =~= ls.take(m));
    assert(out.skip(m + 1) =~= ls.skip(m));
}

/// The entry's line is indented exactly as wide as the line it takes its
/// indentation from: the end marker, the first entry under the label, or the
/// label (or opening line) plus the conventional step. This needs an entry
/// that does not itself begin with whitespace.
pub proof fn lemma_indentation(t: Seq<char>, e: Seq<char>)
    requires
        !contains(t, e),
        e.len() > 0,
        !is_space(e[0]),
    ensures
        ({
            let ls = lines_of(t);
            let out = edited_lines(ls, e);
            &&& 0 <= entry_index(ls) < out.len()
            &&& indent_width(out[entry_index(ls)]) == reference_width(ls)
        }),
{
    let ls = lines_of(t);
    lemma_entry_line(ls, e);
    let pre = entry_prefix(ls);
    let s = pre + e;
    assert forall|k: int| 0 <= k < pre.len() implies is_space(#[trigger] s[k]) by {
        assert(s[k] == pre[k]);
    }
    lemma_indent_end_at(s, pre.len() as int, 0);
}

} // verus!
