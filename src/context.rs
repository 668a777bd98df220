//! The project a command works on, and what is read from its build scripts.

use vstd::prelude::*;
use crate::text::{chars_of, eq_exec, lines_of, lines_view, split_lines, string_of};
use crate::scanner::{starts_trimmed, starts_trimmed_exec, trim, trimmed};

verus! {

/// The project a command works on.
#[derive(Debug)]
pub struct Context {
    pub project_name: String,
    /// The project's root directory.
    pub project_path: String,
    /// The template the project was created from, where known.
    pub template_name: Option<String>,
    /// The build configuration.
    pub build_type: String,
}

pub const DEBUG: &'static str = "Debug";

pub const RELEASE: &'static str = "Release";

pub const REL_WITH_DEB_INFO: &'static str = "RelWithDebInfo";

pub const MIN_SIZE_REL: &'static str = "MinSizeRel";

pub const INVALID_BUILD_TYPE: &'static str = "Invalid build type: ";

pub const BUILD_TYPE_HINT: &'static str = ". Use one of: Debug, Release, RelWithDebInfo, MinSizeRel";

/// One of the build configurations CMake knows.
pub open spec fn is_build_type(s: Seq<char>) -> bool {
    s == DEBUG@ || s == RELEASE@ || s == REL_WITH_DEB_INFO@ || s == MIN_SIZE_REL@
}

pub open spec fn invalid_build_type_message(s: Seq<char>) -> Seq<char> {
    INVALID_BUILD_TYPE@ + s + BUILD_TYPE_HINT@
}

/// Accepts exactly the four CMake build configurations.
pub fn validate_build_type(build_type: &str) -> (r: Result<(), String>)
    ensures
        r is Ok <==> is_build_type(build_type@),
        r matches Err(m) ==> m@ == invalid_build_type_message(build_type@),
{
    let b = chars_of(build_type);
    if eq_exec(&b, &chars_of(DEBUG)) || eq_exec(&b, &chars_of(RELEASE)) || eq_exec(
        &b,
        &chars_of(REL_WITH_DEB_INFO),
    ) || eq_exec(&b, &chars_of(MIN_SIZE_REL)) {
        return Ok(());
    }
    let mut m = String::from_str(INVALID_BUILD_TYPE);
    m.append(build_type);
    m.append(BUILD_TYPE_HINT);
    Err(m)
}

/// The statement in `src/CMakeLists.txt` that records the project's template.
pub const TEMPLATE_PATTERN: &'static str = r#"set\(JUMAKE_TEMPLATE\s+"([^"]+)"\)"#;

/// The template assumed where none is recorded.
pub const DEFAULT_TEMPLATE: &'static str = "GuiApplication";

/// The text of the first capture group of the leftmost match of `pattern` in
/// `text`, as the `regex` crate finds it; none where the pattern does not
/// compile, does not match, or its first group takes no part in the match.
pub uninterp spec fn regex_first_group(pattern: Seq<char>, text: Seq<char>) -> Option<Seq<char>>;

pub open spec fn opt_view(o: Option<String>) -> Option<Seq<char>> {
    match o {
        Some(s) => Some(s@),
        None => None,
    }
}

/// Relies on `regex::Regex::new`, `Regex::captures` and `Captures::get`: the
/// first capture group of the leftmost match, or none.
#[verifier::external_body]
fn first_group(pattern: &str, text: &str) -> (r: Option<String>)
    ensures
        opt_view(r) == regex_first_group(pattern@, text@),
{
    let re = regex::Regex::new(pattern).ok()?;
    re.captures(text)?.get(1).map(|m| m.as_str().to_string())
}

/// The template named by a captured value, or the default where nothing
/// was captured.
pub fn template_from_capture(captured: Option<String>) -> (r: String)
    ensures
        r@ == match captured {
            Some(c) => c@,
            None => DEFAULT_TEMPLATE@,
        },
{
    match captured {
        Some(c) => c,
        None => String::from_str(DEFAULT_TEMPLATE),
    }
}

/// The template recorded in the text of `src/CMakeLists.txt` (`None` where
/// that file does not exist), or the default.
pub fn determine_template_name(cmake_text: Option<&str>) -> (r: Option<String>)
    ensures
        r matches Some(name) && name@ == match cmake_text {
            Some(t) => match regex_first_group(TEMPLATE_PATTERN@, t@) {
                Some(g) => g,
                None => DEFAULT_TEMPLATE@,
            },
            None => DEFAULT_TEMPLATE@,
        },
{
    match cmake_text {
        Some(t) => Some(template_from_capture(first_group(TEMPLATE_PATTERN, t))),
        None => Some(String::from_str(DEFAULT_TEMPLATE)),
    }
}

/// The statement of the top-level `CMakeLists.txt` that names the project.
pub const PROJECT_STATEMENT: &'static str = "project(";

/// The first index at or after `i` holding `c`.
pub open spec fn first_char(l: Seq<char>, c: char, i: int) -> Option<int>
    decreases l.len() - i,
{
    if i < 0 || i >= l.len() {
        None
    } else if l[i] == c {
        Some(i)
    } else {
        first_char(l, c, i + 1)
    }
}

/// The project name on line `l`: the trimmed text between its first `(` and
/// its first `)`, on a line whose content starts with `project(`.
pub open spec fn name_in_line(l: Seq<char>) -> Option<Seq<char>> {
    if starts_trimmed(l, PROJECT_STATEMENT@) {
        match (first_char(l, '(', 0), first_char(l, ')', 0)) {
            (Some(s), Some(e)) => if s < e {
                Some(trim(l.subrange(s + 1, e)))
            } else {
                None
            },
            _ => None,
        }
    } else {
        None
    }
}

/// The project name on the first line from `i` on that gives one.
pub open spec fn name_from(ls: Seq<Seq<char>>, i: int) -> Option<Seq<char>>
    decreases ls.len() - i,
{
    if i < 0 || i >= ls.len() {
        None
    } else {
        match name_in_line(ls[i]) {
            Some(n) => Some(n),
            None => name_from(ls, i + 1),
        }
    }
}

fn find_char(l: &Vec<char>, c: char) -> (r: Option<usize>)
    ensures
        match r {
            Some(i) => first_char(l@, c, 0) == Some(i as int) && i < l@.len(),
            None => first_char(l@, c, 0) is None,
        },
{
    let mut i: usize = 0;
    while i < l.len()
        invariant
            i <= l@.len(),
            first_char(l@, c, 0) == first_char(l@, c, i as int),
        decreases l@.len() - i,
    {
        if l[i] == c {
            return Some(i);
        }
        i = i + 1;
    }
    None
}

fn name_in_line_exec(l: &Vec<char>) -> (r: Option<Vec<char>>)
    ensures
        match r {
            Some(n) => name_in_line(l@) == Some(n@),
            None => name_in_line(l@) is None,
        },
{
    if !starts_trimmed_exec(l, PROJECT_STATEMENT) {
        return None;
    }
    match (find_char(l, '('), find_char(l, ')')) {
        (Some(s), Some(e)) => {
            if s < e {
                let mut inner: Vec<char> = Vec::new();
                for k in s + 1..e
                    invariant
                        s < e <= l@.len(),
                        inner@ == l@.subrange(s + 1, k as int),
                {
                    inner.push(l[k]);
                    assert(inner@ =~= l@.subrange(s + 1, k + 1));
                }
                Some(trimmed(&inner))
            } else {
                None
            }
        },
        _ => None,
    }
}

/// The project name declared by the text of the top-level `CMakeLists.txt`:
/// found on the first line whose content starts with `project(`.
pub fn project_name_from_cmake(text: &str) -> (r: Option<String>)
    ensures
        opt_view(r) == name_from(lines_of(text@), 0),
{
    let lines = split_lines(&chars_of(text));
    let ghost ls = lines_of(text@);
    let mut i: usize = 0;
    while i < lines.len()
        invariant
            ls == lines_of(text@),
            lines_view(lines@) == ls,
            i <= lines@.len(),
            name_from(ls, 0) == name_from(ls, i as int),
        decreases lines@.len() - i,
    {
        assert(ls[i as int] == lines@[i as int]@);
        if let Some(n) = name_in_line_exec(&lines[i]) {
            return Some(string_of(&n));
        }
        i = i + 1;
    }
    None
}

} // verus!
