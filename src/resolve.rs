//! Picks the runnable artifact of a build among the paths found under the
//! build-output directory.
//!
//! Candidates are filtered by platform and project kind, then ranked: shorter
//! paths first (ties broken by character order), and a path naming the
//! requested build configuration wins over one that does not.

use vstd::prelude::*;
use vstd::utf8::char_u32_cast;
use crate::context::Context;
use crate::text::{chars_of, contains, contains_exec, ends_with, ends_with_exec, eq_exec};

verus! {

/// Suffix of a macOS application bundle.
pub const BUNDLE_SUFFIX: &'static str = ".app";

/// Suffix of a Windows executable.
pub const EXE_SUFFIX: &'static str = ".exe";

/// A plugin build's directly runnable host, matched without regard to ASCII case.
pub const STANDALONE: &'static str = "standalone";

/// The operating-system family the build ran on.
#[derive(Clone, Copy, Debug, PartialEq, Eq, Structural)]
pub enum Platform {
    Linux,
    Windows,
    MacOs,
    Other,
}

/// The template a project was created from.
#[derive(Clone, Copy, Debug, PartialEq, Eq, Structural)]
pub enum ProjectKind {
    GuiApplication,
    ConsoleApp,
    AudioPlugin,
    Unknown,
}

/// A path found under the build-output directory.
#[derive(Clone, Debug)]
pub struct CandidatePath {
    /// The full path.
    pub path: String,
    /// Its last component.
    pub file_name: String,
    pub is_dir: bool,
    /// Some execute permission bit is set (Unix-like systems).
    pub is_executable: bool,
}

/// What to look for.
#[derive(Clone, Debug)]
pub struct ArtifactQuery {
    pub platform: Platform,
    pub kind: ProjectKind,
    pub project_name: String,
    /// The build configuration, such as `Debug` or `Release`.
    pub configuration: String,
}

/// The result of walking the build-output directory.
#[derive(Debug)]
pub enum BuildTree {
    /// The directory does not exist (or is no directory).
    Missing,
    /// Every path found under it.
    Listed(Vec<CandidatePath>),
}

#[derive(Debug)]
pub enum ResolutionError {
    /// There is no build output yet: a build must run first.
    RootMissing,
    /// No path passed the filter.
    NotFound { configuration: String },
}

pub const GUI_APPLICATION: &'static str = "GuiApplication";

pub const CONSOLE_APP: &'static str = "ConsoleApp";

pub const AUDIO_PLUGIN: &'static str = "AudioPlugin";

pub open spec fn kind_named(name: Option<Seq<char>>) -> ProjectKind {
    match name {
        Some(n) => if n == GUI_APPLICATION@ {
            ProjectKind::GuiApplication
        } else if n == CONSOLE_APP@ {
            ProjectKind::ConsoleApp
        } else if n == AUDIO_PLUGIN@ {
            ProjectKind::AudioPlugin
        } else {
            ProjectKind::Unknown
        },
        None => ProjectKind::Unknown,
    }
}

impl ProjectKind {
    /// The kind a template name stands for; `Unknown` for any other name.
    pub fn from_template(name: &str) -> (r: ProjectKind)
        ensures
            r == kind_named(Some(name@)),
    {
        let n = chars_of(name);
        if eq_exec(&n, &chars_of(GUI_APPLICATION)) {
            ProjectKind::GuiApplication
        } else if eq_exec(&n, &chars_of(CONSOLE_APP)) {
            ProjectKind::ConsoleApp
        } else if eq_exec(&n, &chars_of(AUDIO_PLUGIN)) {
            ProjectKind::AudioPlugin
        } else {
            ProjectKind::Unknown
        }
    }
}

impl ArtifactQuery {
    /// The query for the executable of the project `ctx` built on `platform`.
    pub fn for_context(ctx: &Context, platform: Platform) -> (r: ArtifactQuery)
        ensures
            r.platform == platform,
            r.kind == kind_named(match ctx.template_name {
                Some(t) => Some(t@),
                None => None,
            }),
            r.project_name@ == ctx.project_name@,
            r.configuration@ == ctx.build_type@,
    {
        let kind = match &ctx.template_name {
            Some(t) => ProjectKind::from_template(t.as_str()),
            None => ProjectKind::Unknown,
        };
        ArtifactQuery {
            platform,
            kind,
            project_name: ctx.project_name.clone(),
            configuration: ctx.build_type.clone(),
        }
    }
}

/// Bundles are looked for on macOS for every recognised project kind; a
/// project of unknown kind is looked for as a plain executable there too.
pub open spec fn uses_bundles(q: ArtifactQuery) -> bool {
    q.platform == Platform::MacOs && q.kind != ProjectKind::Unknown
}

/// The file name the executable has outside of bundles.
pub open spec fn binary_name(q: ArtifactQuery) -> Seq<char> {
    if q.platform == Platform::Windows {
        q.project_name@ + EXE_SUFFIX@
    } else {
        q.project_name@
    }
}

/// `c` with ASCII upper case mapped to lower case.
pub open spec fn fold(c: char) -> int {
    if 65 <= (c as u32) <= 90 {
        (c as u32) + 32
    } else {
        c as u32 as int
    }
}

pub open spec fn occurs_folded_at(s: Seq<char>, p: Seq<char>, i: int) -> bool {
    0 <= i && i + p.len() <= s.len() && forall|k: int|
        0 <= k < p.len() ==> fold(#[trigger] s[i + k]) == fold(p[k])
}

/// `p` occurs in `s` when ASCII case is ignored.
pub open spec fn contains_folded(s: Seq<char>, p: Seq<char>) -> bool {
    exists|i: int| #[trigger] occurs_folded_at(s, p, i)
}

/// Whether candidate `c` can be the artifact that `q` looks for.
pub open spec fn kept(q: ArtifactQuery, c: CandidatePath) -> bool {
    if uses_bundles(q) {
        &&& ends_with(c.file_name@, BUNDLE_SUFFIX@)
        &&& contains(c.file_name@, q.project_name@)
        &&& q.kind == ProjectKind::AudioPlugin ==> contains_folded(c.path@, STANDALONE@)
    } else {
        &&& c.file_name@ == binary_name(q)
        &&& !c.is_dir
        &&& if q.platform == Platform::Windows {
            ends_with(c.file_name@, EXE_SUFFIX@)
        } else {
            c.is_executable
        }
    }
}

/// `a` precedes `b` in character order (compared for equal lengths).
pub open spec fn lex_le(a: Seq<char>, b: Seq<char>) -> bool
    decreases a.len(),
{
    if a.len() == 0 {
        true
    } else if b.len() == 0 {
        false
    } else if a[0] != b[0] {
        (a[0] as u32) < (b[0] as u32)
    } else {
        lex_le(a.drop_first(), b.drop_first())
    }
}

/// Ranking order: shorter first, then character order.
pub open spec fn ranks_before(a: Seq<char>, b: Seq<char>) -> bool {
    a.len() < b.len() || (a.len() == b.len() && lex_le(a, b))
}

/// The paths that pass the filter.
pub open spec fn pool(q: ArtifactQuery, cs: Seq<CandidatePath>) -> Set<Seq<char>> {
    Set::new(|p: Seq<char>| exists|i: int| 0 <= i < cs.len() && kept(q, cs[i]) && cs[i].path@ == p)
}

/// The paths that pass the filter and name the configuration.
pub open spec fn preferred(q: ArtifactQuery, cs: Seq<CandidatePath>) -> Set<Seq<char>> {
    Set::new(|p: Seq<char>| pool(q, cs).contains(p) && contains(p, q.configuration@))
}

pub open spec fn is_best(p: Seq<char>, s: Set<Seq<char>>) -> bool {
    s.contains(p) && forall|x: Seq<char>| s.contains(x) ==> ranks_before(p, x)
}

/// The first path of `s` in ranking order.
pub open spec fn best(s: Set<Seq<char>>) -> Seq<char> {
    choose|p: Seq<char>| is_best(p, s)
}

/// The path chosen among `cs`: the first in ranking order that names the
/// configuration, else the first of all; none where nothing passes the filter.
pub open spec fn selected(q: ArtifactQuery, cs: Seq<CandidatePath>) -> Option<Seq<char>> {
    if preferred(q, cs) != Set::<Seq<char>>::empty() {
        Some(best(preferred(q, cs)))
    } else if pool(q, cs) != Set::<Seq<char>>::empty() {
        Some(best(pool(q, cs)))
    } else {
        None
    }
}

pub proof fn lemma_lex_total(a: Seq<char>, b: Seq<char>)
    requires
        a.len() == b.len(),
    ensures
        lex_le(a, b) || lex_le(b, a),
        lex_le(a, b) && lex_le(b, a) ==> a == b,
    decreases a.len(),
{
    if a.len() > 0 && a[0] == b[0] {
        lemma_lex_total(a.drop_first(), b.drop_first());
        if lex_le(a, b) && lex_le(b, a) {
            assert(a =~= seq![a[0]] + a.drop_first());
            assert(b =~= seq![b[0]] + b.drop_first());
        }
    } else if a.len() == 0 {
        assert(a =~= b);
    } else {
        char_u32_cast(a[0], a[0] as u32);
        char_u32_cast(b[0], b[0] as u32);
    }
}

pub proof fn lemma_lex_trans(a: Seq<char>, b: Seq<char>, c: Seq<char>)
    requires
        a.len() == b.len() == c.len(),
        lex_le(a, b),
        lex_le(b, c),
    ensures
        lex_le(a, c),
    decreases a.len(),
{
    if a.len() > 0 && a[0] == b[0] && b[0] == c[0] {
        lemma_lex_trans(a.drop_first(), b.drop_first(), c.drop_first());
    }
}

/// The ranking order is total, antisymmetric and transitive.
pub proof fn lemma_ranking_order(a: Seq<char>, b: Seq<char>, c: Seq<char>)
    ensures
        ranks_before(a, b) || ranks_before(b, a),
        ranks_before(a, b) && ranks_before(b, a) ==> a == b,
        ranks_before(a, b) && ranks_before(b, c) ==> ranks_before(a, c),
{
    if a.len() == b.len() {
        lemma_lex_total(a, b);
    }
    if ranks_before(a, b) && ranks_before(b, c) && a.len() == b.len() && b.len() == c.len() {
        lemma_lex_trans(a, b, c);
    }
}

/// A set has at most one first element.
pub proof fn lemma_best_unique(p: Seq<char>, s: Set<Seq<char>>)
    requires
        is_best(p, s),
    ensures
        best(s) == p,
{
    let b = best(s);
    assert(is_best(b, s));
    lemma_ranking_order(p, b, p);
}

fn fold_char(c: char) -> (r: u32)
    ensures
        r == fold(c),
{
    let u = c as u32;
    if 65 <= u && u <= 90 {
        u + 32
    } else {
        u
    }
}

fn occurs_folded_at_exec(s: &Vec<char>, p: &Vec<char>, i: usize) -> (r: bool)
    ensures
        r == occurs_folded_at(s@, p@, i as int),
{
    let n = s.len();
    if i > n || p.len() > n - i {
        return false;
    }
    let mut k: usize = 0;
    while k < p.len()
        invariant
            n == s@.len(),
            i + p@.len() <= n,
            k <= p@.len(),
            forall|j: int| 0 <= j < k ==> fold(#[trigger] s@[i + j]) == fold(p@[j]),
        decreases p@.len() - k,
    {
        if fold_char(s[i + k]) != fold_char(p[k]) {
            return false;
        }
        k = k + 1;
    }
    true
}

fn contains_folded_exec(s: &Vec<char>, p: &Vec<char>) -> (r: bool)
    ensures
        r == contains_folded(s@, p@),
{
    if p.len() > s.len() {
        return false;
    }
    let last = s.len() - p.len();
    let mut i: usize = 0;
    loop
        invariant
            last == s@.len() - p@.len(),
            i <= last,
            forall|j: int| 0 <= j < i ==> !occurs_folded_at(s@, p@, j),
        decreases last - i,
    {
        if occurs_folded_at_exec(s, p, i) {
            return true;
        }
        if i == last {
            assert forall|j: int| !occurs_folded_at(s@, p@, j) by {
                if 0 <= j < i {
                }
            }
            return false;
        }
        i = i + 1;
    }
}

/// Whether `a` comes before `b` in ranking order.
pub fn ranks_before_exec(a: &Vec<char>, b: &Vec<char>) -> (r: bool)
    ensures
        r == ranks_before(a@, b@),
{
    if a.len() != b.len() {
        return a.len() < b.len();
    }
    let n = a.len();
    let mut i: usize = 0;
    assert(a@.skip(0) =~= a@);
    assert(b@.skip(0) =~= b@);
    while i < n
        invariant
            n == a@.len() == b@.len(),
            i <= n,
            lex_le(a@, b@) == lex_le(a@.skip(i as int), b@.skip(i as int)),
        decreases n - i,
    {
        assert(a@.skip(i as int).drop_first() =~= a@.skip(i + 1));
        assert(b@.skip(i as int).drop_first() =~= b@.skip(i + 1));
        if a[i] != b[i] {
            return (a[i] as u32) < (b[i] as u32);
        }
        i = i + 1;
    }
    true
}

/// Whether candidate `c` can be the artifact that `q` looks for.
pub fn keeps(q: &ArtifactQuery, c: &CandidatePath) -> (r: bool)
    ensures
        r == kept(*q, *c),
{
    let name = chars_of(c.file_name.as_str());
    let project = chars_of(q.project_name.as_str());
    let bundles = q.platform == Platform::MacOs && q.kind != ProjectKind::Unknown;
    if bundles {
        ends_with_exec(&name, &chars_of(BUNDLE_SUFFIX)) && contains_exec(&name, &project) && (q.kind
            != ProjectKind::AudioPlugin || contains_folded_exec(
            &chars_of(c.path.as_str()),
            &chars_of(STANDALONE),
        ))
    } else {
        let windows = q.platform == Platform::Windows;
        let mut expected = project;
        if windows {
            let suffix = chars_of(EXE_SUFFIX);
            for i in 0..suffix.len()
                invariant
                    expected@ == q.project_name@ + suffix@.take(i as int),
            {
                expected.push(suffix[i]);
                assert(expected@ =~= q.project_name@ + suffix@.take(i + 1));
            }
            assert(suffix@.take(suffix@.len() as int) =~= suffix@);
        }
        eq_exec(&name, &expected) && !c.is_dir && if windows {
            ends_with_exec(&name, &chars_of(EXE_SUFFIX))
        } else {
            c.is_executable
        }
    }
}

/// The runnable artifact of the build described by `tree`: the first
/// candidate, in ranking order, that passes the filter and names the build
/// configuration, else the first that passes the filter.
pub fn resolve(query: &ArtifactQuery, tree: &BuildTree) -> (r: Result<String, ResolutionError>)
    ensures
        tree is Missing ==> r matches Err(ResolutionError::RootMissing),
        tree matches BuildTree::Listed(cs) ==> match selected(*query, cs@) {
            Some(p) => r matches Ok(s) && s@ == p,
            None => r matches Err(ResolutionError::NotFound { configuration }) && configuration@
                == query.configuration@,
        },
{
    let cs = match tree {
        BuildTree::Missing => {
            return Err(ResolutionError::RootMissing);
        },
        BuildTree::Listed(cs) => cs,
    };
    let ghost q = *query;
    let config = chars_of(query.configuration.as_str());
    let mut all: Option<usize> = None;
    let mut pref: Option<usize> = None;
    for k in 0..cs.len()
        invariant
            q == *query,
            config@ == q.configuration@,
            all matches Some(i) ==> i < k && kept(q, cs@[i as int]) && forall|j: int|
                0 <= j < k && kept(q, #[trigger] cs@[j]) ==> ranks_before(
                    cs@[i as int].path@,
                    cs@[j].path@,
                ),
            all is None ==> forall|j: int| 0 <= j < k ==> !kept(q, #[trigger] cs@[j]),
            pref matches Some(i) ==> i < k && kept(q, cs@[i as int]) && contains(
                cs@[i as int].path@,
                config@,
            ) && forall|j: int|
                0 <= j < k && kept(q, #[trigger] cs@[j]) && contains(cs@[j].path@, config@)
                    ==> ranks_before(cs@[i as int].path@, cs@[j].path@),
            pref is None ==> forall|j: int|
                0 <= j < k ==> !(kept(q, #[trigger] cs@[j]) && contains(cs@[j].path@, config@)),
    {
        let c = &cs[k];
        if keeps(query, c) {
            let path = chars_of(c.path.as_str());
            let take_all = match all {
                None => true,
                Some(i) => !ranks_before_exec(&chars_of(cs[i].path.as_str()), &path),
            };
            if take_all {
                proof {
                    if let Some(i) = all {
                        assert forall|j: int|
                            0 <= j < k + 1 && kept(q, #[trigger] cs@[j]) implies ranks_before(
                            path@,
                            cs@[j].path@,
                        ) by {
                            lemma_ranking_order(path@, cs@[i as int].path@, cs@[j].path@);
                            lemma_ranking_order(path@, path@, path@);
                        }
                    } else {
                        lemma_ranking_order(path@, path@, path@);
                    }
                }
                all = Some(k);
            } else {
                proof {
                    let i = all->0;
                    assert(ranks_before(cs@[i as int].path@, path@));
                }
            }
            if contains_exec(&path, &config) {
                let take_pref = match pref {
                    None => true,
                    Some(i) => !ranks_before_exec(&chars_of(cs[i].path.as_str()), &path),
                };
                if take_pref {
                    proof {
                        if let Some(i) = pref {
                            assert forall|j: int|
                                0 <= j < k + 1 && kept(q, #[trigger] cs@[j]) && contains(
                                    cs@[j].path@,
                                    config@,
                                ) implies ranks_before(path@, cs@[j].path@) by {
                                lemma_ranking_order(path@, cs@[i as int].path@, cs@[j].path@);
                                lemma_ranking_order(path@, path@, path@);
                            }
                        } else {
                            lemma_ranking_order(path@, path@, path@);
                        }
                    }
                    pref = Some(k);
                }
            }
        }
    }
    let ghost all_paths = pool(q, cs@);
    let ghost pref_paths = preferred(q, cs@);
    match pref {
        Some(i) => {
            proof {
                let p = cs@[i as int].path@;
                assert(pref_paths.contains(p));
                assert forall|x: Seq<char>| pref_paths.contains(x) implies ranks_before(p, x) by {
                    let j = choose|j: int|
                        0 <= j < cs@.len() && kept(q, cs@[j]) && cs@[j].path@ == x;
                    assert(kept(q, cs@[j]));
                }
                lemma_best_unique(p, pref_paths);
                assert(pref_paths != Set::<Seq<char>>::empty()) by {
                    assert(!Set::<Seq<char>>::empty().contains(p));
                }
            }
            return Ok(cs[i].path.clone());
        },
        None => {
            proof {
                assert(pref_paths =~= Set::<Seq<char>>::empty());
            }
        },
    }
    match all {
        Some(i) => {
            proof {
                let p = cs@[i as int].path@;
                assert(all_paths.contains(p));
                assert forall|x: Seq<char>| all_paths.contains(x) implies ranks_before(p, x) by {
                    let j = choose|j: int|
                        0 <= j < cs@.len() && kept(q, cs@[j]) && cs@[j].path@ == x;
                    assert(kept(q, cs@[j]));
                }
                lemma_best_unique(p, all_paths);
                assert(all_paths != Set::<Seq<char>>::empty()) by {
                    assert(!Set::<Seq<char>>::empty().contains(p));
                }
            }
            Ok(cs[i].path.clone())
        },
        None => {
            proof {
                assert(all_paths =~= Set::<Seq<char>>::empty());
            }
            Err(ResolutionError::NotFound { configuration: query.configuration.clone() })
        },
    }
}

/// The artifact chosen depends only on which candidates were found, not on
/// the order in which the walk met them: two runs over the same build output
/// pick the same path.
pub proof fn lemma_resolution_order_free(q: ArtifactQuery, a: Seq<CandidatePath>, b: Seq<
    CandidatePath,
>)
    requires
        a.to_set() == b.to_set(),
    ensures
        selected(q, a) == selected(q, b),
{
    assert forall|p: Seq<char>| pool(q, a).contains(p) implies pool(q, b).contains(p) by {
        let i = choose|i: int| 0 <= i < a.len() && kept(q, a[i]) && a[i].path@ == p;
        assert(a.to_set().contains(a[i]));
        assert(b.to_set().contains(a[i]));
        let j = choose|j: int| 0 <= j < b.len() && b[j] == a[i];
        assert(kept(q, b[j]) && b[j].path@ == p);
    }
    assert forall|p: Seq<char>| pool(q, b).contains(p) implies pool(q, a).contains(p) by {
        let i = choose|i: int| 0 <= i < b.len() && kept(q, b[i]) && b[i].path@ == p;
        assert(b.to_set().contains(b[i]));
        assert(a.to_set().contains(b[i]));
        let j = choose|j: int| 0 <= j < a.len() && a[j] == b[i];
        assert(kept(q, a[j]) && a[j].path@ == p);
    }
    assert(pool(q, a) =~= pool(q, b));
    assert(preferred(q, a) =~= preferred(q, b));
}

} // verus!
