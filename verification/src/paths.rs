//! Cache-path resolution: a git identifier and an optional branch are turned
//! into a stable on-disk cache location. The identifier is read as a
//! slash-delimited path; its final segment is the repository's apparent name,
//! the segment before that (if any) disambiguates repositories that share a
//! name. A branch segment is always appended: the branch itself, or a fixed
//! marker standing for the default branch.

use vstd::prelude::*;
use vstd::string::*;

use crate::exec::ExecError;

verus! {

/// The cache location derived for one (git identifier, branch) pair.
#[derive(Debug, Clone)]
pub struct TemplatePathInfo {
    /// Final path segment of the git identifier: the repository's apparent name.
    pub name: String,
    /// The segment immediately preceding `name` in the identifier, if any.
    pub parent: Option<String>,
    /// The git identifier the resolution started from.
    pub git: String,
    /// The full cache path: `<cache folder>/[parent/]name/<branch or marker>`.
    pub path: String,
}

/// Mathematical image of a `TemplatePathInfo`.
pub struct TemplatePathInfoV {
    pub name: Seq<char>,
    pub parent: Option<Seq<char>>,
    pub git: Seq<char>,
    pub path: Seq<char>,
}

impl View for TemplatePathInfo {
    type V = TemplatePathInfoV;

    open spec fn view(&self) -> TemplatePathInfoV {
        TemplatePathInfoV {
            name: self.name@,
            parent: match self.parent {
                Some(ref p) => Some(p@),
                None => None,
            },
            git: self.git@,
            path: self.path@,
        }
    }
}

/// The path separator, as a one-character sequence.
pub open spec fn sep() -> Seq<char> {
    "/"@
}

/// The path segment that stands for "the remote's default branch".
pub open spec fn default_branch_marker() -> Seq<char> {
    "(default)"@
}

/// The directory under the OS cache root that holds all cached templates.
pub open spec fn cache_folder_suffix() -> Seq<char> {
    "/templatr"@
}

/// `s` holds no path separator.
pub open spec fn slash_free(s: Seq<char>) -> bool {
    forall|i: int| 0 <= i < s.len() ==> s[i] != '/'
}

/// `s` without its trailing separators.
pub open spec fn trim_trailing_slashes(s: Seq<char>) -> Seq<char>
    decreases s.len(),
{
    if s.len() > 0 && s.last() == '/' {
        trim_trailing_slashes(s.drop_last())
    } else {
        s
    }
}

/// Start index of the final slash-free run of `t`: the index after the last
/// separator, or 0 if there is none.
pub open spec fn seg_start(t: Seq<char>) -> int
    decreases t.len(),
{
    if t.len() == 0 {
        0
    } else if t.last() == '/' {
        t.len() as int
    } else {
        seg_start(t.drop_last())
    }
}

/// The final path segment of the identifier; the identifier itself when it
/// has no segment (it is empty or all separators).
pub open spec fn spec_name_of(git: Seq<char>) -> Seq<char> {
    let t = trim_trailing_slashes(git);
    if t.len() == 0 {
        git
    } else {
        t.subrange(seg_start(t), t.len() as int)
    }
}

/// The path segment immediately preceding the final one, if the identifier
/// has two or more segments.
pub open spec fn spec_parent_of(git: Seq<char>) -> Option<Seq<char>> {
    let t = trim_trailing_slashes(git);
    if t.len() == 0 {
        None
    } else {
        let t2 = trim_trailing_slashes(t.take(seg_start(t)));
        if t2.len() == 0 {
            None
        } else {
            Some(t2.subrange(seg_start(t2), t2.len() as int))
        }
    }
}

/// The identifier's cache key: `parent/name` when a parent exists, else `name`.
pub open spec fn spec_key_of(git: Seq<char>) -> Seq<char> {
    match spec_parent_of(git) {
        Some(p) => p + sep() + spec_name_of(git),
        None => spec_name_of(git),
    }
}

/// The branch segment appended to every cache path.
pub open spec fn branch_segment(branch: Option<Seq<char>>) -> Seq<char> {
    match branch {
        Some(b) => b,
        None => default_branch_marker(),
    }
}

/// The full cache path for one (identifier, branch) pair under `cache`.
pub open spec fn spec_cache_path(cache: Seq<char>, git: Seq<char>, branch: Option<Seq<char>>) -> Seq<char> {
    cache + sep() + spec_key_of(git) + sep() + branch_segment(branch)
}

/// The whole derived record for one (identifier, branch) pair.
pub open spec fn spec_resolve(cache: Seq<char>, git: Seq<char>, branch: Option<Seq<char>>) -> TemplatePathInfoV {
    TemplatePathInfoV {
        name: spec_name_of(git),
        parent: spec_parent_of(git),
        git: git,
        path: spec_cache_path(cache, git, branch),
    }
}

proof fn lemma_trim_props(s: Seq<char>)
    ensures
        trim_trailing_slashes(s).len() <= s.len(),
        trim_trailing_slashes(s) == s.take(trim_trailing_slashes(s).len() as int),
        trim_trailing_slashes(s).len() > 0 ==> trim_trailing_slashes(s).last() != '/',
        trim_trailing_slashes(s).len() == 0 ==> forall|i: int| 0 <= i < s.len() ==> s[i] == '/',
    decreases s.len(),
{
    if s.len() > 0 && s.last() == '/' {
        lemma_trim_props(s.drop_last());
        let t = trim_trailing_slashes(s);
        assert(s.drop_last() =~= s.take(s.len() - 1));
        assert(s.drop_last().take(t.len() as int) =~= s.take(t.len() as int));
        if t.len() == 0 {
            assert forall|i: int| 0 <= i < s.len() implies s[i] == '/' by {
                if i < s.len() - 1 {
                    assert(s.drop_last()[i] == '/');
                } else {
                    assert(s[i] == s.last());
                }
            }
        }
    } else {
        assert(trim_trailing_slashes(s) == s);
        assert(s.take(s.len() as int) =~= s);
    }
}

proof fn lemma_seg_start_props(t: Seq<char>)
    ensures
        0 <= seg_start(t) <= t.len(),
        forall|i: int| seg_start(t) <= i < t.len() ==> t[i] != '/',
        seg_start(t) > 0 ==> t[seg_start(t) - 1] == '/',
    decreases t.len(),
{
    if t.len() == 0 {
    } else if t.last() == '/' {
    } else {
        lemma_seg_start_props(t.drop_last());
        assert forall|i: int| seg_start(t) <= i < t.len() implies t[i] != '/' by {
            if i < t.len() - 1 {
                assert(t.drop_last()[i] == t[i]);
            }
        }
    }
}

/// Appending one suffix to equal prefixes and getting equal results forces
/// the suffixes to be equal.
proof fn lemma_prefix_cancel(a: Seq<char>, x: Seq<char>, y: Seq<char>)
    requires
        a + x == a + y,
    ensures
        x == y,
{
    assert((a + x).len() == a.len() + x.len());
    assert((a + y).len() == a.len() + y.len());
    assert(x.len() == y.len());
    assert forall|i: int| 0 <= i < x.len() implies x[i] == y[i] by {
        assert((a + x)[a.len() + i] == x[i]);
        assert((a + y)[a.len() + i] == y[i]);
    }
    assert(x =~= y);
}

/// A separator-delimited leading token is read back uniquely: if two
/// slash-free tokens followed by a separator give the same text, the tokens
/// and the remainders agree.
proof fn lemma_token_prefix(a1: Seq<char>, r1: Seq<char>, a2: Seq<char>, r2: Seq<char>)
    requires
        slash_free(a1),
        slash_free(a2),
        a1 + sep() + r1 == a2 + sep() + r2,
    ensures
        a1 == a2,
        r1 == r2,
{
    reveal_strlit("/");
    assert(sep().len() == 1);
    assert(sep()[0] == '/');
    assert((a1 + sep()).len() == a1.len() + 1);
    assert((a2 + sep()).len() == a2.len() + 1);
    assert((a1 + sep() + r1).len() == a1.len() + 1 + r1.len());
    assert((a2 + sep() + r2).len() == a2.len() + 1 + r2.len());
    if a1.len() < a2.len() {
        assert((a1 + sep() + r1)[a1.len() as int] == '/');
        assert((a2 + sep() + r2)[a1.len() as int] == a2[a1.len() as int]);
        assert(false);
    }
    if a2.len() < a1.len() {
        assert((a2 + sep() + r2)[a2.len() as int] == '/');
        assert((a1 + sep() + r1)[a2.len() as int] == a1[a2.len() as int]);
        assert(false);
    }
    assert forall|i: int| 0 <= i < a1.len() implies a1[i] == a2[i] by {
        assert((a1 + sep() + r1)[i] == a1[i]);
        assert((a2 + sep() + r2)[i] == a2[i]);
    }
    assert(a1 =~= a2);
    assert((a1 + sep() + r1).len() == (a2 + sep() + r2).len());
    assert forall|i: int| 0 <= i < r1.len() implies r1[i] == r2[i] by {
        assert((a1 + sep() + r1)[a1.len() + 1 + i] == r1[i]);
        assert((a2 + sep() + r2)[a2.len() + 1 + i] == r2[i]);
    }
    assert(r1 =~= r2);
}

/// Shape of the derived name and parent: a parent segment is always nonempty
/// and slash-free; so is the name, except in the degenerate case where the
/// identifier has no segment at all, and then the name is the identifier
/// itself (empty or all separators) and the parent is absent.
proof fn lemma_name_parent_shape(git: Seq<char>)
    ensures
        spec_parent_of(git) matches Some(p) ==> p.len() > 0 && slash_free(p),
        trim_trailing_slashes(git).len() > 0 ==> spec_name_of(git).len() > 0 && slash_free(
            spec_name_of(git),
        ),
        trim_trailing_slashes(git).len() == 0 ==> spec_name_of(git) == git && spec_parent_of(git)
            is None && forall|i: int| 0 <= i < git.len() ==> git[i] == '/',
{
    let t = trim_trailing_slashes(git);
    lemma_trim_props(git);
    if t.len() > 0 {
        lemma_seg_start_props(t);
        let n = t.subrange(seg_start(t), t.len() as int);
        assert(n.len() > 0);
        assert forall|i: int| 0 <= i < n.len() implies n[i] != '/' by {
            assert(n[i] == t[seg_start(t) + i]);
        }
        let t2 = trim_trailing_slashes(t.take(seg_start(t)));
        lemma_trim_props(t.take(seg_start(t)));
        if t2.len() > 0 {
            lemma_seg_start_props(t2);
            let p = t2.subrange(seg_start(t2), t2.len() as int);
            assert(p.len() > 0);
            assert forall|i: int| 0 <= i < p.len() implies p[i] != '/' by {
                assert(p[i] == t2[seg_start(t2) + i]);
            }
        }
    }
}

/// Identifiers that share their final name segment but differ in the segment
/// before it are cached at different paths, whatever the branch: the
/// two-level key keeps same-named repositories from different owners apart.
pub proof fn lemma_resolve_distinct_parents(
    cache: Seq<char>,
    g1: Seq<char>,
    g2: Seq<char>,
    branch: Option<Seq<char>>,
)
    requires
        spec_name_of(g1) == spec_name_of(g2),
        spec_parent_of(g1) != spec_parent_of(g2),
    ensures
        spec_cache_path(cache, g1, branch) != spec_cache_path(cache, g2, branch),
{
    lemma_name_parent_shape(g1);
    lemma_name_parent_shape(g2);
    let bseg = branch_segment(branch);
    let k1 = spec_key_of(g1);
    let k2 = spec_key_of(g2);
    let n = spec_name_of(g1);
    if spec_cache_path(cache, g1, branch) == spec_cache_path(cache, g2, branch) {
        assert(spec_cache_path(cache, g1, branch) =~= (cache + sep()) + (k1 + sep() + bseg));
        assert(spec_cache_path(cache, g2, branch) =~= (cache + sep()) + (k2 + sep() + bseg));
        lemma_prefix_cancel(cache + sep(), k1 + sep() + bseg, k2 + sep() + bseg);
        match (spec_parent_of(g1), spec_parent_of(g2)) {
            (Some(p1), Some(p2)) => {
                assert(k1 + sep() + bseg =~= p1 + sep() + (n + sep() + bseg));
                assert(k2 + sep() + bseg =~= p2 + sep() + (n + sep() + bseg));
                lemma_token_prefix(p1, n + sep() + bseg, p2, n + sep() + bseg);
                assert(false);
            },
            (Some(p1), None) => {
                // g2 must then have a real name segment: its name equals g1's,
                // which is nonempty and slash-free, while a segmentless
                // identifier is empty or all separators.
                if trim_trailing_slashes(g2).len() == 0 {
                    assert(spec_name_of(g2).len() > 0);
                    assert(spec_name_of(g2)[0] == '/');
                    assert(false);
                }
                assert(k1 + sep() + bseg =~= p1 + sep() + (n + sep() + bseg));
                assert(k2 + sep() + bseg =~= n + sep() + bseg);
                lemma_token_prefix(p1, n + sep() + bseg, n, bseg);
                assert((n + sep() + bseg).len() == bseg.len());
                assert(false);
            },
            (None, Some(p2)) => {
                if trim_trailing_slashes(g1).len() == 0 {
                    assert(spec_name_of(g1).len() > 0);
                    assert(spec_name_of(g1)[0] == '/');
                    assert(false);
                }
                assert(k1 + sep() + bseg =~= n + sep() + bseg);
                assert(k2 + sep() + bseg =~= p2 + sep() + (n + sep() + bseg));
                lemma_token_prefix(n, bseg, p2, n + sep() + bseg);
                assert((n + sep() + bseg).len() == bseg.len());
                assert(false);
            },
            (None, None) => {
                assert(false);
            },
        }
    }
}

/// Distinct branches of one identifier are cached at distinct paths, and the
/// default-branch path differs from every explicitly named branch's path.
/// The one pairing left out is an explicit branch literally named like the
/// default-branch marker against the default branch itself: those two do
/// share a slot.
pub proof fn lemma_resolve_distinct_branches(
    cache: Seq<char>,
    git: Seq<char>,
    b1: Option<Seq<char>>,
    b2: Option<Seq<char>>,
)
    requires
        b1 != b2,
        b1 is None ==> (b2 matches Some(s) ==> s != default_branch_marker()),
        b2 is None ==> (b1 matches Some(s) ==> s != default_branch_marker()),
    ensures
        spec_cache_path(cache, git, b1) != spec_cache_path(cache, git, b2),
{
    let prefix = cache + sep() + spec_key_of(git) + sep();
    let s1 = branch_segment(b1);
    let s2 = branch_segment(b2);
    assert(s1 != s2);
    if spec_cache_path(cache, git, b1) == spec_cache_path(cache, git, b2) {
        assert(spec_cache_path(cache, git, b1) =~= prefix + s1);
        assert(spec_cache_path(cache, git, b2) =~= prefix + s2);
        lemma_prefix_cancel(prefix, s1, s2);
        assert(false);
    }
}

/// `trim_trailing_slashes(g.take(from))` computed by scanning backwards over
/// the separators that end the prefix `g[..from]`.
fn scan_trim(g: &str, from: usize) -> (e: usize)
    requires
        from <= g@.len(),
    ensures
        e <= from,
        g@.take(e as int) == trim_trailing_slashes(g@.take(from as int)),
{
    let mut e = from;
    while e > 0 && g.get_char(e - 1) == '/'
        invariant
            e <= from,
            from <= g@.len(),
            trim_trailing_slashes(g@.take(from as int)) == trim_trailing_slashes(
                g@.take(e as int),
            ),
        decreases e,
    {
        proof {
            let t = g@.take(e as int);
            assert(t.last() == g@[e - 1]);
            assert(t.drop_last() =~= g@.take(e - 1));
        }
        e = e - 1;
    }
    proof {
        let t = g@.take(e as int);
        if e > 0 {
            assert(t.last() == g@[e - 1]);
            assert(t.last() != '/');
        }
        assert(trim_trailing_slashes(t) == t);
    }
    e
}

/// `seg_start(g.take(from))` computed by scanning backwards from `from` to
/// the nearest separator.
fn scan_seg_start(g: &str, from: usize) -> (s: usize)
    requires
        from <= g@.len(),
    ensures
        s <= from,
        s as int == seg_start(g@.take(from as int)),
{
    let mut s = from;
    while s > 0 && g.get_char(s - 1) != '/'
        invariant
            s <= from,
            from <= g@.len(),
            seg_start(g@.take(from as int)) == seg_start(g@.take(s as int)),
        decreases s,
    {
        proof {
            let t = g@.take(s as int);
            assert(t.last() == g@[s - 1]);
            assert(t.drop_last() =~= g@.take(s - 1));
        }
        s = s - 1;
    }
    proof {
        let t = g@.take(s as int);
        if s > 0 {
            assert(t.last() == g@[s - 1]);
            assert(t.last() == '/');
        }
        assert(seg_start(t) == s as int);
    }
    s
}

/// Derives the name, parent and full cache path for a git identifier and an
/// optional branch, under the given cache folder. Total: every identifier
/// resolves.
pub fn resolve_path_info(cache_folder: &str, git: &str, branch: Option<&str>) -> (info: TemplatePathInfo)
    ensures
        info@ == spec_resolve(cache_folder@, git@, branch.deep_view()),
{
    let n = git.unicode_len();
    proof {
        assert(git@.take(n as int) =~= git@);
    }
    let e = scan_trim(git, n);
    let mut name: String;
    let mut parent: Option<String> = None;
    if e == 0 {
        name = git.to_owned();
        proof {
            assert(trim_trailing_slashes(git@).len() == 0);
        }
    } else {
        let s = scan_seg_start(git, e);
        proof {
            lemma_seg_start_props(git@.take(e as int));
        }
        name = git.substring_char(s, e).to_owned();
        proof {
            let t = git@.take(e as int);
            assert(git@.subrange(s as int, e as int) =~= t.subrange(seg_start(t), t.len() as int));
        }
        let e2 = scan_trim(git, s);
        proof {
            let t = git@.take(e as int);
            assert(t.take(seg_start(t)) =~= git@.take(s as int));
        }
        if e2 > 0 {
            let s2 = scan_seg_start(git, e2);
            let p = git.substring_char(s2, e2).to_owned();
            proof {
                let t2 = trim_trailing_slashes(git@.take(s as int));
                assert(t2 == git@.take(e2 as int));
                assert(git@.subrange(s2 as int, e2 as int) =~= t2.subrange(
                    seg_start(t2),
                    t2.len() as int,
                ));
            }
            parent = Some(p);
        }
    }
    let mut path = cache_folder.to_owned();
    path.append("/");
    match parent {
        Some(ref p) => {
            path.append(p.as_str());
            path.append("/");
        },
        None => {},
    }
    path.append(name.as_str());
    path.append("/");
    match branch {
        Some(b) => path.append(b),
        None => path.append("(default)"),
    }
    proof {
        assert(path@ =~= spec_cache_path(cache_folder@, git@, branch.deep_view()));
    }
    TemplatePathInfo { name, parent, git: git.to_owned(), path }
}

/// `p` ends with the templates directory name appended below the OS cache
/// root: the shape every cache folder returned here has.
pub open spec fn is_cache_folder(p: Seq<char>) -> bool {
    p.len() >= cache_folder_suffix().len() && p.skip(p.len() - cache_folder_suffix().len())
        == cache_folder_suffix()
}

/// `base` and `rel` joined by one separator.
pub open spec fn joined(base: Seq<char>, rel: Seq<char>) -> Seq<char> {
    base + sep() + rel
}

/// Relies on dirs::cache_dir: the OS cache directory, if the platform defines
/// one. The outcome depends on the process environment, so nothing is assumed
/// of it; paths that are not valid text count as undiscoverable.
#[verifier::external_body]
fn os_cache_dir() -> Option<String> {
    dirs::cache_dir().and_then(|p| p.to_str().map(|s| s.to_string()))
}

/// Relies on dirs::data_local_dir: the OS local-data directory, if the
/// platform defines one. As with the cache directory, nothing is assumed.
#[verifier::external_body]
fn os_data_local_dir() -> Option<String> {
    dirs::data_local_dir().and_then(|p| p.to_str().map(|s| s.to_string()))
}

/// Relies on dirs::data_dir: the OS data directory, if the platform defines
/// one. As with the cache directory, nothing is assumed.
#[verifier::external_body]
fn os_data_dir() -> Option<String> {
    dirs::data_dir().and_then(|p| p.to_str().map(|s| s.to_string()))
}

/// The selection the cache-root lookup makes, as a total verified function of
/// the three discovery outcomes: the first discoverable of the OS cache,
/// local-data and data directories wins, with the templates directory name
/// appended below it; the lookup fails, with `NoCacheFound`, exactly when
/// none of the three is discoverable.
pub fn cache_root_from(
    cache: Option<String>,
    data_local: Option<String>,
    data: Option<String>,
) -> (r: Result<String, ExecError>)
    ensures
        r matches Err(e) ==> e matches ExecError::NoCacheFound && cache is None && data_local
            is None && data is None,
        cache is None && data_local is None && data is None ==> r is Err,
        r matches Ok(p) ==> is_cache_folder(p@),
        cache matches Some(c) ==> (r matches Ok(p) && p@ == c@ + cache_folder_suffix()),
        cache is None ==> (data_local matches Some(c) ==> (r matches Ok(p) && p@ == c@
            + cache_folder_suffix())),
        cache is None && data_local is None ==> (data matches Some(c) ==> (r matches Ok(p) && p@
            == c@ + cache_folder_suffix())),
{
    let root = match cache {
        Some(root) => root,
        None => match data_local {
            Some(root) => root,
            None => match data {
                Some(root) => root,
                None => {
                    return Err(ExecError::NoCacheFound);
                },
            },
        },
    };
    let ghost root0 = root@;
    let mut p = root;
    p.append("/templatr");
    proof {
        assert(p@ == root0 + cache_folder_suffix());
        assert(p@.skip(p@.len() - cache_folder_suffix().len()) =~= cache_folder_suffix());
    }
    Ok(p)
}

/// The process-wide folder all cached templates live under. The three OS
/// directory lookups depend on the environment, so nothing here can promise
/// when they succeed; everything the function decides with their results —
/// which discovered root wins and when the lookup fails — is the contract of
/// `cache_root_from`.
pub fn get_cache_folder() -> (r: Result<String, ExecError>)
    ensures
        r matches Ok(p) ==> is_cache_folder(p@),
        r matches Err(e) ==> e matches ExecError::NoCacheFound,
{
    cache_root_from(os_cache_dir(), os_data_local_dir(), os_data_dir())
}

/// The cache location for a template-relative name: the cache folder with
/// `name` joined below it.
pub fn get_template_cache_path(name: &str) -> (r: Result<String, ExecError>)
    ensures
        r matches Ok(p) ==> exists|base: Seq<char>|
            is_cache_folder(base) && p@ == #[trigger] joined(base, name@),
        r matches Err(e) ==> e matches ExecError::NoCacheFound,
{
    let base = match get_cache_folder() {
        Ok(base) => base,
        Err(e) => {
            return Err(e);
        },
    };
    let mut p = base.clone();
    p.append("/");
    p.append(name);
    proof {
        assert(p@ =~= joined(base@, name@));
    }
    Ok(p)
}

/// Resolves the full cache record for a git identifier and optional branch,
/// under the discovered cache folder. Fails only when no cache folder is
/// discoverable.
pub fn get_template_cache_path_from_git(git: &str, branch: Option<&str>) -> (r: Result<
    TemplatePathInfo,
    ExecError,
>)
    ensures
        r matches Ok(info) ==> exists|cache: Seq<char>|
            is_cache_folder(cache) && info@ == #[trigger] spec_resolve(
                cache,
                git@,
                branch.deep_view(),
            ),
        r matches Err(e) ==> e matches ExecError::NoCacheFound,
{
    let cache = match get_cache_folder() {
        Ok(cache) => cache,
        Err(e) => {
            return Err(e);
        },
    };
    let info = resolve_path_info(cache.as_str(), git, branch);
    proof {
        assert(info@ == spec_resolve(cache@, git@, branch.deep_view()));
    }
    Ok(info)
}

} // verus!
