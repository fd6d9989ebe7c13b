//! Confinement of request paths to the server root.
//!
//! Resolution is a short exchange with the filesystem: `resolve_begin` either
//! decides at once or names a path to look up, and `resolve_next` takes what
//! the lookup found and decides again. The caller performs each lookup
//! (canonicalization and metadata) and hands back a `Lookup`.
use vstd::prelude::*;
use vstd::string::StringExecFns;

use crate::text::{chars_of, string_from};

verus! {

/// Files larger than this many bytes are refused.
pub const MAX_FILE_SIZE: u64 = 10485760;

/// Why a request path did not resolve.
#[derive(Clone, Copy, Debug, PartialEq, Eq, Structural)]
pub enum PathError {
    /// The raw path holds `..`, `//` or a backslash.
    InvalidPath,
    /// The target does not exist.
    NotFound,
    /// The canonical target lies outside the server root.
    Forbidden,
    /// The target is larger than `MAX_FILE_SIZE`.
    Oversized,
}

/// What the filesystem reports for a path.
pub enum Lookup {
    /// The path cannot be canonicalized.
    Missing,
    /// The path's canonical form, whether it is a directory, and its size in bytes.
    Found { canonical: String, is_dir: bool, size: u64 },
}

/// The next move of a resolution.
pub enum Step {
    /// Look `path` up and call `resolve_next`; `index` tells that the path is a
    /// directory's `index.html`.
    Query { path: String, index: bool },
    /// Resolution is over: the path of the file to serve (its canonical form,
    /// or an `index.html` that the lookup did not find), or why not.
    Done(Result<String, PathError>),
}

pub enum LookupView {
    Missing,
    Found { canonical: Seq<char>, is_dir: bool, size: u64 },
}

pub enum StepView {
    Query { path: Seq<char>, index: bool },
    Done(Result<Seq<char>, PathError>),
}

impl View for Lookup {
    type V = LookupView;

    open spec fn view(&self) -> LookupView {
        match self {
            Lookup::Missing => LookupView::Missing,
            Lookup::Found { canonical, is_dir, size } => LookupView::Found {
                canonical: canonical@,
                is_dir: *is_dir,
                size: *size,
            },
        }
    }
}

impl View for Step {
    type V = StepView;

    open spec fn view(&self) -> StepView {
        match self {
            Step::Query { path, index } => StepView::Query { path: path@, index: *index },
            Step::Done(Ok(p)) => StepView::Done(Ok(p@)),
            Step::Done(Err(e)) => StepView::Done(Err(*e)),
        }
    }
}

/// `a` directly followed by `b` occurs somewhere in `p`.
pub open spec fn has_pair(p: Seq<char>, a: char, b: char) -> bool {
    exists|i: int| 0 <= i && i + 1 < p.len() && #[trigger] p[i] == a && p[i + 1] == b
}

/// A raw request path that is refused before any filesystem access.
pub open spec fn forbidden(p: Seq<char>) -> bool {
    has_pair(p, '.', '.') || has_pair(p, '/', '/') || p.contains('\\')
}

/// `root` is a prefix of `p` made of whole path segments.
pub open spec fn within_root(root: Seq<char>, p: Seq<char>) -> bool {
    &&& root.len() <= p.len()
    &&& p.subrange(0, root.len() as int) == root
    &&& p.len() == root.len() || (root.len() > 0 && root.last() == '/') || p[root.len() as int]
        == '/'
}

/// `rel` appended to `dir` with one separator between them.
pub open spec fn join(dir: Seq<char>, rel: Seq<char>) -> Seq<char> {
    if dir.len() > 0 && dir.last() == '/' {
        dir + rel
    } else {
        dir + seq!['/'] + rel
    }
}

pub open spec fn index_name() -> Seq<char> {
    "index.html"@
}

/// The request path without its leading `/`.
pub open spec fn relative_part(req: Seq<char>) -> Seq<char> {
    if req.len() > 0 && req[0] == '/' {
        req.drop_first()
    } else {
        req
    }
}

/// The first move of a resolution of `req` under the canonical root `root`.
pub open spec fn begin_spec(root: Seq<char>, req: Seq<char>) -> StepView {
    if forbidden(req) {
        StepView::Done(Err(PathError::InvalidPath))
    } else if relative_part(req).len() == 0 {
        StepView::Query { path: join(root, index_name()), index: true }
    } else {
        StepView::Query { path: join(root, relative_part(req)), index: false }
    }
}

/// The move after a lookup of `path` reported `answer`.
///
/// A query for an `index.html` (the root's, or a directory's) does not insist
/// that the file exist: where the lookup finds nothing the path itself is the
/// result, and reading it fails later. Where it exists, it is held to the root
/// like any other target; where it is a directory, no further index is sought.
pub open spec fn next_spec(root: Seq<char>, path: Seq<char>, index: bool, answer: LookupView) -> StepView {
    match answer {
        LookupView::Missing => {
            if index {
                StepView::Done(Ok(path))
            } else {
                StepView::Done(Err(PathError::NotFound))
            }
        },
        LookupView::Found { canonical, is_dir, size } => {
            if !within_root(root, canonical) {
                StepView::Done(Err(PathError::Forbidden))
            } else if is_dir {
                if index {
                    StepView::Done(Ok(canonical))
                } else {
                    StepView::Query { path: join(canonical, index_name()), index: true }
                }
            } else if size > MAX_FILE_SIZE {
                StepView::Done(Err(PathError::Oversized))
            } else {
                StepView::Done(Ok(canonical))
            }
        },
    }
}

fn has_forbidden_pattern(cs: &Vec<char>) -> (r: bool)
    ensures
        r == forbidden(cs@),
{
    let mut i: usize = 0;
    while i < cs.len()
        invariant
            0 <= i <= cs.len(),
            forall|j: int| 0 <= j < i ==> cs@[j] != '\\',
            forall|j: int|
                0 <= j && j + 1 < cs@.len() && j < i ==> !(#[trigger] cs@[j] == '.' && cs@[j + 1]
                    == '.') && !(cs@[j] == '/' && cs@[j + 1] == '/'),
        decreases cs.len() - i,
    {
        if cs[i] == '\\' {
            assert(cs@[i as int] == '\\');
            return true;
        }
        if i + 1 < cs.len() {
            if cs[i] == '.' && cs[i + 1] == '.' {
                assert(has_pair(cs@, '.', '.'));
                return true;
            }
            if cs[i] == '/' && cs[i + 1] == '/' {
                assert(has_pair(cs@, '/', '/'));
                return true;
            }
        }
        i = i + 1;
    }
    assert(!has_pair(cs@, '.', '.'));
    assert(!has_pair(cs@, '/', '/'));
    false
}

/// Whether `path` lies inside `root`, segment by segment.
pub fn is_within_root(root: &str, path: &str) -> (r: bool)
    ensures
        r == within_root(root@, path@),
{
    let rc = chars_of(root);
    let pc = chars_of(path);
    if rc.len() > pc.len() {
        return false;
    }
    let mut i: usize = 0;
    while i < rc.len()
        invariant
            rc@ == root@,
            pc@ == path@,
            rc.len() <= pc.len(),
            0 <= i <= rc.len(),
            forall|j: int| 0 <= j < i ==> rc@[j] == pc@[j],
        decreases rc.len() - i,
    {
        if rc[i] != pc[i] {
            assert(pc@.subrange(0, rc@.len() as int)[i as int] != rc@[i as int]);
            return false;
        }
        i = i + 1;
    }
    assert(pc@.subrange(0, rc@.len() as int) =~= rc@);
    pc.len() == rc.len() || (rc.len() > 0 && rc[rc.len() - 1] == '/') || pc[rc.len()] == '/'
}

fn join_path(dir: &str, rel: &str) -> (r: String)
    ensures
        r@ == join(dir@, rel@),
{
    let dc = chars_of(dir);
    let mut out = String::from_str(dir);
    if !(dc.len() > 0 && dc[dc.len() - 1] == '/') {
        out.append("/");
        proof {
            reveal_strlit("/");
        }
    }
    out.append(rel);
    out
}

/// Starts the resolution of `request_path` under the canonical root `root`.
pub fn resolve_begin(root: &str, request_path: &str) -> (r: Step)
    ensures
        r@ == begin_spec(root@, request_path@),
{
    let cs = chars_of(request_path);
    if has_forbidden_pattern(&cs) {
        return Step::Done(Err(PathError::InvalidPath));
    }
    let rel = if cs.len() > 0 && cs[0] == '/' {
        let s = string_from(cs.as_slice().split_at(1).1);
        assert(s@ =~= relative_part(request_path@));
        s
    } else {
        string_from(cs.as_slice())
    };
    if rel.as_str().is_empty() {
        Step::Query { path: join_path(root, "index.html"), index: true }
    } else {
        Step::Query { path: join_path(root, rel.as_str()), index: false }
    }
}

/// Decides what follows a lookup of `path` that reported `answer`; `path` and
/// `index` as in the query.
pub fn resolve_next(root: &str, path: &str, index: bool, answer: &Lookup) -> (r: Step)
    ensures
        r@ == next_spec(root@, path@, index, answer@),
{
    match answer {
        Lookup::Missing => {
            if index {
                Step::Done(Ok(String::from_str(path)))
            } else {
                Step::Done(Err(PathError::NotFound))
            }
        },
        Lookup::Found { canonical, is_dir, size } => {
            if !is_within_root(root, canonical.as_str()) {
                Step::Done(Err(PathError::Forbidden))
            } else if *is_dir {
                if index {
                    Step::Done(Ok(canonical.clone()))
                } else {
                    Step::Query { path: join_path(canonical.as_str(), "index.html"), index: true }
                }
            } else if *size > MAX_FILE_SIZE {
                Step::Done(Err(PathError::Oversized))
            } else {
                Step::Done(Ok(canonical.clone()))
            }
        },
    }
}

/// The outcome of resolving `req` when the filesystem answers a lookup of any
/// path `q` with `fs(q)`.
pub open spec fn outcome(
    root: Seq<char>,
    req: Seq<char>,
    fs: spec_fn(Seq<char>) -> LookupView,
) -> Result<Seq<char>, PathError> {
    match begin_spec(root, req) {
        StepView::Done(r) => r,
        StepView::Query { path, index } => match next_spec(root, path, index, fs(path)) {
            StepView::Done(r) => r,
            StepView::Query { path: second, index: second_index } => match next_spec(
                root,
                second,
                second_index,
                fs(second),
            ) {
                StepView::Done(r) => r,
                StepView::Query { .. } => Err(PathError::NotFound),
            },
        },
    }
}

/// `steps` is one complete run of the exchange for `req`: it starts with
/// `resolve_begin`, every query is answered from `fs`, and it ends with `Done`.
pub open spec fn is_run(
    root: Seq<char>,
    req: Seq<char>,
    fs: spec_fn(Seq<char>) -> LookupView,
    steps: Seq<StepView>,
) -> bool {
    &&& steps.len() >= 1
    &&& steps[0] == begin_spec(root, req)
    &&& forall|i: int|
        0 <= i < steps.len() - 1 ==> (#[trigger] steps[i] is Query && steps[i + 1] == next_spec(
            root,
            steps[i]->Query_path,
            steps[i]->Query_index,
            fs(steps[i]->Query_path),
        ))
    &&& steps.last() is Done
}

/// A lookup made for an `index.html` always ends the exchange.
pub proof fn lemma_index_query_ends(root: Seq<char>, path: Seq<char>, answer: LookupView)
    ensures
        next_spec(root, path, true, answer) is Done,
{
}

/// Every run ends in the outcome that `outcome` gives, after at most three steps.
pub proof fn lemma_run_outcome(
    root: Seq<char>,
    req: Seq<char>,
    fs: spec_fn(Seq<char>) -> LookupView,
    steps: Seq<StepView>,
)
    requires
        is_run(root, req, fs, steps),
    ensures
        steps.last() == StepView::Done(outcome(root, req, fs)),
        steps.len() <= 3,
{
    if steps.len() > 1 {
        assert(steps[0] is Query);
        if steps.len() > 2 {
            assert(steps[1] is Query);
            assert(steps[0]->Query_index == false);
            assert(steps[1]->Query_index == true);
            if steps.len() > 3 {
                assert(steps[2] is Query);
                lemma_index_query_ends(root, steps[1]->Query_path, fs(steps[1]->Query_path));
            }
        }
    }
}

/// Resolving the same request twice against an unchanged filesystem yields the
/// same result both times.
pub proof fn lemma_resolution_idempotent(
    root: Seq<char>,
    req: Seq<char>,
    fs: spec_fn(Seq<char>) -> LookupView,
    first: Seq<StepView>,
    second: Seq<StepView>,
)
    requires
        is_run(root, req, fs, first),
        is_run(root, req, fs, second),
    ensures
        first.last() == second.last(),
{
    lemma_run_outcome(root, req, fs, first);
    lemma_run_outcome(root, req, fs, second);
}

/// A request path holding `..`, `//` or a backslash is refused with
/// `InvalidPath`, whatever the filesystem holds, and without any lookup.
pub proof fn lemma_forbidden_rejected(
    root: Seq<char>,
    req: Seq<char>,
    fs: spec_fn(Seq<char>) -> LookupView,
)
    requires
        forbidden(req),
    ensures
        outcome(root, req, fs) == Err::<Seq<char>, PathError>(PathError::InvalidPath),
        forall|steps: Seq<StepView>|
            is_run(root, req, fs, steps) ==> steps =~= seq![
                StepView::Done(Err(PathError::InvalidPath)),
            ],
{
    assert forall|steps: Seq<StepView>| is_run(root, req, fs, steps) implies steps =~= seq![
        StepView::Done(Err(PathError::InvalidPath)),
    ] by {
        if steps.len() > 1 {
            assert(steps[0] is Query);
        }
    }
}

/// `index.html` joined onto a directory inside the root lies inside the root.
pub proof fn lemma_join_index_within(root: Seq<char>, dir: Seq<char>)
    requires
        within_root(root, dir),
    ensures
        within_root(root, join(dir, index_name())),
{
    let p = join(dir, index_name());
    assert(p.subrange(0, dir.len() as int) =~= dir);
    assert(p.subrange(0, root.len() as int) =~= dir.subrange(0, root.len() as int));
    if dir.len() > root.len() {
        assert(p[root.len() as int] == dir[root.len() as int]);
    } else if !(dir.len() > 0 && dir.last() == '/') {
        assert(p[dir.len() as int] == '/');
    }
}

/// Every resolved path lies inside the root segment by segment. It is either
/// a canonical form that the filesystem reported, or an `index.html` path that
/// the filesystem reports missing, which the later read then fails on.
pub proof fn lemma_resolved_within_root(
    root: Seq<char>,
    req: Seq<char>,
    fs: spec_fn(Seq<char>) -> LookupView,
)
    ensures
        outcome(root, req, fs) is Ok ==> {
            let p = outcome(root, req, fs)->Ok_0;
            &&& within_root(root, p)
            &&& (exists|q: Seq<char>| #[trigger] fs(q) is Found && fs(q)->Found_canonical == p)
                || (fs(p) is Missing && exists|d: Seq<char>| p == #[trigger] join(d, index_name()))
        },
{
    assert(within_root(root, root)) by {
        assert(root.subrange(0, root.len() as int) =~= root);
    }
    match begin_spec(root, req) {
        StepView::Done(r) => {},
        StepView::Query { path, index } => {
            if index {
                lemma_join_index_within(root, root);
            }
            match next_spec(root, path, index, fs(path)) {
                StepView::Done(r) => {},
                StepView::Query { path: second, index: second_index } => {
                    lemma_join_index_within(root, fs(path)->Found_canonical);
                    lemma_index_query_ends(root, second, fs(second));
                },
            }
        },
    }
}

/// The root path, whether `/` or empty, resolves to `index.html` directly
/// under the root, unless an `index.html` exists there under another
/// canonical name (a link) or is too large.
pub proof fn lemma_root_request(
    root: Seq<char>,
    req: Seq<char>,
    fs: spec_fn(Seq<char>) -> LookupView,
)
    requires
        req.len() == 0 || req == seq!['/'],
        fs(join(root, index_name())) is Found ==> {
            &&& fs(join(root, index_name()))->Found_canonical == join(root, index_name())
            &&& (fs(join(root, index_name()))->Found_is_dir
                || fs(join(root, index_name()))->Found_size <= MAX_FILE_SIZE)
        },
    ensures
        begin_spec(root, req) == (StepView::Query { path: join(root, index_name()), index: true }),
        outcome(root, req, fs) == Ok::<Seq<char>, PathError>(join(root, index_name())),
{
    assert(!has_pair(req, '.', '.'));
    assert(!has_pair(req, '/', '/'));
    assert(relative_part(req).len() == 0);
    assert(within_root(root, root)) by {
        assert(root.subrange(0, root.len() as int) =~= root);
    }
    lemma_join_index_within(root, root);
}

/// A request for a directory resolves to that directory's `index.html`. When
/// the directory has none, the result is that missing path, so reading it
/// fails and the request is answered with 404.
pub proof fn lemma_directory_index(
    root: Seq<char>,
    req: Seq<char>,
    fs: spec_fn(Seq<char>) -> LookupView,
    dir: Seq<char>,
    dir_size: u64,
)
    requires
        !forbidden(req),
        relative_part(req).len() > 0,
        fs(join(root, relative_part(req))) == (LookupView::Found {
            canonical: dir,
            is_dir: true,
            size: dir_size,
        }),
        within_root(root, dir),
    ensures
        fs(join(dir, index_name())) is Missing ==> outcome(root, req, fs) == Ok::<
            Seq<char>,
            PathError,
        >(join(dir, index_name())),
        forall|c: Seq<char>, size: u64|
            fs(join(dir, index_name())) == (LookupView::Found { canonical: c, is_dir: false, size })
                && within_root(root, c) && size <= MAX_FILE_SIZE ==> outcome(root, req, fs) == Ok::<
                Seq<char>,
                PathError,
            >(c),
{
}

} // verus!
