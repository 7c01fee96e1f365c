//! Configuration of the service state and the plan it is built from.
//!
//! At start-up the service settles where the live book is stored (and the
//! directory that must exist for it), which demo fixture it serves, and
//! which ingest token authorizes `POST /api/book`. Reading and writing the
//! files is left to the caller.
use vstd::prelude::*;
use vstd::string::*;

verus! {

/// Configuration inputs for initializing the service state.
#[derive(Debug, Clone, Default)]
pub struct AppStateConfig {
    /// Path to persist the live book JSON (defaults to
    /// `apps/blotter/data/book.json`).
    pub storage_path: Option<String>,
    /// Optional demo fixture file path.
    pub demo_path: Option<String>,
    /// Optional ingest token (overrides the environment).
    pub ingest_token: Option<String>,
}

/// Where the state comes from, as settled at start-up.
#[derive(Debug, Clone)]
pub struct StatePlan {
    /// Where the live book is stored.
    pub storage_path: String,
    /// The directory that must exist for the live book.
    pub storage_dir: String,
    /// The demo fixture to read, if any (else the default book is served).
    pub demo_path: Option<String>,
    /// The token that authorizes ingestion, if any.
    pub ingest_token: Option<String>,
}

/// The default storage path of the live book.
pub open spec fn default_storage_path() -> Seq<char> {
    "apps/blotter/data/book.json"@
}

/// The storage directory used when the storage path has no parent.
pub open spec fn default_storage_dir() -> Seq<char> {
    "apps/blotter/data"@
}

/// `path` is `p`, a `'/'` and a last component `q`, in the plain form
/// whose parent every platform reads the same way: `p` is non-empty, does
/// not end in `'/'`, does not start with `"//"`, and its own last component
/// is not `"."` unless `p` is just `"."`; `q` is non-empty, holds no `'/'`
/// and is not `"."`; and no character of the path is `'\\'` or `':'`.
pub open spec fn plain_parent_of(path: Seq<char>, p: Seq<char>) -> bool {
    let n = p.len() as int;
    &&& n > 0
    &&& path.len() > n + 1
    &&& path.take(n) == p
    &&& path[n] == '/'
    &&& p[n - 1] != '/'
    &&& !(n >= 2 && p[0] == '/' && p[1] == '/')
    &&& !(n >= 2 && p[n - 1] == '.' && p[n - 2] == '/')
    &&& forall|i: int| 0 <= i < path.len() ==> #[trigger] path[i] != '\\' && path[i] != ':'
    &&& forall|i: int| n < i < path.len() ==> #[trigger] path[i] != '/'
    &&& !(path.len() == n + 2 && path[n + 1] == '.')
}

/// `path` surely has a parent on every platform: it is non-empty, holds no
/// `'\\'` or `':'`, and is either relative (does not start with `'/'`) or
/// absolute, not starting with `"//"`, with some character other than `'/'`
/// and `'.'` (so some component other than the root).
pub open spec fn surely_has_parent(path: Seq<char>) -> bool {
    &&& path.len() > 0
    &&& forall|i: int| 0 <= i < path.len() ==> #[trigger] path[i] != '\\' && path[i] != ':'
    &&& (path[0] != '/' || (!(path.len() >= 2 && path[1] == '/') && exists|i: int|
        0 <= i < path.len() && #[trigger] path[i] != '/' && path[i] != '.'))
}

/// When `path` has the plain form `p/q`, `parent` is `p`.
pub open spec fn plain_parent_honoured(path: Seq<char>, parent: Option<String>) -> bool {
    forall|p: Seq<char>| #[trigger]
        plain_parent_of(path, p) ==> (parent matches Some(x) && x@ == p)
}

/// `path` is a relative path of one component: non-empty, with no `'/'`,
/// `'\\'` or `':'` in it.
pub open spec fn single_component(path: Seq<char>) -> bool {
    &&& path.len() > 0
    &&& forall|i: int|
        0 <= i < path.len() ==> #[trigger] path[i] != '/' && path[i] != '\\' && path[i] != ':'
}

/// When `path` is a relative path of one component, `parent` is the empty
/// path.
pub open spec fn single_component_parent_honoured(
    path: Seq<char>,
    parent: Option<String>,
) -> bool {
    single_component(path) ==> (parent matches Some(x) && x@.len() == 0)
}

/// `p` is a prefix of `s` and shorter than it.
pub open spec fn is_strict_prefix(p: Seq<char>, s: Seq<char>) -> bool {
    p.is_prefix_of(s) && p.len() < s.len()
}

/// Calls `std::path::Path::parent` on a UTF-8 path and returns the parent
/// as a string. The standard library documents the parent as the path
/// without its final component, `None` for the empty path (and for a path
/// that ends in a root or prefix). The contract claims: a parent is a
/// strictly shorter prefix of the path; the empty path has none; a path
/// that is relative, or absolute with a component besides the root (see
/// `surely_has_parent`), has one; a relative
/// path of one component has the empty parent (`Some("")`, as documented);
/// and for a path in the plain form `p/q` (see `plain_parent_of`) the
/// parent is `p`.
/// Which prefix other paths get depends on the platform's path syntax and
/// is not stated.
#[verifier::external_body]
fn std_path_parent(path: &str) -> (r: Option<String>)
    ensures
        r matches Some(p) ==> is_strict_prefix(p@, path@),
        path@.len() == 0 ==> r is None,
        plain_parent_honoured(path@, r),
        single_component_parent_honoured(path@, r),
        surely_has_parent(path@) ==> r is Some,
{
    match std::path::Path::new(path).parent() {
        Some(p) => Some(p.to_string_lossy().into_owned()),
        None => None,
    }
}

/// A path `./q` with a one-component name `q` has the current directory
/// `"."` as its plain parent.
pub proof fn lemma_current_dir_parent(q: Seq<char>)
    requires
        q.len() > 0,
        forall|i: int| 0 <= i < q.len() ==> #[trigger] q[i] != '/' && q[i] != '\\' && q[i] != ':',
        q != seq!['.'],
    ensures
        plain_parent_of(seq!['.', '/'] + q, seq!['.']),
{
    let path = seq!['.', '/'] + q;
    assert(path.take(1) =~= seq!['.']);
    assert forall|i: int| 0 <= i < path.len() implies #[trigger] path[i] != '\\' && path[i] != ':' by {
        if i >= 2 {
            assert(path[i] == q[i - 2]);
        }
    }
    assert forall|i: int| 1 < i < path.len() implies #[trigger] path[i] != '/' by {
        assert(path[i] == q[i - 2]);
    }
    if path.len() == 3 && path[2] == '.' {
        assert(q =~= seq!['.']);
    }
}

/// The default storage path is the default directory, a `'/'` and a file
/// name, in the plain form.
proof fn lemma_default_path_plain()
    ensures
        plain_parent_of(default_storage_path(), default_storage_dir()),
{
    reveal_strlit("apps/blotter/data/book.json");
    reveal_strlit("apps/blotter/data");
    let path = default_storage_path();
    let p = default_storage_dir();
    assert(path.take(p.len() as int) =~= p);
    assert forall|i: int| 0 <= i < path.len() implies #[trigger] path[i] != '\\' && path[i]
        != ':' by {
        assert(path[i] == "apps/blotter/data/book.json"@[i]);
    }
}

/// The storage directory: the parent of the storage path when it has one,
/// else the default directory.
pub fn storage_dir_for(parent: Option<String>) -> (r: String)
    ensures
        r@ == match parent {
            Some(p) => p@,
            None => default_storage_dir(),
        },
{
    match parent {
        Some(p) => p,
        None => String::from_str("apps/blotter/data"),
    }
}

/// Settle the state's sources from the configuration and the ingest token
/// found in the environment (`BOOK_INGEST_TOKEN`), if any.
///
/// The storage path defaults to `apps/blotter/data/book.json`; its parent
/// directory (or `apps/blotter/data` when it has none) must exist; the demo
/// path is the configured one; a configured ingest token overrides the
/// environment's.
pub fn plan_state(config: AppStateConfig, env_ingest_token: Option<String>) -> (r: StatePlan)
    ensures
        r.storage_path@ == match config.storage_path {
            Some(p) => p@,
            None => default_storage_path(),
        },
        config.storage_path is None ==> r.storage_path@ == "apps/blotter/data/book.json"@
            && r.storage_dir@ == "apps/blotter/data"@,
        r.storage_dir@.is_prefix_of(r.storage_path@) || r.storage_dir@ == default_storage_dir(),
        r.storage_path@.len() == 0 ==> r.storage_dir@ == default_storage_dir(),
        forall|p: Seq<char>| #[trigger] plain_parent_of(r.storage_path@, p) ==> r.storage_dir@ == p,
        config.storage_path is None ==> r.storage_dir@ == default_storage_dir(),
        single_component(r.storage_path@) ==> r.storage_dir@ == Seq::<char>::empty(),
        surely_has_parent(r.storage_path@) ==> is_strict_prefix(r.storage_dir@, r.storage_path@),
        r.demo_path == config.demo_path,
        r.ingest_token == match config.ingest_token {
            Some(t) => Some(t),
            None => env_ingest_token,
        },
{
    let storage_path = match config.storage_path {
        Some(p) => p,
        None => String::from_str("apps/blotter/data/book.json"),
    };
    let parent = std_path_parent(storage_path.as_str());
    proof {
        if config.storage_path is None {
            lemma_default_path_plain();
        }
    }
    let storage_dir = storage_dir_for(parent);
    let ingest_token = match config.ingest_token {
        Some(t) => Some(t),
        None => env_ingest_token,
    };
    StatePlan { storage_path, storage_dir, demo_path: config.demo_path, ingest_token }
}

/// Error answered to an API request, with HTTP status 400.
#[derive(Debug, Clone)]
pub struct ApiError {
    message: String,
}

impl ApiError {
    /// An error carrying `message`.
    pub fn new(message: String) -> (r: ApiError)
        ensures
            r.message_view() == message@,
    {
        ApiError { message }
    }

    /// The message of the error.
    pub closed spec fn message_view(&self) -> Seq<char> {
        self.message@
    }

    /// The message of the error.
    pub fn message(&self) -> (r: &str)
        ensures
            r@ == self.message_view(),
    {
        self.message.as_str()
    }

    /// The HTTP status an API error is answered with: 400 Bad Request.
    pub fn status_code(&self) -> (r: u16)
        ensures
            r == 400,
    {
        400
    }
}

} // verus!
