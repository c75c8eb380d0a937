use crate::path::{
    ascii_lowercase, extension_view, file_name_view, join_view, last_dot, to_ascii_lowercase,
    with_extension_view, FilePath, PathView,
};
use crate::value::{compare_keys, KeyOrder};
use vstd::prelude::*;
use vstd::string::*;

verus! {

/// Name of the configuration file that marks the root of a project.
pub open spec fn config_file_name() -> Seq<char> {
    "hitman.toml"@
}

/// Name of the request template that wraps GraphQL queries.
pub open spec fn graphql_wrapper_name() -> Seq<char> {
    "_graphql.http"@
}

/// `p` without its last `k` components.
pub open spec fn ancestor_view(p: PathView, k: int) -> PathView {
    PathView { absolute: p.absolute, parts: p.parts.take(p.parts.len() - k) }
}

/// Asked whether the file at `v` exists, `exists` answered `answer`.
pub open spec fn reported<F: Fn(&FilePath) -> bool>(exists: F, v: PathView, answer: bool) -> bool {
    exists|x: &FilePath| x@ == v && #[trigger] call_ensures(exists, (x,), answer)
}

/// How a request file was found.
pub enum ResolvedAs {
    /// A plain HTTP request template.
    Simple { path: FilePath },
    /// A GraphQL query, sent through the `_graphql.http` template.
    GraphQL { wrapper_path: FilePath, graphql_path: FilePath },
}

/// A request file together with the root of its project.
pub struct Resolved {
    pub root_dir: FilePath,
    pub resolved_as: ResolvedAs,
}

/// Why a request file could not be resolved.
pub enum ResolveError {
    /// The path has no parent directory.
    NoParent,
    /// No directory from the query's up to the root holds `_graphql.http`.
    GraphqlWrapperNotFound,
}

impl ResolveError {
    /// The error message shown to the user.
    pub fn message(&self) -> (res: String)
        ensures
            res@ == match self {
                ResolveError::NoParent => "No parent"@,
                ResolveError::GraphqlWrapperNotFound => "Couldn't find _graphql.http"@,
            },
    {
        match self {
            ResolveError::NoParent => String::from_str("No parent"),
            ResolveError::GraphqlWrapperNotFound => String::from_str("Couldn't find _graphql.http"),
        }
    }
}

/// The path of the request's own configuration: the file name of the
/// request with `.toml` appended, its extension kept.
pub open spec fn toml_path_view(orig: PathView) -> PathView {
    match extension_view(orig) {
        Some(ext) => with_extension_view(orig, ext + ".toml"@),
        None => with_extension_view(orig, "toml"@),
    }
}

impl Resolved {
    /// The file the user asked for.
    pub open spec fn requested(self) -> FilePath {
        match self.resolved_as {
            ResolvedAs::Simple { path } => path,
            ResolvedAs::GraphQL { graphql_path, .. } => graphql_path,
        }
    }

    /// The template that is sent.
    pub open spec fn template(self) -> FilePath {
        match self.resolved_as {
            ResolvedAs::Simple { path } => path,
            ResolvedAs::GraphQL { wrapper_path, .. } => wrapper_path,
        }
    }

    /// The file the user asked for.
    pub fn original_path(&self) -> (res: &FilePath)
        ensures
            *res == self.requested(),
    {
        match &self.resolved_as {
            ResolvedAs::Simple { path } => path,
            ResolvedAs::GraphQL { graphql_path, .. } => graphql_path,
        }
    }

    /// The configuration file specific to the request.
    pub fn toml_path(&self) -> (res: FilePath)
        ensures
            res@ == toml_path_view(self.requested()@),
    {
        let orig = self.original_path();
        match orig.extension() {
            Some(ext) => {
                proof {
                    reveal_strlit(".toml");
                }
                let suffixed = ext.concat(".toml");
                orig.with_extension(suffixed.as_str())
            },
            None => {
                proof {
                    reveal_strlit("toml");
                }
                orig.with_extension("toml")
            },
        }
    }

    /// The HTTP template that is sent.
    pub fn http_file(&self) -> (res: &FilePath)
        ensures
            *res == self.template(),
    {
        match &self.resolved_as {
            ResolvedAs::Simple { path } => path,
            ResolvedAs::GraphQL { wrapper_path, .. } => wrapper_path,
        }
    }
}

/// The configuration of a request file is named after the file with
/// `.toml` appended; a path without a file name is left as it is.
pub proof fn lemma_toml_path_appends_suffix(orig: PathView)
    ensures
        match file_name_view(orig) {
            Some(n) => toml_path_view(orig) == PathView {
                absolute: orig.absolute,
                parts: orig.parts.drop_last().push(n + ".toml"@),
            },
            None => toml_path_view(orig) == orig,
        },
{
    reveal_strlit(".toml");
    reveal_strlit("toml");
    crate::path::lemma_last_dot_facts(orig);
    match file_name_view(orig) {
        Some(n) => {
            match last_dot(n) {
                Some(i) => {
                    if i > 0 {
                        let e = n.skip(i + 1);
                        assert(n.take(i) + seq!['.'] + (e + ".toml"@) =~= n + ".toml"@);
                    } else {
                        assert(n + seq!['.'] + "toml"@ =~= n + ".toml"@);
                    }
                },
                None => {
                    assert(n + seq!['.'] + "toml"@ =~= n + ".toml"@);
                },
            }
        },
        None => {},
    }
}

/// Whether the extension of the path is `gql` or `graphql`, in any case.
pub open spec fn is_graphql_view(p: PathView) -> bool {
    match extension_view(p) {
        Some(e) => ascii_lowercase(e) == "gql"@ || ascii_lowercase(e) == "graphql"@,
        None => false,
    }
}

/// Whether the file holds a GraphQL query.
pub fn is_graphql(path: &FilePath) -> (res: bool)
    ensures
        res == is_graphql_view(path@),
{
    match path.extension() {
        Some(ext) => {
            let lower = to_ascii_lowercase(ext.as_str());
            let a = compare_keys(lower.as_str(), "gql");
            let b = compare_keys(lower.as_str(), "graphql");
            matches!(a, KeyOrder::Equal) || matches!(b, KeyOrder::Equal)
        },
        None => false,
    }
}

/// The root directory of the project: the nearest directory, starting at
/// `path` itself and going up, that holds `hitman.toml`.
pub fn find_root_dir<F: Fn(&FilePath) -> bool>(path: &FilePath, file_exists: &F) -> (res: Option<
    FilePath,
>)
    requires
        forall|p: &FilePath| (*file_exists).requires((p,)),
    ensures
        match res {
            Some(d) => exists|k: int|
                0 <= k <= path@.parts.len() && d@ == #[trigger] ancestor_view(path@, k) && reported(
                    *file_exists,
                    join_view(d@, config_file_name()),
                    true,
                ) && forall|j: int|
                    0 <= j < k ==> reported(
                        *file_exists,
                        join_view(#[trigger] ancestor_view(path@, j), config_file_name()),
                        false,
                    ),
            None => forall|j: int|
                0 <= j <= path@.parts.len() ==> reported(
                    *file_exists,
                    join_view(#[trigger] ancestor_view(path@, j), config_file_name()),
                    false,
                ),
        },
{
    let mut dir = path.duplicate();
    let ghost mut k: int = 0;
    proof {
        assert(path@.parts.take(path@.parts.len() as int) =~= path@.parts);
    }
    loop
        invariant
            forall|p: &FilePath| (*file_exists).requires((p,)),
            0 <= k <= path@.parts.len(),
            dir@ == ancestor_view(path@, k),
            forall|j: int|
                0 <= j < k ==> reported(
                    *file_exists,
                    join_view(#[trigger] ancestor_view(path@, j), config_file_name()),
                    false,
                ),
        decreases path@.parts.len() - k,
    {
        let candidate = dir.join("hitman.toml");
        let found = file_exists(&candidate);
        if found {
            proof {
                assert(reported(*file_exists, join_view(dir@, config_file_name()), true));
            }
            return Some(dir);
        }
        proof {
            assert(reported(*file_exists, join_view(ancestor_view(path@, k), config_file_name()), false));
        }
        match dir.parent() {
            Some(p) => {
                proof {
                    assert(p@.parts =~= path@.parts.take(path@.parts.len() - (k + 1)));
                    k = k + 1;
                }
                dir = p;
            },
            None => {
                proof {
                    assert(k == path@.parts.len());
                }
                return None;
            },
        }
    }
}

/// The `_graphql.http` template for a GraphQL query: the nearest one,
/// starting at the directory of the query and going up.
pub fn resolve_graphql_http_file<F: Fn(&FilePath) -> bool>(path: &FilePath, file_exists: &F) -> (res:
    Result<FilePath, ResolveError>)
    requires
        forall|p: &FilePath| (*file_exists).requires((p,)),
    ensures
        path@.parts.len() == 0 ==> res matches Err(ResolveError::NoParent),
        path@.parts.len() > 0 ==> match res {
            Ok(f) => exists|k: int|
                1 <= k <= path@.parts.len() && f@ == join_view(
                    #[trigger] ancestor_view(path@, k),
                    graphql_wrapper_name(),
                ) && reported(*file_exists, f@, true) && forall|j: int|
                    1 <= j < k ==> reported(
                        *file_exists,
                        join_view(#[trigger] ancestor_view(path@, j), graphql_wrapper_name()),
                        false,
                    ),
            Err(e) => e is GraphqlWrapperNotFound && forall|j: int|
                1 <= j <= path@.parts.len() ==> reported(
                    *file_exists,
                    join_view(#[trigger] ancestor_view(path@, j), graphql_wrapper_name()),
                    false,
                ),
        },
{
    let mut dir = match path.parent() {
        Some(p) => p,
        None => {
            return Err(ResolveError::NoParent);
        },
    };
    let ghost mut k: int = 1;
    proof {
        assert(dir@.parts =~= path@.parts.take(path@.parts.len() - 1));
    }
    loop
        invariant
            forall|p: &FilePath| (*file_exists).requires((p,)),
            1 <= k <= path@.parts.len(),
            dir@ == ancestor_view(path@, k),
            forall|j: int|
                1 <= j < k ==> reported(
                    *file_exists,
                    join_view(#[trigger] ancestor_view(path@, j), graphql_wrapper_name()),
                    false,
                ),
        decreases path@.parts.len() - k,
    {
        let file = dir.join("_graphql.http");
        let found = file_exists(&file);
        if found {
            proof {
                assert(reported(*file_exists, file@, true));
            }
            return Ok(file);
        }
        proof {
            assert(reported(*file_exists, join_view(ancestor_view(path@, k), graphql_wrapper_name()), false));
        }
        match dir.parent() {
            Some(p) => {
                proof {
                    assert(p@.parts =~= path@.parts.take(path@.parts.len() - (k + 1)));
                    k = k + 1;
                }
                dir = p;
            },
            None => {
                proof {
                    assert(k == path@.parts.len());
                }
                return Err(ResolveError::GraphqlWrapperNotFound);
            },
        }
    }
}

/// Resolves a request file: finds the root of its project (`cwd` when no
/// directory above it holds `hitman.toml`) and, for a GraphQL query, the
/// template it is sent through.
pub fn resolve_path<F: Fn(&FilePath) -> bool>(path: &FilePath, cwd: &FilePath, file_exists: &F) -> (res:
    Result<Resolved, ResolveError>)
    requires
        forall|p: &FilePath| (*file_exists).requires((p,)),
    ensures
        !is_graphql_view(path@) ==> (res matches Ok(r) && (r.resolved_as matches ResolvedAs::Simple {
            path: p,
        } && p@ == path@)),
        is_graphql_view(path@) ==> match res {
            Ok(r) => (r.resolved_as matches ResolvedAs::GraphQL { wrapper_path, graphql_path }
                && graphql_path@ == path@ && reported(*file_exists, wrapper_path@, true) && exists|
                k: int,
            |
                1 <= k <= path@.parts.len() && wrapper_path@ == join_view(
                    #[trigger] ancestor_view(path@, k),
                    graphql_wrapper_name(),
                )),
            Err(e) => (path@.parts.len() == 0 && e is NoParent) || (path@.parts.len() > 0
                && e is GraphqlWrapperNotFound && forall|j: int|
                1 <= j <= path@.parts.len() ==> reported(
                    *file_exists,
                    join_view(#[trigger] ancestor_view(path@, j), graphql_wrapper_name()),
                    false,
                )),
        },
        res matches Ok(r) ==> (r.root_dir@ == cwd@ && forall|j: int|
            0 <= j <= path@.parts.len() ==> reported(
                *file_exists,
                join_view(#[trigger] ancestor_view(path@, j), config_file_name()),
                false,
            )) || exists|k: int|
            0 <= k <= path@.parts.len() && r.root_dir@ == #[trigger] ancestor_view(path@, k)
                && reported(*file_exists, join_view(r.root_dir@, config_file_name()), true),
{
    let root_dir = match find_root_dir(path, file_exists) {
        Some(d) => d,
        None => cwd.duplicate(),
    };
    let resolved_as = if is_graphql(path) {
        let template_path = resolve_graphql_http_file(path, file_exists)?;
        ResolvedAs::GraphQL { wrapper_path: template_path, graphql_path: path.duplicate() }
    } else {
        ResolvedAs::Simple { path: path.duplicate() }
    };
    Ok(Resolved { root_dir, resolved_as })
}

} // verus!
