//! The routes of the Tangram server: which handler a request goes to, by its method and the
//! components of its path, and what is answered when no handler answers.

use vstd::prelude::*;
use vstd::string::StrSliceExecFns;
use crate::text::substring;

verus! {

/// The method of an HTTP request.
#[derive(Debug, Clone, Copy, PartialEq, Eq, Structural)]
pub enum Method {
    Get,
    Head,
    Post,
    Put,
    Patch,
    Other,
}

/// The handler of a request.
#[derive(Debug, Clone, Copy, PartialEq, Eq, Structural)]
pub enum Route {
    GetStatus,
    PostStop,
    PostClean,
    GetBuildForTarget,
    GetOrCreateBuildForTarget,
    GetBuildQueueItem,
    GetBuildTarget,
    GetBuildChildren,
    PostBuildChild,
    GetBuildLog,
    PostBuildLog,
    GetBuildOutcome,
    PostBuildCancel,
    PostBuildFinish,
    HeadObject,
    GetObject,
    PutObject,
    SearchPackages,
    GetPackage,
    GetPackageVersion,
    GetPackageMetadata,
    GetPackageDependencies,
    PublishPackage,
    GetTracker,
    PatchTracker,
    CreateLogin,
    GetLogin,
    GetUserForToken,
    /// No route: the server's own handler, if it has one, gets the request.
    Fallback,
}

/// The parts of `s` between the occurrences of `/`, in order (there is one more part than
/// there are occurrences).
pub open spec fn spec_split(s: Seq<char>) -> Seq<Seq<char>>
    decreases s.len(),
{
    let k = crate::text::spec_find_char(s, '/', 0);
    if k >= s.len() {
        seq![s]
    } else {
        proof {
            crate::text::lemma_find_char(s, '/', 0);
        }
        seq![s.subrange(0, k)] + spec_split(s.subrange(k + 1, s.len() as int))
    }
}

/// The components of a path: the parts after the first `/`-separated part.
pub open spec fn spec_components(path: Seq<char>) -> Seq<Seq<char>> {
    spec_split(path).drop_first()
}

/// The route of a request with method `m` and path components `c`.
pub open spec fn spec_route(m: Method, c: Seq<Seq<char>>) -> Route {
    if c.len() == 2 && c[0] == "v1"@ {
        if m == Method::Get && c[1] == "status"@ {
            Route::GetStatus
        } else if m == Method::Post && c[1] == "stop"@ {
            Route::PostStop
        } else if m == Method::Post && c[1] == "clean"@ {
            Route::PostClean
        } else if m == Method::Post && c[1] == "packages"@ {
            Route::PublishPackage
        } else if m == Method::Post && c[1] == "logins"@ {
            Route::CreateLogin
        } else if m == Method::Get && c[1] == "user"@ {
            Route::GetUserForToken
        } else {
            Route::Fallback
        }
    } else if c.len() == 3 && c[0] == "v1"@ {
        if m == Method::Get && c[1] == "builds"@ && c[2] == "queue"@ {
            Route::GetBuildQueueItem
        } else if m == Method::Head && c[1] == "objects"@ {
            Route::HeadObject
        } else if m == Method::Get && c[1] == "objects"@ {
            Route::GetObject
        } else if m == Method::Put && c[1] == "objects"@ {
            Route::PutObject
        } else if m == Method::Get && c[1] == "packages"@ && c[2] == "search"@ {
            Route::SearchPackages
        } else if m == Method::Get && c[1] == "packages"@ {
            Route::GetPackage
        } else if m == Method::Get && c[1] == "trackers"@ {
            Route::GetTracker
        } else if m == Method::Patch && c[1] == "trackers"@ {
            Route::PatchTracker
        } else if m == Method::Get && c[1] == "logins"@ {
            Route::GetLogin
        } else {
            Route::Fallback
        }
    } else if c.len() == 4 && c[0] == "v1"@ {
        if m == Method::Get && c[1] == "targets"@ && c[3] == "build"@ {
            Route::GetBuildForTarget
        } else if m == Method::Post && c[1] == "targets"@ && c[3] == "build"@ {
            Route::GetOrCreateBuildForTarget
        } else if m == Method::Get && c[1] == "builds"@ && c[3] == "target"@ {
            Route::GetBuildTarget
        } else if m == Method::Get && c[1] == "builds"@ && c[3] == "children"@ {
            Route::GetBuildChildren
        } else if m == Method::Post && c[1] == "builds"@ && c[3] == "children"@ {
            Route::PostBuildChild
        } else if m == Method::Get && c[1] == "builds"@ && c[3] == "log"@ {
            Route::GetBuildLog
        } else if m == Method::Post && c[1] == "builds"@ && c[3] == "log"@ {
            Route::PostBuildLog
        } else if m == Method::Get && c[1] == "builds"@ && c[3] == "outcome"@ {
            Route::GetBuildOutcome
        } else if m == Method::Post && c[1] == "builds"@ && c[3] == "cancel"@ {
            Route::PostBuildCancel
        } else if m == Method::Post && c[1] == "builds"@ && c[3] == "finish"@ {
            Route::PostBuildFinish
        } else if m == Method::Get && c[1] == "packages"@ && c[3] == "metadata"@ {
            Route::GetPackageMetadata
        } else if m == Method::Get && c[1] == "packages"@ && c[3] == "dependencies"@ {
            Route::GetPackageDependencies
        } else {
            Route::Fallback
        }
    } else if c.len() == 5 && c[0] == "v1"@ && m == Method::Get && c[1] == "packages"@ && c[3] == "versions"@ {
        Route::GetPackageVersion
    } else {
        Route::Fallback
    }
}

/// Splits `s` at each `/` (see `spec_split`).
pub fn split_path(s: &str) -> (r: Vec<String>)
    ensures
        r@.map_values(|x: String| x@) == spec_split(s@),
    decreases s@.len(),
{
    let n = s.unicode_len();
    let k = crate::text::find_char(s, '/', 0);
    proof {
        crate::text::lemma_find_char(s@, '/', 0);
    }
    if k >= n {
        let mut r: Vec<String> = Vec::new();
        r.push(s.to_owned());
        proof {
            assert(r@.map_values(|x: String| x@) =~= seq![s@]);
        }
        r
    } else {
        let head = substring(s, 0, k);
        let rest = substring(s, k + 1, n);
        let tail = split_path(rest.as_str());
        let mut r: Vec<String> = Vec::new();
        r.push(head);
        let mut i: usize = 0;
        while i < tail.len()
            invariant
                i <= tail.len(),
                r@.len() == i + 1,
                r@[0]@ == s@.subrange(0, k as int),
                forall|j: int| 0 <= j < i ==> #[trigger] r@[j + 1]@ == tail@[j]@,
            decreases tail.len() - i,
        {
            r.push(tail[i].clone());
            i = i + 1;
        }
        proof {
            let expected = seq![s@.subrange(0, k as int)] + spec_split(s@.subrange(k + 1, s@.len() as int));
            assert(r@.map_values(|x: String| x@) =~= expected) by {
                assert forall|j: int| 0 <= j < r@.len() implies r@.map_values(|x: String| x@)[j] == expected[j] by {
                    if j > 0 {
                        assert(r@[(j - 1) + 1]@ == tail@[j - 1]@);
                        assert(tail@.map_values(|x: String| x@)[j - 1] == tail@[j - 1]@);
                    }
                }
            }
        }
        r
    }
}

/// The route of a request with method `m` and path `path` (see `spec_route`).
pub fn route(m: Method, path: &str) -> (r: Route)
    ensures
        r == spec_route(m, spec_components(path@)),
{
    let parts = split_path(path);
    let ghost pv = parts@.map_values(|x: String| x@);
    let ghost c = pv.drop_first();
    proof {
        assert(forall|j: int| 0 <= j < c.len() ==> #[trigger] c[j] == parts@[j + 1]@);
    }
    let n = parts.len();
    if n == 3 && parts[1] == "v1".to_owned() {
        let a = &parts[2];
        if m == Method::Get && *a == "status".to_owned() {
            Route::GetStatus
        } else if m == Method::Post && *a == "stop".to_owned() {
            Route::PostStop
        } else if m == Method::Post && *a == "clean".to_owned() {
            Route::PostClean
        } else if m == Method::Post && *a == "packages".to_owned() {
            Route::PublishPackage
        } else if m == Method::Post && *a == "logins".to_owned() {
            Route::CreateLogin
        } else if m == Method::Get && *a == "user".to_owned() {
            Route::GetUserForToken
        } else {
            Route::Fallback
        }
    } else if n == 4 && parts[1] == "v1".to_owned() {
        let a = &parts[2];
        let b = &parts[3];
        if m == Method::Get && *a == "builds".to_owned() && *b == "queue".to_owned() {
            Route::GetBuildQueueItem
        } else if m == Method::Head && *a == "objects".to_owned() {
            Route::HeadObject
        } else if m == Method::Get && *a == "objects".to_owned() {
            Route::GetObject
        } else if m == Method::Put && *a == "objects".to_owned() {
            Route::PutObject
        } else if m == Method::Get && *a == "packages".to_owned() && *b == "search".to_owned() {
            Route::SearchPackages
        } else if m == Method::Get && *a == "packages".to_owned() {
            Route::GetPackage
        } else if m == Method::Get && *a == "trackers".to_owned() {
            Route::GetTracker
        } else if m == Method::Patch && *a == "trackers".to_owned() {
            Route::PatchTracker
        } else if m == Method::Get && *a == "logins".to_owned() {
            Route::GetLogin
        } else {
            Route::Fallback
        }
    } else if n == 5 && parts[1] == "v1".to_owned() {
        let a = &parts[2];
        let b = &parts[4];
        if m == Method::Get && *a == "targets".to_owned() && *b == "build".to_owned() {
            Route::GetBuildForTarget
        } else if m == Method::Post && *a == "targets".to_owned() && *b == "build".to_owned() {
            Route::GetOrCreateBuildForTarget
        } else if m == Method::Get && *a == "builds".to_owned() && *b == "target".to_owned() {
            Route::GetBuildTarget
        } else if m == Method::Get && *a == "builds".to_owned() && *b == "children".to_owned() {
            Route::GetBuildChildren
        } else if m == Method::Post && *a == "builds".to_owned() && *b == "children".to_owned() {
            Route::PostBuildChild
        } else if m == Method::Get && *a == "builds".to_owned() && *b == "log".to_owned() {
            Route::GetBuildLog
        } else if m == Method::Post && *a == "builds".to_owned() && *b == "log".to_owned() {
            Route::PostBuildLog
        } else if m == Method::Get && *a == "builds".to_owned() && *b == "outcome".to_owned() {
            Route::GetBuildOutcome
        } else if m == Method::Post && *a == "builds".to_owned() && *b == "cancel".to_owned() {
            Route::PostBuildCancel
        } else if m == Method::Post && *a == "builds".to_owned() && *b == "finish".to_owned() {
            Route::PostBuildFinish
        } else if m == Method::Get && *a == "packages".to_owned() && *b == "metadata".to_owned() {
            Route::GetPackageMetadata
        } else if m == Method::Get && *a == "packages".to_owned() && *b == "dependencies".to_owned() {
            Route::GetPackageDependencies
        } else {
            Route::Fallback
        }
    } else if n == 6 && parts[1] == "v1".to_owned() && m == Method::Get && parts[2] == "packages".to_owned()
        && parts[4] == "versions".to_owned() {
        Route::GetPackageVersion
    } else {
        Route::Fallback
    }
}

/// The answer of the server to a request.
#[derive(Debug, Clone, Copy, PartialEq, Eq, Structural)]
pub enum Answer {
    /// The handler's response.
    Handled,
    /// 404, "Not found.": no handler answered.
    NotFound,
    /// 500, "Internal server error.": the handler failed.
    InternalServerError,
}

/// What the server answers given the outcome of handling: no response, a failure, or a
/// response.
pub fn answer(outcome: Option<bool>) -> (r: Answer)
    ensures
        r == (match outcome {
            None => Answer::NotFound,
            Some(false) => Answer::InternalServerError,
            Some(true) => Answer::Handled,
        }),
{
    match outcome {
        None => Answer::NotFound,
        Some(false) => Answer::InternalServerError,
        Some(true) => Answer::Handled,
    }
}


/// The method that each route serves; `Other` for the fallback, which serves none.
pub open spec fn route_method(r: Route) -> Method {
    match r {
        Route::GetStatus => Method::Get,
        Route::PostStop => Method::Post,
        Route::PostClean => Method::Post,
        Route::GetBuildForTarget => Method::Get,
        Route::GetOrCreateBuildForTarget => Method::Post,
        Route::GetBuildQueueItem => Method::Get,
        Route::GetBuildTarget => Method::Get,
        Route::GetBuildChildren => Method::Get,
        Route::PostBuildChild => Method::Post,
        Route::GetBuildLog => Method::Get,
        Route::PostBuildLog => Method::Post,
        Route::GetBuildOutcome => Method::Get,
        Route::PostBuildCancel => Method::Post,
        Route::PostBuildFinish => Method::Post,
        Route::HeadObject => Method::Head,
        Route::GetObject => Method::Get,
        Route::PutObject => Method::Put,
        Route::SearchPackages => Method::Get,
        Route::GetPackage => Method::Get,
        Route::GetPackageVersion => Method::Get,
        Route::GetPackageMetadata => Method::Get,
        Route::GetPackageDependencies => Method::Get,
        Route::PublishPackage => Method::Post,
        Route::GetTracker => Method::Get,
        Route::PatchTracker => Method::Patch,
        Route::CreateLogin => Method::Post,
        Route::GetLogin => Method::Get,
        Route::GetUserForToken => Method::Get,
        Route::Fallback => Method::Other,
    }
}

/// The components of the paths that each route serves: a fixed component, or any one
/// (such as an id); none for the fallback.
pub open spec fn route_path(r: Route) -> Seq<Option<Seq<char>>> {
    match r {
        Route::GetStatus => seq![Some("v1"@), Some("status"@)],
        Route::PostStop => seq![Some("v1"@), Some("stop"@)],
        Route::PostClean => seq![Some("v1"@), Some("clean"@)],
        Route::GetBuildForTarget => seq![Some("v1"@), Some("targets"@), None, Some("build"@)],
        Route::GetOrCreateBuildForTarget => seq![Some("v1"@), Some("targets"@), None, Some("build"@)],
        Route::GetBuildQueueItem => seq![Some("v1"@), Some("builds"@), Some("queue"@)],
        Route::GetBuildTarget => seq![Some("v1"@), Some("builds"@), None, Some("target"@)],
        Route::GetBuildChildren => seq![Some("v1"@), Some("builds"@), None, Some("children"@)],
        Route::PostBuildChild => seq![Some("v1"@), Some("builds"@), None, Some("children"@)],
        Route::GetBuildLog => seq![Some("v1"@), Some("builds"@), None, Some("log"@)],
        Route::PostBuildLog => seq![Some("v1"@), Some("builds"@), None, Some("log"@)],
        Route::GetBuildOutcome => seq![Some("v1"@), Some("builds"@), None, Some("outcome"@)],
        Route::PostBuildCancel => seq![Some("v1"@), Some("builds"@), None, Some("cancel"@)],
        Route::PostBuildFinish => seq![Some("v1"@), Some("builds"@), None, Some("finish"@)],
        Route::HeadObject => seq![Some("v1"@), Some("objects"@), None],
        Route::GetObject => seq![Some("v1"@), Some("objects"@), None],
        Route::PutObject => seq![Some("v1"@), Some("objects"@), None],
        Route::SearchPackages => seq![Some("v1"@), Some("packages"@), Some("search"@)],
        Route::GetPackage => seq![Some("v1"@), Some("packages"@), None],
        Route::GetPackageVersion => seq![Some("v1"@), Some("packages"@), None, Some("versions"@), None],
        Route::GetPackageMetadata => seq![Some("v1"@), Some("packages"@), None, Some("metadata"@)],
        Route::GetPackageDependencies => seq![Some("v1"@), Some("packages"@), None, Some("dependencies"@)],
        Route::PublishPackage => seq![Some("v1"@), Some("packages"@)],
        Route::GetTracker => seq![Some("v1"@), Some("trackers"@), None],
        Route::PatchTracker => seq![Some("v1"@), Some("trackers"@), None],
        Route::CreateLogin => seq![Some("v1"@), Some("logins"@)],
        Route::GetLogin => seq![Some("v1"@), Some("logins"@), None],
        Route::GetUserForToken => seq![Some("v1"@), Some("user"@)],
        Route::Fallback => Seq::empty(),
    }
}

/// Component `i` of `c` fits component `i` of the pattern `pat`.
pub open spec fn component_fits(c: Seq<Seq<char>>, pat: Seq<Option<Seq<char>>>, i: int) -> bool {
    i >= pat.len() || pat[i] is None || c[i] == pat[i]->Some_0
}

/// The path components `c` fit the pattern `pat` (of at most five components).
pub open spec fn path_fits(c: Seq<Seq<char>>, pat: Seq<Option<Seq<char>>>) -> bool {
    &&& pat.len() <= 5
    &&& c.len() == pat.len()
    &&& component_fits(c, pat, 0)
    &&& component_fits(c, pat, 1)
    &&& component_fits(c, pat, 2)
    &&& component_fits(c, pat, 3)
    &&& component_fits(c, pat, 4)
}

/// Every route that a request reaches serves the request's method and a path that the
/// request's path fits.
pub proof fn law_route_serves_its_method_and_path(m: Method, c: Seq<Seq<char>>)
    ensures
        spec_route(m, c) != Route::Fallback ==> route_method(spec_route(m, c)) == m && path_fits(c, route_path(spec_route(m, c))),
{
}

/// Every request whose method and path a route serves reaches a route.
pub proof fn law_served_requests_are_routed(r: Route, m: Method, c: Seq<Seq<char>>)
    requires
        r != Route::Fallback,
        route_method(r) == m,
        path_fits(c, route_path(r)),
    ensures
        spec_route(m, c) != Route::Fallback,
{
}

/// A request that exactly one route serves reaches that route.
pub proof fn law_only_serving_route_is_reached(r: Route, m: Method, c: Seq<Seq<char>>)
    requires
        r != Route::Fallback,
        route_method(r) == m,
        path_fits(c, route_path(r)),
        forall|r2: Route| r2 != Route::Fallback && r2 != r && route_method(r2) == m ==> !path_fits(c, #[trigger] route_path(r2)),
    ensures
        spec_route(m, c) == r,
{
    law_served_requests_are_routed(r, m, c);
    law_route_serves_its_method_and_path(m, c);
}

/// The object with any id is read by a `GET`, checked by a `HEAD` and written by a `PUT`
/// of `/v1/objects/<id>`.
pub proof fn law_object_routes(id: Seq<char>)
    ensures
        spec_route(Method::Get, seq!["v1"@, "objects"@, id]) == Route::GetObject,
        spec_route(Method::Head, seq!["v1"@, "objects"@, id]) == Route::HeadObject,
        spec_route(Method::Put, seq!["v1"@, "objects"@, id]) == Route::PutObject,
{
    reveal_strlit("objects");
    reveal_strlit("builds");
    assert("objects"@.len() != "builds"@.len());
}

} // verus!
