//! Module URLs: where the compiler finds a module (a builtin, a library file, a module of a
//! package by hash or by path, or the targets of a package), written as a URL with a scheme
//! of its own for each kind. URLs are parsed and normalized by the `url` crate.

use vstd::prelude::*;
use vstd::string::{StrSliceExecFns, StringExecFns};
use crate::dependency::opt_view;
use crate::text::{lemma_find_char_is, spec_find_char};

verus! {

/// A module URL.
#[derive(Debug)]
pub enum ModuleUrl {
    Builtins { path: String },
    Lib { path: String },
    PackageModule { package_hash: String, module: String },
    PackageTargets { package_hash: String },
    PathModule { package_path: String, module: String },
    PathTargets { package_path: String },
}

/// The mathematical form of a module URL.
pub enum ModuleUrlView {
    Builtins { path: Seq<char> },
    Lib { path: Seq<char> },
    PackageModule { package_hash: Seq<char>, module: Seq<char> },
    PackageTargets { package_hash: Seq<char> },
    PathModule { package_path: Seq<char>, module: Seq<char> },
    PathTargets { package_path: Seq<char> },
}

impl View for ModuleUrl {
    type V = ModuleUrlView;

    open spec fn view(&self) -> ModuleUrlView {
        match self {
            ModuleUrl::Builtins { path } => ModuleUrlView::Builtins { path: path@ },
            ModuleUrl::Lib { path } => ModuleUrlView::Lib { path: path@ },
            ModuleUrl::PackageModule { package_hash, module } => ModuleUrlView::PackageModule {
                package_hash: package_hash@,
                module: module@,
            },
            ModuleUrl::PackageTargets { package_hash } => ModuleUrlView::PackageTargets { package_hash: package_hash@ },
            ModuleUrl::PathModule { package_path, module } => ModuleUrlView::PathModule {
                package_path: package_path@,
                module: module@,
            },
            ModuleUrl::PathTargets { package_path } => ModuleUrlView::PathTargets { package_path: package_path@ },
        }
    }
}

/// Why a URL is not a module URL.
#[derive(Debug, Clone, Copy, PartialEq, Eq, Structural)]
pub enum UrlError {
    /// The text is not a URL.
    NotAUrl,
    /// The scheme is not one of the module URL schemes.
    InvalidScheme,
    /// A package URL has no domain to hold the package's hash.
    MissingDomain,
    /// A module URL has no query to hold the module's path.
    MissingQuery,
}

/// The scheme of builtin modules.
pub open spec fn builtins_scheme() -> Seq<char> {
    "tangram-builtins"@
}

/// The scheme of library modules.
pub open spec fn lib_scheme() -> Seq<char> {
    "tangram-lib"@
}

/// The scheme of modules of packages found by hash.
pub open spec fn package_module_scheme() -> Seq<char> {
    "tangram-package-module"@
}

/// The scheme of the targets of packages found by hash.
pub open spec fn package_targets_scheme() -> Seq<char> {
    "tangram-package-targets"@
}

/// The scheme of modules of packages found by path.
pub open spec fn path_module_scheme() -> Seq<char> {
    "tangram-path-module"@
}

/// The scheme of the targets of packages found by path.
pub open spec fn path_targets_scheme() -> Seq<char> {
    "tangram-path-targets"@
}

/// The text of a module URL: its scheme, `://`, its path or hash, and `?` and the module
/// path for a module.
pub open spec fn spec_url_text(u: ModuleUrlView) -> Seq<char> {
    match u {
        ModuleUrlView::Builtins { path } => builtins_scheme() + "://"@ + path,
        ModuleUrlView::Lib { path } => lib_scheme() + "://"@ + path,
        ModuleUrlView::PackageModule { package_hash, module } =>
            package_module_scheme() + "://"@ + package_hash + "?"@ + module,
        ModuleUrlView::PackageTargets { package_hash } => package_targets_scheme() + "://"@ + package_hash,
        ModuleUrlView::PathModule { package_path, module } =>
            path_module_scheme() + "://"@ + package_path + "?"@ + module,
        ModuleUrlView::PathTargets { package_path } => path_targets_scheme() + "://"@ + package_path,
    }
}

/// The module URL with the given scheme, path, domain and query (see `ModuleUrl::from_parts`).
pub open spec fn spec_from_parts(scheme: Seq<char>, path: Seq<char>, domain: Option<Seq<char>>, query: Option<Seq<char>>)
    -> Result<ModuleUrlView, UrlError>
{
    if scheme == builtins_scheme() {
        Ok(ModuleUrlView::Builtins { path })
    } else if scheme == lib_scheme() {
        Ok(ModuleUrlView::Lib { path })
    } else if scheme == package_module_scheme() {
        match (domain, query) {
            (None, _) => Err(UrlError::MissingDomain),
            (Some(_), None) => Err(UrlError::MissingQuery),
            (Some(d), Some(q)) => Ok(ModuleUrlView::PackageModule { package_hash: d, module: q }),
        }
    } else if scheme == package_targets_scheme() {
        match domain {
            None => Err(UrlError::MissingDomain),
            Some(d) => Ok(ModuleUrlView::PackageTargets { package_hash: d }),
        }
    } else if scheme == path_module_scheme() {
        match query {
            None => Err(UrlError::MissingQuery),
            Some(q) => Ok(ModuleUrlView::PathModule { package_path: path, module: q }),
        }
    } else if scheme == path_targets_scheme() {
        Ok(ModuleUrlView::PathTargets { package_path: path })
    } else {
        Err(UrlError::InvalidScheme)
    }
}

/// The view of a parse result.
pub open spec fn result_view(r: Result<ModuleUrl, UrlError>) -> Result<ModuleUrlView, UrlError> {
    match r {
        Ok(u) => Ok(u@),
        Err(e) => Err(e),
    }
}

/// What the `url` crate makes of a text: `None` when it is no URL, and otherwise the URL's
/// serialization, scheme, path, domain and query.
pub uninterp spec fn parsed_url(s: Seq<char>) -> Option<(Seq<char>, Seq<char>, Seq<char>, Option<Seq<char>>, Option<Seq<char>>)>;

/// The parts of a URL that the `url` crate parsed.
pub struct UrlParts {
    pub serialization: String,
    pub scheme: String,
    pub path: String,
    pub domain: Option<String>,
    pub query: Option<String>,
}

/// The view of optional URL parts.
pub open spec fn parts_view(p: Option<UrlParts>) -> Option<(Seq<char>, Seq<char>, Seq<char>, Option<Seq<char>>, Option<Seq<char>>)> {
    match p {
        Some(x) => Some((x.serialization@, x.scheme@, x.path@, opt_view(&x.domain), opt_view(&x.query))),
        None => None,
    }
}

/// Calls `url::Url::parse` on `s` and takes the serialization, scheme, path, domain and
/// query of the URL; the contract names the result (`parsed_url`), which depends on `s`
/// alone.
#[verifier::external_body]
fn parse_url(s: &str) -> (r: Option<UrlParts>)
    ensures
        parts_view(r) == parsed_url(s@),
{
    url::Url::parse(s).ok().map(|u| UrlParts {
        serialization: u.as_str().to_owned(),
        scheme: u.scheme().to_owned(),
        path: u.path().to_owned(),
        domain: u.domain().map(|d| d.to_owned()),
        query: u.query().map(|q| q.to_owned()),
    })
}

/// `base` joined with `path` as a file system path does it: an absolute `path` replaces
/// `base`; otherwise a `/` separates the two unless `base` is empty or ends with one.
pub open spec fn spec_join(base: Seq<char>, path: Seq<char>) -> Seq<char> {
    if path.len() > 0 && path[0] == '/' {
        path
    } else if base.len() == 0 || base.last() == '/' {
        base + path
    } else {
        base + seq!['/'] + path
    }
}

/// Joins two paths (see `spec_join`).
pub fn join_path(base: &str, path: &str) -> (r: String)
    ensures
        r@ == spec_join(base@, path@),
{

    let plen = path.unicode_len();
    if plen > 0 && path.get_char(0) == '/' {
        return path.to_owned();
    }
    let blen = base.unicode_len();
    let mut r = base.to_owned();
    if blen > 0 && base.get_char(blen - 1) != '/' {
        r.append("/");
        proof {
            reveal_strlit("/");
            assert("/"@ =~= seq!['/']);
        }
    }
    r.append(path);
    r
}

/// The text that a module URL stands for as a document URI: a `file://` URI of the
/// module's file for a module found by path, and the URL's own text otherwise.
pub open spec fn spec_uri_text(u: ModuleUrlView) -> Seq<char> {
    match u {
        ModuleUrlView::PathModule { package_path, module } => "file://"@ + spec_join(package_path, module),
        _ => spec_url_text(u),
    }
}

impl ModuleUrl {
    /// The module URL with the given scheme, path, domain and query: the scheme picks the
    /// kind; a package's hash is the domain and a module's path is the query.
    pub fn from_parts(scheme: &str, path: &str, domain: &Option<String>, query: &Option<String>) -> (r: Result<ModuleUrl, UrlError>)
        ensures
            result_view(r) == spec_from_parts(scheme@, path@, opt_view(domain), opt_view(query)),
    {
        let s = scheme.to_owned();
        if s == "tangram-builtins".to_owned() {
            Ok(ModuleUrl::Builtins { path: path.to_owned() })
        } else if s == "tangram-lib".to_owned() {
            Ok(ModuleUrl::Lib { path: path.to_owned() })
        } else if s == "tangram-package-module".to_owned() {
            match (domain, query) {
                (None, _) => Err(UrlError::MissingDomain),
                (Some(_), None) => Err(UrlError::MissingQuery),
                (Some(d), Some(q)) => Ok(ModuleUrl::PackageModule { package_hash: d.clone(), module: q.clone() }),
            }
        } else if s == "tangram-package-targets".to_owned() {
            match domain {
                None => Err(UrlError::MissingDomain),
                Some(d) => Ok(ModuleUrl::PackageTargets { package_hash: d.clone() }),
            }
        } else if s == "tangram-path-module".to_owned() {
            match query {
                None => Err(UrlError::MissingQuery),
                Some(q) => Ok(ModuleUrl::PathModule { package_path: path.to_owned(), module: q.clone() }),
            }
        } else if s == "tangram-path-targets".to_owned() {
            Ok(ModuleUrl::PathTargets { package_path: path.to_owned() })
        } else {
            Err(UrlError::InvalidScheme)
        }
    }

    /// Parses a module URL: the text is parsed as a URL, and its parts give the module URL.
    pub fn parse(s: &str) -> (r: Result<ModuleUrl, UrlError>)
        ensures
            result_view(r) == (match parsed_url(s@) {
                None => Err(UrlError::NotAUrl),
                Some(p) => spec_from_parts(p.1, p.2, p.3, p.4),
            }),
    {
        match parse_url(s) {
            None => Err(UrlError::NotAUrl),
            Some(p) => ModuleUrl::from_parts(p.scheme.as_str(), p.path.as_str(), &p.domain, &p.query),
        }
    }

    /// The text of this URL (see `spec_url_text`).
    pub fn text(&self) -> (r: String)
        ensures
            r@ == spec_url_text(self@),
    {
        match self {
            ModuleUrl::Builtins { path } => "tangram-builtins".to_owned().concat("://").concat(path.as_str()),
            ModuleUrl::Lib { path } => "tangram-lib".to_owned().concat("://").concat(path.as_str()),
            ModuleUrl::PackageModule { package_hash, module } => "tangram-package-module".to_owned()
                .concat("://")
                .concat(package_hash.as_str())
                .concat("?")
                .concat(module.as_str()),
            ModuleUrl::PackageTargets { package_hash } => "tangram-package-targets".to_owned()
                .concat("://")
                .concat(package_hash.as_str()),
            ModuleUrl::PathModule { package_path, module } => "tangram-path-module".to_owned()
                .concat("://")
                .concat(package_path.as_str())
                .concat("?")
                .concat(module.as_str()),
            ModuleUrl::PathTargets { package_path } => "tangram-path-targets".to_owned()
                .concat("://")
                .concat(package_path.as_str()),
        }
    }

    /// The URL of this module URL, as the `url` crate writes it; the text must parse.
    pub fn to_url(&self) -> (r: String)
        requires
            parsed_url(spec_url_text(self@)) is Some,
        ensures
            r@ == parsed_url(spec_url_text(self@)).unwrap().0,
    {
        let text = self.text();
        match parse_url(text.as_str()) {
            Some(p) => p.serialization,
            None => String::new(),
        }
    }

    /// The URL of this module URL, as the `url` crate writes it, or `None` when its text
    /// does not parse.
    pub fn try_to_url(&self) -> (r: Option<String>)
        ensures
            match parsed_url(spec_url_text(self@)) {
                Some(p) => r matches Some(x) && x@ == p.0,
                None => r is None,
            },
    {
        let text = self.text();
        match parse_url(text.as_str()) {
            Some(_) => Some(self.to_url()),
            None => None,
        }
    }
}

/// The text that `url` stands for as a document URI (see `spec_uri_text`).
pub fn uri_text(url: &ModuleUrl) -> (r: String)
    ensures
        r@ == spec_uri_text(url@),
{
    match url {
        ModuleUrl::PathModule { package_path, module } => {
            let path = join_path(package_path.as_str(), module.as_str());
            "file://".to_owned().concat(path.as_str())
        },
        _ => url.text(),
    }
}

/// The document URI of a module URL, as the `url` crate writes it; the text must parse.
pub fn to_uri(url: &ModuleUrl) -> (r: String)
    requires
        parsed_url(spec_uri_text(url@)) is Some,
    ensures
        r@ == parsed_url(spec_uri_text(url@)).unwrap().0,
{
    let text = uri_text(url);
    match parse_url(text.as_str()) {
        Some(p) => p.serialization,
        None => String::new(),
    }
}

/// The document URI of a module URL, or `None` when its text does not parse.
pub fn try_to_uri(url: &ModuleUrl) -> (r: Option<String>)
    ensures
        match parsed_url(spec_uri_text(url@)) {
            Some(p) => r matches Some(x) && x@ == p.0,
            None => r is None,
        },
{
    let text = uri_text(url);
    match parse_url(text.as_str()) {
        Some(_) => Some(to_uri(url)),
        None => None,
    }
}

/// The parts of a URL text, split as a URL is: the scheme before the first `:`; after the
/// `://` that follows it, the authority up to the first `/` (within the text before the first
/// `?`), the path from that `/` up to the first `?`, and the query after that `?` (none
/// without one). The domain is the authority, none when the authority is empty.
pub open spec fn spec_split_url(t: Seq<char>) -> (Seq<char>, Seq<char>, Option<Seq<char>>, Option<Seq<char>>) {
    let colon = spec_find_char(t, ':', 0);
    let rest = if colon + 3 <= t.len() { t.subrange(colon + 3, t.len() as int) } else { Seq::empty() };
    let q = spec_find_char(rest, '?', 0);
    let before = rest.subrange(0, q);
    let query = if q < rest.len() { Some(rest.subrange(q + 1, rest.len() as int)) } else { None };
    let slash = spec_find_char(before, '/', 0);
    let authority = before.subrange(0, slash);
    let path = before.subrange(slash, before.len() as int);
    (t.subrange(0, colon), path, if authority.len() == 0 { None } else { Some(authority) }, query)
}

/// A path that a module URL can hold: empty or absolute, without `?`.
pub open spec fn path_like(p: Seq<char>) -> bool {
    &&& !p.contains('?')
    &&& (p.len() == 0 || p[0] == '/')
}

/// A hash that a module URL can hold as its domain: not empty, without `/` or `?`.
pub open spec fn hash_like(h: Seq<char>) -> bool {
    &&& h.len() > 0
    &&& !h.contains('/')
    &&& !h.contains('?')
}

/// The parts of a module URL can be held in its text: a package's hash is hash-like and the
/// other paths are path-like.
pub open spec fn url_holdable(u: ModuleUrlView) -> bool {
    match u {
        ModuleUrlView::Builtins { path } => path_like(path),
        ModuleUrlView::Lib { path } => path_like(path),
        ModuleUrlView::PackageModule { package_hash, module: _ } => hash_like(package_hash),
        ModuleUrlView::PackageTargets { package_hash } => hash_like(package_hash),
        ModuleUrlView::PathModule { package_path, module: _ } => path_like(package_path),
        ModuleUrlView::PathTargets { package_path } => path_like(package_path),
    }
}

/// Splitting `scheme://x` or `scheme://x?q`, for a scheme without `:` and an `x` without `?`,
/// gives the scheme, `x` as the domain when it does not start with `/` (and as the path
/// otherwise), and `q` as the query.
proof fn lemma_split_url(t: Seq<char>, scheme: Seq<char>, x: Seq<char>, q: Option<Seq<char>>)
    requires
        forall|j: int| 0 <= j < scheme.len() ==> scheme[j] != ':',
        !x.contains('?'),
        x.len() > 0 && x[0] != '/' ==> !x.contains('/'),
        t == scheme + "://"@ + x + (match q { Some(qq) => "?"@ + qq, None => Seq::empty() }),
    ensures
        spec_split_url(t) == (if x.len() > 0 && x[0] != '/' {
            (scheme, Seq::<char>::empty(), Some(x), q)
        } else {
            (scheme, x, None::<Seq<char>>, q)
        }),
{
    reveal_strlit("://");
    reveal_strlit("?");
    let n = scheme.len() as int;
    assert(t[n] == ':');
    assert forall|j: int| 0 <= j < n implies t[j] != ':' by {
        assert(t[j] == scheme[j]);
    }
    lemma_find_char_is(t, ':', 0, n);
    assert(t.subrange(0, n) =~= scheme);
    let tail = match q { Some(qq) => "?"@ + qq, None => Seq::empty() };
    let rest = t.subrange(n + 3, t.len() as int);
    assert(rest =~= x + tail);
    let k = x.len() as int;
    assert forall|j: int| 0 <= j < k implies rest[j] != '?' by {
        assert(rest[j] == x[j]);
        if x[j] == '?' {
            assert(x.contains('?'));
        }
    }
    match q {
        Some(qq) => {
            assert(rest[k] == '?');
            lemma_find_char_is(rest, '?', 0, k);
            assert(rest.subrange(k + 1, rest.len() as int) =~= qq);
        },
        None => {
            lemma_find_char_is(rest, '?', 0, k);
        },
    }
    let before = rest.subrange(0, k);
    assert(before =~= x);
    if x.len() > 0 && x[0] != '/' {
        assert forall|j: int| 0 <= j < k implies before[j] != '/' by {
            if x[j] == '/' {
                assert(x.contains('/'));
            }
        }
        lemma_find_char_is(before, '/', 0, k);
        assert(before.subrange(0, k) =~= x);
        assert(before.subrange(k, k) =~= Seq::<char>::empty());
    } else {
        lemma_find_char_is(before, '/', 0, 0);
        assert(before.subrange(0, 0) =~= Seq::<char>::empty());
        assert(before.subrange(0, k) =~= x);
    }
}

/// Reading a module URL back from its text gives the URL: split into its parts as a URL is,
/// the text of a module URL whose parts it can hold gives back, through
/// `ModuleUrl::from_parts`, the same URL: the scheme decides the kind, the domain is a
/// package's hash, the path is a path, and the query is a module's path.
pub proof fn law_module_url_reads_back(u: ModuleUrlView)
    requires
        url_holdable(u),
    ensures
        ({
            let p = spec_split_url(spec_url_text(u));
            spec_from_parts(p.0, p.1, p.2, p.3) == Ok::<ModuleUrlView, UrlError>(u)
        }),
{
    reveal_strlit("tangram-builtins");
    reveal_strlit("tangram-lib");
    reveal_strlit("tangram-package-module");
    reveal_strlit("tangram-package-targets");
    reveal_strlit("tangram-path-module");
    reveal_strlit("tangram-path-targets");
    reveal_strlit("://");
    reveal_strlit("?");
    let t = spec_url_text(u);
    match u {
        ModuleUrlView::Builtins { path } => {
            assert(t =~= builtins_scheme() + "://"@ + path + Seq::<char>::empty());
            lemma_split_url(t, builtins_scheme(), path, None);
        },
        ModuleUrlView::Lib { path } => {
            assert(t =~= lib_scheme() + "://"@ + path + Seq::<char>::empty());
            lemma_split_url(t, lib_scheme(), path, None);
            assert(lib_scheme().len() != builtins_scheme().len());
        },
        ModuleUrlView::PackageModule { package_hash, module } => {
            assert(t =~= package_module_scheme() + "://"@ + package_hash + ("?"@ + module));
            lemma_split_url(t, package_module_scheme(), package_hash, Some(module));
            assert(package_module_scheme().len() != builtins_scheme().len());
            assert(package_module_scheme().len() != lib_scheme().len());
        },
        ModuleUrlView::PackageTargets { package_hash } => {
            assert(t =~= package_targets_scheme() + "://"@ + package_hash + Seq::<char>::empty());
            lemma_split_url(t, package_targets_scheme(), package_hash, None);
            assert(package_targets_scheme().len() != builtins_scheme().len());
            assert(package_targets_scheme().len() != lib_scheme().len());
            assert(package_targets_scheme().len() != package_module_scheme().len());
        },
        ModuleUrlView::PathModule { package_path, module } => {
            assert(t =~= path_module_scheme() + "://"@ + package_path + ("?"@ + module));
            lemma_split_url(t, path_module_scheme(), package_path, Some(module));
            assert(path_module_scheme().len() != builtins_scheme().len());
            assert(path_module_scheme().len() != lib_scheme().len());
            assert(path_module_scheme().len() != package_module_scheme().len());
            assert(path_module_scheme().len() != package_targets_scheme().len());
        },
        ModuleUrlView::PathTargets { package_path } => {
            assert(t =~= path_targets_scheme() + "://"@ + package_path + Seq::<char>::empty());
            lemma_split_url(t, path_targets_scheme(), package_path, None);
            assert(path_targets_scheme().len() != builtins_scheme().len());
            assert(path_targets_scheme().len() != lib_scheme().len());
            assert(path_targets_scheme().len() != package_module_scheme().len());
            assert(path_targets_scheme().len() != package_targets_scheme().len());
            assert(path_targets_scheme().len() != path_module_scheme().len());
        },
    }
}


/// The scheme of the text of a module URL.
pub open spec fn url_scheme(u: ModuleUrlView) -> Seq<char> {
    match u {
        ModuleUrlView::Builtins { .. } => builtins_scheme(),
        ModuleUrlView::Lib { .. } => lib_scheme(),
        ModuleUrlView::PackageModule { .. } => package_module_scheme(),
        ModuleUrlView::PackageTargets { .. } => package_targets_scheme(),
        ModuleUrlView::PathModule { .. } => path_module_scheme(),
        ModuleUrlView::PathTargets { .. } => path_targets_scheme(),
    }
}

/// The parts of a URL give a module URL of the kind that the scheme names; a package URL
/// needs a domain to hold its hash and a module URL a query to hold its module's path, and
/// a URL with another scheme is none.
pub proof fn law_module_url_parts(scheme: Seq<char>, path: Seq<char>, domain: Option<Seq<char>>, query: Option<Seq<char>>)
    ensures
        spec_from_parts(scheme, path, domain, query) matches Ok(u) ==> url_scheme(u) == scheme,
        (spec_from_parts(scheme, path, domain, query) == Err::<ModuleUrlView, UrlError>(UrlError::InvalidScheme)) <==> (forall|u: ModuleUrlView| url_scheme(u) != scheme),
        (spec_from_parts(scheme, path, domain, query) == Err::<ModuleUrlView, UrlError>(UrlError::MissingDomain))
            <==> ((scheme == package_module_scheme() || scheme == package_targets_scheme()) && domain is None),
        (spec_from_parts(scheme, path, domain, query) == Err::<ModuleUrlView, UrlError>(UrlError::MissingQuery))
            <==> (((scheme == package_module_scheme() && domain is Some) || scheme == path_module_scheme()) && query is None),
{
    reveal_strlit("tangram-builtins");
    reveal_strlit("tangram-lib");
    reveal_strlit("tangram-package-module");
    reveal_strlit("tangram-package-targets");
    reveal_strlit("tangram-path-module");
    reveal_strlit("tangram-path-targets");
    assert(builtins_scheme().len() == 16);
    assert(lib_scheme().len() == 11);
    assert(package_module_scheme().len() == 22);
    assert(package_targets_scheme().len() == 23);
    assert(path_module_scheme().len() == 19);
    assert(path_targets_scheme().len() == 20);
    if spec_from_parts(scheme, path, domain, query) != Err::<ModuleUrlView, UrlError>(UrlError::InvalidScheme) {
        let w = if scheme == builtins_scheme() {
            ModuleUrlView::Builtins { path }
        } else if scheme == lib_scheme() {
            ModuleUrlView::Lib { path }
        } else if scheme == package_module_scheme() {
            ModuleUrlView::PackageModule { package_hash: path, module: path }
        } else if scheme == package_targets_scheme() {
            ModuleUrlView::PackageTargets { package_hash: path }
        } else if scheme == path_module_scheme() {
            ModuleUrlView::PathModule { package_path: path, module: path }
        } else {
            ModuleUrlView::PathTargets { package_path: path }
        };
        assert(url_scheme(w) == scheme);
    }
}

} // verus!
