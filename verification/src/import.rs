//! Imports in modules: an import of another module of the package by a relative path that
//! ends in `.tg`, or an import of a dependency written after `tangram:`; and what resolving
//! an import from a module leads to.

use vstd::prelude::*;
use vstd::string::StrSliceExecFns;
use crate::text::substring;

verus! {

/// What the text of an import is.
#[derive(Debug)]
pub enum ImportText {
    /// A module of the package, by its relative path.
    Module(String),
    /// A dependency, by the text after `tangram:`.
    Dependency(String),
}

/// The mathematical form of an import's text.
pub enum ImportTextView {
    Module(Seq<char>),
    Dependency(Seq<char>),
}

impl View for ImportText {
    type V = ImportTextView;

    open spec fn view(&self) -> ImportTextView {
        match self {
            ImportText::Module(p) => ImportTextView::Module(p@),
            ImportText::Dependency(d) => ImportTextView::Dependency(d@),
        }
    }
}

/// Why a text is no import.
#[derive(Debug, Clone, Copy, PartialEq, Eq, Structural)]
pub enum ImportError {
    /// A module path that does not have a `.tg` extension.
    NotTg,
    /// Neither a relative path nor a `tangram:` dependency.
    Invalid,
}

/// The index of the last `c` in `s` before `end`, or -1.
pub open spec fn spec_last_index(s: Seq<char>, c: char, end: int) -> int
    decreases end,
{
    if end <= 0 {
        -1
    } else if s[end - 1] == c {
        end - 1
    } else {
        spec_last_index(s, c, end - 1)
    }
}

/// The file name of a path: the text after its last `/`.
pub open spec fn spec_file_name(path: Seq<char>) -> Seq<char> {
    path.subrange(spec_last_index(path, '/', path.len() as int) + 1, path.len() as int)
}

/// The extension of a path: the text of its file name after the last `.`; none when the
/// file name has no `.`, or its only `.` is its first character.
pub open spec fn spec_extension(path: Seq<char>) -> Option<Seq<char>> {
    let name = spec_file_name(path);
    let dot = spec_last_index(name, '.', name.len() as int);
    if dot <= 0 {
        None
    } else {
        Some(name.subrange(dot + 1, name.len() as int))
    }
}

/// What a text of an import is: a module path when it starts with `.` (which must have the
/// `.tg` extension), a dependency after the prefix `tangram:`, or nothing else.
pub open spec fn spec_import_text(value: Seq<char>) -> Result<ImportTextView, ImportError> {
    if value.len() > 0 && value[0] == '.' {
        if spec_extension(value) == Some("tg"@) {
            Ok(ImportTextView::Module(value))
        } else {
            Err(ImportError::NotTg)
        }
    } else if value.len() >= 8 && value.subrange(0, 8) == "tangram:"@ {
        Ok(ImportTextView::Dependency(value.subrange(8, value.len() as int)))
    } else {
        Err(ImportError::Invalid)
    }
}

/// `spec_last_index` is below `end` and finds `c`, and no `c` is after it.
proof fn lemma_last_index(s: Seq<char>, c: char, end: int)
    requires
        0 <= end <= s.len(),
    ensures
        -1 <= spec_last_index(s, c, end) < end,
        spec_last_index(s, c, end) >= 0 ==> s[spec_last_index(s, c, end)] == c,
        forall|j: int| spec_last_index(s, c, end) < j < end ==> s[j] != c,
    decreases end,
{
    if end > 0 && s[end - 1] != c {
        lemma_last_index(s, c, end - 1);
    }
}

/// One past the index of the last `c` in `s` before `end`, or 0 when there is none (see
/// `spec_last_index`).
fn last_index_end(s: &str, c: char, end: usize) -> (r: usize)
    requires
        end <= s@.len(),
    ensures
        r == spec_last_index(s@, c, end as int) + 1,
{
    let mut i = end;
    while i > 0
        invariant
            i <= end,
            end <= s@.len(),
            spec_last_index(s@, c, end as int) == spec_last_index(s@, c, i as int),
        decreases i,
    {
        if s.get_char(i - 1) == c {
            return i;
        }
        i = i - 1;
    }
    0
}

/// The extension of a path (see `spec_extension`).
pub fn extension(path: &str) -> (r: Option<String>)
    ensures
        match spec_extension(path@) {
            Some(e) => r matches Some(x) && x@ == e,
            None => r is None,
        },
{
    let n = path.unicode_len();
    let start = last_index_end(path, '/', n);
    proof {
        lemma_last_index(path@, '/', n as int);
    }
    let name = substring(path, start, n);
    let m = name.unicode_len();
    let dot_end = last_index_end(name.as_str(), '.', m);
    proof {
        lemma_last_index(name@, '.', m as int);
    }
    if dot_end <= 1 {
        None
    } else {
        Some(substring(name.as_str(), dot_end, m))
    }
}

/// What a text of an import is (see `spec_import_text`).
pub fn import_text(value: &str) -> (r: Result<ImportText, ImportError>)
    ensures
        match spec_import_text(value@) {
            Ok(v) => r matches Ok(x) && x@ == v,
            Err(e) => r matches Err(x) && x == e,
        },
{
    let n = value.unicode_len();
    if n > 0 && value.get_char(0) == '.' {
        let ext = extension(value);
        let is_tg = match ext {
            Some(e) => e == "tg".to_owned(),
            None => false,
        };
        if is_tg {
            Ok(ImportText::Module(value.to_owned()))
        } else {
            Err(ImportError::NotTg)
        }
    } else if n >= 8 && substring(value, 0, 8) == "tangram:".to_owned() {
        Ok(ImportText::Dependency(substring(value, 8, n)))
    } else {
        Err(ImportError::Invalid)
    }
}

/// The kind of a module that an import is resolved from.
#[derive(Debug, Clone, Copy, PartialEq, Eq, Structural)]
pub enum ModuleKind {
    /// A module of the library that ships with Tangram.
    Library,
    /// A module opened from a package on disk.
    Document,
    /// A module of a package in the store, with its lock.
    Normal,
}

/// The kind of an import.
#[derive(Debug, Clone, Copy, PartialEq, Eq, Structural)]
pub enum ImportKind {
    /// Another module, by a path.
    Path,
    /// A dependency with a path.
    PathDependency,
    /// A dependency without a path.
    RegistryDependency,
}

/// What resolving an import from a module does.
#[derive(Debug, Clone, Copy, PartialEq, Eq, Structural)]
pub enum Resolution {
    /// The library module at the path joined to the module's directory.
    LibraryModule,
    /// An error: a library module cannot import a dependency.
    DependencyFromLibrary,
    /// The module on disk at the path joined to the module's directory, which must exist.
    DocumentModule,
    /// The root module of the package on disk at the dependency's path.
    DocumentPathPackage,
    /// The root module of the package that the package's lock gives the dependency.
    DocumentLockedPackage,
    /// The module of the same package and lock at the path joined to the module's directory.
    NormalModule,
    /// The root module of the package that the module's lock gives the dependency (whose
    /// path, if any, is taken relative to the module's directory).
    NormalLockedPackage,
}

/// What resolving an import of kind `i` from a module of kind `m` does.
pub open spec fn spec_resolution(m: ModuleKind, i: ImportKind) -> Resolution {
    match (m, i) {
        (ModuleKind::Library, ImportKind::Path) => Resolution::LibraryModule,
        (ModuleKind::Library, _) => Resolution::DependencyFromLibrary,
        (ModuleKind::Document, ImportKind::Path) => Resolution::DocumentModule,
        (ModuleKind::Document, ImportKind::PathDependency) => Resolution::DocumentPathPackage,
        (ModuleKind::Document, ImportKind::RegistryDependency) => Resolution::DocumentLockedPackage,
        (ModuleKind::Normal, ImportKind::Path) => Resolution::NormalModule,
        (ModuleKind::Normal, _) => Resolution::NormalLockedPackage,
    }
}

/// What resolving an import of kind `i` from a module of kind `m` does (see
/// `spec_resolution`).
pub fn resolution(m: ModuleKind, i: ImportKind) -> (r: Resolution)
    ensures
        r == spec_resolution(m, i),
{
    match (m, i) {
        (ModuleKind::Library, ImportKind::Path) => Resolution::LibraryModule,
        (ModuleKind::Library, _) => Resolution::DependencyFromLibrary,
        (ModuleKind::Document, ImportKind::Path) => Resolution::DocumentModule,
        (ModuleKind::Document, ImportKind::PathDependency) => Resolution::DocumentPathPackage,
        (ModuleKind::Document, ImportKind::RegistryDependency) => Resolution::DocumentLockedPackage,
        (ModuleKind::Normal, ImportKind::Path) => Resolution::NormalModule,
        (ModuleKind::Normal, _) => Resolution::NormalLockedPackage,
    }
}


/// The kind of the module that a resolution gives, or none for an error.
pub open spec fn resolved_kind(r: Resolution) -> Option<ModuleKind> {
    match r {
        Resolution::LibraryModule => Some(ModuleKind::Library),
        Resolution::DependencyFromLibrary => None,
        Resolution::DocumentModule => Some(ModuleKind::Document),
        Resolution::DocumentPathPackage => Some(ModuleKind::Document),
        Resolution::DocumentLockedPackage => Some(ModuleKind::Normal),
        Resolution::NormalModule => Some(ModuleKind::Normal),
        Resolution::NormalLockedPackage => Some(ModuleKind::Normal),
    }
}

/// Whether a resolution gives another module of the importing module's own package, at the
/// path joined to the importing module's directory.
pub open spec fn within_package(r: Resolution) -> bool {
    r is LibraryModule || r is DocumentModule || r is NormalModule
}

/// A path import never leaves the importing package: from a module of any kind it gives the
/// module of the same package, and of the same kind, at the joined path.
pub proof fn law_path_import_stays_in_package(m: ModuleKind)
    ensures
        within_package(spec_resolution(m, ImportKind::Path)),
        resolved_kind(spec_resolution(m, ImportKind::Path)) == Some(m),
{
}

/// A dependency import always leaves the importing package: it gives the root module of
/// another package, or an error from a library module, which has no dependencies.
pub proof fn law_dependency_import_leaves_package(m: ModuleKind, i: ImportKind)
    requires
        i != ImportKind::Path,
    ensures
        !within_package(spec_resolution(m, i)),
        (m == ModuleKind::Library) == (resolved_kind(spec_resolution(m, i)) is None),
{
}

/// A dependency is resolved on disk only from a module on disk and by its path; a
/// dependency resolved through a lock gives a module of a package in the store, and a
/// module in the store only ever resolves to modules in the store.
pub proof fn law_resolution_kinds(m: ModuleKind, i: ImportKind)
    ensures
        spec_resolution(m, i) is DocumentPathPackage <==> (m == ModuleKind::Document && i == ImportKind::PathDependency),
        m == ModuleKind::Normal ==> resolved_kind(spec_resolution(m, i)) == Some(ModuleKind::Normal),
        m == ModuleKind::Document && i == ImportKind::RegistryDependency ==> resolved_kind(spec_resolution(m, i)) == Some(ModuleKind::Normal),
{
}

} // verus!
