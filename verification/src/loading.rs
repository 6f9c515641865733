//! Loading modules: which file a builtin or library URL names, which modules the runtime
//! loads and whether it transpiles them first, and the lines of a module's source that an
//! error's location points at.

use vstd::prelude::*;
use vstd::string::StrSliceExecFns;
use crate::module_url::{ModuleUrl, ModuleUrlView};
use crate::import::{extension, spec_extension};
use crate::text::{find_char, spec_find_char, lemma_find_char, lemma_find_char_shift, substring};

verus! {

/// Why a module cannot be loaded.
#[derive(Debug, Clone, Copy, PartialEq, Eq, Structural)]
pub enum LoadError {
    /// The path of a builtin or library URL does not start with `/`.
    MissingLeadingSlash,
    /// No builtin has that path.
    UnknownBuiltin,
    /// The runtime loads only modules of packages and targets of packages.
    CannotLoad,
    /// The module's path has no extension.
    NoExtension,
    /// The module's extension is neither `js` nor `ts`.
    UnsupportedExtension,
}

/// The file that a library URL's path names.
#[derive(Debug, PartialEq, Eq)]
pub enum LibFile {
    /// The declarations of Tangram's own API.
    TangramDeclarations,
    /// A file of TypeScript's library, by its path without the leading `/`.
    Library(String),
}

/// The builtins module is the only builtin: `/lib.ts`.
pub open spec fn spec_builtin(path: Seq<char>) -> Result<(), LoadError> {
    if path.len() == 0 || path[0] != '/' {
        Err(LoadError::MissingLeadingSlash)
    } else if path.drop_first() == "lib.ts"@ {
        Ok(())
    } else {
        Err(LoadError::UnknownBuiltin)
    }
}

/// Whether the builtin URL path `path` names the builtins module (see `spec_builtin`).
pub fn builtin(path: &str) -> (r: Result<(), LoadError>)
    ensures
        r == spec_builtin(path@),
{
    let n = path.unicode_len();
    if n == 0 || path.get_char(0) != '/' {
        return Err(LoadError::MissingLeadingSlash);
    }
    let rest = substring(path, 1, n);
    proof {
        assert(rest@ =~= path@.drop_first());
    }
    if rest == "lib.ts".to_owned() {
        Ok(())
    } else {
        Err(LoadError::UnknownBuiltin)
    }
}

/// The file a library URL path names: `/lib.tangram.d.ts` is Tangram's declarations, and
/// any other path after its leading `/` is a file of TypeScript's library.
pub open spec fn spec_lib_file(path: Seq<char>) -> Result<Seq<char>, LoadError> {
    if path.len() == 0 || path[0] != '/' {
        Err(LoadError::MissingLeadingSlash)
    } else {
        Ok(path.drop_first())
    }
}

/// The file a library URL path names (see `spec_lib_file`).
pub fn lib_file(path: &str) -> (r: Result<LibFile, LoadError>)
    ensures
        match spec_lib_file(path@) {
            Ok(p) => match r {
                Ok(LibFile::TangramDeclarations) => p == "lib.tangram.d.ts"@,
                Ok(LibFile::Library(q)) => p != "lib.tangram.d.ts"@ && q@ == p,
                Err(_) => false,
            },
            Err(e) => r == Err::<LibFile, LoadError>(e),
        },
{
    let n = path.unicode_len();
    if n == 0 || path.get_char(0) != '/' {
        return Err(LoadError::MissingLeadingSlash);
    }
    let rest = substring(path, 1, n);
    proof {
        assert(rest@ =~= path@.drop_first());
    }
    if rest == "lib.tangram.d.ts".to_owned() {
        Ok(LibFile::TangramDeclarations)
    } else {
        Ok(LibFile::Library(rest))
    }
}

/// Whether the runtime transpiles the module at `u` before running it: a module of a package
/// is transpiled when it is TypeScript (`ts`) and run as it is when it is JavaScript (`js`);
/// the targets of a package are always transpiled; other modules are not loaded.
pub open spec fn spec_transpiles(u: ModuleUrlView) -> Result<bool, LoadError> {
    match u {
        ModuleUrlView::PackageModule { module, .. } => match spec_extension(module) {
            None => Err(LoadError::NoExtension),
            Some(e) => if e == "js"@ {
                Ok(false)
            } else if e == "ts"@ {
                Ok(true)
            } else {
                Err(LoadError::UnsupportedExtension)
            },
        },
        ModuleUrlView::PackageTargets { .. } => Ok(true),
        _ => Err(LoadError::CannotLoad),
    }
}

/// Whether the runtime transpiles the module at `url` (see `spec_transpiles`).
pub fn transpiles(url: &ModuleUrl) -> (r: Result<bool, LoadError>)
    ensures
        r == spec_transpiles(url@),
{
    match url {
        ModuleUrl::PackageModule { module, .. } => match extension(module.as_str()) {
            None => Err(LoadError::NoExtension),
            Some(e) => {
                if e == "js".to_owned() {
                    Ok(false)
                } else if e == "ts".to_owned() {
                    Ok(true)
                } else {
                    Err(LoadError::UnsupportedExtension)
                }
            },
        },
        ModuleUrl::PackageTargets { .. } => Ok(true),
        _ => Err(LoadError::CannotLoad),
    }
}

/// The lines of a text, split at each line feed: one more line than there are line feeds.
pub open spec fn spec_lines(s: Seq<char>) -> Seq<Seq<char>>
    decreases s.len(),
{
    let k = spec_find_char(s, '\n', 0);
    if k >= s.len() {
        seq![s]
    } else {
        proof {
            lemma_find_char(s, '\n', 0);
        }
        seq![s.subrange(0, k)] + spec_lines(s.subrange(k + 1, s.len() as int))
    }
}

/// The line with index `n` of the text of `s` from `from` on, if it has that many lines.
fn line_from(s: &str, from: usize, n: usize) -> (r: Option<String>)
    requires
        from <= s@.len(),
    ensures
        ({
            let lines = spec_lines(s@.subrange(from as int, s@.len() as int));
            match r {
                Some(l) => n < lines.len() && l@ == lines[n as int],
                None => n >= lines.len(),
            }
        }),
    decreases s@.len() - from,
{
    let len = s.unicode_len();
    let ghost t = s@.subrange(from as int, len as int);
    let k = find_char(s, '\n', from);
    proof {
        lemma_find_char(s@, '\n', from as int);
        lemma_find_char(t, '\n', 0);
        lemma_find_char_shift(s@, '\n', from as int);
    }
    if n == 0 {
        let l = substring(s, from, k);
        proof {
            assert(l@ =~= t.subrange(0, k - from));
            if k == len {
                assert(t.subrange(0, k - from) =~= t);
            }
        }
        return Some(l);
    }
    if k == len {
        return None;
    }
    proof {
        let kt = spec_find_char(t, '\n', 0);
        assert(kt == k - from);
        assert(t.subrange(kt + 1, t.len() as int) =~= s@.subrange(k + 1, len as int));
    }
    line_from(s, k + 1, n - 1)
}

/// The line with index `n` of `source`, as the runtime shows it beside an error: the text
/// between the `n`th and the following line feed; none when `source` has fewer lines.
pub fn source_line(source: &str, n: usize) -> (r: Option<String>)
    ensures
        match r {
            Some(l) => n < spec_lines(source@).len() && l@ == spec_lines(source@)[n as int],
            None => n >= spec_lines(source@).len(),
        },
{
    proof {
        assert(source@.subrange(0, source@.len() as int) =~= source@);
    }
    line_from(source, 0, n)
}

} // verus!
