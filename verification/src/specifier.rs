//! Package specifiers: a path to a package, or a name in the registry with an optional version.

use vstd::prelude::*;
use crate::text::{find_char, lemma_find_char, lemma_find_char_is, spec_find_char, spec_starts_with_char, starts_with_char, substring};

verus! {

/// A registry specifier: a package name and an optional version.
#[derive(Clone, Debug, PartialEq, Eq)]
pub struct Registry {
    pub package_name: String,
    pub version: Option<String>,
}

/// What a specifier names.
#[derive(Clone, Debug, PartialEq, Eq)]
pub enum Specifier {
    /// A package at a path.
    Path(String),
    /// A package in the registry.
    Registry(Registry),
}

/// The mathematical form of a specifier.
pub enum SpecSpecifier {
    Path(Seq<char>),
    Registry { package_name: Seq<char>, version: Option<Seq<char>> },
}

impl View for Specifier {
    type V = SpecSpecifier;

    open spec fn view(&self) -> SpecSpecifier {
        match self {
            Specifier::Path(p) => SpecSpecifier::Path(p@),
            Specifier::Registry(r) => SpecSpecifier::Registry {
                package_name: r.package_name@,
                version: match &r.version {
                    Some(v) => Some(v@),
                    None => None,
                },
            },
        }
    }
}

/// The specifier that `source` denotes: a path when it starts with `.` or `/`;
/// otherwise the text before the first `@` is the package name, and the text between
/// the first `@` and the next one (or the end) is the version.
pub open spec fn spec_parse_specifier(source: Seq<char>) -> SpecSpecifier {
    if spec_starts_with_char(source, '.') || spec_starts_with_char(source, '/') {
        SpecSpecifier::Path(source)
    } else {
        let at = spec_find_char(source, '@', 0);
        if at == source.len() {
            SpecSpecifier::Registry { package_name: source, version: None }
        } else {
            let end = spec_find_char(source, '@', at + 1);
            SpecSpecifier::Registry {
                package_name: source.subrange(0, at),
                version: Some(source.subrange(at + 1, end)),
            }
        }
    }
}

impl Specifier {
    /// Parses a specifier. Every string is a specifier.
    pub fn parse(source: &str) -> (r: Specifier)
        ensures
            r@ == spec_parse_specifier(source@),
    {
        if starts_with_char(source, '.') || starts_with_char(source, '/') {
            return Specifier::Path(source.to_owned());
        }
        let len = source.unicode_len();
        let at = find_char(source, '@', 0);
        if at == len {
            assert(source@.subrange(0, len as int) =~= source@);
            Specifier::Registry(Registry { package_name: source.to_owned(), version: None })
        } else {
            let end = find_char(source, '@', at + 1);
            let package_name = substring(source, 0, at);
            let version = substring(source, at + 1, end);
            Specifier::Registry(Registry { package_name, version: Some(version) })
        }
    }
}

impl std::str::FromStr for Specifier {
    type Err = std::convert::Infallible;

    /// Parses a specifier (see `Specifier::parse`); it never fails.
    fn from_str(source: &str) -> (r: Result<Specifier, Self::Err>)
        ensures
            r matches Ok(s) && s@ == spec_parse_specifier(source@),
    {
        Ok(Specifier::parse(source))
    }
}


/// A specifier that starts with `.` or `/` is a path, the whole text unchanged.
pub proof fn law_dot_or_slash_is_path(source: Seq<char>)
    requires
        source.len() > 0,
        source[0] == '.' || source[0] == '/',
    ensures
        spec_parse_specifier(source) == SpecSpecifier::Path(source),
{
}

/// A registry name (without `@`, and not starting with `.` or `/`) reads back as itself:
/// alone it is a registry specifier without a version, and with `@` and a version (without
/// `@`) after it, a registry specifier with that name and that version.
pub proof fn law_registry_specifier_reads_back(name: Seq<char>, version: Seq<char>)
    requires
        !name.contains('@'),
        !version.contains('@'),
        !(name.len() > 0 && (name[0] == '.' || name[0] == '/')),
    ensures
        spec_parse_specifier(name) == (SpecSpecifier::Registry { package_name: name, version: None }),
        spec_parse_specifier(name + seq!['@'] + version)
            == (SpecSpecifier::Registry { package_name: name, version: Some(version) }),
{
    assert forall|j: int| 0 <= j < name.len() implies name[j] != '@' by {
        if name[j] == '@' {
            assert(name.contains('@'));
        }
    }
    lemma_find_char_is(name, '@', 0, name.len() as int);
    let t = name + seq!['@'] + version;
    let n = name.len() as int;
    assert(t[n] == '@');
    assert forall|j: int| 0 <= j < n implies t[j] != '@' by {
        assert(t[j] == name[j]);
    }
    lemma_find_char_is(t, '@', 0, n);
    assert forall|j: int| n + 1 <= j < t.len() implies t[j] != '@' by {
        assert(t[j] == version[j - n - 1]);
        if version[j - n - 1] == '@' {
            assert(version.contains('@'));
        }
    }
    lemma_find_char_is(t, '@', n + 1, t.len() as int);
    assert(t.subrange(0, n) =~= name);
    assert(t.subrange(n + 1, t.len() as int) =~= version);
    if t.len() > 0 && n == 0 {
        assert(t[0] == '@');
    }
    if n > 0 {
        assert(t[0] == name[0]);
    }
}


/// Any other specifier is a registry specifier whose name is the text before the first
/// `@`, with no version when there is no `@`, and otherwise with the text after the first
/// `@` up to the next `@` (or the end) as its version.
pub proof fn law_registry_specifier_parts(source: Seq<char>)
    requires
        !(source.len() > 0 && (source[0] == '.' || source[0] == '/')),
    ensures
        spec_parse_specifier(source) matches SpecSpecifier::Registry { package_name, version } && {
            let n = package_name.len() as int;
            &&& n <= source.len()
            &&& source.subrange(0, n) == package_name
            &&& !package_name.contains('@')
            &&& (version is None) == !source.contains('@')
            &&& version matches Some(v) ==> {
                &&& n + 1 + v.len() <= source.len()
                &&& source[n] == '@'
                &&& source.subrange(n + 1, n + 1 + v.len()) == v
                &&& !v.contains('@')
                &&& (n + 1 + v.len() == source.len() || source[n + 1 + v.len()] == '@')
            }
        },
{
    lemma_find_char(source, '@', 0);
    let at = spec_find_char(source, '@', 0);
    if at == source.len() {
        assert(source.subrange(0, at) =~= source);
        if source.contains('@') {
            let j = choose|j: int| 0 <= j < source.len() && source[j] == '@';
        }
    } else {
        lemma_find_char(source, '@', at + 1);
        let end = spec_find_char(source, '@', at + 1);
        let name = source.subrange(0, at);
        let v = source.subrange(at + 1, end);
        if name.contains('@') {
            let j = choose|j: int| 0 <= j < name.len() && name[j] == '@';
            assert(source[j] == '@');
        }
        if v.contains('@') {
            let j = choose|j: int| 0 <= j < v.len() && v[j] == '@';
            assert(source[at + 1 + j] == '@');
        }
        assert(source.contains('@')) by {
            assert(source[at] == '@');
        }
        assert(source.subrange(at + 1, at + 1 + v.len()) =~= v);
    }
}

} // verus!
