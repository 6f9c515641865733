//! Paths of modules, worked on as text: a path is split at `/` into components; normalizing
//! drops empty components and `.`, and lets `..` take back the component before it (at the
//! root of an absolute path, `..` stays at the root; at the start of a relative path, it is
//! kept). An import of a module, or a path dependency, is resolved against the directory of
//! the importing module (an absolute one stands for itself); a resolved path that leads out
//! of the package can be told apart.

use vstd::prelude::*;
use vstd::string::{StrSliceExecFns, StringExecFns};
use crate::dependency::{Dependency, opt_string_clone};
use crate::text::{find_char, spec_find_char, lemma_find_char, lemma_find_char_shift, substring};

verus! {

/// The pieces of `s` between the occurrences of `c`: one more piece than there are `c`s.
pub open spec fn spec_split(s: Seq<char>, c: char) -> Seq<Seq<char>>
    decreases s.len(),
{
    let k = spec_find_char(s, c, 0);
    if k >= s.len() {
        seq![s]
    } else {
        proof {
            lemma_find_char(s, c, 0);
        }
        seq![s.subrange(0, k)] + spec_split(s.subrange(k + 1, s.len() as int), c)
    }
}

/// The pieces of the text of `s` from `from` on, between the occurrences of `c`.
fn split_from(s: &str, c: char, from: usize) -> (r: Vec<String>)
    requires
        from <= s@.len(),
    ensures
        r@.map_values(|x: String| x@) == spec_split(s@.subrange(from as int, s@.len() as int), c),
    decreases s@.len() - from,
{
    let len = s.unicode_len();
    let ghost t = s@.subrange(from as int, len as int);
    let k = find_char(s, c, from);
    proof {
        lemma_find_char(s@, c, from as int);
        lemma_find_char(t, c, 0);
        lemma_find_char_shift(s@, c, from as int);
    }
    let piece = substring(s, from, k);
    if k == len {
        let mut r: Vec<String> = Vec::new();
        r.push(piece);
        proof {
            assert(t.subrange(0, k - from) =~= t);
            assert(r@.map_values(|x: String| x@) =~= seq![t]);
        }
        return r;
    }
    let rest = split_from(s, c, k + 1);
    let mut r: Vec<String> = Vec::new();
    r.push(piece);
    let mut i: usize = 0;
    while i < rest.len()
        invariant
            i <= rest@.len(),
            r@.map_values(|x: String| x@) =~= seq![piece@] + rest@.map_values(|x: String| x@).take(i as int),
        decreases rest@.len() - i,
    {
        let ghost before = r@.map_values(|x: String| x@);
        r.push(rest[i].clone());
        proof {
            assert(r@.map_values(|x: String| x@) =~= before.push(rest@[i as int]@));
            assert(rest@.map_values(|x: String| x@).take(i as int + 1) =~= rest@.map_values(|x: String| x@).take(i as int).push(rest@[i as int]@));
        }
        i = i + 1;
    }
    proof {
        let kt = spec_find_char(t, c, 0);
        assert(kt == k - from);
        assert(t.subrange(kt + 1, t.len() as int) =~= s@.subrange(k + 1, len as int));
        assert(piece@ =~= t.subrange(0, kt));
        assert(rest@.map_values(|x: String| x@).take(rest@.len() as int) =~= rest@.map_values(|x: String| x@));
    }
    r
}

/// The components of a path kept after `acc` when `c` comes next: empty components and `.`
/// are dropped; `..` takes back the component before it, stays at the root of an absolute
/// path, and is kept at the start of a relative one.
pub open spec fn spec_push_component(acc: Seq<Seq<char>>, c: Seq<char>, absolute: bool) -> Seq<Seq<char>> {
    if c.len() == 0 || c == "."@ {
        acc
    } else if c == ".."@ {
        if acc.len() > 0 && acc.last() != ".."@ {
            acc.drop_last()
        } else if absolute {
            acc
        } else {
            acc.push(c)
        }
    } else {
        acc.push(c)
    }
}

/// The normal components of the components `cs`.
pub open spec fn spec_normal_components(cs: Seq<Seq<char>>, absolute: bool) -> Seq<Seq<char>>
    decreases cs.len(),
{
    if cs.len() == 0 {
        Seq::empty()
    } else {
        spec_push_component(spec_normal_components(cs.drop_last(), absolute), cs.last(), absolute)
    }
}

/// The components joined by `/`.
pub open spec fn spec_join_components(cs: Seq<Seq<char>>) -> Seq<char>
    decreases cs.len(),
{
    if cs.len() == 0 {
        Seq::empty()
    } else if cs.len() == 1 {
        cs[0]
    } else {
        spec_join_components(cs.drop_last()) + seq!['/'] + cs.last()
    }
}

/// The normal form of a path: its normal components joined by `/`, after a `/` when the path
/// is absolute (it starts with `/`).
pub open spec fn spec_normalize(path: Seq<char>) -> Seq<char> {
    let absolute = path.len() > 0 && path[0] == '/';
    let body = spec_join_components(spec_normal_components(spec_split(path, '/'), absolute));
    if absolute {
        seq!['/'] + body
    } else {
        body
    }
}

/// Whether two texts are equal.
fn text_eq(a: &String, b: &str) -> (r: bool)
    ensures
        r == (a@ == b@),
{
    *a == b.to_owned()
}

/// The normal form of a path (see `spec_normalize`).
pub fn normalize(path: &str) -> (r: String)
    ensures
        r@ == spec_normalize(path@),
{
    let absolute = path.unicode_len() > 0 && path.get_char(0) == '/';
    proof {
        assert(path@.subrange(0, path@.len() as int) =~= path@);
    }
    let pieces = split_from(path, '/', 0);
    let ghost cs = pieces@.map_values(|x: String| x@);
    let mut acc: Vec<String> = Vec::new();
    let mut i: usize = 0;
    proof {
        assert(cs.take(0) =~= Seq::<Seq<char>>::empty());
        assert(acc@.map_values(|x: String| x@) =~= Seq::<Seq<char>>::empty());
    }
    while i < pieces.len()
        invariant
            i <= pieces@.len(),
            cs == pieces@.map_values(|x: String| x@),
            acc@.map_values(|x: String| x@) == spec_normal_components(cs.take(i as int), absolute),
        decreases pieces@.len() - i,
    {
        let ghost before = acc@.map_values(|x: String| x@);
        let c = &pieces[i];
        proof {
            assert(cs.take(i as int + 1).drop_last() =~= cs.take(i as int));
            assert(cs.take(i as int + 1).last() == c@);
            reveal_strlit(".");
            reveal_strlit("..");
        }
        if c.unicode_len() == 0 || text_eq(c, ".") {
        } else if text_eq(c, "..") {
            let n = acc.len();
            if n > 0 && !text_eq(&acc[n - 1], "..") {
                acc.pop();
                proof {
                    assert(acc@.map_values(|x: String| x@) =~= before.drop_last());
                }
            } else if absolute {
            } else {
                acc.push(c.clone());
                proof {
                    assert(acc@.map_values(|x: String| x@) =~= before.push(c@));
                }
            }
        } else {
            acc.push(c.clone());
            proof {
                assert(acc@.map_values(|x: String| x@) =~= before.push(c@));
            }
        }
        i = i + 1;
    }
    proof {
        assert(cs.take(i as int) =~= cs);
    }
    let ghost comps = acc@.map_values(|x: String| x@);
    let mut body = String::new();
    let mut j: usize = 0;
    proof {
        assert(comps.take(0) =~= Seq::<Seq<char>>::empty());
    }
    while j < acc.len()
        invariant
            j <= acc@.len(),
            comps == acc@.map_values(|x: String| x@),
            body@ == spec_join_components(comps.take(j as int)),
        decreases acc@.len() - j,
    {
        let ghost before = body@;
        if j > 0 {
            body.append("/");
        }
        body.append(acc[j].as_str());
        proof {
            reveal_strlit("/");
            let t = comps.take(j as int + 1);
            assert(t.drop_last() =~= comps.take(j as int));
            assert(t.last() == acc@[j as int]@);
            if j == 0 {
                assert(t =~= seq![acc@[0]@]);
                assert(body@ =~= t[0]);
            } else {
                assert(body@ =~= before + seq!['/'] + t.last());
            }
        }
        j = j + 1;
    }
    proof {
        assert(comps.take(j as int) =~= comps);
    }
    if absolute {
        let r = "/".to_owned().concat(body.as_str());
        proof {
            reveal_strlit("/");
            assert(r@ =~= seq!['/'] + body@);
        }
        r
    } else {
        body
    }
}

/// The path of the module that an import at `import` of the module at `module` names: the
/// import joined to the directory of the module (an absolute import stands for itself),
/// normalized.
pub open spec fn spec_resolve_import(module: Seq<char>, import: Seq<char>) -> Seq<char> {
    if import.len() > 0 && import[0] == '/' {
        spec_normalize(import)
    } else {
        spec_normalize(module + "/../"@ + import)
    }
}

/// The path of the module that an import names (see `spec_resolve_import`).
pub fn resolve_import(module: &str, import: &str) -> (r: String)
    ensures
        r@ == spec_resolve_import(module@, import@),
{
    if import.unicode_len() > 0 && import.get_char(0) == '/' {
        return normalize(import);
    }
    let joined = module.to_owned().concat("/../").concat(import);
    normalize(joined.as_str())
}

/// Whether a normal path leaves the directory it is relative to: it is absolute, or it starts
/// with the component `..`.
pub open spec fn spec_escapes(path: Seq<char>) -> bool {
    ||| (path.len() > 0 && path[0] == '/')
    ||| (path.len() >= 2 && path[0] == '.' && path[1] == '.' && (path.len() == 2 || path[2] == '/'))
}

/// The path of what an import or include at `path` of the module at `module` names, within
/// the package: `None` when it leads out of the package (see `spec_escapes`).
pub open spec fn spec_resolve_within(module: Seq<char>, path: Seq<char>) -> Option<Seq<char>> {
    if spec_escapes(spec_resolve_import(module, path)) {
        None
    } else {
        Some(spec_resolve_import(module, path))
    }
}

/// The path within the package of what an import or include names (see
/// `spec_resolve_within`).
pub fn resolve_within(module: &str, path: &str) -> (r: Option<String>)
    ensures
        match spec_resolve_within(module@, path@) {
            Some(p) => r matches Some(x) && x@ == p,
            None => r is None,
        },
{
    let q = resolve_import(module, path);
    let n = q.unicode_len();
    let escapes = (n > 0 && q.get_char(0) == '/')
        || (n >= 2 && q.get_char(0) == '.' && q.get_char(1) == '.' && (n == 2 || q.get_char(2) == '/'));
    if escapes {
        None
    } else {
        Some(q)
    }
}

/// The paths that the imports (or includes) `paths` of the module at `module` name, each
/// resolved against the module's directory (see `spec_resolve_import`), in order.
pub fn resolve_imports(module: &str, paths: &Vec<String>) -> (r: Vec<String>)
    ensures
        r@.len() == paths@.len(),
        forall|i: int| 0 <= i < paths@.len() ==> (#[trigger] r@[i])@ == spec_resolve_import(module@, paths@[i]@),
{
    let mut r: Vec<String> = Vec::new();
    let mut i: usize = 0;
    while i < paths.len()
        invariant
            i <= paths@.len(),
            r@.len() == i,
            forall|k: int| 0 <= k < i ==> (#[trigger] r@[k])@ == spec_resolve_import(module@, paths@[k]@),
        decreases paths@.len() - i,
    {
        r.push(resolve_import(module, paths[i].as_str()));
        i = i + 1;
    }
    r
}

/// The path dependencies that the module at `module` imports, with each path made relative to
/// the package: the dependency's path joined to the module's directory and normalized (see
/// `spec_resolve_import`); a dependency without a path is kept as it is.
pub fn rewrite_path_dependencies(module: &str, dependencies: &Vec<Dependency>) -> (r: Vec<Dependency>)
    ensures
        r@.len() == dependencies@.len(),
        forall|i: int| 0 <= i < dependencies@.len() ==> {
            let d = (#[trigger] dependencies@[i])@;
            &&& r@[i]@.id == d.id
            &&& r@[i]@.name == d.name
            &&& r@[i]@.version == d.version
            &&& r@[i]@.path == match d.path {
                Some(p) => Some(spec_resolve_import(module@, p)),
                None => None,
            }
        },
{
    let mut r: Vec<Dependency> = Vec::new();
    let mut i: usize = 0;
    while i < dependencies.len()
        invariant
            i <= dependencies@.len(),
            r@.len() == i,
            forall|k: int| 0 <= k < i ==> {
                let d = (#[trigger] dependencies@[k])@;
                &&& r@[k]@.id == d.id
                &&& r@[k]@.name == d.name
                &&& r@[k]@.version == d.version
                &&& r@[k]@.path == match d.path {
                    Some(p) => Some(spec_resolve_import(module@, p)),
                    None => None,
                }
            },
        decreases dependencies@.len() - i,
    {
        let d = &dependencies[i];
        let path = match &d.path {
            Some(p) => Some(resolve_import(module, p.as_str())),
            None => None,
        };
        r.push(Dependency {
            id: opt_string_clone(&d.id),
            name: opt_string_clone(&d.name),
            path,
            version: opt_string_clone(&d.version),
        });
        i = i + 1;
    }
    r
}

} // verus!
