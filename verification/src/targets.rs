//! The targets module of a package: a generated TypeScript module that exports, for each
//! target named in the package's manifest, a function that makes a `Target` of that name
//! with the arguments it is called with. The target named `default` is the default export.

use vstd::prelude::*;
use vstd::string::StringExecFns;

verus! {

/// The two import lines and the package binding that start a targets module, for the
/// module at `module_url` of the package with hash `package_hash`. The two imports stand on
/// one line.
pub open spec fn spec_targets_header(module_url: Seq<char>, package_hash: Seq<char>) -> Seq<char> {
    "import { getExpression, Hash, Package, Target } from \"tangram-builtins:///lib.ts\";"@
        + "import type * as module from \""@ + module_url + "\";"@ + "\n"@
        + "let _package: Package = await getExpression(new Hash(\""@ + package_hash + "\"));"@
        + "\n"@
}

/// The export of the target `t`, followed by an empty line.
pub open spec fn spec_target_export(t: Seq<char>) -> Seq<char> {
    (if t == "default"@ { "export default "@ } else { "export let "@ + t + " = "@ })
        + "(...args: Parameters<typeof module."@ + t
        + ">): Target<Awaited<ReturnType<typeof module."@ + t
        + ">>> => new Target({\n\tpackage: _package,\n\tname: \""@ + t
        + "\",\n\targs,\n});\n"@ + "\n"@
}

/// The exports of the targets `ts`, in order.
pub open spec fn spec_target_exports(ts: Seq<Seq<char>>) -> Seq<char>
    decreases ts.len(),
{
    if ts.len() == 0 {
        Seq::empty()
    } else {
        spec_target_exports(ts.drop_last()) + spec_target_export(ts.last())
    }
}

/// The targets module: the header, then the exports of the targets in order.
pub open spec fn spec_targets_code(module_url: Seq<char>, package_hash: Seq<char>, ts: Seq<Seq<char>>) -> Seq<char> {
    spec_targets_header(module_url, package_hash) + spec_target_exports(ts)
}

/// The texts of a list of strings.
pub open spec fn texts(v: Seq<String>) -> Seq<Seq<char>> {
    v.map_values(|s: String| s@)
}

/// Appends the export of the target `t` to `code`.
fn push_target_export(code: &mut String, t: &String)
    ensures
        final(code)@ == old(code)@ + spec_target_export(t@),
{
    let ghost start = code@;
    let is_default = *t == "default".to_owned();
    if is_default {
        code.append("export default ");
    } else {
        code.append("export let ");
        code.append(t.as_str());
        code.append(" = ");
    }
    let ghost head = code@;
    code.append("(...args: Parameters<typeof module.");
    code.append(t.as_str());
    code.append(">): Target<Awaited<ReturnType<typeof module.");
    code.append(t.as_str());
    code.append(">>> => new Target({\n\tpackage: _package,\n\tname: \"");
    code.append(t.as_str());
    code.append("\",\n\targs,\n});\n");
    code.append("\n");
    proof {
        let lead = if t@ == "default"@ { "export default "@ } else { "export let "@ + t@ + " = "@ };
        assert(head =~= start + lead);
        assert(code@ =~= start + spec_target_export(t@));
    }
}

/// Generates the targets module of a package: `module_url` is the text of the URL of the
/// package's entry module, `package_hash` the text of the package's hash, and `targets` the
/// names of its targets, in the manifest's order.
pub fn generate_targets(module_url: &str, package_hash: &str, targets: &Vec<String>) -> (r: String)
    ensures
        r@ == spec_targets_code(module_url@, package_hash@, texts(targets@)),
{
    let mut code = String::new();
    code.append("import { getExpression, Hash, Package, Target } from \"tangram-builtins:///lib.ts\";");
    code.append("import type * as module from \"");
    code.append(module_url);
    code.append("\";");
    code.append("\n");
    code.append("let _package: Package = await getExpression(new Hash(\"");
    code.append(package_hash);
    code.append("\"));");
    code.append("\n");
    let ghost header = code@;
    proof {
        assert(header =~= spec_targets_header(module_url@, package_hash@));
        assert(texts(targets@).take(0) =~= Seq::<Seq<char>>::empty());
        assert(header =~= header + spec_target_exports(texts(targets@).take(0)));
    }
    let mut i: usize = 0;
    while i < targets.len()
        invariant
            i <= targets@.len(),
            header == spec_targets_header(module_url@, package_hash@),
            code@ == header + spec_target_exports(texts(targets@).take(i as int)),
        decreases targets@.len() - i,
    {
        let ghost before = code@;
        push_target_export(&mut code, &targets[i]);
        proof {
            let ts = texts(targets@);
            assert(ts.take(i as int + 1).drop_last() =~= ts.take(i as int));
            assert(ts.take(i as int + 1).last() == targets@[i as int]@);
            assert(code@ =~= header + spec_target_exports(ts.take(i as int + 1)));
        }
        i = i + 1;
    }
    proof {
        assert(texts(targets@).take(i as int) =~= texts(targets@));
    }
    code
}

} // verus!
