use tangram::targets::generate_targets;

#[test]
fn targets_module_exports_each_target() {
    let code = generate_targets(
        "tangram-path-module:///home/pkg?tangram.ts",
        "0000",
        &vec!["default".to_owned(), "build".to_owned()],
    );
    let expected = [
        "import { getExpression, Hash, Package, Target } from \"tangram-builtins:///lib.ts\";",
        "import type * as module from \"tangram-path-module:///home/pkg?tangram.ts\";\n",
        "let _package: Package = await getExpression(new Hash(\"0000\"));\n",
        "export default (...args: Parameters<typeof module.default>): Target<Awaited<ReturnType<typeof module.default>>> => new Target({\n",
        "\tpackage: _package,\n",
        "\tname: \"default\",\n",
        "\targs,\n",
        "});\n",
        "\n",
        "export let build = (...args: Parameters<typeof module.build>): Target<Awaited<ReturnType<typeof module.build>>> => new Target({\n",
        "\tpackage: _package,\n",
        "\tname: \"build\",\n",
        "\targs,\n",
        "});\n",
        "\n",
    ]
    .concat();
    assert_eq!(code, expected);
}

#[test]
fn targets_module_without_targets_is_the_header() {
    let code = generate_targets("tangram-lib:///x", "ab", &Vec::new());
    assert_eq!(
        code,
        "import { getExpression, Hash, Package, Target } from \"tangram-builtins:///lib.ts\";import type * as module from \"tangram-lib:///x\";\nlet _package: Package = await getExpression(new Hash(\"ab\"));\n"
    );
}
