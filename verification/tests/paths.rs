use tangram::paths::{normalize, resolve_import};

#[test]
fn paths_are_normalized_lexically() {
    assert_eq!(normalize("./a/./b//c"), "a/b/c");
    assert_eq!(normalize("a/b/../c"), "a/c");
    assert_eq!(normalize("../a"), "../a");
    assert_eq!(normalize("a/../../b"), "../b");
    assert_eq!(normalize("/a/../../b"), "/b");
    assert_eq!(normalize("/"), "/");
    assert_eq!(normalize("a/.."), "");
}

#[test]
fn imports_are_resolved_against_the_module_directory() {
    assert_eq!(resolve_import("tangram.tg", "./lib/util.tg"), "lib/util.tg");
    assert_eq!(resolve_import("src/main.tg", "../lib.tg"), "lib.tg");
    assert_eq!(resolve_import("src/main.tg", "./other.tg"), "src/other.tg");
}
