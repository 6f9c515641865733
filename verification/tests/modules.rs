use tangram::compiler::types::{Position, Range};
use tangram::edits::rename_edits;
use tangram::import::{extension, import_text, resolution, ImportError, ImportKind, ImportText, ModuleKind, Resolution};
use tangram::lsp::{compiler_request_handler, is_exit, RequestHandler};
use tangram::walk::{ModuleWalk, PackageVisits, Visit};
use tangram::dependency::Dependency;
use tangram::paths::resolve_within;

#[test]
fn extensions_of_paths() {
    assert_eq!(extension("./module.tg").as_deref(), Some("tg"));
    assert_eq!(extension("./a.b/module").as_deref(), None);
    assert_eq!(extension("./.hidden").as_deref(), None);
    assert_eq!(extension("./x.tar.gz").as_deref(), Some("gz"));
    assert_eq!(extension("./x.").as_deref(), Some(""));
}

#[test]
fn texts_of_imports() {
    assert!(matches!(import_text("./module.tg"), Ok(ImportText::Module(p)) if p == "./module.tg"));
    assert!(matches!(import_text("tangram:std@^1"), Ok(ImportText::Dependency(d)) if d == "std@^1"));
    assert!(matches!(import_text("./module.ts"), Err(ImportError::NotTg)));
    assert!(matches!(import_text("std"), Err(ImportError::Invalid)));
}

#[test]
fn resolutions_of_imports() {
    assert_eq!(resolution(ModuleKind::Library, ImportKind::Path), Resolution::LibraryModule);
    assert_eq!(resolution(ModuleKind::Library, ImportKind::RegistryDependency), Resolution::DependencyFromLibrary);
    assert_eq!(resolution(ModuleKind::Document, ImportKind::PathDependency), Resolution::DocumentPathPackage);
    assert_eq!(resolution(ModuleKind::Document, ImportKind::RegistryDependency), Resolution::DocumentLockedPackage);
    assert_eq!(resolution(ModuleKind::Normal, ImportKind::PathDependency), Resolution::NormalLockedPackage);
}

#[test]
fn compiler_server_handles_fewer_requests() {
    assert_eq!(compiler_request_handler("textDocument/hover"), RequestHandler::Hover);
    assert_eq!(compiler_request_handler("textDocument/rename"), RequestHandler::MethodNotFound);
    assert!(is_exit("exit"));
    assert!(!is_exit("shutdown"));
}

#[test]
fn modules_are_walked_in_the_order_found() {
    let mut walk = ModuleWalk::new("tangram.tg");
    assert_eq!(walk.next().as_deref(), Some("tangram.tg"));
    walk.finish("tangram.tg".to_owned(), &vec!["a.tg".to_owned(), "b.tg".to_owned(), "tangram.tg".to_owned()]);
    assert_eq!(walk.next().as_deref(), Some("a.tg"));
    walk.finish("a.tg".to_owned(), &vec!["b.tg".to_owned()]);
    // `b.tg` was queued twice, as it was not visited when either import was seen.
    assert_eq!(walk.next().as_deref(), Some("b.tg"));
    walk.finish("b.tg".to_owned(), &vec![]);
    assert_eq!(walk.next().as_deref(), Some("b.tg"));
    walk.finish("b.tg".to_owned(), &vec!["a.tg".to_owned()]);
    assert_eq!(walk.next(), None);
}

#[test]
fn circular_path_dependencies_are_found() {
    let mut visits = PackageVisits::new();
    assert_eq!(visits.enter("/p"), Visit::New);
    assert_eq!(visits.enter("/q"), Visit::New);
    assert_eq!(visits.enter("/p"), Visit::Circular);
    visits.finish("/q", 7);
    assert_eq!(visits.enter("/q"), Visit::Done(7));
}

#[test]
fn rename_edits_group_locations_by_document() {
    let range = |line: u32| Range { start: Position { line, character: 0 }, end: Position { line, character: 3 } };
    let locations = vec![
        ("file:///a.tg".to_owned(), range(1)),
        ("file:///b.tg".to_owned(), range(2)),
        ("file:///a.tg".to_owned(), range(5)),
    ];
    let edits = rename_edits(&locations);
    assert_eq!(edits.len(), 2);
    assert_eq!(edits[0].0, "file:///a.tg");
    assert_eq!(edits[0].1, vec![range(1), range(5)]);
    assert_eq!(edits[1].0, "file:///b.tg");
    assert_eq!(edits[1].1, vec![range(2)]);
    assert!(rename_edits(&Vec::new()).is_empty());
}

#[test]
fn visiting_a_module_rewrites_its_paths() {
    let mut walk = ModuleWalk::new("tangram.tg");
    assert_eq!(walk.next().as_deref(), Some("tangram.tg"));
    let dependencies = vec![
        Dependency { id: None, name: Some("b".to_owned()), path: Some("./b".to_owned()), version: None },
        Dependency::with_name_and_version("c".to_owned(), Some("^1".to_owned())),
    ];
    walk.visit("tangram.tg".to_owned(), &vec!["./src/a.tg".to_owned()], &dependencies);
    assert_eq!(walk.next().as_deref(), Some("src/a.tg"));
    let rewritten = walk.visit(
        "src/a.tg".to_owned(),
        &vec!["../tangram.tg".to_owned(), "./util/../b.tg".to_owned()],
        &vec![Dependency { id: None, name: Some("d".to_owned()), path: Some("../../d".to_owned()), version: None }],
    );
    assert_eq!(rewritten[0].path.as_deref(), Some("../d"));
    assert_eq!(rewritten[0].name.as_deref(), Some("d"));
    assert_eq!(walk.next().as_deref(), Some("src/b.tg"));
    assert_eq!(walk.next(), None);
}

#[test]
fn imports_within_a_package() {
    assert_eq!(resolve_within("src/a.tg", "./b.tg").as_deref(), Some("src/b.tg"));
    assert_eq!(resolve_within("src/a.tg", "../../x.tg"), None);
    assert_eq!(resolve_within("a.tg", "/abs.tg"), None);
    assert_eq!(resolve_within("a.tg", "./..x/y.tg").as_deref(), Some("..x/y.tg"));
}
