use tangram::loading::{builtin, lib_file, source_line, transpiles, LibFile, LoadError};
use tangram::module_url::ModuleUrl;

fn package_module(module: &str) -> ModuleUrl {
    ModuleUrl::PackageModule { package_hash: "abc".to_owned(), module: module.to_owned() }
}

#[test]
fn builtin_and_library_paths() {
    assert_eq!(builtin("/lib.ts"), Ok(()));
    assert_eq!(builtin("lib.ts"), Err(LoadError::MissingLeadingSlash));
    assert_eq!(builtin("/other.ts"), Err(LoadError::UnknownBuiltin));
    assert_eq!(lib_file("/lib.tangram.d.ts"), Ok(LibFile::TangramDeclarations));
    assert_eq!(lib_file("/lib.es5.d.ts"), Ok(LibFile::Library("lib.es5.d.ts".to_owned())));
    assert_eq!(lib_file(""), Err(LoadError::MissingLeadingSlash));
}

#[test]
fn typescript_modules_and_targets_are_transpiled() {
    assert_eq!(transpiles(&package_module("src/main.ts")), Ok(true));
    assert_eq!(transpiles(&package_module("src/main.js")), Ok(false));
    assert_eq!(transpiles(&package_module("src/main")), Err(LoadError::NoExtension));
    assert_eq!(transpiles(&package_module("src/.ts")), Err(LoadError::NoExtension));
    assert_eq!(transpiles(&package_module("src/main.py")), Err(LoadError::UnsupportedExtension));
    assert_eq!(transpiles(&ModuleUrl::PackageTargets { package_hash: "abc".to_owned() }), Ok(true));
    let path_module = ModuleUrl::PathModule { package_path: "/p".to_owned(), module: "a.ts".to_owned() };
    assert_eq!(transpiles(&path_module), Err(LoadError::CannotLoad));
}

#[test]
fn lines_of_a_source() {
    let source = "first\nsecond\r\n";
    assert_eq!(source_line(source, 0).as_deref(), Some("first"));
    assert_eq!(source_line(source, 1).as_deref(), Some("second\r"));
    assert_eq!(source_line(source, 2).as_deref(), Some(""));
    assert_eq!(source_line(source, 3), None);
    assert_eq!(source_line("", 0).as_deref(), Some(""));
}
