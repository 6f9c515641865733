use tangram::client::{Addr, Builder, Inet, Transport};
use tangram::compiler::request::{CheckRequest, GetHoverRequest, Kind, Request, Response, GetHoverResponse};
use tangram::compiler::types::{Diagnostic, Location, Position, Range, Severity};
use tangram::dependency::Dependency;
use tangram::documents::{change_text, diagnostics_uri, line_offset, next_version, version_path, FileState};
use tangram::installer::{check_daemon_names, Config, Defaults, InitArgs, Setup, UninitArgs};
use tangram::lockfile::{Entry, Lock};
use tangram::lsp::{
    content_length, notification_handler, parse_header_line, parse_usize, request_handler, HeaderError, HeaderLine,
    NotificationHandler, RequestHandler,
};
use tangram::module_url::{join_path, to_uri, try_to_uri, uri_text, ModuleUrl, UrlError};
use tangram::routes::{answer, route, split_path, Answer, Method, Route};


fn dep(name: &str, version: Option<&str>) -> Dependency {
    Dependency::with_name_and_version(name.to_owned(), version.map(str::to_owned))
}

#[test]
fn matches_checks_the_constraint() {
    assert_eq!(tangram::version::matches("1.2.3", &dep("a", Some("^1.0"))), Ok(true));
    assert_eq!(tangram::version::matches("2.0.0", &dep("a", Some("^1.0"))), Ok(false));
    assert_eq!(tangram::version::matches("1.2.2", &dep("a", Some("<1.2.3"))), Ok(true));
    assert_eq!(tangram::version::matches("not a version", &dep("a", None)), Ok(true));
}

#[test]
fn matches_reports_parse_errors() {
    assert_eq!(tangram::version::matches("x.y", &dep("a", Some("^1.0"))), Err("Failed to parse version: x.y.".to_owned()));
    assert_eq!(tangram::version::matches("1.0.0", &dep("a", Some("^^"))), Err("Failed to parse version.".to_owned()));
}

#[test]
fn builder_defaults_to_no_tls() {
    let config = Builder::new(Addr::Unix("/tmp/socket".to_owned())).build();
    assert!(!config.tls);
    assert_eq!(config.transport(), Transport::Unix);
    let inet = || Addr::Inet(Inet { host: "localhost".to_owned(), port: 8476 });
    assert_eq!(Builder::new(inet()).build().transport(), Transport::Tcp);
    assert_eq!(Builder::new(inet()).tls(true).build().transport(), Transport::TcpTls);
    assert_eq!(Builder::new(inet()).tls(false).build().transport(), Transport::Tcp);
}

fn defaults() -> Defaults {
    Defaults { user_name: "tangram".to_owned(), group_name: "tangram".to_owned(), daemon_root_path: "/opt/tangram".to_owned() }
}

#[test]
fn init_uses_defaults_for_a_daemon() {
    let args = InitArgs { no_daemon: false, user_name: None, group_name: Some("staff".to_owned()), root_path: None };
    assert_eq!(args.config().daemon, Some(true));
    match args.setup(&defaults()) {
        Setup::Daemon { user_name, group_name, root_path } => {
            assert_eq!(user_name, "tangram");
            assert_eq!(group_name, "staff");
            assert_eq!(root_path, "/opt/tangram");
        },
        Setup::NoDaemon { .. } => panic!("expected a daemon"),
    }
}

#[test]
fn init_without_daemon_keeps_the_root_path() {
    let args = InitArgs { no_daemon: true, user_name: None, group_name: None, root_path: Some("/data".to_owned()) };
    match args.setup(&defaults()) {
        Setup::NoDaemon { root_path } => assert_eq!(root_path.as_deref(), Some("/data")),
        Setup::Daemon { .. } => panic!("expected no daemon"),
    }
}

#[test]
fn uninit_follows_the_configuration() {
    let args = UninitArgs { user_name: None, group_name: None };
    let config = Config { daemon: None, root_path: Some("/srv".to_owned()) };
    match args.setup(&config, &defaults()) {
        Setup::Daemon { root_path, .. } => assert_eq!(root_path, "/srv"),
        Setup::NoDaemon { .. } => panic!("expected a daemon"),
    }
    assert!(check_daemon_names("tangram", "tangram").is_ok());
    assert!(check_daemon_names("tangram", "staff").is_err());
}

#[test]
fn request_handlers_by_method() {
    assert_eq!(request_handler("textDocument/completion"), RequestHandler::Completion);
    assert_eq!(request_handler("initialize"), RequestHandler::Initialize);
    assert_eq!(request_handler("tangram/virtualTextDocument"), RequestHandler::VirtualTextDocument);
    assert_eq!(request_handler("textDocument/unknown"), RequestHandler::MethodNotFound);
    assert_eq!(notification_handler("textDocument/didChange"), NotificationHandler::DidChange);
    assert_eq!(notification_handler("$/cancelRequest"), NotificationHandler::Ignored);
}

#[test]
fn header_lines() {
    match parse_header_line("Content-Length: 42\r\n") {
        Ok(HeaderLine::Header { name, value }) => {
            assert_eq!(name, "Content-Length");
            assert_eq!(value, "42");
        },
        _ => panic!("expected a header"),
    }
    match parse_header_line("A: b: c\r\n") {
        Ok(HeaderLine::Header { name, value }) => {
            assert_eq!(name, "A");
            assert_eq!(value, "b");
        },
        _ => panic!("expected a header"),
    }
    assert!(matches!(parse_header_line("\r\n"), Ok(HeaderLine::End)));
    assert!(matches!(parse_header_line(""), Ok(HeaderLine::End)));
    assert!(matches!(parse_header_line("Content-Length: 42\n"), Err(HeaderError::UnexpectedLineEnding)));
    assert!(matches!(parse_header_line("NoValue\r\n"), Err(HeaderError::MissingValue)));
}

#[test]
fn content_length_of_headers() {
    let h = |n: &str, v: &str| (n.to_owned(), v.to_owned());
    assert_eq!(content_length(&vec![h("Content-Length", "10"), h("Content-Type", "x")]), Ok(10));
    assert_eq!(content_length(&vec![h("Content-Length", "10"), h("Content-Length", "+7")]), Ok(7));
    assert_eq!(content_length(&vec![h("Content-Type", "x")]), Err(HeaderError::MissingContentLength));
    assert_eq!(content_length(&vec![h("Content-Length", "ten")]), Err(HeaderError::InvalidContentLength));
    assert_eq!(parse_usize("0"), Some(0));
    assert_eq!(parse_usize("18446744073709551615"), Some(usize::MAX));
    assert_eq!(parse_usize("18446744073709551616"), None);
    assert_eq!(parse_usize("+"), None);
    assert_eq!(parse_usize(""), None);
    assert_eq!(parse_usize("-1"), None);
}

#[test]
fn routes_of_requests() {
    assert_eq!(route(Method::Get, "/v1/status"), Route::GetStatus);
    assert_eq!(route(Method::Post, "/v1/targets/abc/build"), Route::GetOrCreateBuildForTarget);
    assert_eq!(route(Method::Get, "/v1/packages/search"), Route::SearchPackages);
    assert_eq!(route(Method::Get, "/v1/packages/foo"), Route::GetPackage);
    assert_eq!(route(Method::Get, "/v1/packages/foo/versions/1.0.0"), Route::GetPackageVersion);
    assert_eq!(route(Method::Head, "/v1/objects/x"), Route::HeadObject);
    assert_eq!(route(Method::Patch, "/v1/trackers/t"), Route::PatchTracker);
    assert_eq!(route(Method::Post, "/v1/status"), Route::Fallback);
    assert_eq!(route(Method::Get, "/v2/status"), Route::Fallback);
    assert_eq!(split_path("/a//b"), vec!["".to_owned(), "a".to_owned(), "".to_owned(), "b".to_owned()]);
    assert_eq!(answer(None), Answer::NotFound);
    assert_eq!(answer(Some(false)), Answer::InternalServerError);
    assert_eq!(answer(Some(true)), Answer::Handled);
}

#[test]
fn module_urls_from_parts() {
    let none = None;
    let q = Some("tangram.tg".to_owned());
    let d = Some("abc".to_owned());
    assert!(matches!(ModuleUrl::from_parts("tangram-lib", "/lib.d.ts", &none, &none), Ok(ModuleUrl::Lib { .. })));
    assert!(matches!(ModuleUrl::from_parts("tangram-package-module", "", &d, &q), Ok(ModuleUrl::PackageModule { .. })));
    assert_eq!(ModuleUrl::from_parts("tangram-package-module", "", &none, &q).err(), Some(UrlError::MissingDomain));
    assert_eq!(ModuleUrl::from_parts("tangram-package-module", "", &d, &none).err(), Some(UrlError::MissingQuery));
    assert_eq!(ModuleUrl::from_parts("tangram-path-module", "/p", &none, &none).err(), Some(UrlError::MissingQuery));
    assert_eq!(ModuleUrl::from_parts("http", "/p", &none, &none).err(), Some(UrlError::InvalidScheme));
}

#[test]
fn module_urls_parse_and_print() {
    let url = ModuleUrl::parse("tangram-path-module:///home/pkg?tangram.tg").unwrap();
    match &url {
        ModuleUrl::PathModule { package_path, module } => {
            assert_eq!(package_path, "/home/pkg");
            assert_eq!(module, "tangram.tg");
        },
        _ => panic!("expected a path module"),
    }
    assert_eq!(url.text(), "tangram-path-module:///home/pkg?tangram.tg");
    assert_eq!(url.try_to_url().as_deref(), Some("tangram-path-module:///home/pkg?tangram.tg"));
    assert_eq!(uri_text(&url), "file:///home/pkg/tangram.tg");
    assert_eq!(to_uri(&url), "file:///home/pkg/tangram.tg");
    assert_eq!(ModuleUrl::parse("not a url").err(), Some(UrlError::NotAUrl));
    let lib = ModuleUrl::Lib { path: "/lib.d.ts".to_owned() };
    assert_eq!(try_to_uri(&lib).as_deref(), Some("tangram-lib:///lib.d.ts"));
}

#[test]
fn joining_paths() {
    assert_eq!(join_path("/a", "b"), "/a/b");
    assert_eq!(join_path("/a/", "b"), "/a/b");
    assert_eq!(join_path("", "b"), "b");
    assert_eq!(join_path("/a", "/b"), "/b");
    assert_eq!(join_path("/a", ""), "/a/");
}

#[test]
fn versions_of_files() {
    let path_module = ModuleUrl::PathModule { package_path: "/p".to_owned(), module: "m.tg".to_owned() };
    assert_eq!(version_path(&path_module).as_deref(), Some("/p/m.tg"));
    let targets = ModuleUrl::PathTargets { package_path: "/p".to_owned() };
    assert_eq!(version_path(&targets).as_deref(), Some("/p/tangram.json"));
    assert_eq!(version_path(&ModuleUrl::Lib { path: "/x".to_owned() }), None);
    assert_eq!(next_version(None, 5), (0, FileState::Unopened { version: 0, modified: 5 }));
    assert_eq!(next_version(Some(FileState::Opened { version: 3 }), 9), (3, FileState::Opened { version: 3 }));
    let unopened = FileState::Unopened { version: 1, modified: 5 };
    assert_eq!(next_version(Some(unopened), 5), (1, unopened));
    assert_eq!(next_version(Some(unopened), 6), (2, FileState::Unopened { version: 2, modified: 6 }));
}

#[test]
fn offsets_of_positions() {
    let text = "ab\ncde\r\nf";
    assert_eq!(line_offset(text, 0, 1), 1);
    assert_eq!(line_offset(text, 1, 2), 2 + 1 + 2);
    assert_eq!(line_offset(text, 2, 0), 2 + 3 + 2);
    assert_eq!(line_offset(text, 5, 0), 2 + 3 + 1 + 5);
    assert_eq!(line_offset("", 0, 0), 0);
}

#[test]
fn locks_map_dependencies_to_entries() {
    let mut a = Lock::new();
    a.insert(dep("x", Some("^1")), Entry { package: Some("x1".to_owned()), lock: 1 });
    a.insert(dep("y", None), Entry { package: None, lock: 2 });
    a.insert(dep("x", Some("^1")), Entry { package: Some("x2".to_owned()), lock: 3 });
    assert_eq!(a.dependencies.len(), 2);
    assert_eq!(a.get(&dep("x", Some("^1"))).unwrap().lock, 3);
    let mut b = Lock::new();
    b.insert(dep("y", None), Entry { package: None, lock: 2 });
    b.insert(dep("x", Some("^1")), Entry { package: Some("x2".to_owned()), lock: 3 });
    assert!(a.same(&b));
    b.insert(dep("y", None), Entry { package: None, lock: 4 });
    assert!(!a.same(&b));
}

#[test]
fn responses_answer_requests_of_their_kind() {
    let position = Position { line: 1, character: 2 };
    let hover = Request::GetHover(GetHoverRequest { url: ModuleUrl::Lib { path: "/a".to_owned() }, position });
    assert_eq!(hover.kind(), Kind::GetHover);
    assert!(Response::GetHover(GetHoverResponse { info: None }).answers(&hover));
    let check = Request::Check(CheckRequest { urls: Vec::new() });
    assert!(!Response::GetHover(GetHoverResponse { info: None }).answers(&check));
}

#[test]
fn diagnostics_without_location_start_the_text() {
    let range = Range { start: Position { line: 1, character: 0 }, end: Position { line: 1, character: 4 } };
    let located = Diagnostic {
        location: Some(Location { url: ModuleUrl::Lib { path: "/a".to_owned() }, range }),
        severity: Severity::Error,
        message: "m".to_owned(),
    };
    assert_eq!(located.range(), range);
    let unlocated = Diagnostic { location: None, severity: Severity::Hint, message: "m".to_owned() };
    assert_eq!(unlocated.range(), Range { start: Position { line: 0, character: 0 }, end: Position { line: 0, character: 0 } });
}

#[test]
fn diagnostics_are_published_for_modules_found_by_path() {
    let module = ModuleUrl::PathModule { package_path: "/home/pkg".to_owned(), module: "tangram.tg".to_owned() };
    assert_eq!(diagnostics_uri(&module).as_deref(), Some("file:///home/pkg/tangram.tg"));
    let lib = ModuleUrl::Lib { path: "/lib.d.ts".to_owned() };
    assert_eq!(diagnostics_uri(&lib), None);
    let targets = ModuleUrl::PathTargets { package_path: "/home/pkg".to_owned() };
    assert_eq!(diagnostics_uri(&targets), None);
}

#[test]
fn edits_replace_the_characters_of_their_range() {
    let at = |line: u32, character: u32| Position { line, character };
    assert_eq!(change_text("ab\ncd", at(1, 0), at(1, 1), "X"), "ab\nXd");
    assert_eq!(change_text("ab\ncd", at(0, 1), at(1, 1), ""), "ad");
    assert_eq!(change_text("ab", at(0, 2), at(0, 2), "c"), "abc");
    assert_eq!(change_text("é\nx", at(1, 0), at(1, 1), "y"), "é\ny");
}

#[test]
fn a_new_client_is_unconnected_with_sixteen_file_permits() {
    let mut config = Builder::new(Addr::Unix("/tmp/socket".to_owned())).build();
    assert_eq!(config.file_descriptor_permits, 16);
    assert!(!config.connected);
    config.connected = true;
    config.disconnect();
    assert!(!config.connected);
    assert!(!config.tls);
}

#[test]
fn texts_of_dependencies() {
    assert_eq!(Dependency::with_name_and_version("std".to_owned(), Some("^1".to_owned())).text(), "std@^1");
    assert_eq!(Dependency::with_name_and_version("std".to_owned(), None).text(), "std");
    assert_eq!(Dependency::with_path("./a".to_owned()).text(), "./a");
    assert_eq!(Dependency::with_id("abc".to_owned()).text(), "abc");
}

#[test]
fn texts_of_dependencies_read_back() {
    let texts = ["std@^1", "std", "./a", "/abs/b", "a@b@c"];
    let parsed: Vec<Dependency> = texts.iter().map(|t| Dependency::parse_text(t)).collect();
    assert!(parsed[0].same(&dep("std", Some("^1"))));
    assert!(parsed[1].same(&dep("std", None)));
    assert!(parsed[2].same(&Dependency::with_path("./a".to_owned())));
    assert!(parsed[3].same(&Dependency::with_path("/abs/b".to_owned())));
    assert!(parsed[4].same(&dep("a", Some("b@c"))));
    for (text, d) in texts.iter().zip(&parsed) {
        assert_eq!(d.text(), *text);
    }
}
