use tangram::specifier::{Registry, Specifier};

#[test]
fn test_parse_specifier() {
    let path_specifiers = ["./hello", "./", "."];
    for path_specifier in path_specifiers {
        let left: Specifier = path_specifier.parse().unwrap();
        let right = Specifier::Path(path_specifier.to_owned());
        assert_eq!(left, right);
    }

    let left: Specifier = "hello".parse().unwrap();
    let right = Specifier::Registry(Registry {
        package_name: "hello".to_owned(),
        version: None,
    });
    assert_eq!(left, right);

    let left: Specifier = "hello@0.0.0".parse().unwrap();
    let right = Specifier::Registry(Registry {
        package_name: "hello".to_owned(),
        version: Some("0.0.0".to_owned()),
    });
    assert_eq!(left, right);
}

#[test]
fn absolute_path_is_a_path_specifier() {
    assert_eq!(Specifier::parse("/abs/pkg"), Specifier::Path("/abs/pkg".to_owned()));
}

#[test]
fn version_ends_at_a_second_at_sign() {
    assert_eq!(
        Specifier::parse("pkg@1.0@extra"),
        Specifier::Registry(Registry { package_name: "pkg".to_owned(), version: Some("1.0".to_owned()) })
    );
    assert_eq!(
        Specifier::parse("pkg@"),
        Specifier::Registry(Registry { package_name: "pkg".to_owned(), version: Some(String::new()) })
    );
}
