use tangram::repl::repl_expression;

#[test]
fn object_literals_are_wrapped_in_parentheses() {
    assert_eq!(repl_expression("{ a: 1 }"), "({ a: 1 })");
    assert_eq!(repl_expression("  \t{a: 1}\n"), "(  \t{a: 1}\n)");
    assert_eq!(repl_expression("{ let a = 1; };"), "{ let a = 1; };");
    assert_eq!(repl_expression("{ a; }  ;  "), "{ a; }  ;  ");
    assert_eq!(repl_expression("1 + 2"), "1 + 2");
    assert_eq!(repl_expression("   "), "   ");
    assert_eq!(repl_expression(""), "");
    assert_eq!(repl_expression("\u{3000}{x}"), "(\u{3000}{x})");
}
