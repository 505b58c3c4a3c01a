use funclang::{ErrorKind, Lexer, ParseError, Parser, Type, AST};

fn parse(src: &str) -> Result<AST, ParseError> {
    let mut p = Parser::new(Lexer::new(src.to_string()));
    p.parse("main.fn".to_string())
}

fn functions(ast: AST) -> Vec<AST> {
    match ast {
        AST::File { child, filename } => {
            assert_eq!(filename, "main.fn");
            child
        }
        other => panic!("not a file: {:?}", other),
    }
}

fn returned(stmt: &AST) -> Option<String> {
    match stmt {
        AST::Return { value: None } => None,
        AST::Return { value: Some(v) } => match v.as_ref() {
            AST::Value { value } => Some(value.clone()),
            other => panic!("not a value: {:?}", other),
        },
        other => panic!("not a return: {:?}", other),
    }
}

fn plain(t: &Type) -> bool {
    t.subtype.is_none()
}

fn error_of(src: &str) -> ParseError {
    match parse(src) {
        Ok(ast) => panic!("parsed: {:?}", ast),
        Err(e) => e,
    }
}

#[test]
fn minimal_function() {
    let fs = functions(parse("main: func(): int32 {\n    return 0;\n}\n").unwrap());
    assert_eq!(fs.len(), 1);
    match &fs[0] {
        AST::FunctionDefinition { name, args, body, return_type } => {
            assert_eq!(name, "main");
            assert!(args.is_empty());
            assert_eq!(return_type, "int32");
            assert_eq!(body.len(), 1);
            assert_eq!(returned(&body[0]), Some("0".to_string()));
        }
        other => panic!("{:?}", other),
    }
}

#[test]
fn void_function() {
    let fs = functions(parse("main: func() {\n    return;\n}\n").unwrap());
    assert_eq!(fs.len(), 1);
    match &fs[0] {
        AST::FunctionDefinition { return_type, body, .. } => {
            assert_eq!(return_type, "void");
            assert_eq!(body.len(), 1);
            assert_eq!(returned(&body[0]), None);
        }
        other => panic!("{:?}", other),
    }
}

#[test]
fn generic_parameter() {
    let fs = functions(parse("main: func(args: Array<string>): int32 { return 0; }").unwrap());
    match &fs[0] {
        AST::FunctionDefinition { args, .. } => {
            assert_eq!(args.len(), 1);
            assert_eq!(args[0].0, "args");
            assert_eq!(args[0].1.name, "Array");
            let inner = args[0].1.subtype.as_ref().unwrap();
            assert_eq!(inner.name, "string");
            assert!(plain(inner));
        }
        other => panic!("{:?}", other),
    }
}

#[test]
fn missing_colon_after_name() {
    let e = error_of("main func(): int32 { return 0; }");
    assert_eq!(e.kind, ErrorKind::ExpectedColon);
    assert_eq!(e.found, "func");
    assert_eq!((e.line, e.char_pos), (1, 6));
}

#[test]
fn value_returned_from_void_function() {
    let e = error_of("main: func() { return 5; }");
    assert_eq!(e.kind, ErrorKind::UnexpectedReturnValue);
    assert_eq!(e.found, "5");
}

#[test]
fn bare_return_from_value_function() {
    let e = error_of("main: func(): int32 {\n  return;\n}");
    assert_eq!(e.kind, ErrorKind::MissingReturnValue);
    assert_eq!((e.line, e.char_pos), (2, 9));
}

#[test]
fn explicit_void_return_type() {
    let fs = functions(parse("f: func(): void { return; }").unwrap());
    match &fs[0] {
        AST::FunctionDefinition { return_type, .. } => assert_eq!(return_type, "void"),
        other => panic!("{:?}", other),
    }
}

#[test]
fn several_parameters_in_order() {
    let fs = functions(parse("f: func(a: int, b: Array<string>, a: X): int { return a; }").unwrap());
    match &fs[0] {
        AST::FunctionDefinition { args, body, .. } => {
            let names: Vec<&str> = args.iter().map(|p| p.0.as_str()).collect();
            assert_eq!(names, vec!["a", "b", "a"]);
            assert_eq!(args[0].1.name, "int");
            assert!(plain(&args[0].1));
            assert_eq!(args[1].1.subtype.as_ref().unwrap().name, "string");
            assert_eq!(args[2].1.name, "X");
            assert_eq!(returned(&body[0]), Some("a".to_string()));
        }
        other => panic!("{:?}", other),
    }
}

#[test]
fn several_functions_and_statements() {
    let src = "a: func() { } b: func(): int { return 1; return 2_0; }";
    let fs = functions(parse(src).unwrap());
    assert_eq!(fs.len(), 2);
    match (&fs[0], &fs[1]) {
        (
            AST::FunctionDefinition { name: n0, body: b0, .. },
            AST::FunctionDefinition { name: n1, body: b1, .. },
        ) => {
            assert_eq!(n0, "a");
            assert!(b0.is_empty());
            assert_eq!(n1, "b");
            assert_eq!(b1.len(), 2);
            assert_eq!(returned(&b1[0]), Some("1".to_string()));
            assert_eq!(returned(&b1[1]), Some("2_0".to_string()));
        }
        other => panic!("{:?}", other),
    }
}

#[test]
fn empty_source_is_empty_file() {
    assert!(functions(parse("  \n ").unwrap()).is_empty());
}

#[test]
fn declaration_must_start_with_name() {
    let e = error_of("{ }");
    assert_eq!(e.kind, ErrorKind::UnexpectedToken);
    assert_eq!(e.found, "{");
}

#[test]
fn only_func_declarations() {
    let e = error_of("x: var = 1;");
    assert_eq!(e.kind, ErrorKind::UnsupportedDeclaration);
    assert_eq!(e.found, "var");
}

#[test]
fn func_needs_parenthesis() {
    let e = error_of("f: func { }");
    assert_eq!(e.kind, ErrorKind::ExpectedLParen);
}

#[test]
fn parameter_needs_name() {
    let e = error_of("f: func(: int) { }");
    assert_eq!(e.kind, ErrorKind::ExpectedParamName);
    let e = error_of("f: func(a: int,) { }");
    assert_eq!(e.kind, ErrorKind::ExpectedParamName);
    assert_eq!(e.found, ")");
}

#[test]
fn parameter_needs_colon_and_type() {
    assert_eq!(error_of("f: func(a int) { }").kind, ErrorKind::ExpectedParamColon);
    assert_eq!(error_of("f: func(a: ) { }").kind, ErrorKind::ExpectedTypeName);
    assert_eq!(error_of("f: func(a: 5) { }").kind, ErrorKind::ExpectedTypeName);
}

#[test]
fn parameters_need_commas() {
    let e = error_of("f: func(a: int b: int) { }");
    assert_eq!(e.kind, ErrorKind::ExpectedComma);
    assert_eq!(e.found, "b");
}

#[test]
fn nested_generic_is_refused() {
    let e = error_of("f: func(a: A<B<C>>) { }");
    assert_eq!(e.kind, ErrorKind::NestedGeneric);
    assert_eq!(error_of("f: func(a: A<B) { }").kind, ErrorKind::ExpectedRAngle);
    assert_eq!(error_of("f: func(a: A<>) { }").kind, ErrorKind::ExpectedTypeName);
}

#[test]
fn return_type_must_be_a_name() {
    assert_eq!(error_of("f: func(): { }").kind, ErrorKind::ExpectedReturnType);
}

#[test]
fn body_needs_brace() {
    let e = error_of("f: func(): int return 0; }");
    assert_eq!(e.kind, ErrorKind::ExpectedLBrace);
    assert_eq!(e.found, "return");
}

#[test]
fn body_must_be_closed() {
    let e = error_of("f: func() { return;");
    assert_eq!(e.kind, ErrorKind::UnclosedFunction);
    assert_eq!(e.found, "");
}

#[test]
fn only_return_statements() {
    let e = error_of("f: func() { print; }");
    assert_eq!(e.kind, ErrorKind::UnsupportedStatement);
    assert_eq!(e.found, "print");
}

#[test]
fn stray_tokens_in_body_are_errors() {
    let e = error_of("f:func(){5}");
    assert_eq!(e.kind, ErrorKind::UnsupportedStatement);
    assert_eq!(e.found, "5");
    let e = error_of("f: func(): int { ; return 1; }");
    assert_eq!(e.kind, ErrorKind::UnsupportedStatement);
    assert_eq!(e.found, ";");
    assert_eq!(e.char_pos, 18);
}

#[test]
fn return_value_must_be_literal_or_name() {
    assert_eq!(error_of("f: func(): int { return ( ; }").kind, ErrorKind::ExpectedReturnValue);
}

#[test]
fn return_value_needs_semicolon() {
    let e = error_of("f: func(): int { return 1 }");
    assert_eq!(e.kind, ErrorKind::ExpectedSemicolon);
    assert_eq!(e.found, "}");
}

#[test]
fn parsing_stops_at_first_error() {
    let e = error_of("a: func() { } b func() { } c");
    assert_eq!(e.kind, ErrorKind::ExpectedColon);
    assert_eq!(e.found, "func");
}

#[test]
fn symbol_names_carry_file() {
    let s = Parser::name_with_file("src/main.fn".to_string(), "main".to_string());
    assert_eq!(s, "src_main_fn__main__");
    let ast = parse("").unwrap();
    assert_eq!(Parser::name_with_file_from_ast(ast, "f".to_string()), "main_fn__f__");
}
