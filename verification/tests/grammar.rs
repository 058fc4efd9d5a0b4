use deptool::decl::{FieldDecl, FuncDecl, ParamDecl, StructDecl};
use deptool::directive::{
    alias_is_readable, parse_alias_of, parse_defined_in, parse_defined_in_list, parse_directive, parse_directive_kind,
    Directive, DirectiveKind, Request,
};
use deptool::error::{Failure, ParseError};
use deptool::source::{Declaration, Entity, EntityKind, Token, TokenKind};

fn token(kind: TokenKind, text: &str, file: &str, line: u32) -> Token {
    Token { kind, spelling: text.to_string(), file: Some(file.to_string()), line }
}

fn comment(text: &str, line: u32) -> Token {
    token(TokenKind::Comment, text, "main.c", line)
}

fn word(text: &str, line: u32) -> Token {
    token(TokenKind::Identifier, text, "main.c", line)
}

fn leaf(kind: EntityKind, name: &str, ty: &str) -> Entity {
    Entity {
        kind,
        name: Some(name.to_string()),
        ty: Some(ty.to_string()),
        result_ty: None,
        arguments: None,
        children: Vec::new(),
    }
}

fn record(name: &str, fields: Vec<Entity>) -> Entity {
    Entity {
        kind: EntityKind::StructDecl,
        name: Some(name.to_string()),
        ty: None,
        result_ty: None,
        arguments: None,
        children: fields,
    }
}

fn function(name: &str, result: &str, params: Vec<(&str, &str)>) -> Declaration {
    Declaration {
        name: name.to_string(),
        entity: Entity {
            kind: EntityKind::FunctionDecl,
            name: Some(name.to_string()),
            ty: None,
            result_ty: Some(result.to_string()),
            arguments: Some(
                params.into_iter().map(|(n, t)| leaf(EntityKind::ParmDecl, n, t)).collect(),
            ),
            children: Vec::new(),
        },
    }
}

fn strings(items: &[&str]) -> Vec<String> {
    items.iter().map(|s| s.to_string()).collect()
}

#[test]
fn kind_and_trivia_are_split_on_colons_and_trimmed() {
    assert_eq!(
        parse_directive_kind("// ABC_MINI: Based-on: foo.c,deadbeef"),
        Ok((DirectiveKind::BasedOn, strings(&["foo.c,deadbeef"])))
    );
    assert_eq!(
        parse_directive_kind("// ABC_MINI:Alias-of:  my_t  : more :"),
        Ok((DirectiveKind::AliasOf, strings(&["my_t", "more", ""])))
    );
    assert_eq!(parse_directive_kind("// ABC_MINI: Defined-in"), Ok((DirectiveKind::DefinedIn, strings(&[]))));
    assert_eq!(
        parse_directive_kind("  // ABC_MINI  : Defined-in-start : w.c"),
        Ok((DirectiveKind::DefinedInStart, strings(&["w.c"])))
    );
    assert_eq!(
        parse_directive_kind("// ABC_MINI: Defined-in-end"),
        Ok((DirectiveKind::DefinedInEnd, strings(&[])))
    );
}

#[test]
fn malformed_comments_are_refused() {
    assert_eq!(parse_directive_kind("// ABC_MINIX: Based-on: a,b"), Err(ParseError::BadMagic));
    assert_eq!(parse_directive_kind("// hello"), Err(ParseError::BadMagic));
    assert_eq!(parse_directive_kind(""), Err(ParseError::BadMagic));
    assert_eq!(parse_directive_kind("// ABC_MINI Based-on: a,b"), Err(ParseError::BadMagic));
    assert_eq!(parse_directive_kind("// ABC_MINI"), Err(ParseError::MissingDirective));
    assert_eq!(parse_directive_kind("// ABC_MINI: Based_on: a,b"), Err(ParseError::UnknownDirective));
    assert_eq!(parse_directive_kind("// ABC_MINI:"), Err(ParseError::UnknownDirective));
    assert_eq!(parse_directive_kind("// ABC_MINI: alias-of: t"), Err(ParseError::UnknownDirective));
}

#[test]
fn based_on_parses_to_file_and_commit() {
    let tokens = vec![comment("// ABC_MINI: Based-on: foo.c,deadbeef", 1)];
    assert_eq!(
        parse_directive(&tokens, "main.c", 0),
        Ok(Request::Complete(Directive::BasedOn {
            filename: "foo.c".to_string(),
            commit_sha: "deadbeef".to_string(),
        }))
    );
}

#[test]
fn based_on_splits_at_the_first_comma_only() {
    let tokens = vec![comment("// ABC_MINI: Based-on: a.c,12,34", 1), comment("// ABC_MINI: Based-on: ,", 2)];
    assert_eq!(
        parse_directive(&tokens, "main.c", 0),
        Ok(Request::Complete(Directive::BasedOn {
            filename: "a.c".to_string(),
            commit_sha: "12,34".to_string(),
        }))
    );
    assert_eq!(
        parse_directive(&tokens, "main.c", 1),
        Ok(Request::Complete(Directive::BasedOn { filename: String::new(), commit_sha: String::new() }))
    );
}

#[test]
fn missing_trivia_is_refused_for_each_kind() {
    let tokens = vec![
        comment("// ABC_MINI: Alias-of", 1),
        comment("// ABC_MINI: Based-on", 2),
        comment("// ABC_MINI: Based-on: foo.c deadbeef", 3),
        comment("// ABC_MINI: Defined-in", 4),
        comment("// ABC_MINI: Defined-in-start", 5),
        comment("// ABC_MINI: Defined-in-start: w.c", 6),
        comment("// ABC_MINI: Nonsense: w.c", 7),
    ];
    assert_eq!(parse_directive(&tokens, "main.c", 0), Err(ParseError::MissingAliasTypename));
    assert_eq!(parse_directive(&tokens, "main.c", 1), Err(ParseError::MissingBasedOnFile));
    assert_eq!(parse_directive(&tokens, "main.c", 2), Err(ParseError::ExpectedFilenameAndCommit));
    assert_eq!(parse_directive(&tokens, "main.c", 3), Err(ParseError::MissingDefinedInFilename));
    assert_eq!(parse_directive(&tokens, "main.c", 4), Err(ParseError::MissingDefinedInFilename));
    assert_eq!(parse_directive(&tokens, "main.c", 5), Err(ParseError::UnmatchedDefinedInStart));
    assert_eq!(parse_directive(&tokens, "main.c", 6), Err(ParseError::UnknownDirective));
}

#[test]
fn alias_of_and_defined_in_ask_for_the_next_line() {
    let tokens = vec![
        comment("// ABC_MINI: Alias-of: widget_t", 3),
        word("struct", 4),
        token(TokenKind::Identifier, "elsewhere", "other.h", 4),
        word("widget", 4),
        word("int", 5),
        comment("// ABC_MINI: Defined-in: w.c", 7),
        word("late", 9),
    ];
    assert_eq!(
        parse_directive(&tokens, "main.c", 0),
        Ok(Request::AliasOf { typename: "widget_t".to_string(), tokens: vec![1, 3] })
    );
    assert_eq!(
        parse_directive(&tokens, "main.c", 5),
        Ok(Request::DefinedIn { filename: "w.c".to_string(), tokens: vec![] })
    );
}

#[test]
fn defined_in_start_reaches_to_the_first_end() {
    let tokens = vec![
        comment("// ABC_MINI: Defined-in-start: w.c", 1),
        word("f", 2),
        comment("// a plain comment", 3),
        comment("// ABC_MINI: Based-on: a,b", 4),
        word("// ABC_MINI: Defined-in-end", 5),
        comment("// ABC_MINI: Defined-in-end: trailing", 6),
        comment("// ABC_MINI: Defined-in-end", 7),
    ];
    assert_eq!(
        parse_directive(&tokens, "main.c", 0),
        Ok(Request::DefinedInList { filename: "w.c".to_string(), first: 0, end: 5 })
    );
    assert_eq!(parse_directive(&tokens, "main.c", 5), Ok(Request::Complete(Directive::DefinedInEnd)));
}

#[test]
fn alias_takes_the_first_record_among_the_entities() {
    let nodes = vec![
        None,
        Some(leaf(EntityKind::Other, "x", "int")),
        Some(record(
            "widget",
            vec![
                leaf(EntityKind::FieldDecl, "id", "int"),
                leaf(EntityKind::Other, "nested", "struct inner"),
                leaf(EntityKind::FieldDecl, "name", "const char *"),
            ],
        )),
        Some(record("second", vec![])),
    ];
    assert_eq!(
        parse_alias_of("widget_t".to_string(), &nodes),
        Ok(Directive::AliasOf {
            typename: "widget_t".to_string(),
            alias: StructDecl {
                name: "widget".to_string(),
                fields: vec![
                    FieldDecl { name: "id".to_string(), ty: "int".to_string() },
                    FieldDecl { name: "name".to_string(), ty: "const char *".to_string() },
                ],
            },
        })
    );
    let none = vec![None, Some(leaf(EntityKind::FunctionDecl, "f", "int (void)"))];
    assert_eq!(parse_alias_of("t".to_string(), &none), Err(ParseError::ExpectedStructDeclaration));
    assert_eq!(parse_alias_of("t".to_string(), &Vec::new()), Err(ParseError::ExpectedStructDeclaration));
}

#[test]
fn defined_in_takes_the_first_function() {
    let functions = vec![function("AbcMini__open", "int", vec![("fd", "int")]), function("g", "void", vec![])];
    assert_eq!(
        parse_defined_in("w.c".to_string(), &functions),
        Ok(Directive::DefinedIn {
            filename: "w.c".to_string(),
            signature: FuncDecl {
                name: "AbcMini__open".to_string(),
                return_ty: "int".to_string(),
                params: vec![ParamDecl { name: "fd".to_string(), ty: "int".to_string() }],
            },
        })
    );
    assert_eq!(
        parse_defined_in("w.c".to_string(), &Vec::new()),
        Err(ParseError::ExpectedFunctionDeclaration)
    );
}

#[test]
fn defined_in_list_keeps_every_function_in_order() {
    let functions = vec![
        function("b", "void", vec![]),
        function("a", "char *", vec![("n", "size_t"), ("p", "void *")]),
    ];
    assert_eq!(
        parse_defined_in_list("w.c".to_string(), &functions),
        Directive::DefinedInList {
            filename: "w.c".to_string(),
            signatures: vec![
                FuncDecl { name: "b".to_string(), return_ty: "void".to_string(), params: vec![] },
                FuncDecl {
                    name: "a".to_string(),
                    return_ty: "char *".to_string(),
                    params: vec![
                        ParamDecl { name: "n".to_string(), ty: "size_t".to_string() },
                        ParamDecl { name: "p".to_string(), ty: "void *".to_string() },
                    ],
                },
            ],
        }
    );
    assert_eq!(
        parse_defined_in_list("w.c".to_string(), &Vec::new()),
        Directive::DefinedInList { filename: "w.c".to_string(), signatures: vec![] }
    );
}

#[test]
fn every_error_has_its_wording() {
    assert_eq!(ParseError::BadMagic.message(), "missing magic");
    assert_eq!(ParseError::MissingDirective.message(), "missing directive");
    assert_eq!(ParseError::UnknownDirective.message(), "unknown directive");
    assert_eq!(ParseError::MissingAliasTypename.message(), "missing alias typename");
    assert_eq!(ParseError::MissingBasedOnFile.message(), "missing based on file");
    assert_eq!(ParseError::ExpectedFilenameAndCommit.message(), "expected (<filename>, <commit_sha>)");
    assert_eq!(ParseError::MissingDefinedInFilename.message(), "missing defined in filename");
    assert_eq!(ParseError::ExpectedStructDeclaration.message(), "expected struct declaration");
    assert_eq!(ParseError::ExpectedFunctionDeclaration.message(), "expected function declaration");
    assert_eq!(ParseError::UnmatchedDefinedInStart.message(), "unmatched Defined-in-start");
    assert_eq!(ParseError::UnmatchedDefinedInEnd.message(), "unmatched Defined-in-end");
    assert_eq!(ParseError::NestedDefinedInStart.message(), "nesting Defined-in-start is not allowed");
    assert_eq!(ParseError::UnclosedDefinedInStart.message(), "unclosed Defined-in-start");
}

#[test]
fn failure_names_the_token_it_was_met_at() {
    let met = comment("// ABC_MINI: Nonsense", 12);
    assert_eq!(
        Failure::at(&met, ParseError::UnknownDirective),
        Failure {
            error: ParseError::UnknownDirective,
            file: Some("main.c".to_string()),
            line: 12,
            contents: "// ABC_MINI: Nonsense".to_string(),
        }
    );
    let nowhere = Token { kind: TokenKind::Comment, spelling: "x".to_string(), file: None, line: 0 };
    assert_eq!(
        Failure::at(&nowhere, ParseError::BadMagic),
        Failure { error: ParseError::BadMagic, file: None, line: 0, contents: "x".to_string() }
    );
}

#[test]
fn only_the_first_record_has_to_be_readable() {
    let nameless = Entity {
        kind: EntityKind::StructDecl,
        name: None,
        ty: None,
        result_ty: None,
        arguments: None,
        children: Vec::new(),
    };
    let good = record("widget", vec![leaf(EntityKind::FieldDecl, "id", "int")]);
    assert!(alias_is_readable(&Vec::new()));
    assert!(alias_is_readable(&vec![None, Some(leaf(EntityKind::Other, "x", "int"))]));
    assert!(alias_is_readable(&vec![None, Some(record("a", vec![])), Some(record("b", vec![]))]));
    assert!(!alias_is_readable(&vec![
        None,
        Some(Entity {
            kind: EntityKind::StructDecl,
            name: None,
            ty: None,
            result_ty: None,
            arguments: None,
            children: Vec::new(),
        }),
        Some(record("b", vec![])),
    ]));
    assert!(alias_is_readable(&vec![Some(good), Some(nameless)]));
}
