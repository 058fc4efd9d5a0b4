use deptool::decl::{FuncDecl, ParamDecl, StructDecl};
use deptool::directive::{parse_defined_in_list, parse_directive, Directive, Request};
use deptool::error::ParseError;
use deptool::hooks::{generate_hooks, FuncHooks};
use deptool::source::{iter_raw_directives, Declaration, Entity, EntityKind, Token, TokenKind};
use deptool::validate::{parse_directives, transition, ParseState, Rejection, Validator};

fn list(file: &str) -> Directive {
    Directive::DefinedInList { filename: file.to_string(), signatures: vec![] }
}

fn based() -> Directive {
    Directive::BasedOn { filename: "a.c".to_string(), commit_sha: "1".to_string() }
}

fn single() -> Directive {
    Directive::DefinedIn {
        filename: "a.c".to_string(),
        signature: FuncDecl { name: "f".to_string(), return_ty: "void".to_string(), params: vec![] },
    }
}

fn alias() -> Directive {
    Directive::AliasOf {
        typename: "t".to_string(),
        alias: StructDecl { name: "s".to_string(), fields: vec![] },
    }
}

#[test]
fn the_five_transitions() {
    assert_eq!(transition(ParseState::Start, &list("a")), Ok((ParseState::DefinedInBegin, true)));
    assert_eq!(transition(ParseState::Start, &Directive::DefinedInEnd), Err(ParseError::UnmatchedDefinedInEnd));
    assert_eq!(transition(ParseState::DefinedInBegin, &list("a")), Err(ParseError::NestedDefinedInStart));
    assert_eq!(transition(ParseState::DefinedInBegin, &Directive::DefinedInEnd), Ok((ParseState::Start, false)));
    for state in [ParseState::Start, ParseState::DefinedInBegin] {
        assert_eq!(transition(state, &based()), Ok((state, true)));
        assert_eq!(transition(state, &single()), Ok((state, true)));
        assert_eq!(transition(state, &alias()), Ok((state, true)));
    }
}

#[test]
fn valid_streams_lose_only_the_ends_of_lists() {
    assert_eq!(parse_directives(vec![]), Ok(vec![]));
    assert_eq!(
        parse_directives(vec![based(), list("a"), single(), Directive::DefinedInEnd, alias()]),
        Ok(vec![based(), list("a"), single(), alias()])
    );
    assert_eq!(
        parse_directives(vec![list("a"), Directive::DefinedInEnd, list("b"), Directive::DefinedInEnd]),
        Ok(vec![list("a"), list("b")])
    );
}

#[test]
fn unpaired_lists_are_refused_where_they_go_wrong() {
    assert_eq!(
        parse_directives(vec![based(), Directive::DefinedInEnd, list("a")]),
        Err(Rejection { error: ParseError::UnmatchedDefinedInEnd, position: 1 })
    );
    assert_eq!(
        parse_directives(vec![list("a"), based(), list("b"), Directive::DefinedInEnd]),
        Err(Rejection { error: ParseError::NestedDefinedInStart, position: 2 })
    );
    assert_eq!(
        parse_directives(vec![list("a"), Directive::DefinedInEnd, Directive::DefinedInEnd]),
        Err(Rejection { error: ParseError::UnmatchedDefinedInEnd, position: 2 })
    );
}

#[test]
fn stream_that_ends_inside_a_list_is_refused() {
    assert_eq!(
        parse_directives(vec![list("a")]),
        Err(Rejection { error: ParseError::UnclosedDefinedInStart, position: 1 })
    );
    assert_eq!(
        parse_directives(vec![list("a"), Directive::DefinedInEnd, based(), list("b"), single()]),
        Err(Rejection { error: ParseError::UnclosedDefinedInStart, position: 5 })
    );
}

#[test]
fn validator_reads_one_directive_at_a_time() {
    let mut validator = Validator::new();
    assert_eq!(validator.accept(list("a")), Ok(()));
    assert_eq!(validator.accept(list("b")), Err(ParseError::NestedDefinedInStart));
    assert_eq!(validator.accept(single()), Ok(()));
    assert_eq!(validator.accept(Directive::DefinedInEnd), Ok(()));
    assert_eq!(validator.accept(Directive::DefinedInEnd), Err(ParseError::UnmatchedDefinedInEnd));
    assert_eq!(validator.finish(), Ok(vec![list("a"), single()]));
    let mut open = Validator::new();
    assert_eq!(open.accept(list("a")), Ok(()));
    assert_eq!(open.finish(), Err(ParseError::UnclosedDefinedInStart));
    assert_eq!(Validator::new().finish(), Ok(vec![]));
}

fn declared(name: &str) -> Declaration {
    Declaration {
        name: name.to_string(),
        entity: Entity {
            kind: EntityKind::FunctionDecl,
            name: Some(name.to_string()),
            ty: None,
            result_ty: Some("int".to_string()),
            arguments: Some(vec![Entity {
                kind: EntityKind::ParmDecl,
                name: Some("x".to_string()),
                ty: Some("int".to_string()),
                result_ty: None,
                arguments: None,
                children: Vec::new(),
            }]),
            children: Vec::new(),
        },
    }
}

fn hook(name: &str) -> FuncDecl {
    FuncDecl {
        name: name.to_string(),
        return_ty: "int".to_string(),
        params: vec![ParamDecl { name: "x".to_string(), ty: "int".to_string() }],
    }
}

#[test]
fn list_of_three_hooks_gives_one_group_and_no_end() {
    let mut tokens = vec![Token {
        kind: TokenKind::Comment,
        spelling: "// ABC_MINI: Defined-in-start: widget.c".to_string(),
        file: Some("main.c".to_string()),
        line: 1,
    }];
    for (i, name) in ["AbcMini__a", "AbcMini__b", "AbcMini__c"].iter().enumerate() {
        tokens.push(Token {
            kind: TokenKind::Identifier,
            spelling: name.to_string(),
            file: Some("main.c".to_string()),
            line: 2 + i as u32,
        });
    }
    tokens.push(Token {
        kind: TokenKind::Comment,
        spelling: "// ABC_MINI: Defined-in-end".to_string(),
        file: Some("main.c".to_string()),
        line: 5,
    });
    let found = vec![declared("AbcMini__a"), declared("AbcMini__b"), declared("AbcMini__c")];
    assert_eq!(iter_raw_directives(&tokens), vec![0, 4]);
    let mut validator = Validator::new();
    for position in iter_raw_directives(&tokens) {
        let directive = match parse_directive(&tokens, "main.c", position).unwrap() {
            Request::Complete(directive) => directive,
            Request::DefinedInList { filename, first, end } => {
                assert_eq!((first, end), (0, 4));
                parse_defined_in_list(filename, &found)
            }
            other => panic!("unexpected request {:?}", other),
        };
        validator.accept(directive).unwrap();
    }
    let directives = validator.finish().unwrap();
    assert_eq!(
        directives,
        vec![Directive::DefinedInList {
            filename: "widget.c".to_string(),
            signatures: vec![hook("AbcMini__a"), hook("AbcMini__b"), hook("AbcMini__c")],
        }]
    );
    assert!(!directives.contains(&Directive::DefinedInEnd));
    assert_eq!(
        generate_hooks(&directives),
        vec![FuncHooks {
            sourcefile: "widget.c".to_string(),
            functions: vec![hook("AbcMini__a"), hook("AbcMini__b"), hook("AbcMini__c")],
        }]
    );
}
