use basm::compile::{convert_labels, split_tokens, ResolveError};
use basm::token::{Label, Token};
use basm::value::Value;

fn compile(source: &str) -> Vec<Token> {
    let mut tokens = split_tokens(source).expect("source should tokenize");
    convert_labels(&mut tokens).expect("labels should resolve");
    tokens
}

#[test]
fn labels_resolve_to_their_marker_index() {
    let tokens = compile("start: mov r0, 1\njmp start");
    assert_eq!(
        tokens,
        vec![
            Token::Label(String::from("start")),
            Token::Mov(0, Value::Number(1)),
            Token::Jmp(Label::Address(0)),
        ]
    );
}

#[test]
fn forward_references_resolve() {
    let tokens = compile("jmp end\nmov r0, 1\nend: out done");
    assert_eq!(tokens[0], Token::Jmp(Label::Address(2)));
}

#[test]
fn later_declaration_of_same_name_wins() {
    let tokens = compile("a: mov r0, 1\na: mov r0, 2\njmp a");
    assert_eq!(tokens[4], Token::Jmp(Label::Address(2)));
}

#[test]
fn all_conditional_jumps_are_rewritten() {
    let tokens = compile("t: jl t\njg t\nje t");
    assert_eq!(
        tokens,
        vec![
            Token::Label(String::from("t")),
            Token::Jl(Label::Address(0)),
            Token::Jg(Label::Address(0)),
            Token::Je(Label::Address(0)),
        ]
    );
}

#[test]
fn missing_label_fails_resolution_and_leaves_tokens_alone() {
    let mut tokens = split_tokens("mov r0, 1\njmp missing").expect("source should tokenize");
    let before = vec![
        Token::Mov(0, Value::Number(1)),
        Token::Jmp(Label::Base(String::from("missing"))),
    ];
    assert_eq!(tokens, before);
    let err = convert_labels(&mut tokens).expect_err("resolution should fail");
    let ResolveError::UnresolvedLabel(name) = err;
    assert_eq!(name, "missing");
    assert_eq!(tokens, before);
}

#[test]
fn resolving_twice_changes_nothing() {
    let mut tokens = split_tokens("loop: add r0, r0, 1\njmp loop").expect("source should tokenize");
    convert_labels(&mut tokens).expect("labels should resolve");
    let once = tokens.clone();
    convert_labels(&mut tokens).expect("a resolved sequence resolves again");
    assert_eq!(tokens, once);
}

#[test]
fn resolution_ignores_non_jump_tokens() {
    let tokens = compile("out hello\ncmp 1, 2\n/*c*/");
    assert_eq!(
        tokens,
        vec![
            Token::Out(String::from("hello\n")),
            Token::Cmp(Value::Number(1), Value::Number(2)),
            Token::Comment(String::from("c")),
        ]
    );
}
