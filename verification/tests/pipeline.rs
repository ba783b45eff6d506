use neurochain::lexer::{tokenize, Token};
use neurochain::parser::{parse, ASTNode};
use neurochain::engine::{normalize_legacy, analyze};
use neurochain::interpreter::{Interpreter, NoClassifier};

#[test]
fn tokenizes_macro_from_ai_single_line() {
    let src = r#"macro from AI: "Show Ping 2 times""#;
    let toks = tokenize(src).unwrap();
    assert_eq!(
        toks,
        vec![
            Token::Macro,
            Token::From,
            Token::AI,
            Token::Colon,
            Token::String("\"Show Ping 2 times\"".to_string()),
            Token::Newline,
        ]
    );
}

#[test]
fn strips_inline_comment_outside_quotes() {
    let src = r#"neuro "Hello" # comment"#;
    let toks = tokenize(src).unwrap();
    assert_eq!(
        toks,
        vec![
            Token::Neuro,
            Token::String("\"Hello\"".to_string()),
            Token::Newline,
        ]
    );
}

#[test]
fn keeps_comment_markers_inside_quotes() {
    let src = r#"neuro "Hello # not a comment""#;
    let toks = tokenize(src).unwrap();
    assert_eq!(
        toks,
        vec![
            Token::Neuro,
            Token::String("\"Hello # not a comment\"".to_string()),
            Token::Newline,
        ]
    );
}

#[test]
fn tokenizes_indent_and_dedent() {
    let src = "\nif x == 1:\n    neuro \"OK\"\nneuro \"Done\"\n";
    let toks = tokenize(src).unwrap();
    assert_eq!(
        toks.iter().filter(|t| matches!(t, Token::Indent)).count(),
        1
    );
    assert_eq!(
        toks.iter().filter(|t| matches!(t, Token::Dedent)).count(),
        1
    );
}

#[test]
fn tokenizes_parentheses() {
    let src = r#"set r = (a + b) * 2"#;
    let toks = tokenize(src).unwrap();
    assert!(toks.iter().any(|t| matches!(t, Token::LParen)));
    assert!(toks.iter().any(|t| matches!(t, Token::RParen)));
}

#[test]
fn parses_macro_call() {
    let src = r#"macro from AI: "Echo hello 2 times""#;
    let toks = tokenize(src).unwrap();
    let ast = parse(toks);
    assert!(matches!(ast[0], ASTNode::MacroCall(_)));
}

#[test]
fn parses_parenthesized_expr() {
    let src = r#"set r = (a + b) * 2"#;
    let toks = tokenize(src).unwrap();
    let ast = parse(toks);
    assert_eq!(ast.len(), 1);
}

#[test]
fn parses_if_else_block() {
    let src = "\nset x = 1\nif x == 1:\n    neuro \"OK\"\nelse:\n    neuro \"NO\"\n";
    let toks = tokenize(src).unwrap();
    let ast = parse(toks);
    assert!(
        ast.iter().any(|n| matches!(
            n,
            ASTNode::IfStatement {
                else_body: Some(_),
                ..
            }
        )),
        "expected an if/else statement"
    );
}

#[test]
fn tokenize_then_parse_is_deterministic() {
    let src = "set a = 1\nif a == 1:\n    neuro \"one\"\nmacro from AI: \"Show Ping 2 times\"\n";
    let t1 = tokenize(src).unwrap();
    let t2 = tokenize(src).unwrap();
    assert_eq!(t1, t2);
    let a1 = parse(t1);
    let a2 = parse(t2);
    assert_eq!(format!("{:?}", a1), format!("{:?}", a2));
}

#[test]
fn unterminated_quote_reports_line() {
    let err = tokenize("neuro \"open").unwrap_err();
    assert_eq!(err, "\u{274c} Missing quote on line 1: neuro \"open");
}

#[test]
fn unexpected_character_reports_line() {
    let err = tokenize("neuro @").unwrap_err();
    assert_eq!(err, "\u{274c} Unexpected character '@' on line 1: neuro @");
}

#[test]
fn model_paths_stay_unwrapped() {
    let toks = tokenize("AI: \"models/intent_macro/model.onnx\"").unwrap();
    assert_eq!(
        toks,
        vec![
            Token::AI,
            Token::Colon,
            Token::String("models/intent_macro/model.onnx".to_string()),
            Token::Newline,
        ]
    );
}

#[test]
fn nested_blocks_balance() {
    let src = "if a == 1:\n    if b == 2:\n        neuro \"x\"\nneuro \"y\"\n";
    let toks = tokenize(src).unwrap();
    let ind = toks.iter().filter(|t| matches!(t, Token::Indent)).count();
    let ded = toks.iter().filter(|t| matches!(t, Token::Dedent)).count();
    assert_eq!(ind, 2);
    assert_eq!(ded, 2);
}

#[test]
fn inline_if_command_expands_to_block() {
    assert_eq!(normalize_legacy("if c: say hi"), "if c:\n    neuro hi\n");
    assert_eq!(
        normalize_legacy("    elif d: print b"),
        "    elif d:\n        neuro b\n"
    );
    assert_eq!(normalize_legacy("else: neuro c"), "else:\n    neuro c\n");
    assert_eq!(normalize_legacy("say x: say y"), "neuro x: neuro y\n");
    assert_eq!(normalize_legacy("if c:"), "if c:\n");
}

#[test]
fn entry_marker_script_end_to_end() {
    let mut interp: Interpreter<NoClassifier> = Interpreter::new();
    let out = analyze(
        "macro from AI: \"main starts here using //\"",
        &mut interp,
    )
    .unwrap();
    assert_eq!(out, "// main starts here");
}

#[test]
fn inline_conditional_runs_end_to_end() {
    let mut interp: Interpreter<NoClassifier> = Interpreter::new();
    let out = analyze(
        "set mode = \"on\"\nif mode == \"on\": say yes",
        &mut interp,
    )
    .unwrap();
    assert_eq!(out, "yes");
}
