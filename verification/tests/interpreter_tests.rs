use neurochain::interpreter::{Interpreter, NoClassifier};
use neurochain::parser::{ASTNode, BinaryOperator, Expr};

fn fresh() -> Interpreter<NoClassifier> {
    Interpreter::new()
}

#[test]
fn test_interpreter_set_and_add() {
    let mut interp = fresh();

    let ast = vec![ASTNode::SetVar(
        "result".into(),
        Expr::BinaryOp(
            Box::new(Expr::Value("2".into())),
            BinaryOperator::Add,
            Box::new(Expr::Value("3".into())),
        ),
    )];

    interp.run(ast).unwrap();
    assert_eq!(interp.variables.get("result"), Some(&"5".to_string()));
}

#[test]
fn test_interpreter_variable_use_in_expr() {
    let mut interp = fresh();
    interp
        .run(vec![ASTNode::SetVar("a".into(), Expr::Value("10".into()))])
        .unwrap();

    let ast = vec![ASTNode::SetVar(
        "sum".into(),
        Expr::BinaryOp(
            Box::new(Expr::Value("a".into())),
            BinaryOperator::Add,
            Box::new(Expr::Value("5".into())),
        ),
    )];

    interp.run(ast).unwrap();
    assert_eq!(interp.variables.get("sum"), Some(&"15".to_string()));
}

#[test]
fn test_interpreter_comparison_expr() {
    let mut interp = fresh();
    let ast = vec![ASTNode::SetVar(
        "cmp".into(),
        Expr::BinaryOp(
            Box::new(Expr::Value("7".into())),
            BinaryOperator::Gt,
            Box::new(Expr::Value("4".into())),
        ),
    )];

    interp.run(ast).unwrap();
    assert_eq!(interp.variables.get("cmp"), Some(&"true".to_string()));
}

#[test]
fn test_interpreter_string_concat() {
    let mut interp = fresh();
    let ast = vec![ASTNode::SetVar(
        "combined".into(),
        Expr::BinaryOp(
            Box::new(Expr::StringLit("Hello".into())),
            BinaryOperator::Add,
            Box::new(Expr::StringLit("World".into())),
        ),
    )];

    interp.run(ast).unwrap();
    assert_eq!(
        interp.variables.get("combined"),
        Some(&"HelloWorld".to_string())
    );
}

#[test]
fn test_interpreter_string_concat_with_variable() {
    let mut interp = fresh();
    interp
        .run(vec![ASTNode::SetVar(
            "name".into(),
            Expr::StringLit("Joe".into()),
        )])
        .unwrap();

    let ast = vec![ASTNode::SetVar(
        "greeting".into(),
        Expr::BinaryOp(
            Box::new(Expr::StringLit("Hello,".into())),
            BinaryOperator::Add,
            Box::new(Expr::Value("name".into())),
        ),
    )];

    interp.run(ast).unwrap();
    assert_eq!(
        interp.variables.get("greeting"),
        Some(&"Hello,Joe".to_string())
    );
}

#[test]
fn test_interpreter_divide_by_zero() {
    let mut interp = fresh();
    let ast = vec![ASTNode::SetVar(
        "error".into(),
        Expr::BinaryOp(
            Box::new(Expr::Value("10".into())),
            BinaryOperator::Div,
            Box::new(Expr::Value("0".into())),
        ),
    )];

    interp.run(ast).unwrap();
    assert_eq!(interp.variables.get("error"), Some(&"NaN".to_string()));
}

#[test]
fn test_interpreter_hello_universe_slogan() {
    let mut interp = fresh();
    let ast = vec![ASTNode::SetVar(
        "slogan".into(),
        Expr::BinaryOp(
            Box::new(Expr::StringLit("Hello".into())),
            BinaryOperator::Add,
            Box::new(Expr::StringLit("Universe".into())),
        ),
    )];

    interp.run(ast).unwrap();
    assert_eq!(
        interp.variables.get("slogan"),
        Some(&"HelloUniverse".to_string())
    );
}

#[test]
fn strip_and_sanitize() {
    let txt = "### Instruction:\nX\n### Response:\nmacro from AI: junk\n\u{2705} neuro \"hi\"\nfoo";
    assert_eq!(
        neurochain::synth::sanitize_lines(neurochain::synth::extract_dsl(txt).as_str()),
        "neuro \"hi\""
    );
}

#[test]
fn output_statement_keeps_environment() {
    let mut interp = fresh();
    interp
        .run(vec![ASTNode::SetVar("x".into(), Expr::Value("1".into()))])
        .unwrap();
    interp.run(vec![ASTNode::Neuro("\"hello\"".into())]).unwrap();
    assert_eq!(interp.variables.get("x"), Some(&"1".to_string()));
    assert_eq!(interp.variables.get("hello"), None);
    assert_eq!(interp.take_output(), "hello");
}

#[test]
fn assignment_never_writes_output() {
    let mut interp = fresh();
    interp
        .run(vec![ASTNode::SetVar("x".into(), Expr::Value("1".into()))])
        .unwrap();
    assert_eq!(interp.take_output(), "");
}

#[test]
fn modulo_needs_integers() {
    let mut interp = fresh();
    interp
        .run(vec![ASTNode::SetVar(
            "m".into(),
            Expr::BinaryOp(
                Box::new(Expr::Value("7".into())),
                BinaryOperator::Mod,
                Box::new(Expr::StringLit("two".into())),
            ),
        )])
        .unwrap();
    assert_eq!(
        interp.variables.get("m"),
        Some(&"\u{274c} Modulo does not work on strings".to_string())
    );
}

#[test]
fn subtraction_needs_numbers() {
    let mut interp = fresh();
    interp
        .run(vec![ASTNode::SetVar(
            "m".into(),
            Expr::BinaryOp(
                Box::new(Expr::StringLit("a".into())),
                BinaryOperator::Sub,
                Box::new(Expr::Value("1".into())),
            ),
        )])
        .unwrap();
    assert_eq!(
        interp.variables.get("m"),
        Some(&"\u{274c} Arithmetic does not work on strings".to_string())
    );
}

#[test]
fn modulo_of_integers() {
    let mut interp = fresh();
    interp
        .run(vec![ASTNode::SetVar(
            "m".into(),
            Expr::BinaryOp(
                Box::new(Expr::Value("17".into())),
                BinaryOperator::Mod,
                Box::new(Expr::Value("5".into())),
            ),
        )])
        .unwrap();
    assert_eq!(interp.variables.get("m"), Some(&"2".to_string()));
}

#[test]
fn decimal_addition_is_exact() {
    let mut interp = fresh();
    interp
        .run(vec![ASTNode::SetVar(
            "d".into(),
            Expr::BinaryOp(
                Box::new(Expr::Value("1.25".into())),
                BinaryOperator::Add,
                Box::new(Expr::Value("2.75".into())),
            ),
        )])
        .unwrap();
    assert_eq!(interp.variables.get("d"), Some(&"4".to_string()));
}
