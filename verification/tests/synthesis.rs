use neurochain::engine::analyze;
use neurochain::interpreter::{Interpreter, NoClassifier};
use neurochain::parser::ASTNode;
use neurochain::synth::{build_loop_dsl, build_branch_dsl, synthesize_macro, neuro_line,
    sanitize_text, strip_wrapping_quotes, parse_rhs, normalize_condition, mentions_print,
    infer_label_from_prompt, loop_count_from_prompt, looks_like_loop_prompt, build_ai_bridge_dsl,
    normalize_expr, build_macro_dsl, build_doc_print_dsl};

fn fresh() -> Interpreter<NoClassifier> {
    Interpreter::new()
}

#[test]
fn loop_synthesis_two_pings() {
    assert_eq!(
        build_loop_dsl("Show Ping 2 times"),
        "neuro \"Ping\"\nneuro \"Ping\""
    );
}

#[test]
fn loop_count_clamps_high_requests() {
    let dsl = build_loop_dsl("Show Ping 99 times");
    assert_eq!(dsl.lines().count(), 12);
    assert!(dsl.lines().all(|l| l == "neuro \"Ping\""));
}

#[test]
fn loop_count_clamps_low_requests() {
    let dsl = build_loop_dsl("Show Ping 0 times");
    assert_eq!(dsl.lines().count(), 1);
}

#[test]
fn loop_count_words() {
    assert_eq!(loop_count_from_prompt("Say Hello twice"), Some(2));
    assert_eq!(loop_count_from_prompt("Say Hello three times"), Some(3));
    assert_eq!(loop_count_from_prompt("Say Hello 4x"), Some(4));
    assert_eq!(loop_count_from_prompt("Say Hello"), None);
    assert!(looks_like_loop_prompt("Say Hello once"));
}

#[test]
fn branch_synthesis_if_else() {
    assert_eq!(
        synthesize_macro("Unknown", false, "If score equals 10 say Congrats else say Nope"),
        "if score == 10:\n    neuro \"Congrats\"\nelse:\n    neuro \"Nope\""
    );
}

#[test]
fn branch_synthesis_elif_chain() {
    assert_eq!(
        build_branch_dsl(
            "If battery < 20 print Low elif battery < 50 print Medium else print Full"
        ),
        "if battery < 20:\n    neuro \"Low\"\nelif battery < 50:\n    neuro \"Medium\"\nelse:\n    neuro \"Full\""
    );
}

#[test]
fn macro_reentrancy_matches_direct_statements() {
    let mut one = fresh();
    one.run(vec![ASTNode::MacroCall("Show Ping 2 times".into())])
        .unwrap();
    let mut two = fresh();
    two.run(vec![
        ASTNode::Neuro("\"Ping\"".into()),
        ASTNode::Neuro("\"Ping\"".into()),
    ])
    .unwrap();
    assert_eq!(one.take_output(), two.take_output());
}

#[test]
fn setvar_synthesis() {
    assert_eq!(synthesize_macro("SetVar", true, "Set x to 5"), "set x = 5");
}

#[test]
fn arith_synthesis_with_print() {
    assert_eq!(
        synthesize_macro("Arith", true, "Set remainder = 17 % 5 and print remainder"),
        "set remainder = 17 % 5\nset tmpPrint = remainder\nneuro tmpPrint"
    );
}

#[test]
fn subtract_and_divide_synthesis() {
    assert_eq!(
        synthesize_macro("Arith", true, "Subtract y from x, divide by 4, store in q"),
        "set q = (x - y) / 4"
    );
}

#[test]
fn print_concat_synthesis() {
    assert_eq!(
        synthesize_macro("Concat", true, "Print 'Hello ' + name"),
        "set tmpPrint = \"Hello \" + name\nneuro tmpPrint"
    );
    assert_eq!(
        synthesize_macro("Concat", true, "Print greeting + ' ' + target"),
        "set tmpPrint = greeting + \" \" + target\nneuro tmpPrint"
    );
}

#[test]
fn doc_print_synthesis() {
    assert_eq!(
        synthesize_macro("DocPrint", true, "Say the number 42"),
        "neuro \"42\""
    );
    assert_eq!(
        synthesize_macro("DocPrint", true, "Print final score"),
        "neuro \"final score\""
    );
}

#[test]
fn entry_marker_short_circuits() {
    assert_eq!(
        synthesize_macro("SetVar", true, "main starts here using //"),
        "neuro \"// main starts here\""
    );
}

#[test]
fn unknown_prompt_echoes() {
    assert_eq!(
        synthesize_macro("Unknown", true, "Tell me a joke"),
        "neuro \"Tell me a joke\""
    );
    assert_eq!(build_ai_bridge_dsl("Forward it"), "neuro \"Forward it\"");
}

#[test]
fn label_inference_cues() {
    assert_eq!(infer_label_from_prompt("Show Ping 2 times"), "Loop");
    assert_eq!(infer_label_from_prompt("if x equals 1 say hi"), "Branch");
    assert_eq!(
        infer_label_from_prompt("Join 'a' and 'b' into c"),
        "Concat"
    );
    assert_eq!(infer_label_from_prompt("add comment # hello"), "DocPrint");
    assert_eq!(
        infer_label_from_prompt("create variable total = 3 + 4"),
        "Arith"
    );
    assert_eq!(infer_label_from_prompt("set x to y"), "SetVar");
    assert_eq!(infer_label_from_prompt("print the score"), "DocPrint");
    assert_eq!(infer_label_from_prompt("Tell me a joke"), "Unknown");
}

#[test]
fn helper_transforms() {
    assert_eq!(strip_wrapping_quotes("  \"say hi\"  "), "say hi");
    assert_eq!(sanitize_text("'Hello!'"), "Hello");
    assert_eq!(neuro_line("say \"it\""), "neuro \"say it\"");
    assert_eq!(parse_rhs("'hello'"), "\"hello\"");
    assert_eq!(parse_rhs("42"), "42");
    assert_eq!(parse_rhs("true"), "true");
    assert_eq!(parse_rhs("two words"), "\"two words\"");
    assert_eq!(normalize_condition("score equals 10"), "score == 10");
    assert_eq!(normalize_condition("mode is dark"), "mode == \"dark\"");
    assert!(mentions_print("please print it"));
    assert!(!mentions_print("just set it"));
}

#[test]
fn analyze_runs_a_script() {
    let mut interp = fresh();
    let out = analyze("set x = \"4\" + \"2\"\nneuro x\n", &mut interp).unwrap();
    assert_eq!(out, "6");
}

#[test]
fn analyze_reports_success_without_output() {
    let mut interp = fresh();
    let out = analyze("set x = 1\n", &mut interp).unwrap();
    assert_eq!(out, "\u{2705} Execution succeeded.");
}

#[test]
fn equality_is_case_insensitive_and_trimming() {
    let mut interp = fresh();
    let script = "set a = \"OK\"\nset b = \" ok \"\nif a == b:\n    neuro \"same\"\n";
    let out = analyze(script, &mut interp).unwrap();
    assert_eq!(out, "same");
}

#[test]
fn negative_comparison_is_numeric() {
    let mut interp = fresh();
    let out = analyze("set y = -2 < 0\nneuro y\n", &mut interp).unwrap();
    assert_eq!(out, "true");
}

#[test]
fn division_by_zero_is_not_a_number() {
    let mut interp = fresh();
    let out = analyze("set e = 10 / 0\nneuro e\n", &mut interp).unwrap();
    assert_eq!(out, "NaN");
}

#[test]
fn legacy_say_becomes_output() {
    let mut interp = fresh();
    let out = analyze("say \"old style\"\n", &mut interp).unwrap();
    assert_eq!(out, "old style");
}

#[test]
fn generate_echoes_the_prompt() {
    let out = neurochain::engine::generate("demo").unwrap();
    assert_eq!(
        out,
        "# Generated DSL demo\nneuro \"Hello from NeuroChain\"\n# Prompt: demo"
    );
}

#[test]
fn macro_statement_via_source() {
    let mut interp = fresh();
    let out = analyze("macro from AI: \"Show Ping 2 times\"\n", &mut interp).unwrap();
    assert_eq!(out, "Ping\nPing");
}

#[test]
fn model_load_failure_is_fatal() {
    let mut interp = fresh();
    let err = interp
        .run(vec![ASTNode::AIModel("models/absent/model.onnx".into())])
        .unwrap_err();
    assert_eq!(err, "\u{274c} Failed to load model: models/absent/model.onnx");
}

#[test]
fn roleflag_synthesis() {
    assert_eq!(
        synthesize_macro("RoleFlag", true, "Promote user to admin"),
        "set flag = true"
    );
}

#[test]
fn value_of_synthesis() {
    assert_eq!(
        synthesize_macro("DocPrint", true, "Print the value of result"),
        "neuro result"
    );
}

#[test]
fn concat_synthesis_joins_quoted_spans() {
    assert_eq!(
        synthesize_macro("Unknown", false, "Join 'Hello' and 'World' into slogan and print it"),
        "set slogan = \"Hello\" + \"World\"\nneuro slogan"
    );
}

#[test]
fn classifier_assignment_stores_prompt_without_model() {
    let mut interp = fresh();
    interp
        .run(vec![ASTNode::SetVarFromAI(
            "mood".into(),
            " sunny ".into(),
        )])
        .unwrap();
    assert_eq!(interp.variables.get("mood"), Some(&"sunny".to_string()));
}

#[test]
fn power_expansion_in_expressions() {
    assert_eq!(normalize_expr("(x - y) ** 2"), "((x - y)) * ((x - y))");
    assert_eq!(normalize_expr("x ** 0"), "1");
    assert_eq!(normalize_expr("x ** 1"), "x");
    assert_eq!(
        normalize_expr("n ** 99"),
        "(n) * (n) * (n) * (n) * (n) * (n) * (n) * (n)"
    );
}

#[test]
fn power_expansion_through_setvar() {
    assert_eq!(
        synthesize_macro("Arith", true, "Set z to (x - y) ** 2"),
        "set z = ((x - y)) * ((x - y))"
    );
}

#[test]
fn loop_count_is_exact_and_leftmost() {
    assert_eq!(loop_count_from_prompt("Repeat it 100000 times"), Some(100000));
    assert_eq!(loop_count_from_prompt("say it twice, not once"), Some(2));
    assert_eq!(
        loop_count_from_prompt("run 99999999999999999999999 times"),
        None
    );
}

#[test]
fn show_when_single_branch_conditional() {
    assert_eq!(
        build_macro_dsl("DocPrint", "Show value when flag is active"),
        "if flag == \"active\":\n    neuro value"
    );
    assert_eq!(
        build_macro_dsl("Unknown", "echo score when state is none"),
        "if state == none:\n    neuro score"
    );
}

#[test]
fn format_with_comma_synthesis() {
    assert_eq!(
        build_doc_print_dsl("Format Hello and World with a comma"),
        "neuro \"Hello, World\""
    );
}

#[test]
fn var_value_and_display_synthesis() {
    assert_eq!(
        build_doc_print_dsl("Output the counter value"),
        "neuro counter"
    );
    assert_eq!(build_doc_print_dsl("Display final_score"), "neuro final_score");
}

#[test]
fn branch_synthesis_without_output_verb() {
    assert_eq!(
        build_branch_dsl("if flag active otherwise stop"),
        "if flag:\n    neuro \"active\"\nelse:\n    neuro \"stop\""
    );
}

#[test]
fn entry_marker_runs_without_classifier_effects() {
    let mut interp = fresh();
    interp
        .run(vec![ASTNode::MacroCall("main starts here using //".into())])
        .unwrap();
    assert_eq!(interp.take_output(), "// main starts here");
    assert_eq!(interp.variables.get("x"), None);
}
