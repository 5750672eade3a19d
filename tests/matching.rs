use rayrengine::error::Error;
use rayrengine::interpreter::{run_interpreter, run_interpreter_with_depth};
use rayrengine::nodes::Node;
use rayrengine::position::Position;
use rayrengine::ray_rengine::{match_grammar, match_string, parse_grammar};
use rayrengine::token_types::TokenTypes;

fn pos(index: u64) -> Position {
    Position { filename: String::from("test"), ftext: String::new(), index, ln: 1, cn: index + 1 }
}

fn lit(s: &str) -> Node {
    Node::StrNode { string: String::from(s), pos_start: pos(0), pos_end: pos(1) }
}

fn rule_ref(s: &str) -> Node {
    Node::RuleAccessNode { identifier: String::from(s), pos_start: pos(2), pos_end: pos(3) }
}

fn def(name: &str, body: Node) -> Node {
    Node::RuleNode { rhs: String::from(name), lhs: Box::new(body), pos_start: pos(0), pos_end: pos(9) }
}

fn grammar(rules: Vec<Node>) -> Node {
    Node::RulesNode { rules, pos_start: pos(4), pos_end: pos(5) }
}

fn run(src: &str, input: &str) -> Result<(String, String), Error> {
    let ast = parse_grammar(String::from(src)).expect("grammar parses");
    run_interpreter(ast, (String::new(), String::from(input)))
}

fn ok(src: &str, input: &str) -> (String, String) {
    match run(src, input) {
        Ok(v) => v,
        Err(e) => panic!("{}: {}", e.name, e.message),
    }
}

#[test]
fn literal_prefix_match() {
    assert_eq!(ok("main := 'ab'", "abc"), (String::from("ab"), String::from("c")));
}

#[test]
fn literal_mismatch_is_input_error() {
    let e = run("main := 'ab'", "axc").unwrap_err();
    assert_eq!(e.name, "InputError");
    assert_eq!(e.message, "expected ab, found ax");
}

#[test]
fn literal_longer_than_input() {
    let e = run("main := 'abc'", "ab").unwrap_err();
    assert_eq!(e.name, "InputError");
    assert_eq!(e.message, "cannot match ab with abc");
}

#[test]
fn literal_error_carries_node_span() {
    let ast = grammar(vec![def("main", lit("q"))]);
    let e = run_interpreter(ast, (String::new(), String::from("z"))).unwrap_err();
    assert_eq!(e.pos_start.index, 0);
    assert_eq!(e.pos_end.index, 1);
}

#[test]
fn choice_is_left_biased() {
    assert_eq!(ok("main := 'a' | 'ab'", "ab"), (String::from("a"), String::from("b")));
}

#[test]
fn choice_falls_back_to_right() {
    assert_eq!(ok("main := 'x' | 'ab'", "abz"), (String::from("ab"), String::from("z")));
}

#[test]
fn choice_right_failure_is_returned() {
    let e = run("main := 'x' | 'y'", "z").unwrap_err();
    assert_eq!(e.message, "expected y, found z");
}

#[test]
fn optional_never_fails() {
    assert_eq!(ok("main := 'a'?", "bc"), (String::new(), String::from("bc")));
    assert_eq!(ok("main := 'a'?", "abc"), (String::from("a"), String::from("bc")));
    assert_eq!(ok("main := 'a'?", ""), (String::new(), String::new()));
}

#[test]
fn star_takes_maximal_run() {
    assert_eq!(ok("main := 'a'*", "aaab"), (String::from("a"), String::from("b")));
}

#[test]
fn star_zero_matches_succeeds() {
    assert_eq!(ok("main := 'a'*", "bbb"), (String::new(), String::from("bbb")));
}

#[test]
fn star_stops_on_empty_match() {
    assert_eq!(ok("main := e*\ne := ''", "abc"), (String::new(), String::from("abc")));
}

#[test]
fn plus_requires_one() {
    let e = run("main := 'a'+", "bbb").unwrap_err();
    assert_eq!(e.name, "InputError");
    assert_eq!(e.message, "expected a, found b");
    assert_eq!(ok("main := 'a'+", "aab"), (String::from("a"), String::from("b")));
}

#[test]
fn sequence_threads_remainder() {
    assert_eq!(ok("main := 'a' 'b' 'c'", "abcd"), (String::from("c"), String::from("d")));
}

#[test]
fn sequence_short_circuits() {
    // the missing rule after the failing element is never looked up
    let e = run("main := 'a' 'x' missing", "abc").unwrap_err();
    assert_eq!(e.name, "InputError");
    assert_eq!(e.message, "expected x, found b");
}

#[test]
fn mutual_recursion_any_order() {
    let first = "A := 'x' B\nB := 'y' A | ''\nmain := A";
    let second = "main := A\nB := 'y' A | ''\nA := 'x' B";
    for src in [first, second] {
        assert_eq!(ok(src, "x").1, "");
        assert_eq!(ok(src, "xyx").1, "");
        assert_eq!(ok(src, "xyxyx").1, "");
        // ordered choice does not go back into `'y' A` once `''` has been
        // taken, so an even-length input stops before its last `y`
        assert_eq!(ok(src, "xy").1, "y");
        assert_eq!(ok(src, "xyxy").1, "y");
    }
}

#[test]
fn missing_main_is_reported() {
    let e = run("a := 'x'", "x").unwrap_err();
    assert_eq!(e.name, "NoDefinitionError");
    assert_eq!(e.message, "No definition for main found");
}

#[test]
fn missing_main_uses_grammar_span() {
    let ast = grammar(vec![def("other", lit("x"))]);
    let e = run_interpreter(ast, (String::new(), String::from("x"))).unwrap_err();
    assert_eq!(e.pos_start.index, 4);
    assert_eq!(e.pos_end.index, 5);
}

#[test]
fn undefined_reference_is_reported() {
    let e = run("main := nothing", "x").unwrap_err();
    assert_eq!(e.name, "NoDefinitionError");
    assert_eq!(e.message, "No definition for nothing found");
}

#[test]
fn later_definition_wins() {
    assert_eq!(ok("main := 'a'\nmain := 'b'", "b"), (String::from("b"), String::new()));
}

#[test]
fn arithmetic_grammar_end_to_end() {
    let src = "
            nums := \"1234567890\"
            whitespace := '\t' | ' ' | '\n'
            alphabets := \"abcdefghijklmnopqrstuvwxyz\"
            expr := term (whitespace* ('+'|'-') whitespace* term)*
            factor := '(' whitespace* expr whitespace* ')' | nums+
            term := factor (whitespace* ('*'|'/') whitespace* factor)*
            main := expr
            ";
    assert_eq!(ok(src, "1+28/1-(12*(2-13)+81)").1, "");
    assert_eq!(match_string(String::from(src), String::from("1+28/1-(12*(2-13)+81)")).unwrap(), true);
    assert_eq!(match_string(String::from(src), String::from("1+")).unwrap(), false);
}

#[test]
fn deep_recursion_is_an_error() {
    let ast = parse_grammar(String::from("main := main")).unwrap();
    let e = run_interpreter_with_depth(ast, (String::new(), String::from("x")), 50).unwrap_err();
    assert_eq!(e.name, "RecursionLimitError");
}

#[test]
fn depth_bound_is_respected() {
    let ast = || grammar(vec![def("main", Node::BinOpNode {
        left: Box::new(Node::RuleChainNode { chain: vec![lit("a"), rule_ref("main")], pos_start: pos(0), pos_end: pos(0) }),
        op: TokenTypes::Pipe,
        right: Box::new(lit("")),
        pos_start: pos(0),
        pos_end: pos(0),
    })]);
    let r = run_interpreter_with_depth(ast(), (String::new(), String::from("aaa")), 10).unwrap();
    assert_eq!(r.1, "");
    let e = run_interpreter_with_depth(ast(), (String::new(), String::from("aaa")), 2).unwrap_err();
    assert_eq!(e.name, "RecursionLimitError");
}

#[test]
fn match_grammar_reports_remainder() {
    let ast = grammar(vec![def("main", lit("ab"))]);
    assert_eq!(match_grammar(ast, String::from("ab")).unwrap(), true);
    let ast = grammar(vec![def("main", lit("ab"))]);
    assert_eq!(match_grammar(ast, String::from("abc")).unwrap(), false);
}

#[test]
fn illegal_character_is_rejected() {
    let e = parse_grammar(String::from("main := #")).unwrap_err();
    assert_eq!(e.name, "IllegalCharacterError");
    assert_eq!(e.message, "Illegal character '#'");
}

#[test]
fn colon_needs_equals() {
    let e = parse_grammar(String::from("main :- 'a'")).unwrap_err();
    assert_eq!(e.name, "IllegalCharacterError");
}

#[test]
fn missing_assign_is_parse_error() {
    let e = parse_grammar(String::from("main 'a'")).unwrap_err();
    assert_eq!(e.name, "ParseError");
    assert_eq!(e.message, "Expected ':=', got Str");
}

#[test]
fn unclosed_paren_is_parse_error() {
    let e = parse_grammar(String::from("main := ('a' | 'b'")).unwrap_err();
    assert_eq!(e.name, "ParseError");
    assert_eq!(e.message, "Expected ')', found Eof");
}

#[test]
fn error_renders_span() {
    let e = run("main := 'ab'", "axc").unwrap_err();
    let text = e.render();
    assert!(text.starts_with("\nInputError: expected ab, found ax\nFrom line no: 1, from column no: "));
    let multi = Error {
        name: String::from("K"),
        message: String::from("m"),
        pos_start: Position { filename: String::new(), ftext: String::new(), index: 0, ln: 2, cn: 10 },
        pos_end: Position { filename: String::new(), ftext: String::new(), index: 0, ln: 13, cn: 7 },
    };
    assert_eq!(multi.render(), "\nK: m\nFrom line no: 2, at column no: 10 to line no: 13, at column no: 7");
}

#[test]
fn grammar_checks() {
    assert!(grammar(vec![def("main", lit("a"))]).is_grammar());
    assert!(!grammar(vec![lit("a")]).is_grammar());
    let bad_op = Node::BinOpNode {
        left: Box::new(lit("a")),
        op: TokenTypes::Plus,
        right: Box::new(lit("b")),
        pos_start: pos(0),
        pos_end: pos(0),
    };
    assert!(!bad_op.is_body());
    let empty_chain = Node::RuleChainNode { chain: vec![], pos_start: pos(0), pos_end: pos(0) };
    assert!(!empty_chain.is_body());
    assert!(parse_grammar(String::from("main := ('a' b)* | c+")).unwrap().is_grammar());
}

#[test]
fn long_right_recursion() {
    let input = "a".repeat(600);
    assert_eq!(ok("main := x\nx := 'a' x | ''", &input).1, "");
}

#[test]
fn arithmetic_grammar_without_spaces() {
    let src = "nums := \"1234567890\"\nexpr := term (('+'|'-') term)*\nterm := factor (('*'|'/') factor)*\nfactor := '(' expr ')' | nums+\nmain := expr";
    assert_eq!(match_string(String::from(src), String::from("1+28/1-(12*(2-13)+81)")).unwrap(), true);
    assert_eq!(ok(src, "1+28/1-(12*(2-13)+81)"), (String::new(), String::new()));
}
