use rayrengine::context::{Context, Lazy};
use rayrengine::error::Error;
use rayrengine::interpreter::{fst, snd};
use rayrengine::lexer::Lexer;
use rayrengine::nodes::Node;
use rayrengine::parser::Parser;
use rayrengine::parser_combinators::{copy_value, literal_parse};
use rayrengine::position::Position;
use rayrengine::token::Token;
use rayrengine::token_types::TokenTypes;

fn pos(index: u64) -> Position {
    Position { filename: String::from("f"), ftext: String::from("src"), index, ln: 1, cn: 1 }
}

fn parser(tokens: Vec<Token>) -> Parser {
    Parser {
        tokens,
        eof: Token { tok_type: TokenTypes::Eof, tok_value: String::new(), pos_start: pos(0), pos_end: pos(0) },
    }
}

fn lexer(src: &str) -> Lexer {
    Lexer { current_index: 0, chars: src.as_bytes().to_vec(), position: pos(0) }
}

#[test]
fn tuple_projections() {
    assert_eq!(fst((1u8, "b")), 1u8);
    assert_eq!(snd((1u8, "b")), "b");
}

#[test]
fn literal_parse_consumes_prefix() {
    let r = literal_parse(String::from("ab"), (String::from("zz"), String::from("abc")), pos(0), pos(1));
    assert_eq!(r.unwrap(), (String::from("ab"), String::from("c")));
}

#[test]
fn literal_parse_counts_characters() {
    let r = literal_parse(String::from("é"), (String::new(), String::from("éa")), pos(0), pos(1));
    assert_eq!(r.unwrap(), (String::from("é"), String::from("a")));
}

#[test]
fn copy_value_keeps_both_cases() {
    let v: Result<(String, String), Error> = Ok((String::from("a"), String::from("b")));
    assert_eq!(copy_value(&v).unwrap(), (String::from("a"), String::from("b")));
    let e: Result<(String, String), Error> =
        Err(Error { name: String::from("N"), message: String::from("m"), pos_start: pos(1), pos_end: pos(2) });
    let c = copy_value(&e).unwrap_err();
    assert_eq!((c.name.as_str(), c.message.as_str(), c.pos_start.index, c.pos_end.index), ("N", "m", 1, 2));
}

#[test]
fn position_advances_by_line() {
    let mut p = Position { filename: String::from("f"), ftext: String::new(), index: 3, ln: 2, cn: 5 };
    p.advance('a');
    assert_eq!((p.index, p.ln, p.cn), (4, 2, 6));
    p.advance('\n');
    assert_eq!((p.index, p.ln, p.cn), (5, 3, 0));
    let q = p.copy();
    assert_eq!((q.index, q.ln, q.cn, q.filename.as_str()), (5, 3, 0, "f"));
}

#[test]
fn token_matches_kind_and_text() {
    let t = Token { tok_type: TokenTypes::Identifier, tok_value: String::from("main"), pos_start: pos(0), pos_end: pos(4) };
    assert!(t.matches(TokenTypes::Identifier, "main"));
    assert!(!t.matches(TokenTypes::Str, "main"));
    assert!(!t.matches(TokenTypes::Identifier, "mai"));
    let c = t.copy();
    assert_eq!((c.tok_type, c.tok_value.as_str(), c.pos_end.index), (TokenTypes::Identifier, "main", 4));
}

#[test]
fn token_kind_names() {
    assert_eq!(TokenTypes::QuestionMark.name(), "QuestionMark");
    assert_eq!(TokenTypes::Eof.name(), "Eof");
}

#[test]
fn context_last_binding_wins() {
    let mut c = Context::new();
    assert!(c.get(String::from("a")).is_none());
    c.set(String::from("a"), Lazy { fun: Box::new(Node::StrNode { string: String::from("1"), pos_start: pos(0), pos_end: pos(0) }) });
    c.set(String::from("a"), Lazy { fun: Box::new(Node::StrNode { string: String::from("2"), pos_start: pos(0), pos_end: pos(0) }) });
    match c.get(String::from("a")) {
        Some(l) => match &*l.fun {
            Node::StrNode { string, .. } => assert_eq!(string, "2"),
            _ => panic!("wrong node"),
        },
        None => panic!("missing binding"),
    }
}

#[test]
fn node_copy_and_span() {
    let n = Node::RuleChainNode {
        chain: vec![Node::RuleAccessNode { identifier: String::from("x"), pos_start: pos(1), pos_end: pos(2) }],
        pos_start: pos(7),
        pos_end: pos(8),
    };
    let c = n.copy();
    let (s, e) = c.get_pos();
    assert_eq!((s.index, e.index), (7, 8));
    match c {
        Node::RuleChainNode { chain, .. } => match &chain[0] {
            Node::RuleAccessNode { identifier, .. } => assert_eq!(identifier, "x"),
            _ => panic!("wrong child"),
        },
        _ => panic!("wrong node"),
    }
}

#[test]
fn lexer_tokens() {
    let toks = lexer("ab1 := 'x y' | \"pq\"*\n").lex().unwrap();
    let kinds: Vec<TokenTypes> = toks.iter().map(|t| t.tok_type).collect();
    assert_eq!(
        kinds,
        vec![
            TokenTypes::Identifier,
            TokenTypes::Assign,
            TokenTypes::Str,
            TokenTypes::Pipe,
            TokenTypes::RParen,
            TokenTypes::Str,
            TokenTypes::Pipe,
            TokenTypes::Str,
            TokenTypes::LParen,
            TokenTypes::Asterisk,
            TokenTypes::Newline,
            TokenTypes::Eof,
        ]
    );
    assert_eq!(toks[0].tok_value, "ab1");
    assert_eq!(toks[2].tok_value, "x y");
    assert_eq!(toks[5].tok_value, "p");
    assert_eq!(toks[7].tok_value, "q");
}

#[test]
fn lexer_tracks_positions() {
    let toks = lexer("a\nb").lex().unwrap();
    assert_eq!(toks[2].tok_value, "b");
    assert_eq!(toks[2].pos_start.ln, 2);
}

#[test]
fn lexer_simple_rule() {
    let toks = lexer("main := 'a'").lex().unwrap();
    let pairs: Vec<(TokenTypes, String)> = toks.iter().map(|t| (t.tok_type, t.tok_value.clone())).collect();
    assert_eq!(
        pairs,
        vec![
            (TokenTypes::Identifier, String::from("main")),
            (TokenTypes::Assign, String::new()),
            (TokenTypes::Str, String::from("a")),
            (TokenTypes::Eof, String::new()),
        ]
    );
}

#[test]
fn lexer_rejects_lone_colon() {
    let e = lexer("a : b").lex().unwrap_err();
    assert_eq!(e.name, "IllegalCharacterError");
}

#[test]
fn lexer_rejects_unknown_character() {
    let e = lexer("a $").lex().unwrap_err();
    assert_eq!(e.name, "IllegalCharacterError");
    assert_eq!(e.message, "Illegal character '$'");
}

#[test]
fn parser_builds_rules() {
    let mut toks = lexer("main := 'a' b? | c").lex().unwrap();
    toks.reverse();
    let ast = parser(toks).parse().unwrap();
    match ast {
        Node::RulesNode { rules, .. } => {
            assert_eq!(rules.len(), 1);
            match &rules[0] {
                Node::RuleNode { rhs, lhs, .. } => {
                    assert_eq!(rhs, "main");
                    match &**lhs {
                        Node::BinOpNode { left, op, .. } => {
                            assert_eq!(*op, TokenTypes::Pipe);
                            match &**left {
                                Node::RuleChainNode { chain, .. } => {
                                    assert_eq!(chain.len(), 2);
                                    assert!(matches!(chain[1], Node::PostFixNode { op: TokenTypes::QuestionMark, .. }));
                                }
                                _ => panic!("expected a sequence"),
                            }
                        }
                        _ => panic!("expected a choice"),
                    }
                }
                _ => panic!("expected a definition"),
            }
        }
        _ => panic!("expected rules"),
    }
}

#[test]
fn parser_rejects_trailing_tokens() {
    let mut toks = lexer("main := 'a' ) )").lex().unwrap();
    toks.reverse();
    let e = parser(toks).parse().unwrap_err();
    assert_eq!(e.name, "ParseError");
    assert_eq!(e.message, "Inappropriate ending");
}

#[test]
fn parser_rejects_missing_operand() {
    let mut toks = lexer("main := | 'a'").lex().unwrap();
    toks.reverse();
    let e = parser(toks).parse().unwrap_err();
    assert_eq!(e.name, "ParseError");
    assert_eq!(e.message, "Expected a literal, a rule name or '('");
}

#[test]
fn lexer_quoted_set_and_parens() {
    let toks = lexer("\"ab\" ( )").lex().unwrap();
    let pairs: Vec<(TokenTypes, String)> = toks.iter().map(|t| (t.tok_type, t.tok_value.clone())).collect();
    assert_eq!(
        pairs,
        vec![
            (TokenTypes::RParen, String::new()),
            (TokenTypes::Str, String::from("a")),
            (TokenTypes::Pipe, String::new()),
            (TokenTypes::Str, String::from("b")),
            (TokenTypes::LParen, String::new()),
            (TokenTypes::RParen, String::new()),
            (TokenTypes::LParen, String::new()),
            (TokenTypes::Eof, String::new()),
        ]
    );
}
