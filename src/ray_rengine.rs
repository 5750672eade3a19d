use vstd::prelude::*;
use vstd::string::StrSliceExecFns;
use vstd::string::StringExecFns;
use vstd::utf8::encode_utf8;
use crate::error::{Error, ErrorView};
use crate::interpreter::{run_interpreter, run_outcome, MAX_DEPTH};
use crate::lexer::{Lexer, lex_from};
use crate::nodes::{Node, NodeView, node_view, wf_grammar};
use crate::parser::{Parser, grammar_of_tokens, parsed_view};
use crate::position::Position;
use crate::token::{Token, TokenView, views};
use crate::token_types::TokenTypes;

verus! {

/// The longest grammar source, in bytes, that is scanned.
pub const MAX_SOURCE_LEN: usize = 0xFFFF_FFF0;

/// The position at the start of a grammar source that is not a file.
pub open spec fn start_position(p: Position) -> bool {
    &&& p.filename@ == "grammar"@
    &&& p.index == 0
    &&& p.ln == 1
    &&& p.cn == 1
}

/// The lexer that scans `regex` from its first byte.
pub open spec fn source_lexer(l: Lexer, regex: String) -> bool {
    &&& l.current_index == 0
    &&& l.chars@ == encode_utf8(regex@)
    &&& start_position(l.position)
    &&& l.position.ftext == regex
}

/// The token that reading past the end of the tokens gives.
pub open spec fn end_token(t: TokenView) -> bool {
    &&& t.tok_type == TokenTypes::Eof
    &&& t.tok_value == Seq::<char>::empty()
    &&& start_position(t.pos_start)
    &&& t.pos_start.ftext@ == Seq::<char>::empty()
    &&& t.pos_end == t.pos_start
}

/// The grammar tree that the source scanned by `l` gives, or the first
/// scanning or parsing error.
pub open spec fn grammar_from(l: Lexer, eof: TokenView) -> Result<NodeView, ErrorView> {
    match lex_from(l, Seq::empty()) {
        Ok(toks) => grammar_of_tokens(toks.reverse(), eof),
        Err(e) => Err(e),
    }
}

pub open spec fn too_long(e: ErrorView) -> bool {
    e.name == "ParseError"@ && e.message == "Grammar source too long"@
}

/// Whether the grammar `ast`, run on `input`, leaves no remainder; `None`
/// when it fails.
pub open spec fn full_match(ast: Node, input: Seq<char>) -> Option<bool> {
    match run_outcome(ast, (Seq::empty(), input), MAX_DEPTH as nat) {
        Ok(v) => Some(v.1.len() == 0),
        Err(_) => None,
    }
}

/// `r` is what matching `ast` against all of `input` gives: whether no
/// remainder is left, or the matching error.
pub open spec fn answers(r: Result<bool, Error>, ast: Node, input: Seq<char>) -> bool {
    match run_outcome(ast, (Seq::empty(), input), MAX_DEPTH as nat) {
        Ok(v) => r == Ok::<bool, Error>(v.1.len() == 0),
        Err(e) => r matches Err(x) && x@ == e,
    }
}

fn start() -> (r: Position)
    ensures
        start_position(r),
        r.ftext@ == Seq::<char>::empty(),
{
    Position { filename: String::from_str("grammar"), ftext: String::new(), index: 0, ln: 1, cn: 1 }
}

/// Scans and parses the grammar source `regex` into a grammar tree.
pub fn parse_grammar(regex: String) -> (r: Result<Node, Error>)
    ensures
        r matches Ok(ast) ==> wf_grammar(ast),
        encode_utf8(regex@).len() > MAX_SOURCE_LEN ==> (r matches Err(e) && too_long(e@)),
        encode_utf8(regex@).len() <= MAX_SOURCE_LEN ==> exists|l: Lexer, eof: TokenView|
            source_lexer(l, regex) && end_token(eof) && #[trigger] grammar_from(l, eof)
                == parsed_view(r),
{
    let ghost source = regex;
    let chars = regex.as_str().as_bytes_vec();
    if chars.len() > MAX_SOURCE_LEN {
        let p = start();
        return Err(
            Error {
                name: String::from_str("ParseError"),
                message: String::from_str("Grammar source too long"),
                pos_start: p.copy(),
                pos_end: p,
            },
        );
    }
    let p = start();
    let position = Position { filename: p.filename, ftext: regex, index: 0, ln: 1, cn: 1 };
    let mut lexer = Lexer { current_index: 0, chars, position };
    let ghost l0 = lexer;
    let e = start();
    let eof = Token { tok_type: TokenTypes::Eof, tok_value: String::new(), pos_start: e.copy(), pos_end: e };
    assert(source_lexer(l0, source));
    assert(end_token(eof@));
    let mut toks = match lexer.lex() {
        Ok(a) => a,
        Err(e) => {
            assert(grammar_from(l0, eof@) == parsed_view(Err(e)));
            return Err(e);
        },
    };
    let ghost all = views(toks@);
    let mut reversed: Vec<Token> = Vec::new();
    while toks.len() > 0
        invariant
            toks@.len() <= all.len(),
            views(toks@) == all.subrange(0, toks@.len() as int),
            views(reversed@) == all.subrange(toks@.len() as int, all.len() as int).reverse(),
        decreases toks@.len(),
    {
        let ghost before = toks@;
        match toks.pop() {
            Some(t) => {
                assert(views(toks@) =~= views(before).drop_last());
                assert(views(before)[before.len() - 1] == t@);
                assert(all.subrange(0, before.len() as int)[before.len() - 1] == all[before.len() - 1]);
                assert(views(reversed@).push(t@) =~= all.subrange(
                    toks@.len() as int,
                    all.len() as int,
                ).reverse());
                reversed.push(t);
                assert(views(reversed@) =~= views(reversed@.drop_last()).push(t@));
                assert(reversed@.drop_last() =~= reversed@.subrange(0, reversed@.len() - 1));
            },
            None => {},
        }
    }
    assert(all.subrange(0, all.len() as int) =~= all);
    let mut parser = Parser { tokens: reversed, eof };
    let r = parser.parse();
    assert(grammar_from(l0, eof@) == parsed_view(r));
    r
}

/// Whether the grammar `ast` matches all of `input`: `Ok(true)` when its rule
/// `main` leaves no remainder, `Ok(false)` when it leaves some, and the error
/// when matching fails.
pub fn match_grammar(ast: Node, input: String) -> (r: Result<bool, Error>)
    requires
        wf_grammar(ast),
    ensures
        answers(r, ast, input@),
{
    let res = run_interpreter(ast, (String::new(), input));
    match res {
        Ok((_, left)) => Ok(left.as_str().unicode_len() == 0),
        Err(e) => Err(e),
    }
}

/// Whether the grammar written in `regex` matches all of `input`: the
/// scanning or parsing error of `regex`, or else what matching its grammar
/// against `input` gives.
pub fn match_string(regex: String, input: String) -> (r: Result<bool, Error>)
    ensures
        encode_utf8(regex@).len() > MAX_SOURCE_LEN ==> r is Err,
        encode_utf8(regex@).len() <= MAX_SOURCE_LEN ==> exists|l: Lexer, eof: TokenView|
            source_lexer(l, regex) && end_token(eof) && match #[trigger] grammar_from(l, eof) {
                Err(e) => r matches Err(x) && x@ == e,
                Ok(g) => exists|ast: Node|
                    #[trigger] node_view(ast) == g && wf_grammar(ast) && answers(r, ast, input@),
            },
{
    let ast = match parse_grammar(regex) {
        Ok(n) => n,
        Err(e) => {
            return Err(e);
        },
    };
    let r = match_grammar(ast, input);
    r
}

} // verus!
