use vstd::prelude::*;
use vstd::string::StringExecFns;
use crate::error::{Error, ErrorView};
use crate::nodes::{
    Node,
    NodeView,
    node_view,
    nodes_view,
    view_span,
    wf_body,
    wf_grammar,
    is_definition,
    lemma_wf_bodies_all,
    lemma_nodes_view_push,
};
use crate::position::Position;
use crate::token::{Token, TokenView, views};
use crate::token_types::{TokenTypes, kind_name};

verus! {

/// Builds the grammar tree from tokens. `tokens` is a stack: its last
/// element is the next token to read.
#[derive(Debug)]
pub struct Parser {
    pub tokens: Vec<Token>,
    /// What reading past the end of `tokens` gives.
    pub eof: Token,
}

/// The kind of the next token that is not a newline, `Eof` past the end.
pub open spec fn next_kind(s: Seq<Token>) -> TokenTypes
    decreases s.len(),
{
    if s.len() == 0 {
        TokenTypes::Eof
    } else if s.last().tok_type == TokenTypes::Newline {
        next_kind(s.drop_last())
    } else {
        s.last().tok_type
    }
}


/// A parse step's outcome: the tree or the error, and the tokens left.
pub type Parsed = (Result<NodeView, ErrorView>, Seq<TokenView>);

pub open spec fn parse_error_view(message: Seq<char>, pos_start: Position, pos_end: Position) -> ErrorView {
    ErrorView { name: "ParseError"@, message, pos_start, pos_end }
}

/// The next token and the tokens left after it; past the end, `eof`.
pub open spec fn pop(s: Seq<TokenView>, no_newline: bool, eof: TokenView) -> (TokenView, Seq<TokenView>)
    decreases s.len(),
{
    if s.len() == 0 {
        (eof, s)
    } else if no_newline && s.last().tok_type == TokenTypes::Newline {
        pop(s.drop_last(), no_newline, eof)
    } else {
        (s.last(), s.drop_last())
    }
}

/// `t` put back on `s`, unless it was read past the end of a list of
/// `before` tokens.
pub open spec fn unread(s: Seq<TokenView>, t: TokenView, before: nat) -> Seq<TokenView> {
    if before > 0 {
        s.push(t)
    } else {
        s
    }
}

pub open spec fn peek_is(s: Seq<TokenView>, k: TokenTypes, eof: TokenView) -> (bool, Seq<TokenView>) {
    let (t, s1) = pop(s, true, eof);
    (t.tok_type == k, unread(s1, t, s.len()))
}

pub open spec fn at_eof(s: Seq<TokenView>, eof: TokenView) -> (bool, Seq<TokenView>) {
    let (t, s1) = pop(s, true, eof);
    let res = t.tok_type == TokenTypes::Eof;
    (res, if !res { unread(s1, t, s.len()) } else { s1 })
}

pub open spec fn at_definition(s: Seq<TokenView>, eof: TokenView) -> (bool, Seq<TokenView>) {
    let (id, s1) = pop(s, true, eof);
    let (assign, s2) = pop(s1, true, eof);
    (
        id.tok_type == TokenTypes::Identifier && assign.tok_type == TokenTypes::Assign,
        unread(unread(s2, assign, s1.len()), id, s.len()),
    )
}

/// Whether a sequence ends here: at a new definition, the end, a `|` or a
/// `)`; only an `Eof` token and newlines are consumed.
pub open spec fn sequence_ends(s: Seq<TokenView>, eof: TokenView) -> (bool, Seq<TokenView>) {
    let (a, s1) = at_definition(s, eof);
    if a {
        (true, s1)
    } else {
        let (b, s2) = at_eof(s1, eof);
        if b {
            (true, s2)
        } else {
            let (c, s3) = peek_is(s2, TokenTypes::Pipe, eof);
            if c {
                (true, s3)
            } else {
                peek_is(s3, TokenTypes::LParen, eof)
            }
        }
    }
}

pub open spec fn prefix_of(s: Seq<TokenView>, eof: TokenView) -> Parsed
    decreases s.len(), 0nat, 0nat,
{
    let (tok, s1) = pop(s, true, eof);
    if tok.tok_type == TokenTypes::Str {
        (Ok(NodeView::Str { string: tok.tok_value, pos_start: tok.pos_start, pos_end: tok.pos_end }), s1)
    } else if tok.tok_type == TokenTypes::Identifier {
        (
            Ok(
                NodeView::Access {
                    identifier: tok.tok_value,
                    pos_start: tok.pos_start,
                    pos_end: tok.pos_end,
                },
            ),
            s1,
        )
    } else if tok.tok_type == TokenTypes::RParen {
        if s1.len() < s.len() {
            match operation_of(s1, eof) {
                (Ok(expr), s2) => {
                    let (ct, s3) = pop(s2, true, eof);
                    if ct.tok_type != TokenTypes::LParen {
                        (
                            Err(
                                parse_error_view(
                                    "Expected ')', found "@ + kind_name(ct.tok_type),
                                    view_span(expr).0,
                                    ct.pos_end,
                                ),
                            ),
                            s3,
                        )
                    } else {
                        (Ok(expr), s3)
                    }
                },
                other => other,
            }
        } else {
            (Err(parse_error_view(Seq::empty(), tok.pos_start, tok.pos_end)), s1)
        }
    } else {
        (
            Err(
                parse_error_view(
                    "Expected a literal, a rule name or '('"@,
                    tok.pos_start,
                    tok.pos_end,
                ),
            ),
            s1,
        )
    }
}

pub open spec fn atom_of(s: Seq<TokenView>, eof: TokenView) -> Parsed
    decreases s.len(), 1nat, 0nat,
{
    match prefix_of(s, eof) {
        (Ok(p), s1) => {
            let (pf, s2) = pop(s1, false, eof);
            if !(pf.tok_type == TokenTypes::Asterisk || pf.tok_type == TokenTypes::QuestionMark
                || pf.tok_type == TokenTypes::Plus) {
                (Ok(p), unread(s2, pf, s1.len()))
            } else {
                (
                    Ok(
                        NodeView::PostFix {
                            postfix: Box::new(p),
                            op: pf.tok_type,
                            pos_start: view_span(p).0,
                            pos_end: pf.pos_end,
                        },
                    ),
                    s2,
                )
            }
        },
        other => other,
    }
}

/// The rest of a sequence whose atoms so far are `ops`.
pub open spec fn sequence_rest(
    ops: Seq<NodeView>,
    done: bool,
    s: Seq<TokenView>,
    eof: TokenView,
) -> Parsed
    decreases s.len(), 2nat, 0nat,
{
    if done {
        (Ok(NodeView::Chain { chain: ops, pos_start: eof.pos_end, pos_end: eof.pos_end }), s)
    } else {
        match atom_of(s, eof) {
            (Ok(a), s1) => {
                let (d, s2) = sequence_ends(s1, eof);
                if s2.len() < s.len() {
                    sequence_rest(ops.push(a), d, s2, eof)
                } else {
                    (Err(parse_error_view(Seq::empty(), eof.pos_start, eof.pos_end)), s2)
                }
            },
            other => other,
        }
    }
}

pub open spec fn sequence_of(s: Seq<TokenView>, eof: TokenView) -> Parsed
    decreases s.len(), 2nat, 1nat,
{
    match atom_of(s, eof) {
        (Ok(a), s1) => {
            let (d, s2) = sequence_ends(s1, eof);
            if s2.len() < s.len() {
                sequence_rest(seq![a], d, s2, eof)
            } else {
                (Err(parse_error_view(Seq::empty(), eof.pos_start, eof.pos_end)), s2)
            }
        },
        other => other,
    }
}

/// The rest of a choice whose left side so far is `left`, with `t` the
/// token read after it from a list of `before` tokens.
pub open spec fn choice_rest(
    left: NodeView,
    t: TokenView,
    before: nat,
    s: Seq<TokenView>,
    ops: Seq<TokenTypes>,
    eof: TokenView,
) -> Parsed
    decreases s.len(), 3nat, 0nat,
{
    if ops.contains(t.tok_type) {
        match sequence_of(s, eof) {
            (Ok(r), s1) => {
                let node = NodeView::BinOp {
                    left: Box::new(left),
                    op: t.tok_type,
                    right: Box::new(r),
                    pos_start: view_span(r).0,
                    pos_end: view_span(r).1,
                };
                let (t2, s2) = pop(s1, true, eof);
                if s2.len() < s.len() {
                    choice_rest(node, t2, s1.len(), s2, ops, eof)
                } else {
                    (Err(parse_error_view(Seq::empty(), eof.pos_start, eof.pos_end)), s2)
                }
            },
            other => other,
        }
    } else {
        (Ok(left), unread(s, t, before))
    }
}

pub open spec fn choice_of(s: Seq<TokenView>, ops: Seq<TokenTypes>, eof: TokenView) -> Parsed
    decreases s.len(), 3nat, 1nat,
{
    match sequence_of(s, eof) {
        (Ok(l), s1) => {
            let (t, s2) = pop(s1, true, eof);
            if s2.len() < s.len() {
                choice_rest(l, t, s1.len(), s2, ops, eof)
            } else {
                (Err(parse_error_view(Seq::empty(), eof.pos_start, eof.pos_end)), s2)
            }
        },
        other => other,
    }
}

pub open spec fn operation_of(s: Seq<TokenView>, eof: TokenView) -> Parsed
    decreases s.len(), 4nat, 0nat,
{
    choice_of(s, seq![TokenTypes::Pipe], eof)
}

/// A definition whose name `tok` has been read.
pub open spec fn rule_of(s: Seq<TokenView>, tok: TokenView, eof: TokenView) -> Parsed {
    let (assign, s1) = pop(s, true, eof);
    if assign.tok_type != TokenTypes::Assign {
        (
            Err(
                parse_error_view(
                    "Expected ':=', got "@ + kind_name(assign.tok_type),
                    tok.pos_start,
                    tok.pos_end,
                ),
            ),
            s1,
        )
    } else {
        match operation_of(s1, eof) {
            (Ok(lhs), s2) => (
                Ok(
                    NodeView::Rule {
                        rhs: tok.tok_value,
                        lhs: Box::new(lhs),
                        pos_start: assign.pos_start,
                        pos_end: view_span(lhs).1,
                    },
                ),
                s2,
            ),
            other => other,
        }
    }
}

/// The definitions that follow `defs`, with `tok` the token just read.
pub open spec fn rules_rest(
    defs: Seq<NodeView>,
    pos_end: Position,
    tok: TokenView,
    s: Seq<TokenView>,
    eof: TokenView,
) -> Parsed
    decreases s.len(),
{
    if tok.tok_type == TokenTypes::Identifier {
        match rule_of(s, tok, eof) {
            (Ok(r), s1) => {
                let (t2, s2) = pop(s1, true, eof);
                if s2.len() < s.len() {
                    rules_rest(defs.push(r), view_span(r).1, t2, s2, eof)
                } else {
                    (Err(parse_error_view(Seq::empty(), eof.pos_start, eof.pos_end)), s2)
                }
            },
            other => other,
        }
    } else {
        (Ok(NodeView::Rules { rules: defs, pos_start: pos_end, pos_end }), s)
    }
}

/// The grammar that a token stack gives, read from its top, with `eof`
/// standing for the tokens past its end.
pub open spec fn grammar_of_tokens(s: Seq<TokenView>, eof: TokenView) -> Result<NodeView, ErrorView> {
    let (t, s1) = pop(s, true, eof);
    match rules_rest(Seq::empty(), eof.pos_end, t, s1, eof) {
        (Ok(obj), s2) => {
            let (ct, _) = pop(s2, true, eof);
            if ct.tok_type != TokenTypes::Eof {
                Err(parse_error_view("Inappropriate ending"@, view_span(obj).0, view_span(obj).1))
            } else {
                Ok(obj)
            }
        },
        (Err(e), _) => Err(e),
    }
}

fn parse_error(message: String, pos_start: Position, pos_end: Position) -> (r: Error)
    ensures
        r.name@ == "ParseError"@,
        r.message == message,
        r.pos_start == pos_start,
        r.pos_end == pos_end,
{
    Error { name: String::from_str("ParseError"), message, pos_start, pos_end }
}

fn contains_kind(ops: &Vec<TokenTypes>, t: TokenTypes) -> (r: bool)
    ensures
        r == ops@.contains(t),
{
    let mut i: usize = 0;
    while i < ops.len()
        invariant
            i <= ops@.len(),
            forall|j: int| 0 <= j < i ==> ops@[j] != t,
        decreases ops@.len() - i,
    {
        if ops[i] == t {
            return true;
        }
        i = i + 1;
    }
    false
}

pub open spec fn parsed_view(r: Result<Node, Error>) -> Result<NodeView, ErrorView> {
    match r {
        Ok(n) => Ok(node_view(n)),
        Err(e) => Err(e@),
    }
}

proof fn lemma_views_push(s: Seq<Token>, t: Token)
    ensures
        views(s.push(t)) == views(s).push(t@),
{
    assert(views(s.push(t)) =~= views(s).push(t@));
}

proof fn lemma_views_drop(s: Seq<Token>)
    requires
        s.len() > 0,
    ensures
        views(s.drop_last()) == views(s).drop_last(),
        views(s).last() == s.last()@,
{
    assert(views(s.drop_last()) =~= views(s).drop_last());
}

impl Parser {
    fn eof_token(&self) -> (r: Token)
        ensures
            r == self.eof,
    {
        self.eof.copy()
    }

    /// Takes the next token, skipping newlines when `no_newline` holds; past
    /// the end it gives the `eof` token.
    fn current_tok(&mut self, no_newline: bool) -> (r: Token)
        ensures
            final(self).eof == old(self).eof,
            final(self).tokens@ == old(self).tokens@.subrange(0, final(self).tokens@.len() as int),
            (final(self).tokens@.len() < old(self).tokens@.len()
                && r == old(self).tokens@[final(self).tokens@.len() as int])
                || (final(self).tokens@.len() == 0 && r == old(self).eof),
            (r@, views(final(self).tokens@)) == pop(views(old(self).tokens@), no_newline, old(self).eof@),
            !no_newline && old(self).tokens@.len() > 0
                ==> final(self).tokens@.len() == old(self).tokens@.len() - 1,
    {
        loop
            invariant
                self.eof == old(self).eof,
                self.tokens@.len() <= old(self).tokens@.len(),
                self.tokens@ == old(self).tokens@.subrange(0, self.tokens@.len() as int),
                no_newline ==> pop(views(self.tokens@), no_newline, self.eof@) == pop(
                    views(old(self).tokens@),
                    no_newline,
                    self.eof@,
                ),
                !no_newline ==> self.tokens@ == old(self).tokens@,
            decreases self.tokens@.len(),
        {
            let ghost before = self.tokens@;
            match self.tokens.pop() {
                None => {
                    return self.eof_token();
                },
                Some(t) => {
                    assert(before.drop_last() == self.tokens@);
                    assert(t == before.last());
                    assert(before.last() == old(self).tokens@[self.tokens@.len() as int]);
                    proof {
                        lemma_views_drop(before);
                    }
                    if !(no_newline && t.tok_type == TokenTypes::Newline) {
                        return t;
                    }
                },
            }
        }
    }

    fn add_tok(&mut self, tok: Token)
        ensures
            final(self).eof == old(self).eof,
            final(self).tokens@ == old(self).tokens@.push(tok),
            views(final(self).tokens@) == views(old(self).tokens@).push(tok@),
    {
        self.tokens.push(tok);
        proof {
            lemma_views_push(old(self).tokens@, tok);
        }
    }

    /// Parses a whole grammar: definitions up to the end of the tokens.
    pub fn parse(&mut self) -> (r: Result<Node, Error>)
        requires
            old(self).eof.tok_type == TokenTypes::Eof,
        ensures
            parsed_view(r) == grammar_of_tokens(views(old(self).tokens@), old(self).eof@),
            match r {
                Ok(n) => wf_grammar(n),
                Err(e) => e.name@ == "ParseError"@,
            },
    {
        let obj = match self.rules() {
            Ok(obj) => obj,
            Err(err) => {
                return Err(err);
            },
        };
        let (pos_start, pos_end) = obj.get_pos();
        let current_tok = self.current_tok(true);
        if current_tok.tok_type != TokenTypes::Eof {
            Err(parse_error(String::from_str("Inappropriate ending"), pos_start, pos_end))
        } else {
            Ok(obj)
        }
    }

    /// The definitions that follow, for as long as the next token is a name.
    fn rules(&mut self) -> (r: Result<Node, Error>)
        requires
            old(self).eof.tok_type == TokenTypes::Eof,
        ensures
            final(self).eof == old(self).eof,
            ({
                let (t, s1) = pop(views(old(self).tokens@), true, old(self).eof@);
                (parsed_view(r), views(final(self).tokens@)) == rules_rest(
                    Seq::empty(),
                    old(self).eof.pos_end,
                    t,
                    s1,
                    old(self).eof@,
                )
            }),
            match r {
                Ok(n) => wf_grammar(n),
                Err(e) => e.name@ == "ParseError"@,
            },
    {
        let ghost eof = self.eof@;
        let mut rules: Vec<Node> = Vec::new();
        let mut pos_end = self.eof_token().pos_end;
        let mut current_tok = self.current_tok(true);
        let ghost target = rules_rest(Seq::empty(), self.eof.pos_end, current_tok@, views(self.tokens@), eof);
        assert(nodes_view(rules@) =~= Seq::<NodeView>::empty());
        while current_tok.tok_type == TokenTypes::Identifier
            invariant
                eof == self.eof@,
                self.eof == old(self).eof,
                self.eof.tok_type == TokenTypes::Eof,
                forall|i: int| 0 <= i < rules@.len() ==> #[trigger] is_definition(rules@[i]),
                target == rules_rest(nodes_view(rules@), pos_end, current_tok@, views(self.tokens@), eof),
                target == ({
                    let (t, s1) = pop(views(old(self).tokens@), true, old(self).eof@);
                    rules_rest(Seq::empty(), old(self).eof.pos_end, t, s1, old(self).eof@)
                }),
            decreases self.tokens@.len(),
        {
            let ghost s0 = views(self.tokens@);
            let rule = match self.rule(Some(current_tok)) {
                Ok(a) => a,
                Err(err) => {
                    return Err(err);
                },
            };
            let (_, pos) = rule.get_pos();
            pos_end = pos;
            proof {
                lemma_nodes_view_push(rules@, rule);
            }
            rules.push(rule);
            current_tok = self.current_tok(true);
        }
        Ok(Node::RulesNode { rules, pos_start: pos_end.copy(), pos_end: pos_end })
    }

    /// A definition `name := body`, where `token` is the name when the
    /// caller has already read it.
    fn rule(&mut self, token: Option<Token>) -> (r: Result<Node, Error>)
        requires
            old(self).eof.tok_type == TokenTypes::Eof,
        ensures
            final(self).eof == old(self).eof,
            final(self).tokens@.len() <= old(self).tokens@.len(),
            token matches Some(t) ==> (parsed_view(r), views(final(self).tokens@)) == rule_of(
                views(old(self).tokens@),
                t@,
                old(self).eof@,
            ),
            match r {
                Ok(n) => is_definition(n) && final(self).tokens@.len() < old(self).tokens@.len(),
                Err(e) => e.name@ == "ParseError"@,
            },
    {
        let tok = match token {
            Some(t) => t,
            None => self.current_tok(true),
        };
        let assign_tok = self.current_tok(true);
        if assign_tok.tok_type != TokenTypes::Assign {
            let message = String::from_str("Expected ':=', got ").concat(
                assign_tok.tok_type.name().as_str(),
            );
            return Err(parse_error(message, tok.pos_start.copy(), tok.pos_end.copy()));
        }
        let lhs = match self.operation() {
            Ok(a) => a,
            Err(err) => {
                return Err(err);
            },
        };
        let (_, pos_end) = lhs.get_pos();
        Ok(
            Node::RuleNode {
                rhs: tok.tok_value,
                lhs: Box::new(lhs),
                pos_start: assign_tok.pos_start,
                pos_end,
            },
        )
    }

    /// A choice: sequences separated by `|`.
    fn operation(&mut self) -> (r: Result<Node, Error>)
        requires
            old(self).eof.tok_type == TokenTypes::Eof,
        ensures
            final(self).eof == old(self).eof,
            final(self).tokens@.len() <= old(self).tokens@.len(),
            (parsed_view(r), views(final(self).tokens@)) == operation_of(
                views(old(self).tokens@),
                old(self).eof@,
            ),
            match r {
                Ok(n) => wf_body(n) && final(self).tokens@.len() < old(self).tokens@.len(),
                Err(e) => e.name@ == "ParseError"@,
            },
        decreases old(self).tokens@.len(), 4nat,
    {
        let ops = vec![TokenTypes::Pipe];
        assert(ops@ =~= seq![TokenTypes::Pipe]);
        self.bin_op(ops)
    }

    /// Sequences separated by any of the operators `ops`, grouped to the left.
    fn bin_op(&mut self, ops: Vec<TokenTypes>) -> (r: Result<Node, Error>)
        requires
            old(self).eof.tok_type == TokenTypes::Eof,
            forall|i: int| 0 <= i < ops@.len() ==> ops@[i] == TokenTypes::Pipe,
        ensures
            final(self).eof == old(self).eof,
            final(self).tokens@.len() <= old(self).tokens@.len(),
            (parsed_view(r), views(final(self).tokens@)) == choice_of(
                views(old(self).tokens@),
                ops@,
                old(self).eof@,
            ),
            match r {
                Ok(n) => wf_body(n) && final(self).tokens@.len() < old(self).tokens@.len(),
                Err(e) => e.name@ == "ParseError"@,
            },
        decreases old(self).tokens@.len(), 3nat,
    {
        let ghost entry = self.tokens@.len();
        let ghost eof = self.eof@;
        let ghost target = choice_of(views(self.tokens@), ops@, eof);
        let mut left = match self.lhs() {
            Ok(a) => a,
            Err(err) => {
                return Err(err);
            },
        };
        let mut before = self.tokens.len();
        let mut op_tok = self.current_tok(true);
        while contains_kind(&ops, op_tok.tok_type)
            invariant
                forall|i: int| 0 <= i < ops@.len() ==> ops@[i] == TokenTypes::Pipe,
                wf_body(left),
                before < entry,
                entry == old(self).tokens@.len(),
                eof == self.eof@,
                self.eof == old(self).eof,
                self.eof.tok_type == TokenTypes::Eof,
                self.tokens@.len() <= before,
                self.tokens@.len() < before || self.tokens@.len() == 0,
                op_tok.tok_type != TokenTypes::Eof ==> self.tokens@.len() < before,
                target == choice_of(views(old(self).tokens@), ops@, old(self).eof@),
                target == choice_rest(
                    node_view(left),
                    op_tok@,
                    before as nat,
                    views(self.tokens@),
                    ops@,
                    eof,
                ),
            decreases self.tokens@.len(),
        {
            let right = match self.lhs() {
                Ok(a) => a,
                Err(err) => {
                    return Err(err);
                },
            };
            let (pos_start, pos_end) = right.get_pos();
            left = Node::BinOpNode {
                left: Box::new(left),
                op: op_tok.tok_type,
                right: Box::new(right),
                pos_start: pos_start,
                pos_end: pos_end,
            };
            before = self.tokens.len();
            op_tok = self.current_tok(true);
        }
        if before > 0 {
            self.add_tok(op_tok);
        }
        Ok(left)
    }

    /// A sequence: atoms up to the next definition, the end, a `|` or a `)`.
    fn lhs(&mut self) -> (r: Result<Node, Error>)
        requires
            old(self).eof.tok_type == TokenTypes::Eof,
        ensures
            final(self).eof == old(self).eof,
            final(self).tokens@.len() <= old(self).tokens@.len(),
            (parsed_view(r), views(final(self).tokens@)) == sequence_of(
                views(old(self).tokens@),
                old(self).eof@,
            ),
            match r {
                Ok(n) => wf_body(n) && final(self).tokens@.len() < old(self).tokens@.len(),
                Err(e) => e.name@ == "ParseError"@,
            },
        decreases old(self).tokens@.len(), 2nat,
    {
        let ghost entry = self.tokens@.len();
        let ghost eof = self.eof@;
        let ghost target = sequence_of(views(self.tokens@), eof);
        let mut ops: Vec<Node> = Vec::new();
        let op = match self.atom() {
            Ok(a) => a,
            Err(err) => {
                return Err(err);
            },
        };
        ops.push(op);
        assert(nodes_view(ops@) =~= seq![node_view(op)]) by {
            lemma_nodes_view_push(Seq::<Node>::empty(), op);
            assert(Seq::<Node>::empty().push(op) =~= ops@);
        }
        let mut done = self.ends_sequence();
        while !done
            invariant
                ops@.len() >= 1,
                forall|i: int| 0 <= i < ops@.len() ==> #[trigger] wf_body(ops@[i]),
                self.tokens@.len() < entry,
                entry == old(self).tokens@.len(),
                eof == self.eof@,
                self.eof == old(self).eof,
                self.eof.tok_type == TokenTypes::Eof,
                target == sequence_of(views(old(self).tokens@), old(self).eof@),
                target == sequence_rest(nodes_view(ops@), done, views(self.tokens@), eof),
            decreases self.tokens@.len(),
        {
            let op = match self.atom() {
                Ok(a) => a,
                Err(err) => {
                    return Err(err);
                },
            };
            proof {
                lemma_nodes_view_push(ops@, op);
            }
            ops.push(op);
            done = self.ends_sequence();
        }
        proof {
            lemma_wf_bodies_all(ops@);
        }
        Ok(
            Node::RuleChainNode {
                chain: ops,
                pos_start: self.eof_token().pos_end,
                pos_end: self.eof_token().pos_end,
            },
        )
    }

    /// Whether a sequence ends at the next tokens.
    fn ends_sequence(&mut self) -> (r: bool)
        requires
            old(self).eof.tok_type == TokenTypes::Eof,
        ensures
            final(self).eof == old(self).eof,
            final(self).tokens@.len() <= old(self).tokens@.len(),
            (r, views(final(self).tokens@)) == sequence_ends(views(old(self).tokens@), old(self).eof@),
    {
        self.is_rhs() || self.is_eof() || self.is_tok(TokenTypes::Pipe) || self.is_tok(
            TokenTypes::LParen,
        )
    }

    /// Whether the next token that is not a newline is of kind `tok_type`;
    /// only newlines are consumed.
    fn is_tok(&mut self, tok_type: TokenTypes) -> (r: bool)
        requires
            old(self).eof.tok_type == TokenTypes::Eof,
        ensures
            final(self).eof == old(self).eof,
            final(self).tokens@.len() <= old(self).tokens@.len(),
            (r, views(final(self).tokens@)) == peek_is(views(old(self).tokens@), tok_type, old(self).eof@),
    {
        let before = self.tokens.len();
        let tok = self.current_tok(true);
        let res = tok.tok_type == tok_type;
        if before > 0 {
            self.add_tok(tok);
        }
        res
    }

    /// Whether the tokens are at their end; an `Eof` token is consumed.
    fn is_eof(&mut self) -> (r: bool)
        requires
            old(self).eof.tok_type == TokenTypes::Eof,
        ensures
            final(self).eof == old(self).eof,
            final(self).tokens@.len() <= old(self).tokens@.len(),
            (r, views(final(self).tokens@)) == at_eof(views(old(self).tokens@), old(self).eof@),
    {
        let before = self.tokens.len();
        let eof = self.current_tok(true);
        let res = eof.tok_type == TokenTypes::Eof;
        if !res && before > 0 {
            self.add_tok(eof);
        }
        res
    }

    /// Whether a new definition starts here: a name, then `:=`.
    fn is_rhs(&mut self) -> (r: bool)
        requires
            old(self).eof.tok_type == TokenTypes::Eof,
        ensures
            final(self).eof == old(self).eof,
            final(self).tokens@.len() <= old(self).tokens@.len(),
            (r, views(final(self).tokens@)) == at_definition(views(old(self).tokens@), old(self).eof@),
    {
        let before_id = self.tokens.len();
        let id = self.current_tok(true);
        let before_assign = self.tokens.len();
        let assign = self.current_tok(true);
        let res = id.tok_type == TokenTypes::Identifier && assign.tok_type == TokenTypes::Assign;
        if before_assign > 0 {
            self.add_tok(assign);
        }
        if before_id > 0 {
            self.add_tok(id);
        }
        res
    }

    /// An operand, with the repetition operator that follows it, if any.
    fn atom(&mut self) -> (r: Result<Node, Error>)
        requires
            old(self).eof.tok_type == TokenTypes::Eof,
        ensures
            final(self).eof == old(self).eof,
            final(self).tokens@.len() <= old(self).tokens@.len(),
            (parsed_view(r), views(final(self).tokens@)) == atom_of(
                views(old(self).tokens@),
                old(self).eof@,
            ),
            match r {
                Ok(n) => wf_body(n) && final(self).tokens@.len() < old(self).tokens@.len(),
                Err(e) => e.name@ == "ParseError"@,
            },
        decreases old(self).tokens@.len(), 1nat,
    {
        let prefix = match self.prefix() {
            Ok(a) => a,
            Err(err) => {
                return Err(err);
            },
        };
        let before = self.tokens.len();
        let postfix = self.current_tok(false);
        if !(postfix.tok_type == TokenTypes::Asterisk || postfix.tok_type
            == TokenTypes::QuestionMark || postfix.tok_type == TokenTypes::Plus) {
            if before > 0 {
                self.add_tok(postfix);
            }
            Ok(prefix)
        } else {
            let pos_end = postfix.pos_end.copy();
            let (pos_start, _) = prefix.get_pos();
            Ok(
                Node::PostFixNode {
                    postfix: Box::new(prefix),
                    op: postfix.tok_type,
                    pos_start: pos_start,
                    pos_end: pos_end,
                },
            )
        }
    }

    /// An operand: a literal, a rule name, or a choice in parentheses.
    fn prefix(&mut self) -> (r: Result<Node, Error>)
        requires
            old(self).eof.tok_type == TokenTypes::Eof,
        ensures
            final(self).eof == old(self).eof,
            final(self).tokens@.len() <= old(self).tokens@.len(),
            (parsed_view(r), views(final(self).tokens@)) == prefix_of(
                views(old(self).tokens@),
                old(self).eof@,
            ),
            match r {
                Ok(n) => wf_body(n) && final(self).tokens@.len() < old(self).tokens@.len(),
                Err(e) => e.name@ == "ParseError"@,
            },
        decreases old(self).tokens@.len(), 0nat,
    {
        let tok = self.current_tok(true);
        if tok.tok_type == TokenTypes::Str {
            Ok(Node::StrNode { string: tok.tok_value, pos_start: tok.pos_start, pos_end: tok.pos_end })
        } else if tok.tok_type == TokenTypes::Identifier {
            Ok(
                Node::RuleAccessNode {
                    identifier: tok.tok_value,
                    pos_start: tok.pos_start,
                    pos_end: tok.pos_end,
                },
            )
        } else if tok.tok_type == TokenTypes::RParen {
            let expr = match self.operation() {
                Ok(a) => a,
                Err(err) => {
                    return Err(err);
                },
            };
            let current_tok = self.current_tok(true);
            if current_tok.tok_type != TokenTypes::LParen {
                let (pos_start, _) = expr.get_pos();
                let message = String::from_str("Expected ')', found ").concat(
                    current_tok.tok_type.name().as_str(),
                );
                return Err(parse_error(message, pos_start, current_tok.pos_end));
            }
            Ok(expr)
        } else {
            Err(
                parse_error(
                    String::from_str("Expected a literal, a rule name or '('"),
                    tok.pos_start.copy(),
                    tok.pos_end.copy(),
                ),
            )
        }
    }
}

} // verus!
