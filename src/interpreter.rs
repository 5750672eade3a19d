use vstd::prelude::*;
use vstd::string::StrSliceExecFns;
use vstd::string::StringExecFns;
use crate::context::{Context, Lazy};
use crate::error::{Error, ErrorView};
use crate::nodes::{
    Node,
    size,
    sizes,
    wf_body,
    wf_bodies,
    wf_grammar,
    is_definition,
    span,
    lemma_sizes_bound,
    lemma_wf_bodies,
};
use crate::parser_combinators::{Value, ValueView, value_view, result_view, literal_parse, literal_outcome};
pub use crate::parser_combinators::{fst, snd};
use crate::position::Position;
use crate::token_types::TokenTypes;

verus! {

/// How deep rule references may nest in one top-level match: as deep as a
/// counter can count, so that in practice only the stack bounds it.
pub const MAX_DEPTH: u64 = 0xFFFF_FFFF_FFFF_FFFF;

/// The result of interpreting a node: `None` when rule references nest
/// deeper than the depth allowed, else the match value or the error.
pub type Outcome = Option<Result<ValueView, ErrorView>>;

pub open spec fn outcome_view(r: Option<Result<Value, Error>>) -> Outcome {
    match r {
        Some(x) => Some(result_view(x)),
        None => None,
    }
}

pub open spec fn no_definition(name: Seq<char>, pos_start: Position, pos_end: Position) -> ErrorView {
    ErrorView {
        name: "NoDefinitionError"@,
        message: "No definition for "@ + name + " found"@,
        pos_start,
        pos_end,
    }
}

/// Every rule body of a table is well formed.
pub open spec fn wf_table(rules: Map<Seq<char>, Node>) -> bool {
    forall|k: Seq<char>| rules.contains_key(k) ==> #[trigger] wf_body(rules[k])
}

/// Interpreting `n` against the value `v` with the rules `rules`, where rule
/// references may nest `fuel` deep.
pub open spec fn eval(rules: Map<Seq<char>, Node>, n: Node, v: ValueView, fuel: nat) -> Outcome
    decreases fuel, size(n), v.1.len(), 0nat,
{
    match n {
        Node::StrNode { string, pos_start, pos_end } => Some(
            literal_outcome(string@, v.1, pos_start, pos_end),
        ),
        Node::RuleAccessNode { identifier, pos_start, pos_end } => if !rules.contains_key(
            identifier@,
        ) {
            Some(Err(no_definition(identifier@, pos_start, pos_end)))
        } else if fuel == 0 {
            None
        } else {
            eval(rules, rules[identifier@], v, (fuel - 1) as nat)
        },
        Node::RuleChainNode { chain, .. } => eval_chain(rules, chain@, v, fuel),
        Node::BinOpNode { left, right, .. } => eval_choice(rules, *left, *right, v, fuel),
        Node::PostFixNode { postfix, op, .. } => eval_repeat(rules, *postfix, op, v, fuel),
        _ => None,
    }
}

/// Ordered choice: `left`, and `right` on the untouched value only where
/// `left` fails.
pub open spec fn eval_choice(
    rules: Map<Seq<char>, Node>,
    left: Node,
    right: Node,
    v: ValueView,
    fuel: nat,
) -> Outcome
    decreases fuel, size(left) + size(right), v.1.len(), 2nat,
{
    match eval(rules, left, v, fuel) {
        Some(Err(_)) => eval(rules, right, v, fuel),
        other => other,
    }
}

/// A sequence: each element is matched, from an empty matched text, against
/// the remainder that the one before left; the first failure ends it.
pub open spec fn eval_chain(rules: Map<Seq<char>, Node>, s: Seq<Node>, v: ValueView, fuel: nat) -> Outcome
    decreases fuel, sizes(s), 0nat, 0nat,
{
    if s.len() == 0 {
        Some(Ok(v))
    } else {
        match eval(rules, s[0], (Seq::empty(), v.1), fuel) {
            Some(Ok(w)) => eval_chain(rules, s.subrange(1, s.len() as int), w, fuel),
            other => other,
        }
    }
}

/// `x` applied again and again from `v`, for as long as it succeeds and
/// consumes input; the value of the last success is kept. A success that
/// consumes nothing ends the run, since every later one would repeat it.
pub open spec fn eval_more(rules: Map<Seq<char>, Node>, x: Node, v: ValueView, fuel: nat) -> Outcome
    decreases fuel, size(x), v.1.len(), 1nat,
{
    match eval(rules, x, v, fuel) {
        Some(Err(_)) => Some(Ok(v)),
        Some(Ok(w)) => if w.1.len() < v.1.len() {
            eval_more(rules, x, w, fuel)
        } else {
            Some(Ok(w))
        },
        None => None,
    }
}

/// Repetition: `?` tries `x` once and keeps the untouched value on failure;
/// `*` is `eval_more`; `+` is `*` after one application that must succeed.
pub open spec fn eval_repeat(
    rules: Map<Seq<char>, Node>,
    x: Node,
    op: TokenTypes,
    v: ValueView,
    fuel: nat,
) -> Outcome
    decreases fuel, size(x), v.1.len(), 2nat,
{
    if op == TokenTypes::QuestionMark {
        match eval(rules, x, v, fuel) {
            Some(Err(_)) => Some(Ok(v)),
            other => other,
        }
    } else if op == TokenTypes::Asterisk {
        eval_more(rules, x, v, fuel)
    } else {
        match eval(rules, x, v, fuel) {
            Some(Ok(w)) => if w.1.len() < v.1.len() {
                eval_more(rules, x, w, fuel)
            } else {
                Some(Ok(w))
            },
            other => other,
        }
    }
}

fn clone_value(v: &Value) -> (r: Value)
    ensures
        r == *v,
{
    (v.0.clone(), v.1.clone())
}

/// Whether the remainder `a` is strictly shorter than the remainder `b`.
fn shorter(a: &String, b: &String) -> (r: bool)
    ensures
        r == (a@.len() < b@.len()),
{
    a.as_str().unicode_len() < b.as_str().unicode_len()
}

impl Lazy {
    /// Interprets the stored body against `input`.
    pub fn evaluate(&self, context: &Context, input: Value, depth: u64) -> (r: Option<
        Result<Value, Error>,
    >)
        requires
            wf_body(*self.fun),
            wf_table(context@),
        ensures
            outcome_view(r) == eval(context@, *self.fun, value_view(input), depth as nat),
        decreases depth, size(*self.fun), 2nat,
    {
        interpret(&self.fun, context, input, depth)
    }
}

/// Ordered choice between `left` and `right`.
pub fn handle_binary_op(
    left: &Node,
    op: TokenTypes,
    right: &Node,
    ctx: &Context,
    input: Value,
    depth: u64,
) -> (r: Option<Result<Value, Error>>)
    requires
        op == TokenTypes::Pipe,
        wf_body(*left),
        wf_body(*right),
        wf_table(ctx@),
    ensures
        outcome_view(r) == eval_choice(ctx@, *left, *right, value_view(input), depth as nat),
    decreases depth, size(*left) + size(*right), 2nat,
{
    let left_res = interpret(left, ctx, clone_value(&input), depth);
    match left_res {
        Some(Err(_)) => interpret(right, ctx, input, depth),
        other => other,
    }
}

/// Repetition of `postfix` by the quantifier `op`.
pub fn handle_postfix_op(
    postfix: &Node,
    op: TokenTypes,
    context: &Context,
    input: Value,
    depth: u64,
) -> (r: Option<Result<Value, Error>>)
    requires
        op == TokenTypes::QuestionMark || op == TokenTypes::Asterisk || op == TokenTypes::Plus,
        wf_body(*postfix),
        wf_table(context@),
    ensures
        outcome_view(r) == eval_repeat(context@, *postfix, op, value_view(input), depth as nat),
    decreases depth, size(*postfix), 2nat,
{
    let ghost rules = context@;
    let ghost v0 = value_view(input);
    let postfix_res = interpret(postfix, context, clone_value(&input), depth);
    if op == TokenTypes::QuestionMark {
        return match postfix_res {
            Some(Err(_)) => Some(Ok(input)),
            other => other,
        };
    }
    let mut output = match postfix_res {
        None => return None,
        Some(Err(err)) => {
            return if op == TokenTypes::Asterisk {
                Some(Ok(input))
            } else {
                Some(Err(err))
            };
        },
        Some(Ok(a)) => a,
    };
    if !shorter(&output.1, &input.1) {
        return Some(Ok(output));
    }
    loop
        invariant
            wf_body(*postfix),
            wf_table(context@),
            rules == context@,
            v0 == value_view(input),
            eval_repeat(rules, *postfix, op, v0, depth as nat) == eval_more(
                rules,
                *postfix,
                value_view(output),
                depth as nat,
            ),
        decreases output.1@.len(),
    {
        let interpreted = interpret(postfix, context, clone_value(&output), depth);
        match interpreted {
            None => return None,
            Some(Err(_)) => return Some(Ok(output)),
            Some(Ok(a)) => {
                if shorter(&a.1, &output.1) {
                    output = a;
                } else {
                    return Some(Ok(a));
                }
            },
        }
    }
}

/// Interprets `node` against `input`, resolving rule references in
/// `context` when they are reached; references may nest `depth` deep.
pub fn interpret(node: &Node, context: &Context, input: Value, depth: u64) -> (r: Option<
    Result<Value, Error>,
>)
    requires
        wf_body(*node),
        wf_table(context@),
    ensures
        outcome_view(r) == eval(context@, *node, value_view(input), depth as nat),
    decreases depth, size(*node), 1nat,
{
    match node {
        Node::StrNode { string, pos_start, pos_end } => Some(
            literal_parse(string.clone(), input, pos_start.copy(), pos_end.copy()),
        ),
        Node::RuleAccessNode { identifier, pos_start, pos_end } => {
            match context.get(identifier.clone()) {
                None => Some(
                    Err(
                        Error {
                            name: String::from_str("NoDefinitionError"),
                            message: String::from_str("No definition for ").concat(
                                identifier.as_str(),
                            ).concat(" found"),
                            pos_start: pos_start.copy(),
                            pos_end: pos_end.copy(),
                        },
                    ),
                ),
                Some(lazy_value) => {
                    if depth == 0 {
                        None
                    } else {
                        lazy_value.evaluate(context, input, depth - 1)
                    }
                },
            }
        },
        Node::RuleChainNode { chain, .. } => {
            let ghost rules = context@;
            let ghost v0 = value_view(input);
            let mut current = input;
            let mut i: usize = 0;
            assert(chain@.subrange(0, chain@.len() as int) =~= chain@);
            while i < chain.len()
                invariant
                    i <= chain@.len(),
                    wf_bodies(chain@),
                    wf_table(context@),
                    rules == context@,
                    v0 == value_view(input),
                    sizes(chain@) < size(*node),
                    eval(rules, *node, v0, depth as nat) == eval_chain(rules, chain@, v0, depth as nat),
                    eval_chain(rules, chain@, v0, depth as nat) == eval_chain(
                        rules,
                        chain@.subrange(i as int, chain@.len() as int),
                        value_view(current),
                        depth as nat,
                    ),
                decreases chain@.len() - i,
            {
                let ghost s = chain@.subrange(i as int, chain@.len() as int);
                proof {
                    lemma_sizes_bound(chain@, i as int);
                    lemma_wf_bodies(chain@, i as int);
                    assert(s.subrange(1, s.len() as int) =~= chain@.subrange(
                        i + 1,
                        chain@.len() as int,
                    ));
                    assert(s[0] == chain@[i as int]);
                }
                let step = interpret(&chain[i], context, (String::new(), snd(current)), depth);
                match step {
                    Some(Ok(a)) => {
                        current = a;
                    },
                    other => {
                        return other;
                    },
                }
                i = i + 1;
            }
            assert(chain@.subrange(i as int, chain@.len() as int).len() == 0);
            Some(Ok(current))
        },
        Node::BinOpNode { left, op, right, .. } => handle_binary_op(
            left,
            *op,
            right,
            context,
            input,
            depth,
        ),
        Node::PostFixNode { postfix, op, .. } => handle_postfix_op(
            postfix,
            *op,
            context,
            input,
            depth,
        ),
        _ => None,
    }
}

/// The name a definition binds.
pub open spec fn def_name(n: Node) -> Seq<char> {
    match n {
        Node::RuleNode { rhs, .. } => rhs@,
        _ => Seq::empty(),
    }
}

/// The body a definition binds its name to.
pub open spec fn def_body(n: Node) -> Node {
    match n {
        Node::RuleNode { lhs, .. } => *lhs,
        _ => n,
    }
}

/// The table `m` after binding the definitions `s` in order: a later
/// definition of a name replaces an earlier one.
pub open spec fn with_defs(m: Map<Seq<char>, Node>, s: Seq<Node>) -> Map<Seq<char>, Node>
    decreases s.len(),
{
    if s.len() == 0 {
        m
    } else {
        with_defs(m, s.drop_last()).insert(def_name(s.last()), def_body(s.last()))
    }
}

/// The binding table of a whole grammar.
pub open spec fn grammar_rules(ast: Node) -> Map<Seq<char>, Node> {
    match ast {
        Node::RulesNode { rules, .. } => with_defs(Map::empty(), rules@),
        _ => Map::empty(),
    }
}

pub open spec fn depth_error(pos_start: Position, pos_end: Position) -> ErrorView {
    ErrorView {
        name: "RecursionLimitError"@,
        message: "Rule references nest too deep"@,
        pos_start,
        pos_end,
    }
}

/// What a whole grammar gives on `v`: the rule `main` interpreted against
/// it, a missing `main` reported at the grammar's span, and so is nesting
/// deeper than `fuel`.
pub open spec fn run_outcome(ast: Node, v: ValueView, fuel: nat) -> Result<ValueView, ErrorView> {
    let rules = grammar_rules(ast);
    if !rules.contains_key("main"@) {
        Err(no_definition("main"@, span(ast).0, span(ast).1))
    } else {
        match eval(rules, rules["main"@], v, fuel) {
            Some(r) => r,
            None => Err(depth_error(span(ast).0, span(ast).1)),
        }
    }
}

/// Binds each definition of the grammar `node` in `context`, in source order.
pub fn add_def_pass(node: Node, context: &mut Context)
    requires
        wf_grammar(node),
        wf_table(old(context)@),
    ensures
        final(context)@ == with_defs(old(context)@, grammar_defs(node)),
        wf_table(final(context)@),
{
    match node {
        Node::RulesNode { rules, .. } => {
            let ghost all = rules@;
            let ghost m0 = context@;
            let mut rules = rules;
            let mut i: usize = 0;
            let n = rules.len();
            assert(all.subrange(0, 0) =~= Seq::<Node>::empty());
            assert(all.subrange(0, n as int) =~= all);
            while i < n
                invariant
                    n == all.len(),
                    i <= n,
                    rules@ == all.subrange(i as int, n as int),
                    forall|j: int| 0 <= j < all.len() ==> #[trigger] is_definition(all[j]),
                    context@ == with_defs(m0, all.subrange(0, i as int)),
                    wf_table(context@),
                decreases n - i,
            {
                let rule = rules.remove(0);
                assert(rule == all[i as int]);
                assert(is_definition(all[i as int]));
                assert(all.subrange(0, i + 1).drop_last() =~= all.subrange(0, i as int));
                assert(rules@ =~= all.subrange(i + 1, n as int));
                match rule {
                    Node::RuleNode { rhs, lhs, .. } => {
                        context.set(rhs, Lazy { fun: lhs });
                    },
                    _ => {},
                }
                i = i + 1;
            }
        },
        _ => {},
    }
}

/// The definitions of a grammar, in source order.
pub open spec fn grammar_defs(ast: Node) -> Seq<Node> {
    match ast {
        Node::RulesNode { rules, .. } => rules@,
        _ => Seq::empty(),
    }
}

/// Matches the grammar `ast` against `input`, starting from its rule `main`,
/// with rule references nesting at most `depth` deep.
pub fn run_interpreter_with_depth(ast: Node, input: Value, depth: u64) -> (r: Result<Value, Error>)
    requires
        wf_grammar(ast),
    ensures
        result_view(r) == run_outcome(ast, value_view(input), depth as nat),
{
    let ghost a = ast;
    let (pos_start, pos_end) = ast.get_pos();
    let mut context = Context::new();
    add_def_pass(ast, &mut context);
    assert(context@ == grammar_rules(a));
    let main = match context.get(String::from_str("main")) {
        Some(l) => l,
        None => {
            return Err(
                Error {
                    name: String::from_str("NoDefinitionError"),
                    message: String::from_str("No definition for ").concat("main").concat(
                        " found",
                    ),
                    pos_start,
                    pos_end,
                },
            );
        },
    };
    match main.evaluate(&context, input, depth) {
        Some(res) => res,
        None => Err(
            Error {
                name: String::from_str("RecursionLimitError"),
                message: String::from_str("Rule references nest too deep"),
                pos_start,
                pos_end,
            },
        ),
    }
}

/// Matches the grammar `ast` against `input`, starting from its rule `main`.
pub fn run_interpreter(ast: Node, input: Value) -> (r: Result<Value, Error>)
    requires
        wf_grammar(ast),
    ensures
        result_view(r) == run_outcome(ast, value_view(input), MAX_DEPTH as nat),
{
    run_interpreter_with_depth(ast, input, MAX_DEPTH)
}

} // verus!
