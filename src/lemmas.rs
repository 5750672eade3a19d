use vstd::prelude::*;
use crate::error::ErrorView;
use crate::interpreter::{
    eval,
    eval_chain,
    eval_more,
    eval_choice,
    eval_repeat,
    grammar_rules,
    grammar_defs,
    with_defs,
    def_name,
    def_body,
    run_outcome,
    no_definition,
};
use crate::nodes::{Node, span, size, sizes};
use crate::parser_combinators::{ValueView, literal_outcome};
use crate::position::Position;
use crate::token_types::TokenTypes;

verus! {

/// A literal succeeds exactly when the remainder starts with it; it then
/// yields the literal and the rest of the input, and otherwise an input error.
pub proof fn lemma_literal_exact(
    rules: Map<Seq<char>, Node>,
    string: String,
    pos_start: Position,
    pos_end: Position,
    v: ValueView,
    fuel: nat,
)
    ensures
        ({
            let r = eval(rules, Node::StrNode { string, pos_start, pos_end }, v, fuel);
            let l = string@.len();
            &&& (r matches Some(Ok(_))) <==> (l <= v.1.len() && v.1.subrange(0, l as int)
                == string@)
            &&& r matches Some(Ok(w)) ==> w == (string@, v.1.subrange(l as int, v.1.len() as int))
            &&& !(r matches Some(Ok(_))) ==> (r matches Some(Err(e)) && e.name == "InputError"@)
        }),
{
}

/// Ordered choice is left-biased: when the left side succeeds its result is
/// the result, and the right side is tried, on the untouched value, only
/// when the left side fails.
pub proof fn lemma_choice_left_bias(
    rules: Map<Seq<char>, Node>,
    left: Node,
    right: Node,
    pos_start: Position,
    pos_end: Position,
    v: ValueView,
    fuel: nat,
)
    ensures
        ({
            let n = Node::BinOpNode {
                left: Box::new(left),
                op: TokenTypes::Pipe,
                right: Box::new(right),
                pos_start,
                pos_end,
            };
            &&& eval(rules, left, v, fuel) matches Some(Ok(_)) ==> eval(rules, n, v, fuel) == eval(
                rules,
                left,
                v,
                fuel,
            )
            &&& eval(rules, left, v, fuel) matches Some(Err(_)) ==> eval(rules, n, v, fuel)
                == eval(rules, right, v, fuel)
        }),
{
    let n = Node::BinOpNode {
        left: Box::new(left),
        op: TokenTypes::Pipe,
        right: Box::new(right),
        pos_start,
        pos_end,
    };
    assert(eval(rules, n, v, fuel) == eval_choice(rules, left, right, v, fuel));
}

/// `x?` never fails: where `x` fails it succeeds with the untouched value,
/// and otherwise it gives what `x` gives.
pub proof fn lemma_optional_never_fails(
    rules: Map<Seq<char>, Node>,
    x: Node,
    pos_start: Position,
    pos_end: Position,
    v: ValueView,
    fuel: nat,
)
    ensures
        ({
            let n = Node::PostFixNode {
                postfix: Box::new(x),
                op: TokenTypes::QuestionMark,
                pos_start,
                pos_end,
            };
            &&& !(eval(rules, n, v, fuel) matches Some(Err(_)))
            &&& eval(rules, x, v, fuel) matches Some(Err(_)) ==> eval(rules, n, v, fuel) == Some(
                Ok::<ValueView, ErrorView>(v),
            )
            &&& eval(rules, x, v, fuel) matches Some(Ok(_)) ==> eval(rules, n, v, fuel) == eval(
                rules,
                x,
                v,
                fuel,
            )
        }),
{
    let n = Node::PostFixNode {
        postfix: Box::new(x),
        op: TokenTypes::QuestionMark,
        pos_start,
        pos_end,
    };
    assert(eval(rules, n, v, fuel) == eval_repeat(rules, x, TokenTypes::QuestionMark, v, fuel));
}

/// A run of further applications never fails, and it stops only where one
/// more application fails on the value reached, or where the last one
/// consumed nothing.
pub proof fn lemma_more_maximal(rules: Map<Seq<char>, Node>, x: Node, v: ValueView, fuel: nat)
    ensures
        !(eval_more(rules, x, v, fuel) matches Some(Err(_))),
        eval_more(rules, x, v, fuel) matches Some(Ok(w)) ==> {
            ||| eval(rules, x, w, fuel) matches Some(Err(_))
            ||| exists|u: ValueView|
                eval(rules, x, u, fuel) == Some(Ok::<ValueView, ErrorView>(w)) && w.1.len()
                    >= u.1.len()
        },
    decreases v.1.len(),
{
    match eval(rules, x, v, fuel) {
        Some(Ok(w)) => {
            if w.1.len() < v.1.len() {
                lemma_more_maximal(rules, x, w, fuel);
            } else {
                assert(eval(rules, x, v, fuel) == Some(Ok::<ValueView, ErrorView>(w)));
            }
        },
        _ => {},
    }
}

/// `x*` consumes a maximal run of applications of `x`: zero applications
/// are a success, it never fails, and it stops only where one more
/// application fails or the last one consumed nothing.
pub proof fn lemma_star_maximal(
    rules: Map<Seq<char>, Node>,
    x: Node,
    pos_start: Position,
    pos_end: Position,
    v: ValueView,
    fuel: nat,
)
    ensures
        ({
            let n = Node::PostFixNode {
                postfix: Box::new(x),
                op: TokenTypes::Asterisk,
                pos_start,
                pos_end,
            };
            &&& !(eval(rules, n, v, fuel) matches Some(Err(_)))
            &&& eval(rules, x, v, fuel) matches Some(Err(_)) ==> eval(rules, n, v, fuel) == Some(
                Ok::<ValueView, ErrorView>(v),
            )
            &&& eval(rules, n, v, fuel) matches Some(Ok(w)) ==> {
                ||| eval(rules, x, w, fuel) matches Some(Err(_))
                ||| exists|u: ValueView|
                    eval(rules, x, u, fuel) == Some(Ok::<ValueView, ErrorView>(w)) && w.1.len()
                        >= u.1.len()
            }
        }),
{
    let n = Node::PostFixNode { postfix: Box::new(x), op: TokenTypes::Asterisk, pos_start, pos_end };
    assert(eval(rules, n, v, fuel) == eval_repeat(rules, x, TokenTypes::Asterisk, v, fuel));
    lemma_more_maximal(rules, x, v, fuel);
}

/// `x+` fails exactly when the first application of `x` fails, and with
/// that same error.
pub proof fn lemma_plus_requires_one(
    rules: Map<Seq<char>, Node>,
    x: Node,
    pos_start: Position,
    pos_end: Position,
    v: ValueView,
    fuel: nat,
    e: ErrorView,
)
    ensures
        ({
            let n = Node::PostFixNode { postfix: Box::new(x), op: TokenTypes::Plus, pos_start, pos_end };
            eval(rules, n, v, fuel) == Some(Err::<ValueView, ErrorView>(e)) <==> eval(
                rules,
                x,
                v,
                fuel,
            ) == Some(Err::<ValueView, ErrorView>(e))
        }),
{
    let n = Node::PostFixNode { postfix: Box::new(x), op: TokenTypes::Plus, pos_start, pos_end };
    assert(eval(rules, n, v, fuel) == eval_repeat(rules, x, TokenTypes::Plus, v, fuel));
    match eval(rules, x, v, fuel) {
        Some(Ok(w)) => {
            lemma_more_maximal(rules, x, w, fuel);
        },
        _ => {},
    }
}

/// When element `i` of a sequence fails, the sequence fails with its error,
/// and the elements after it play no part: any sequence with the same first
/// `i + 1` elements gives the same result.
pub proof fn lemma_chain_short_circuit(
    rules: Map<Seq<char>, Node>,
    s: Seq<Node>,
    t: Seq<Node>,
    i: int,
    v: ValueView,
    u: ValueView,
    e: ErrorView,
    fuel: nat,
)
    requires
        0 <= i < s.len(),
        i < t.len(),
        t.subrange(0, i + 1) == s.subrange(0, i + 1),
        eval_chain(rules, s.subrange(0, i), v, fuel) == Some(Ok::<ValueView, ErrorView>(u)),
        eval(rules, s[i], (Seq::empty(), u.1), fuel) == Some(Err::<ValueView, ErrorView>(e)),
    ensures
        eval_chain(rules, s, v, fuel) == Some(Err::<ValueView, ErrorView>(e)),
        eval_chain(rules, t, v, fuel) == Some(Err::<ValueView, ErrorView>(e)),
    decreases i,
{
    assert(s[0] == s.subrange(0, i + 1)[0]);
    assert(t[0] == t.subrange(0, i + 1)[0]);
    if i == 0 {
        assert(s.subrange(0, 0).len() == 0);
    } else {
        let p = s.subrange(0, i);
        assert(p[0] == s[0]);
        match eval(rules, s[0], (Seq::empty(), v.1), fuel) {
            Some(Ok(w)) => {
                let s1 = s.subrange(1, s.len() as int);
                let t1 = t.subrange(1, t.len() as int);
                assert(p.subrange(1, p.len() as int) =~= s1.subrange(0, i - 1));
                assert forall|j: int| 0 <= j < i implies t1[j] == s1[j] by {
                    assert(t1[j] == t.subrange(0, i + 1)[j + 1]);
                    assert(s1[j] == s.subrange(0, i + 1)[j + 1]);
                }
                assert(t1.subrange(0, i) =~= s1.subrange(0, i));
                assert(s1[i - 1] == s[i]);
                lemma_chain_short_circuit(rules, s1, t1, i - 1, w, u, e, fuel);
            },
            _ => {},
        }
    }
}

/// A grammar without a rule named `main` is reported as such, at the
/// grammar's own span.
pub proof fn lemma_missing_main(ast: Node, v: ValueView, fuel: nat)
    requires
        !grammar_rules(ast).contains_key("main"@),
    ensures
        run_outcome(ast, v, fuel) == Err::<ValueView, ErrorView>(
            no_definition("main"@, span(ast).0, span(ast).1),
        ),
        no_definition("main"@, span(ast).0, span(ast).1).name == "NoDefinitionError"@,
        no_definition("main"@, span(ast).0, span(ast).1).message == "No definition for "@
            + "main"@ + " found"@,
{
}

/// The names that a list of definitions binds are pairwise distinct.
pub open spec fn distinct_names(s: Seq<Node>) -> bool {
    forall|i: int, j: int|
        0 <= i < s.len() && 0 <= j < s.len() && i != j ==> def_name(s[i]) != def_name(s[j])
}

proof fn lemma_with_defs_absent(m: Map<Seq<char>, Node>, s: Seq<Node>, k: Seq<char>)
    requires
        forall|i: int| 0 <= i < s.len() ==> def_name(#[trigger] s[i]) != k,
    ensures
        with_defs(m, s).contains_key(k) == m.contains_key(k),
        m.contains_key(k) ==> with_defs(m, s)[k] == m[k],
    decreases s.len(),
{
    if s.len() > 0 {
        let t = s.drop_last();
        assert forall|i: int| 0 <= i < t.len() implies def_name(#[trigger] t[i]) != k by {
            assert(t[i] == s[i]);
        }
        assert(def_name(s[s.len() - 1]) != k);
        lemma_with_defs_absent(m, t, k);
    }
}

proof fn lemma_with_defs_present(m: Map<Seq<char>, Node>, s: Seq<Node>, i: int)
    requires
        distinct_names(s),
        0 <= i < s.len(),
    ensures
        with_defs(m, s).contains_key(def_name(s[i])),
        with_defs(m, s)[def_name(s[i])] == def_body(s[i]),
    decreases s.len(),
{
    let t = s.drop_last();
    if i < s.len() - 1 {
        assert forall|a: int, b: int|
            0 <= a < t.len() && 0 <= b < t.len() && a != b implies def_name(t[a]) != def_name(
            t[b],
        ) by {
            assert(t[a] == s[a] && t[b] == s[b]);
        }
        assert(t[i] == s[i]);
        assert(def_name(s[i]) != def_name(s[s.len() - 1]));
        lemma_with_defs_present(m, t, i);
    }
}

/// Definitions with distinct names may stand in any order: two grammars
/// with the same definitions and span bind the same table, so they match
/// every input the same way.
pub proof fn lemma_definition_order(a: Node, b: Node, v: ValueView, fuel: nat)
    requires
        a is RulesNode,
        b is RulesNode,
        span(a) == span(b),
        distinct_names(grammar_defs(a)),
        distinct_names(grammar_defs(b)),
        forall|x: Node| grammar_defs(a).contains(x) <==> grammar_defs(b).contains(x),
    ensures
        grammar_rules(a) == grammar_rules(b),
        run_outcome(a, v, fuel) == run_outcome(b, v, fuel),
{
    let sa = grammar_defs(a);
    let sb = grammar_defs(b);
    let m = Map::<Seq<char>, Node>::empty();
    assert forall|k: Seq<char>|
        #[trigger] with_defs(m, sa).contains_key(k) == with_defs(m, sb).contains_key(k) && (
        with_defs(m, sa).contains_key(k) ==> with_defs(m, sa)[k] == with_defs(m, sb)[k]) by {
        if exists|i: int| 0 <= i < sa.len() && def_name(sa[i]) == k {
            let i = choose|i: int| 0 <= i < sa.len() && def_name(sa[i]) == k;
            assert(sa.contains(sa[i]));
            assert(sb.contains(sa[i]));
            let j = choose|j: int| 0 <= j < sb.len() && sb[j] == sa[i];
            lemma_with_defs_present(m, sa, i);
            lemma_with_defs_present(m, sb, j);
        } else if exists|j: int| 0 <= j < sb.len() && def_name(sb[j]) == k {
            let j = choose|j: int| 0 <= j < sb.len() && def_name(sb[j]) == k;
            assert(sb.contains(sb[j]));
            assert(sa.contains(sb[j]));
            let i = choose|i: int| 0 <= i < sa.len() && sa[i] == sb[j];
            assert(def_name(sa[i]) == k);
        } else {
            lemma_with_defs_absent(m, sa, k);
            lemma_with_defs_absent(m, sb, k);
        }
    }
    assert(with_defs(m, sa) =~= with_defs(m, sb));
}

/// `a` is what is left of `b` once some prefix of `b` is taken away.
pub open spec fn is_suffix(a: Seq<char>, b: Seq<char>) -> bool {
    a.len() <= b.len() && a == b.subrange(b.len() - a.len(), b.len() as int)
}

proof fn lemma_suffix_trans(a: Seq<char>, b: Seq<char>, c: Seq<char>)
    requires
        is_suffix(a, b),
        is_suffix(b, c),
    ensures
        is_suffix(a, c),
{
    assert(a =~= c.subrange(c.len() - a.len(), c.len() as int));
}

pub open spec fn leaves_suffix(r: crate::interpreter::Outcome, v: ValueView) -> bool {
    r matches Some(Ok(w)) ==> is_suffix(w.1, v.1)
}

/// Matching only consumes input: whatever succeeds leaves a suffix of the
/// remainder it started from.
pub proof fn lemma_remainder_is_suffix(rules: Map<Seq<char>, Node>, n: Node, v: ValueView, fuel: nat)
    ensures
        leaves_suffix(eval(rules, n, v, fuel), v),
    decreases fuel, size(n), v.1.len(), 0nat,
{
    assert(v.1 =~= v.1.subrange(0, v.1.len() as int));
    match n {
        Node::StrNode { string, pos_start, pos_end } => {
            assert(eval(rules, n, v, fuel) == Some(
                literal_outcome(string@, v.1, pos_start, pos_end),
            ));
            let l = string@.len() as int;
            if l <= v.1.len() {
                let rest = v.1.subrange(l, v.1.len() as int);
                assert(rest =~= v.1.subrange(v.1.len() - rest.len(), v.1.len() as int));
            }
        },
        Node::RuleAccessNode { identifier, .. } => {
            if rules.contains_key(identifier@) && fuel > 0 {
                lemma_remainder_is_suffix(rules, rules[identifier@], v, (fuel - 1) as nat);
            }
        },
        Node::RuleChainNode { chain, .. } => {
            assert(eval(rules, n, v, fuel) == eval_chain(rules, chain@, v, fuel));
            lemma_chain_suffix(rules, chain@, v, fuel);
        },
        Node::BinOpNode { left, right, .. } => {
            assert(eval(rules, n, v, fuel) == eval_choice(rules, *left, *right, v, fuel));
            lemma_remainder_is_suffix(rules, *left, v, fuel);
            lemma_remainder_is_suffix(rules, *right, v, fuel);
        },
        Node::PostFixNode { postfix, op, .. } => {
            assert(eval(rules, n, v, fuel) == eval_repeat(rules, *postfix, op, v, fuel));
            lemma_remainder_is_suffix(rules, *postfix, v, fuel);
            lemma_more_suffix(rules, *postfix, v, fuel);
            match eval(rules, *postfix, v, fuel) {
                Some(Ok(w)) => {
                    lemma_more_suffix(rules, *postfix, w, fuel);
                    match eval_more(rules, *postfix, w, fuel) {
                        Some(Ok(u)) => lemma_suffix_trans(u.1, w.1, v.1),
                        _ => {},
                    }
                },
                _ => {},
            }
        },
        _ => {},
    }
}

proof fn lemma_chain_suffix(rules: Map<Seq<char>, Node>, s: Seq<Node>, v: ValueView, fuel: nat)
    ensures
        leaves_suffix(eval_chain(rules, s, v, fuel), v),
    decreases fuel, sizes(s), 0nat, 0nat,
{
    assert(v.1 =~= v.1.subrange(0, v.1.len() as int));
    if s.len() > 0 {
        let v0 = (Seq::<char>::empty(), v.1);
        lemma_remainder_is_suffix(rules, s[0], v0, fuel);
        match eval(rules, s[0], v0, fuel) {
            Some(Ok(w)) => {
                lemma_chain_suffix(rules, s.subrange(1, s.len() as int), w, fuel);
                match eval_chain(rules, s.subrange(1, s.len() as int), w, fuel) {
                    Some(Ok(u)) => lemma_suffix_trans(u.1, w.1, v.1),
                    _ => {},
                }
            },
            _ => {},
        }
    }
}

proof fn lemma_more_suffix(rules: Map<Seq<char>, Node>, x: Node, v: ValueView, fuel: nat)
    ensures
        leaves_suffix(eval_more(rules, x, v, fuel), v),
    decreases fuel, size(x), v.1.len(), 1nat,
{
    assert(v.1 =~= v.1.subrange(0, v.1.len() as int));
    lemma_remainder_is_suffix(rules, x, v, fuel);
    match eval(rules, x, v, fuel) {
        Some(Ok(w)) => {
            if w.1.len() < v.1.len() {
                lemma_more_suffix(rules, x, w, fuel);
                match eval_more(rules, x, w, fuel) {
                    Some(Ok(u)) => lemma_suffix_trans(u.1, w.1, v.1),
                    _ => {},
                }
            }
        },
        _ => {},
    }
}

} // verus!
