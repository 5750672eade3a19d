use vstd::prelude::*;
use crate::position::Position;
use crate::token_types::TokenTypes;

verus! {

/// The grammar tree. `StrNode` is a literal, `RuleAccessNode` a reference to
/// a named rule, `BinOpNode` an ordered choice (`|`), `RuleChainNode` a
/// sequence, `PostFixNode` a repetition (`?`, `*`, `+`), `RuleNode` a named
/// definition and `RulesNode` the whole grammar.
#[derive(Debug)]
pub enum Node {
    StrNode { string: String, pos_start: Position, pos_end: Position },
    BinOpNode {
        left: Box<Node>,
        op: TokenTypes,
        right: Box<Node>,
        pos_start: Position,
        pos_end: Position,
    },
    RulesNode { rules: Vec<Node>, pos_start: Position, pos_end: Position },
    RuleNode { rhs: String, lhs: Box<Node>, pos_start: Position, pos_end: Position },
    PostFixNode { postfix: Box<Node>, op: TokenTypes, pos_start: Position, pos_end: Position },
    RuleAccessNode { identifier: String, pos_start: Position, pos_end: Position },
    RuleChainNode { chain: Vec<Node>, pos_start: Position, pos_end: Position },
}

/// A grammar tree with its texts seen as character sequences.
pub enum NodeView {
    Str { string: Seq<char>, pos_start: Position, pos_end: Position },
    BinOp {
        left: Box<NodeView>,
        op: TokenTypes,
        right: Box<NodeView>,
        pos_start: Position,
        pos_end: Position,
    },
    Rules { rules: Seq<NodeView>, pos_start: Position, pos_end: Position },
    Rule { rhs: Seq<char>, lhs: Box<NodeView>, pos_start: Position, pos_end: Position },
    PostFix { postfix: Box<NodeView>, op: TokenTypes, pos_start: Position, pos_end: Position },
    Access { identifier: Seq<char>, pos_start: Position, pos_end: Position },
    Chain { chain: Seq<NodeView>, pos_start: Position, pos_end: Position },
}

pub open spec fn node_view(n: Node) -> NodeView
    decreases n,
{
    match n {
        Node::StrNode { string, pos_start, pos_end } => NodeView::Str {
            string: string@,
            pos_start,
            pos_end,
        },
        Node::BinOpNode { left, op, right, pos_start, pos_end } => NodeView::BinOp {
            left: Box::new(node_view(*left)),
            op,
            right: Box::new(node_view(*right)),
            pos_start,
            pos_end,
        },
        Node::RulesNode { rules, pos_start, pos_end } => NodeView::Rules {
            rules: nodes_view(rules@),
            pos_start,
            pos_end,
        },
        Node::RuleNode { rhs, lhs, pos_start, pos_end } => NodeView::Rule {
            rhs: rhs@,
            lhs: Box::new(node_view(*lhs)),
            pos_start,
            pos_end,
        },
        Node::PostFixNode { postfix, op, pos_start, pos_end } => NodeView::PostFix {
            postfix: Box::new(node_view(*postfix)),
            op,
            pos_start,
            pos_end,
        },
        Node::RuleAccessNode { identifier, pos_start, pos_end } => NodeView::Access {
            identifier: identifier@,
            pos_start,
            pos_end,
        },
        Node::RuleChainNode { chain, pos_start, pos_end } => NodeView::Chain {
            chain: nodes_view(chain@),
            pos_start,
            pos_end,
        },
    }
}

pub open spec fn nodes_view(s: Seq<Node>) -> Seq<NodeView>
    decreases s,
{
    if s.len() == 0 {
        Seq::empty()
    } else {
        seq![node_view(s[0])] + nodes_view(s.subrange(1, s.len() as int))
    }
}

pub open spec fn view_span(n: NodeView) -> (Position, Position) {
    match n {
        NodeView::Str { pos_start, pos_end, .. } => (pos_start, pos_end),
        NodeView::BinOp { pos_start, pos_end, .. } => (pos_start, pos_end),
        NodeView::Rules { pos_start, pos_end, .. } => (pos_start, pos_end),
        NodeView::Rule { pos_start, pos_end, .. } => (pos_start, pos_end),
        NodeView::PostFix { pos_start, pos_end, .. } => (pos_start, pos_end),
        NodeView::Access { pos_start, pos_end, .. } => (pos_start, pos_end),
        NodeView::Chain { pos_start, pos_end, .. } => (pos_start, pos_end),
    }
}

pub proof fn lemma_nodes_view_push(s: Seq<Node>, n: Node)
    ensures
        nodes_view(s.push(n)) == nodes_view(s).push(node_view(n)),
    decreases s.len(),
{
    if s.len() == 0 {
        assert(s.push(n).subrange(1, 1) =~= Seq::<Node>::empty());
        assert(nodes_view(Seq::<Node>::empty()) == Seq::<NodeView>::empty());
        assert(s.push(n)[0] == n);
        assert(nodes_view(s.push(n)) =~= seq![node_view(n)] + Seq::<NodeView>::empty());
        assert(nodes_view(s) == Seq::<NodeView>::empty());
        assert(nodes_view(s).push(node_view(n)) =~= seq![node_view(n)]);
    } else {
        let t = s.subrange(1, s.len() as int);
        assert(s.push(n).subrange(1, s.len() + 1 as int) =~= t.push(n));
        lemma_nodes_view_push(t, n);
        assert(s.push(n)[0] == s[0]);
        assert(nodes_view(s.push(n)) =~= nodes_view(s).push(node_view(n)));
    }
}

/// The number of nodes in a tree, counting one more for each list of
/// children; it bounds every recursion over the tree.
pub open spec fn size(n: Node) -> nat
    decreases n,
{
    match n {
        Node::BinOpNode { left, right, .. } => 1 + size(*left) + size(*right),
        Node::RulesNode { rules, .. } => 1 + sizes(rules@),
        Node::RuleNode { lhs, .. } => 1 + size(*lhs),
        Node::PostFixNode { postfix, .. } => 1 + size(*postfix),
        Node::RuleChainNode { chain, .. } => 1 + sizes(chain@),
        _ => 1,
    }
}

pub open spec fn sizes(s: Seq<Node>) -> nat
    decreases s,
{
    if s.len() == 0 {
        0
    } else {
        1 + size(s[0]) + sizes(s.subrange(1, s.len() as int))
    }
}

/// A rule body as the parser builds it: choices are `|`, repetitions are
/// `?`, `*` or `+`, sequences are not empty, and no definition stands inside.
pub open spec fn wf_body(n: Node) -> bool
    decreases n,
{
    match n {
        Node::StrNode { .. } => true,
        Node::RuleAccessNode { .. } => true,
        Node::BinOpNode { left, op, right, .. } => op == TokenTypes::Pipe && wf_body(*left)
            && wf_body(*right),
        Node::PostFixNode { postfix, op, .. } => (op == TokenTypes::QuestionMark || op
            == TokenTypes::Asterisk || op == TokenTypes::Plus) && wf_body(*postfix),
        Node::RuleChainNode { chain, .. } => chain@.len() > 0 && wf_bodies(chain@),
        _ => false,
    }
}

pub open spec fn wf_bodies(s: Seq<Node>) -> bool
    decreases s,
{
    s.len() == 0 || (wf_body(s[0]) && wf_bodies(s.subrange(1, s.len() as int)))
}

/// A whole grammar as the parser builds it: a list of definitions with
/// well-formed bodies.
pub open spec fn wf_grammar(n: Node) -> bool {
    match n {
        Node::RulesNode { rules, .. } => forall|i: int|
            0 <= i < rules@.len() ==> #[trigger] is_definition(rules@[i]),
        _ => false,
    }
}

pub open spec fn is_definition(n: Node) -> bool {
    match n {
        Node::RuleNode { lhs, .. } => wf_body(*lhs),
        _ => false,
    }
}

pub open spec fn span(n: Node) -> (Position, Position) {
    match n {
        Node::StrNode { pos_start, pos_end, .. } => (pos_start, pos_end),
        Node::BinOpNode { pos_start, pos_end, .. } => (pos_start, pos_end),
        Node::RulesNode { pos_start, pos_end, .. } => (pos_start, pos_end),
        Node::RuleNode { pos_start, pos_end, .. } => (pos_start, pos_end),
        Node::PostFixNode { pos_start, pos_end, .. } => (pos_start, pos_end),
        Node::RuleAccessNode { pos_start, pos_end, .. } => (pos_start, pos_end),
        Node::RuleChainNode { pos_start, pos_end, .. } => (pos_start, pos_end),
    }
}

pub proof fn lemma_sizes_bound(s: Seq<Node>, i: int)
    requires
        0 <= i < s.len(),
    ensures
        size(s[i]) < sizes(s),
    decreases s.len(),
{
    if i > 0 {
        lemma_sizes_bound(s.subrange(1, s.len() as int), i - 1);
    }
}

pub proof fn lemma_wf_bodies(s: Seq<Node>, i: int)
    requires
        0 <= i < s.len(),
        wf_bodies(s),
    ensures
        wf_body(s[i]),
    decreases s.len(),
{
    if i > 0 {
        lemma_wf_bodies(s.subrange(1, s.len() as int), i - 1);
    }
}

pub proof fn lemma_wf_bodies_all(s: Seq<Node>)
    requires
        forall|i: int| 0 <= i < s.len() ==> #[trigger] wf_body(s[i]),
    ensures
        wf_bodies(s),
    decreases s.len(),
{
    if s.len() > 0 {
        let t = s.subrange(1, s.len() as int);
        assert forall|i: int| 0 <= i < t.len() implies #[trigger] wf_body(t[i]) by {
            assert(t[i] == s[i + 1]);
        }
        lemma_wf_bodies_all(t);
        assert(wf_body(s[0]));
    }
}

/// `a` and `b` are the same tree: the same variants, texts, operators and
/// spans throughout.
pub open spec fn same_node(a: Node, b: Node) -> bool
    decreases a,
{
    match (a, b) {
        (
            Node::StrNode { string: s1, pos_start: p1, pos_end: e1 },
            Node::StrNode { string: s2, pos_start: p2, pos_end: e2 },
        ) => s1 == s2 && p1 == p2 && e1 == e2,
        (
            Node::BinOpNode { left: l1, op: o1, right: r1, pos_start: p1, pos_end: e1 },
            Node::BinOpNode { left: l2, op: o2, right: r2, pos_start: p2, pos_end: e2 },
        ) => o1 == o2 && p1 == p2 && e1 == e2 && same_node(*l1, *l2) && same_node(*r1, *r2),
        (
            Node::RulesNode { rules: c1, pos_start: p1, pos_end: e1 },
            Node::RulesNode { rules: c2, pos_start: p2, pos_end: e2 },
        ) => p1 == p2 && e1 == e2 && c1@.len() == c2@.len() && forall|i: int|
            0 <= i < c1@.len() ==> same_node(#[trigger] c1@[i], c2@[i]),
        (
            Node::RuleNode { rhs: n1, lhs: l1, pos_start: p1, pos_end: e1 },
            Node::RuleNode { rhs: n2, lhs: l2, pos_start: p2, pos_end: e2 },
        ) => n1 == n2 && p1 == p2 && e1 == e2 && same_node(*l1, *l2),
        (
            Node::PostFixNode { postfix: x1, op: o1, pos_start: p1, pos_end: e1 },
            Node::PostFixNode { postfix: x2, op: o2, pos_start: p2, pos_end: e2 },
        ) => o1 == o2 && p1 == p2 && e1 == e2 && same_node(*x1, *x2),
        (
            Node::RuleAccessNode { identifier: n1, pos_start: p1, pos_end: e1 },
            Node::RuleAccessNode { identifier: n2, pos_start: p2, pos_end: e2 },
        ) => n1 == n2 && p1 == p2 && e1 == e2,
        (
            Node::RuleChainNode { chain: c1, pos_start: p1, pos_end: e1 },
            Node::RuleChainNode { chain: c2, pos_start: p2, pos_end: e2 },
        ) => p1 == p2 && e1 == e2 && c1@.len() == c2@.len() && forall|i: int|
            0 <= i < c1@.len() ==> same_node(#[trigger] c1@[i], c2@[i]),
        _ => false,
    }
}

fn copy_all(v: &Vec<Node>, Ghost(parent): Ghost<Node>) -> (r: Vec<Node>)
    requires
        forall|i: int| 0 <= i < v@.len() ==> size(#[trigger] v@[i]) < size(parent),
    ensures
        r@.len() == v@.len(),
        forall|i: int| 0 <= i < v@.len() ==> same_node(#[trigger] v@[i], r@[i]),
    decreases size(parent), 0nat,
{
    let mut r: Vec<Node> = Vec::new();
    let mut i: usize = 0;
    while i < v.len()
        invariant
            i <= v@.len(),
            r@.len() == i,
            forall|j: int| 0 <= j < v@.len() ==> size(#[trigger] v@[j]) < size(parent),
            forall|j: int| 0 <= j < i ==> same_node(#[trigger] v@[j], r@[j]),
        decreases v@.len() - i,
    {
        let c = v[i].copy();
        r.push(c);
        i = i + 1;
    }
    r
}

impl Node {
    pub fn get_pos(&self) -> (r: (Position, Position))
        ensures
            r == span(*self),
    {
        match self {
            Node::StrNode { pos_start, pos_end, .. } => (pos_start.copy(), pos_end.copy()),
            Node::RulesNode { pos_start, pos_end, .. } => (pos_start.copy(), pos_end.copy()),
            Node::RuleNode { pos_start, pos_end, .. } => (pos_start.copy(), pos_end.copy()),
            Node::BinOpNode { pos_start, pos_end, .. } => (pos_start.copy(), pos_end.copy()),
            Node::PostFixNode { pos_start, pos_end, .. } => (pos_start.copy(), pos_end.copy()),
            Node::RuleAccessNode { pos_start, pos_end, .. } => (pos_start.copy(), pos_end.copy()),
            Node::RuleChainNode { pos_start, pos_end, .. } => (pos_start.copy(), pos_end.copy()),
        }
    }

    /// A deep copy of the tree.
    pub fn copy(&self) -> (r: Node)
        ensures
            same_node(*self, r),
        decreases size(*self), 1nat,
    {
        match self {
            Node::StrNode { string, pos_start, pos_end } => Node::StrNode {
                string: string.clone(),
                pos_start: pos_start.copy(),
                pos_end: pos_end.copy(),
            },
            Node::RulesNode { rules, pos_start, pos_end } => {
                proof {
                    assert forall|i: int| 0 <= i < rules@.len() implies size(#[trigger] rules@[i])
                        < size(*self) by {
                        lemma_sizes_bound(rules@, i);
                    }
                }
                Node::RulesNode {
                    rules: copy_all(rules, Ghost(*self)),
                    pos_start: pos_start.copy(),
                    pos_end: pos_end.copy(),
                }
            },
            Node::RuleNode { rhs, lhs, pos_start, pos_end } => Node::RuleNode {
                rhs: rhs.clone(),
                lhs: Box::new(lhs.copy()),
                pos_start: pos_start.copy(),
                pos_end: pos_end.copy(),
            },
            Node::BinOpNode { left, op, right, pos_start, pos_end } => Node::BinOpNode {
                left: Box::new(left.copy()),
                op: *op,
                right: Box::new(right.copy()),
                pos_start: pos_start.copy(),
                pos_end: pos_end.copy(),
            },
            Node::PostFixNode { postfix, op, pos_start, pos_end } => Node::PostFixNode {
                postfix: Box::new(postfix.copy()),
                op: *op,
                pos_start: pos_start.copy(),
                pos_end: pos_end.copy(),
            },
            Node::RuleAccessNode { identifier, pos_start, pos_end } => Node::RuleAccessNode {
                identifier: identifier.clone(),
                pos_start: pos_start.copy(),
                pos_end: pos_end.copy(),
            },
            Node::RuleChainNode { chain, pos_start, pos_end } => {
                proof {
                    assert forall|i: int| 0 <= i < chain@.len() implies size(#[trigger] chain@[i])
                        < size(*self) by {
                        lemma_sizes_bound(chain@, i);
                    }
                }
                Node::RuleChainNode {
                    chain: copy_all(chain, Ghost(*self)),
                    pos_start: pos_start.copy(),
                    pos_end: pos_end.copy(),
                }
            },
        }
    }

    /// Whether the tree is a rule body as the parser builds it.
    pub fn is_body(&self) -> (r: bool)
        ensures
            r == wf_body(*self),
        decreases size(*self),
    {
        match self {
            Node::StrNode { .. } => true,
            Node::RuleAccessNode { .. } => true,
            Node::BinOpNode { left, op, right, .. } => *op == TokenTypes::Pipe && left.is_body()
                && right.is_body(),
            Node::PostFixNode { postfix, op, .. } => (*op == TokenTypes::QuestionMark || *op
                == TokenTypes::Asterisk || *op == TokenTypes::Plus) && postfix.is_body(),
            Node::RuleChainNode { chain, .. } => {
                if chain.len() == 0 {
                    return false;
                }
                let mut i: usize = 0;
                while i < chain.len()
                    invariant
                        i <= chain@.len(),
                        chain@.len() > 0,
                        wf_body(*self) == wf_bodies(chain@),
                        sizes(chain@) < size(*self),
                        forall|j: int| 0 <= j < i ==> #[trigger] wf_body(chain@[j]),
                    decreases chain@.len() - i,
                {
                    proof {
                        lemma_sizes_bound(chain@, i as int);
                    }
                    if !chain[i].is_body() {
                        proof {
                            if wf_bodies(chain@) {
                                lemma_wf_bodies(chain@, i as int);
                            }
                        }
                        return false;
                    }
                    i = i + 1;
                }
                proof {
                    lemma_wf_bodies_all(chain@);
                }
                true
            },
            _ => false,
        }
    }

    /// Whether the tree is a whole grammar as the parser builds it.
    pub fn is_grammar(&self) -> (r: bool)
        ensures
            r == wf_grammar(*self),
    {
        match self {
            Node::RulesNode { rules, .. } => {
                let mut i: usize = 0;
                while i < rules.len()
                    invariant
                        i <= rules@.len(),
                        wf_grammar(*self) == forall|j: int|
                            0 <= j < rules@.len() ==> #[trigger] is_definition(rules@[j]),
                        forall|j: int| 0 <= j < i ==> #[trigger] is_definition(rules@[j]),
                    decreases rules@.len() - i,
                {
                    let ok = match &rules[i] {
                        Node::RuleNode { lhs, .. } => lhs.is_body(),
                        _ => false,
                    };
                    if !ok {
                        assert(!is_definition(rules@[i as int]));
                        return false;
                    }
                    i = i + 1;
                }
                true
            },
            _ => false,
        }
    }
}

} // verus!
