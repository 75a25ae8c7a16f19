//! The tree builder: it turns the tokens of one statement into a tree.
//!
//! A pair of parentheses either marks the identifier before it as invoked,
//! with the tree of its content as a child, or stands for the tree of its
//! content. Operators take their neighbours as children, those of higher
//! rank first; a keyword takes the node that follows it.

use crate::lexer::{tokens_view, Token, TokenType, TokenView};
use crate::text::is_text;
use vstd::prelude::*;

verus! {

/// A node of the tree: a token, the nodes below it, and whether it is invoked.
#[derive(Debug)]
pub struct Node {
    pub token: Token,
    pub children: Vec<Node>,
    pub invoke: bool,
}

/// The mathematical content of a [`Node`].
#[verifier::ext_equal]
pub struct NodeView {
    pub token: TokenView,
    pub children: Seq<NodeView>,
    pub invoke: bool,
}

/// The mathematical content of a node and of all below it.
pub open spec fn node_view(node: Node) -> NodeView
    decreases node,
{
    NodeView {
        token: node.token@,
        children: Seq::new(
            node.children@.len(),
            |i: int|
                if 0 <= i < node.children@.len() {
                    node_view(node.children@[i])
                } else {
                    arbitrary()
                },
        ),
        invoke: node.invoke,
    }
}

impl View for Node {
    type V = NodeView;

    open spec fn view(&self) -> NodeView {
        node_view(*self)
    }
}

/// The content of a run of nodes.
pub open spec fn nodes_view(nodes: Seq<Node>) -> Seq<NodeView> {
    Seq::new(nodes.len(), |i: int| nodes[i]@)
}

/// A node's children are the views of its child nodes.
pub proof fn lemma_node_children(node: Node)
    ensures
        node@.children == nodes_view(node.children@),
        node@.token == node.token@,
        node@.invoke == node.invoke,
{
    assert(node@.children =~= nodes_view(node.children@));
}

impl Clone for Node {
    /// A copy with the same content.
    fn clone(&self) -> (r: Self)
        ensures
            r@ == self@,
        decreases self,
    {
        let mut children: Vec<Node> = Vec::new();
        let mut i: usize = 0;
        while i < self.children.len()
            invariant
                i <= self.children.len(),
                children@.len() == i,
                forall|k: int| 0 <= k < i ==> (#[trigger] children@[k])@ == self.children@[k]@,
            decreases self.children.len() - i,
        {
            children.push(self.children[i].clone());
            i = i + 1;
        }
        let r = Node { token: self.token.clone(), children, invoke: self.invoke };
        proof {
            lemma_node_children(r);
            lemma_node_children(*self);
            assert(nodes_view(r.children@) =~= nodes_view(self.children@));
        }
        r
    }
}

/// A run of spaces.
pub open spec fn spaces(amount: int) -> Seq<char> {
    Seq::new(
        if amount > 0 {
            amount as nat
        } else {
            0nat
        },
        |i: int| ' ',
    )
}

/// The depth of indentation one level further down.
pub open spec fn deeper(amount: i64) -> i64 {
    if amount < i64::MAX {
        (amount + 1) as i64
    } else {
        amount
    }
}

/// A tree written out, added to `text`: the text of each token on a line of
/// its own, indented by one space more than its parent, a node's children
/// below it in their order.
pub open spec fn outline(node: NodeView, amount: i64, text: Seq<char>) -> Seq<char>
    decreases node, 1nat,
{
    outline_children(
        node.children,
        0,
        deeper(amount),
        text + spaces(amount as int) + node.token.value + seq!['\n'],
    )
}

/// The children of a node from the `from`-th on, written out and added to
/// `text`.
pub open spec fn outline_children(
    children: Seq<NodeView>,
    from: int,
    amount: i64,
    text: Seq<char>,
) -> Seq<char>
    decreases children, children.len() - from,
{
    if from < 0 || from >= children.len() {
        text
    } else {
        outline_children(children, from + 1, amount, outline(children[from], amount, text))
    }
}

impl Node {
    /// Writes the tree out, with the root indented by `amount` spaces.
    pub fn print(&self, amount: i32) -> (text: String)
        ensures
            text@ == outline(self@, amount as i64, Seq::empty()),
    {
        let mut text = String::new();
        self.print_into(amount as i64, &mut text);
        text
    }

    /// Writes the tree out at the end of `text`.
    fn print_into(&self, amount: i64, text: &mut String)
        ensures
            final(text)@ == outline(self@, amount, old(text)@),
        decreases self,
    {
        proof {
            lemma_node_children(*self);
        }
        let mut i: i64 = 0;
        assert(text@ =~= old(text)@ + spaces(0));
        while i < amount
            invariant
                0 <= i,
                i <= amount || (amount < 0 && i == 0),
                text@ == old(text)@ + spaces(i as int),
            decreases amount - i,
        {
            crate::text::push_char(text, ' ');
            i = i + 1;
            assert(text@ =~= old(text)@ + spaces(i as int));
        }
        assert(text@ =~= old(text)@ + spaces(amount as int));
        text.append(self.token.value.as_str());
        crate::text::push_char(text, '\n');
        assert(text@ =~= old(text)@ + spaces(amount as int) + self@.token.value + seq!['\n']);
        let next = if amount < i64::MAX {
            amount + 1
        } else {
            amount
        };
        let mut k: usize = 0;
        while k < self.children.len()
            invariant
                k <= self.children.len(),
                self@.children == nodes_view(self.children@),
                outline_children(self@.children, k as int, next, text@) == outline(
                    self@,
                    amount,
                    old(text)@,
                ),
            decreases self.children.len() - k,
        {
            self.children[k].print_into(next, text);
            k = k + 1;
        }
    }
}

/// Why a run of tokens makes no tree.
#[derive(Clone, Copy, Debug, PartialEq, Eq, Structural)]
pub enum ParseError {
    /// There is no token to make a node of.
    Empty,
    /// An operator has no rank.
    UnknownOperator,
    /// An operator or a keyword lacks a neighbour to take as a child.
    MissingOperand,
}

/// The ranks of the operators, as a table.
pub open spec fn rank_table() -> Seq<(Seq<char>, i32)> {
    seq![
        ("="@, 0i32),
        ("+"@, 1i32),
        ("-"@, 2i32),
        ("*"@, 3i32),
        ("/"@, 4i32),
        (":"@, 5i32),
        ("and"@, 6i32),
        ("or"@, 7i32),
        ("xor"@, 8i32),
        ("!"@, 9i32),
        ("<"@, 10i32),
        ("<="@, 11i32),
        (">"@, 12i32),
        (">="@, 13i32),
        ("=="@, 14i32),
        ("!="@, 15i32),
        ("."@, 16i32),
    ]
}

/// Whether no two entries of a table are for the same operator.
pub open spec fn operators_once(table: Seq<(Seq<char>, i32)>) -> bool {
    forall|i: int, j: int|
        0 <= i < j < table.len() ==> (#[trigger] table[i]).0 != (#[trigger] table[j]).0
}

/// The table of ranks lists every operator once.
pub proof fn lemma_rank_table_distinct()
    ensures
        operators_once(rank_table()),
{
    reveal_strlit("=");
    reveal_strlit("+");
    reveal_strlit("-");
    reveal_strlit("*");
    reveal_strlit("/");
    reveal_strlit(":");
    reveal_strlit("and");
    reveal_strlit("or");
    reveal_strlit("xor");
    reveal_strlit("!");
    reveal_strlit("<");
    reveal_strlit("<=");
    reveal_strlit(">");
    reveal_strlit(">=");
    reveal_strlit("==");
    reveal_strlit("!=");
    reveal_strlit(".");
    let table = rank_table();
    assert(table[0].0.len() == 1 && table[0].0[0] == '=');
    assert(table[1].0.len() == 1 && table[1].0[0] == '+');
    assert(table[2].0.len() == 1 && table[2].0[0] == '-');
    assert(table[3].0.len() == 1 && table[3].0[0] == '*');
    assert(table[4].0.len() == 1 && table[4].0[0] == '/');
    assert(table[5].0.len() == 1 && table[5].0[0] == ':');
    assert(table[6].0.len() == 3 && table[6].0[0] == 'a');
    assert(table[7].0.len() == 2 && table[7].0[0] == 'o');
    assert(table[8].0.len() == 3 && table[8].0[0] == 'x');
    assert(table[9].0.len() == 1 && table[9].0[0] == '!');
    assert(table[10].0.len() == 1 && table[10].0[0] == '<');
    assert(table[11].0.len() == 2 && table[11].0[0] == '<');
    assert(table[12].0.len() == 1 && table[12].0[0] == '>');
    assert(table[13].0.len() == 2 && table[13].0[0] == '>');
    assert(table[14].0.len() == 2 && table[14].0[0] == '=');
    assert(table[15].0.len() == 2 && table[15].0[0] == '!');
    assert(table[16].0.len() == 1 && table[16].0[0] == '.');
}

/// The rank that a table gives an operator: that of its first entry for the
/// operator, at or after `from`.
pub open spec fn rank_in(table: Seq<(Seq<char>, i32)>, operator: Seq<char>, from: int) -> Option<
    i32,
>
    decreases table.len() - from,
{
    if from < 0 || from >= table.len() {
        None
    } else if table[from].0 == operator {
        Some(table[from].1)
    } else {
        rank_in(table, operator, from + 1)
    }
}

/// The tree builder, with the rank of each operator.
#[derive(Debug)]
pub struct Parser {
    operator_values: Vec<(String, i32)>,
}

impl View for Parser {
    type V = Seq<(Seq<char>, i32)>;

    closed spec fn view(&self) -> Seq<(Seq<char>, i32)> {
        Seq::new(
            self.operator_values@.len(),
            |i: int| (self.operator_values@[i].0@, self.operator_values@[i].1),
        )
    }
}

/// An operator met outside parentheses: its text, the index of its node, and
/// its rank.
struct Operator {
    value: String,
    index: usize,
    rank: i32,
}

/// The mathematical content of an operator met outside parentheses.
#[verifier::ext_equal]
pub struct OperatorView {
    pub value: Seq<char>,
    pub index: int,
    pub rank: i32,
}

/// The mathematical content of an operator met outside parentheses.
spec fn operator_view(operator: Operator) -> OperatorView {
    OperatorView {
        value: operator.value@,
        index: operator.index as int,
        rank: operator.rank,
    }
}

/// The content of a run of operators.
spec fn operators_view(operators: Seq<Operator>) -> Seq<OperatorView> {
    Seq::new(operators.len(), |i: int| operator_view(operators[i]))
}

/// What the first pass carries from token to token.
#[verifier::ext_equal]
pub struct Grouped {
    /// The nodes made so far.
    pub nodes: Seq<NodeView>,
    /// The operators among them.
    pub operators: Seq<OperatorView>,
    /// The tokens gathered inside the open parentheses.
    pub inside: Seq<TokenView>,
    /// How many parentheses are open.
    pub depth: int,
}

/// The state before the first token.
pub open spec fn group_start() -> Grouped {
    Grouped { nodes: Seq::empty(), operators: Seq::empty(), inside: Seq::empty(), depth: 0 }
}

/// A node without children.
pub open spec fn leaf(token: TokenView) -> NodeView {
    NodeView { token, children: Seq::empty(), invoke: false }
}

/// A node with one more child.
pub open spec fn with_child(node: NodeView, child: NodeView) -> NodeView {
    NodeView { children: node.children.push(child), ..node }
}

/// Whether the last node is an identifier, which a pair of parentheses
/// invokes.
pub open spec fn ends_in_identifier(nodes: Seq<NodeView>) -> bool {
    nodes.len() > 0 && nodes.last().token.token_type == TokenType::Identifier
}

/// The nodes after the outermost pair of parentheses closed around `inner`,
/// the tree of its content, if it had any.
pub open spec fn close_group(nodes: Seq<NodeView>, inner: Option<NodeView>) -> Seq<NodeView> {
    if ends_in_identifier(nodes) {
        let callee = nodes.last();
        nodes.update(
            nodes.len() - 1,
            NodeView {
                children: match inner {
                    Some(tree) => callee.children.push(tree),
                    None => callee.children,
                },
                invoke: true,
                ..callee
            },
        )
    } else {
        match inner {
            Some(tree) => nodes.push(tree),
            None => nodes,
        }
    }
}

/// The state of the first pass after one more token. `limit` is the number
/// of tokens of the whole run: what parentheses enclose is shorter.
pub open spec fn group_step(
    table: Seq<(Seq<char>, i32)>,
    limit: nat,
    state: Grouped,
    token: TokenView,
) -> Result<Grouped, ParseError>
    decreases limit, 0nat,
{
    if token.token_type == TokenType::ParenOpen && state.depth == 0 {
        Ok(Grouped { depth: 1, ..state })
    } else if token.token_type == TokenType::ParenClose && state.depth == 1 {
        if state.inside.len() == 0 {
            Ok(
                Grouped {
                    nodes: close_group(state.nodes, None),
                    inside: Seq::empty(),
                    depth: 0,
                    ..state
                },
            )
        } else if state.inside.len() >= limit {
            Err(ParseError::Empty)
        } else {
            match parse_spec(table, state.inside) {
                Err(e) => Err(e),
                Ok(tree) => Ok(
                    Grouped {
                        nodes: close_group(state.nodes, Some(tree)),
                        inside: Seq::empty(),
                        depth: 0,
                        ..state
                    },
                ),
            }
        }
    } else {
        let depth = if token.token_type == TokenType::ParenOpen {
            state.depth + 1
        } else if token.token_type == TokenType::ParenClose {
            state.depth - 1
        } else {
            state.depth
        };
        if depth != 0 {
            Ok(Grouped { inside: state.inside.push(token), depth, ..state })
        } else if token.token_type == TokenType::Operator {
            match rank_in(table, token.value, 0) {
                None => Err(ParseError::UnknownOperator),
                Some(rank) => Ok(
                    Grouped {
                        nodes: state.nodes.push(leaf(token)),
                        operators: state.operators.push(
                            OperatorView {
                                value: token.value,
                                index: state.nodes.len() as int,
                                rank,
                            },
                        ),
                        depth,
                        ..state
                    },
                ),
            }
        } else {
            Ok(Grouped { nodes: state.nodes.push(leaf(token)), depth, ..state })
        }
    }
}

/// The state of the first pass after the first `n` tokens.
pub open spec fn group(table: Seq<(Seq<char>, i32)>, tokens: Seq<TokenView>, n: int) -> Result<
    Grouped,
    ParseError,
>
    decreases tokens.len(), n,
{
    if n <= 0 || n > tokens.len() {
        Ok(group_start())
    } else {
        match group(table, tokens, n - 1) {
            Err(e) => Err(e),
            Ok(state) => group_step(table, tokens.len(), state, tokens[n - 1]),
        }
    }
}

/// A sorted run of operators with one more in its place: behind those of
/// its rank or a higher one, before the first of a lower rank.
pub open spec fn insert_by_rank(sorted: Seq<OperatorView>, operator: OperatorView, from: int) -> Seq<
    OperatorView,
>
    decreases sorted.len() - from,
{
    if from < 0 || from >= sorted.len() {
        sorted.push(operator)
    } else if sorted[from].rank < operator.rank {
        sorted.insert(from, operator)
    } else {
        insert_by_rank(sorted, operator, from + 1)
    }
}

/// The first `n` operators by falling rank; operators of one rank keep their
/// order.
pub open spec fn sort_by_rank(operators: Seq<OperatorView>, n: int) -> Seq<OperatorView>
    decreases n,
{
    if n <= 0 || n > operators.len() {
        Seq::empty()
    } else {
        insert_by_rank(sort_by_rank(operators, n - 1), operators[n - 1], 0)
    }
}

/// The operators after `by` nodes behind `index` left the run of nodes:
/// every index above `index` is lowered.
pub open spec fn shift(operators: Seq<OperatorView>, index: int, by: int) -> Seq<OperatorView> {
    Seq::new(
        operators.len(),
        |j: int|
            if operators[j].index > index {
                OperatorView { index: operators[j].index - by, ..operators[j] }
            } else {
                operators[j]
            },
    )
}

/// The nodes after the operators from the `k`-th on took their operands. `!`
/// takes the node behind it; every other operator takes the node before it
/// and the node behind it.
pub open spec fn combine(nodes: Seq<NodeView>, operators: Seq<OperatorView>, k: int) -> Result<
    Seq<NodeView>,
    ParseError,
>
    decreases operators.len() - k,
{
    if k < 0 || k >= operators.len() {
        Ok(nodes)
    } else {
        let index = operators[k].index;
        if operators[k].value == "!"@ {
            if 0 <= index && index + 1 < nodes.len() {
                combine(
                    nodes.update(index, with_child(nodes[index], nodes[index + 1])).remove(
                        index + 1,
                    ),
                    shift(operators, index, 1),
                    k + 1,
                )
            } else {
                Err(ParseError::MissingOperand)
            }
        } else {
            if 1 <= index && index + 1 < nodes.len() {
                combine(
                    nodes.update(
                        index,
                        with_child(with_child(nodes[index], nodes[index - 1]), nodes[index + 1]),
                    ).remove(index + 1).remove(index - 1),
                    shift(operators, index, 2),
                    k + 1,
                )
            } else {
                Err(ParseError::MissingOperand)
            }
        }
    }
}

/// The nodes after the keywords took their operands. The nodes are visited
/// from the last one down; a keyword takes the node behind it, and the visit
/// then passes over the node before the keyword. `limit` is the number of
/// nodes at the start, which bounds the visits.
pub open spec fn absorb(nodes: Seq<NodeView>, visit: int, limit: int) -> Result<
    Seq<NodeView>,
    ParseError,
>
    decreases limit - visit,
{
    if visit < 0 || visit >= limit || visit > nodes.len() - 1 {
        Ok(nodes)
    } else {
        let at = nodes.len() - 1 - visit;
        if nodes[at].token.token_type == TokenType::Keyword {
            if at + 1 < nodes.len() {
                absorb(
                    nodes.update(at, with_child(nodes[at], nodes[at + 1])).remove(at + 1),
                    visit + 1,
                    limit,
                )
            } else {
                Err(ParseError::MissingOperand)
            }
        } else {
            absorb(nodes, visit + 1, limit)
        }
    }
}

/// The tree of the nodes and operators that the first pass made: the
/// operators take their operands by falling rank, then the keywords take
/// theirs, and the first node that is left is the tree.
pub open spec fn finish(nodes: Seq<NodeView>, operators: Seq<OperatorView>) -> Result<
    NodeView,
    ParseError,
> {
    match combine(nodes, sort_by_rank(operators, operators.len() as int), 0) {
        Err(e) => Err(e),
        Ok(combined) => match absorb(combined, 0, combined.len() as int) {
            Err(e) => Err(e),
            Ok(rest) => if rest.len() == 0 {
                Err(ParseError::Empty)
            } else {
                Ok(rest[0])
            },
        },
    }
}

/// The tree that a run of tokens makes under a table of operator ranks, or
/// the reason why it makes none.
pub open spec fn parse_spec(table: Seq<(Seq<char>, i32)>, tokens: Seq<TokenView>) -> Result<
    NodeView,
    ParseError,
>
    decreases tokens.len(), tokens.len() + 1,
{
    match group(table, tokens, tokens.len() as int) {
        Err(e) => Err(e),
        Ok(state) => finish(state.nodes, state.operators),
    }
}

/// Once the first pass has failed, it stays failed.
pub proof fn lemma_group_error(
    table: Seq<(Seq<char>, i32)>,
    tokens: Seq<TokenView>,
    n: int,
    m: int,
)
    requires
        0 <= n <= m <= tokens.len(),
        group(table, tokens, n) is Err,
    ensures
        group(table, tokens, m) == group(table, tokens, n),
    decreases m - n,
{
    if n < m {
        lemma_group_error(table, tokens, n, m - 1);
    }
}

/// The view of a run of nodes follows a push.
pub proof fn lemma_nodes_view_push(nodes: Seq<Node>, node: Node)
    ensures
        nodes_view(nodes.push(node)) == nodes_view(nodes).push(node@),
{
    assert(nodes_view(nodes.push(node)) =~= nodes_view(nodes).push(node@));
}

/// The view of a run of nodes follows a removal.
pub proof fn lemma_nodes_view_remove(nodes: Seq<Node>, index: int)
    requires
        0 <= index < nodes.len(),
    ensures
        nodes_view(nodes.remove(index)) == nodes_view(nodes).remove(index),
{
    assert(nodes_view(nodes.remove(index)) =~= nodes_view(nodes).remove(index));
}

/// Makes a node without children.
fn make_leaf(token: Token) -> (node: Node)
    ensures
        node@ == leaf(token@),
{
    let node = Node { token, children: Vec::new(), invoke: false };
    proof {
        lemma_node_children(node);
        assert(node@.children =~= Seq::<NodeView>::empty());
    }
    node
}

/// Gives the node at `index` one more child.
fn adopt(nodes: &mut Vec<Node>, index: usize, child: Node)
    requires
        index < old(nodes).len(),
    ensures
        final(nodes)@.len() == old(nodes)@.len(),
        nodes_view(final(nodes)@) == nodes_view(old(nodes)@).update(
            index as int,
            with_child(nodes_view(old(nodes)@)[index as int], child@),
        ),
{
    proof {
        lemma_node_children(nodes@[index as int]);
    }
    let ghost before = nodes@[index as int].children@;
    nodes[index].children.push(child);
    proof {
        lemma_node_children(nodes@[index as int]);
        lemma_nodes_view_push(before, child);
        assert(nodes@[index as int]@ =~= with_child(
            nodes_view(old(nodes)@)[index as int],
            child@,
        ));
        assert(nodes_view(nodes@) =~= nodes_view(old(nodes)@).update(
            index as int,
            with_child(nodes_view(old(nodes)@)[index as int], child@),
        ));
    }
}

/// Takes the node at `index` out of the run.
fn take_node(nodes: &mut Vec<Node>, index: usize) -> (node: Node)
    requires
        index < old(nodes).len(),
    ensures
        final(nodes)@.len() == old(nodes)@.len() - 1,
        node@ == nodes_view(old(nodes)@)[index as int],
        nodes_view(final(nodes)@) == nodes_view(old(nodes)@).remove(index as int),
{
    proof {
        lemma_nodes_view_remove(nodes@, index as int);
    }
    nodes.remove(index)
}

/// Sorts the operators by falling rank; those of one rank keep their order.
fn sort_operators(operators: &Vec<Operator>) -> (sorted: Vec<Operator>)
    ensures
        operators_view(sorted@) == sort_by_rank(
            operators_view(operators@),
            operators@.len() as int,
        ),
{
    let ghost all = operators_view(operators@);
    let mut sorted: Vec<Operator> = Vec::new();
    let mut taken: usize = 0;
    assert(operators_view(sorted@) =~= sort_by_rank(all, 0));
    while taken < operators.len()
        invariant
            taken <= operators.len(),
            all == operators_view(operators@),
            operators_view(sorted@) == sort_by_rank(all, taken as int),
        decreases operators.len() - taken,
    {
        let operator = Operator {
            value: operators[taken].value.clone(),
            index: operators[taken].index,
            rank: operators[taken].rank,
        };
        assert(operator_view(operator) == all[taken as int]);
        let ghost base = operators_view(sorted@);
        let mut at: usize = 0;
        while at < sorted.len() && sorted[at].rank >= operator.rank
            invariant
                at <= sorted.len(),
                base == operators_view(sorted@),
                insert_by_rank(base, operator_view(operator), at as int) == insert_by_rank(
                    base,
                    operator_view(operator),
                    0,
                ),
            decreases sorted.len() - at,
        {
            at = at + 1;
        }
        sorted.insert(at, operator);
        assert(operators_view(sorted@) =~= insert_by_rank(base, operator_view(operator), 0)) by {
            if at as int >= base.len() {
                assert(operators_view(sorted@) =~= base.push(operator_view(operator)));
            } else {
                assert(operators_view(sorted@) =~= base.insert(at as int, operator_view(operator)));
            }
        }
        taken = taken + 1;
    }
    sorted
}

/// Lowers every index above `index` by `by`.
fn shift_operators(operators: &mut Vec<Operator>, index: usize, by: usize)
    requires
        by <= index + 1,
    ensures
        operators_view(final(operators)@) == shift(
            operators_view(old(operators)@),
            index as int,
            by as int,
        ),
{
    let mut j: usize = 0;
    while j < operators.len()
        invariant
            j <= operators.len(),
            operators@.len() == old(operators)@.len(),
            by <= index + 1,
            forall|k: int|
                0 <= k < j ==> operator_view(#[trigger] operators@[k]) == shift(
                    operators_view(old(operators)@),
                    index as int,
                    by as int,
                )[k],
            forall|k: int| j <= k < operators@.len() ==> operators@[k] == old(operators)@[k],
        decreases operators.len() - j,
    {
        if operators[j].index > index {
            let lowered = operators[j].index - by;
            operators[j].index = lowered;
        }
        j = j + 1;
    }
    assert(operators_view(operators@) =~= shift(
        operators_view(old(operators)@),
        index as int,
        by as int,
    ));
}

/// Lets the operators take their operands, in the order given.
fn combine_nodes(nodes: &mut Vec<Node>, operators: Vec<Operator>) -> (r: Result<(), ParseError>)
    ensures
        match combine(nodes_view(old(nodes)@), operators_view(operators@), 0) {
            Ok(combined) => r is Ok && nodes_view(final(nodes)@) == combined,
            Err(e) => r == Err::<(), ParseError>(e),
        },
{
    let mut list = operators;
    let mut k: usize = 0;
    while k < list.len()
        invariant
            k <= list.len(),
            combine(nodes_view(nodes@), operators_view(list@), k as int) == combine(
                nodes_view(old(nodes)@),
                operators_view(operators@),
                0,
            ),
        decreases list.len() - k,
    {
        let index = list[k].index;
        let n = nodes.len();
        let ghost before = nodes_view(nodes@);
        let ghost listed = operators_view(list@);
        assert(listed[k as int].index == index);
        assert(listed[k as int].value == list@[k as int].value@);
        assert(before.len() == n);
        if is_text(&list[k].value, "!") {
            if n < 2 || index > n - 2 {
                return Err(ParseError::MissingOperand);
            }
            let right = take_node(nodes, index + 1);
            let ghost cut = nodes_view(nodes@);
            assert(cut[index as int] == before[index as int]);
            adopt(nodes, index, right);
            shift_operators(&mut list, index, 1);
            assert(nodes_view(nodes@) =~= before.update(
                index as int,
                with_child(before[index as int], before[index + 1]),
            ).remove(index + 1));
        } else {
            if n < 2 || index < 1 || index > n - 2 {
                return Err(ParseError::MissingOperand);
            }
            let right = take_node(nodes, index + 1);
            let ghost cut = nodes_view(nodes@);
            assert(cut[index - 1] == before[index - 1]);
            assert(cut[index as int] == before[index as int]);
            let left = take_node(nodes, index - 1);
            let ghost short = nodes_view(nodes@);
            assert(short[index - 1] == before[index as int]);
            adopt(nodes, index - 1, left);
            adopt(nodes, index - 1, right);
            shift_operators(&mut list, index, 2);
            assert(nodes_view(nodes@) =~= before.update(
                index as int,
                with_child(with_child(before[index as int], before[index - 1]), before[index + 1]),
            ).remove(index + 1).remove(index - 1));
        }
        k = k + 1;
    }
    Ok(())
}

/// Lets the keywords take their operands.
fn absorb_nodes(nodes: &mut Vec<Node>) -> (r: Result<(), ParseError>)
    ensures
        match absorb(nodes_view(old(nodes)@), 0, old(nodes)@.len() as int) {
            Ok(rest) => r is Ok && nodes_view(final(nodes)@) == rest,
            Err(e) => r == Err::<(), ParseError>(e),
        },
{
    let limit = nodes.len();
    let mut visit: usize = 0;
    while visit < limit && nodes.len() >= 1 && visit <= nodes.len() - 1
        invariant
            visit <= limit,
            absorb(nodes_view(nodes@), visit as int, limit as int) == absorb(
                nodes_view(old(nodes)@),
                0,
                old(nodes)@.len() as int,
            ),
        decreases limit - visit,
    {
        let at = nodes.len() - 1 - visit;
        let ghost before = nodes_view(nodes@);
        proof {
            lemma_node_children(nodes@[at as int]);
            assert(before[at as int] == nodes@[at as int]@);
        }
        match nodes[at].token.token_type {
            TokenType::Keyword => {
                if at + 1 >= nodes.len() {
                    return Err(ParseError::MissingOperand);
                }
                let next = take_node(nodes, at + 1);
                let ghost cut = nodes_view(nodes@);
                assert(cut[at as int] == before[at as int]);
                adopt(nodes, at, next);
                assert(nodes_view(nodes@) =~= before.update(
                    at as int,
                    with_child(before[at as int], before[at + 1]),
                ).remove(at + 1));
            },
            _ => {},
        }
        visit = visit + 1;
    }
    Ok(())
}

/// Marks the last node as invoked and gives it the tree as a child, or adds
/// the tree as a node: see [`close_group`].
fn close_nodes(nodes: &mut Vec<Node>, inner: Option<Node>)
    ensures
        nodes_view(final(nodes)@) == close_group(
            nodes_view(old(nodes)@),
            match inner {
                Some(tree) => Some(tree@),
                None => None,
            },
        ),
{
    let n = nodes.len();
    let ghost before = nodes_view(nodes@);
    let callee = if n > 0 {
        proof {
            lemma_node_children(nodes@[n - 1]);
        }
        match nodes[n - 1].token.token_type {
            TokenType::Identifier => true,
            _ => false,
        }
    } else {
        false
    };
    assert(callee == ends_in_identifier(before)) by {
        if n > 0 {
            assert(before.last() == nodes@[n - 1]@);
        }
    }
    if callee {
        match inner {
            Some(tree) => {
                adopt(nodes, n - 1, tree);
            },
            None => {},
        }
        let ghost grown = nodes_view(nodes@);
        proof {
            lemma_node_children(nodes@[n - 1]);
            assert(grown[n - 1] == nodes@[n - 1]@);
        }
        nodes[n - 1].invoke = true;
        proof {
            lemma_node_children(nodes@[n - 1]);
            assert(nodes@[n - 1]@ =~= (NodeView { invoke: true, ..grown[n - 1] }));
            assert(nodes_view(nodes@) =~= grown.update(
                n - 1,
                NodeView { invoke: true, ..grown[n - 1] },
            ));
            assert(nodes_view(nodes@) =~= close_group(
                before,
                match inner {
                    Some(tree) => Some(tree@),
                    None => None,
                },
            ));
        }
    } else {
        match inner {
            Some(tree) => {
                proof {
                    lemma_nodes_view_push(nodes@, tree);
                }
                nodes.push(tree);
            },
            None => {},
        }
    }
}

impl Parser {
    /// The tree builder with the ranks of the language's operators.
    pub fn new() -> (r: Parser)
        ensures
            r@ == rank_table(),
            operators_once(r@),
    {
        proof {
            lemma_rank_table_distinct();
        }
        let mut operator: Vec<(String, i32)> = Vec::new();
        // Arithmetical operators
        operator.push((String::from_str("="), 0));
        operator.push((String::from_str("+"), 1));
        operator.push((String::from_str("-"), 2));
        operator.push((String::from_str("*"), 3));
        operator.push((String::from_str("/"), 4));
        operator.push((String::from_str(":"), 5));
        // Logical operators
        operator.push((String::from_str("and"), 6));
        operator.push((String::from_str("or"), 7));
        operator.push((String::from_str("xor"), 8));
        operator.push((String::from_str("!"), 9));
        // Comparison operators
        operator.push((String::from_str("<"), 10));
        operator.push((String::from_str("<="), 11));
        operator.push((String::from_str(">"), 12));
        operator.push((String::from_str(">="), 13));
        operator.push((String::from_str("=="), 14));
        operator.push((String::from_str("!="), 15));
        operator.push((String::from_str("."), 16));
        let r = Parser { operator_values: operator };
        assert(r@ =~= rank_table());
        r
    }

    /// The rank of an operator, or `None` where it has none.
    pub fn rank(&self, operator: &String) -> (r: Option<i32>)
        ensures
            r == rank_in(self@, operator@, 0),
    {
        let mut i: usize = 0;
        while i < self.operator_values.len()
            invariant
                i <= self.operator_values.len(),
                rank_in(self@, operator@, i as int) == rank_in(self@, operator@, 0),
            decreases self.operator_values.len() - i,
        {
            if self.operator_values[i].0 == *operator {
                return Some(self.operator_values[i].1);
            }
            i = i + 1;
        }
        None
    }

    /// The first pass: groups the tokens into nodes and lists the operators
    /// among them.
    fn group_tokens(&self, tokens: &Vec<Token>) -> (r: Result<(Vec<Node>, Vec<Operator>), ParseError>)
        ensures
            match group(self@, tokens_view(tokens@), tokens@.len() as int) {
                Ok(state) => r is Ok && nodes_view(r->Ok_0.0@) == state.nodes && operators_view(
                    r->Ok_0.1@,
                ) == state.operators,
                Err(e) => r == Err::<(Vec<Node>, Vec<Operator>), ParseError>(e),
            },
        decreases tokens@.len(), 0nat,
    {
        let mut nodes: Vec<Node> = Vec::new();
        let mut operators: Vec<Operator> = Vec::new();
        let mut inside: Vec<Token> = Vec::new();
        let mut depth: i128 = 0;
        let mut i: usize = 0;
        let ghost all = tokens_view(tokens@);
        assert(nodes_view(nodes@) =~= Seq::<NodeView>::empty());
        assert(operators_view(operators@) =~= Seq::<OperatorView>::empty());
        assert(tokens_view(inside@) =~= Seq::<TokenView>::empty());
        while i < tokens.len()
            invariant
                i <= tokens.len(),
                all == tokens_view(tokens@),
                inside@.len() <= i,
                -(i as int) <= depth <= i,
                group(self@, all, i as int) == Ok::<Grouped, ParseError>(
                    Grouped {
                        nodes: nodes_view(nodes@),
                        operators: operators_view(operators@),
                        inside: tokens_view(inside@),
                        depth: depth as int,
                    },
                ),
            decreases tokens.len() - i,
        {
            let token = tokens[i].clone();
            let ghost state = group(self@, all, i as int)->Ok_0;
            assert(group(self@, all, i + 1) == group_step(self@, all.len(), state, all[i as int]));
            assert(token@ == all[i as int]);
            let opens = match token.token_type {
                TokenType::ParenOpen => true,
                _ => false,
            };
            let closes = match token.token_type {
                TokenType::ParenClose => true,
                _ => false,
            };
            if opens && depth == 0 {
                depth = 1;
            } else if closes && depth == 1 {
                if inside.len() == 0 {
                    close_nodes(&mut nodes, None);
                } else {
                    let tree = match self.parse_tokens(inside) {
                        Ok(tree) => tree,
                        Err(e) => {
                            proof {
                                lemma_group_error(self@, all, i + 1, all.len() as int);
                            }
                            return Err(e);
                        },
                    };
                    close_nodes(&mut nodes, Some(tree));
                }
                inside = Vec::new();
                assert(tokens_view(inside@) =~= Seq::<TokenView>::empty());
                depth = 0;
            } else {
                if opens {
                    depth = depth + 1;
                } else if closes {
                    depth = depth - 1;
                }
                if depth != 0 {
                    proof {
                        crate::lexer::lemma_tokens_view_push(inside@, token);
                    }
                    inside.push(token);
                } else {
                    let is_operator = match token.token_type {
                        TokenType::Operator => true,
                        _ => false,
                    };
                    if is_operator {
                        let rank = match self.rank(&token.value) {
                            Some(rank) => rank,
                            None => {
                                proof {
                                    lemma_group_error(self@, all, i + 1, all.len() as int);
                                }
                                return Err(ParseError::UnknownOperator);
                            },
                        };
                        let operator = Operator {
                            value: token.value.clone(),
                            index: nodes.len(),
                            rank,
                        };
                        let ghost listed = operators_view(operators@);
                        operators.push(operator);
                        assert(operators_view(operators@) =~= listed.push(operator_view(operator)));
                    }
                    let node = make_leaf(token);
                    proof {
                        lemma_nodes_view_push(nodes@, node);
                    }
                    nodes.push(node);
                }
            }
            i = i + 1;
        }
        Ok((nodes, operators))
    }

    /// Builds the tree of the tokens of one statement.
    pub fn parse_tokens(&self, tokens: Vec<Token>) -> (r: Result<Node, ParseError>)
        ensures
            match parse_spec(self@, tokens_view(tokens@)) {
                Ok(tree) => r is Ok && r->Ok_0@ == tree,
                Err(e) => r == Err::<Node, ParseError>(e),
            },
        decreases tokens@.len(), 1nat,
    {
        let (nodes, operators) = match self.group_tokens(&tokens) {
            Ok(pair) => pair,
            Err(e) => {
                return Err(e);
            },
        };
        let mut nodes = nodes;
        let sorted = sort_operators(&operators);
        match combine_nodes(&mut nodes, sorted) {
            Ok(()) => {},
            Err(e) => {
                return Err(e);
            },
        }
        match absorb_nodes(&mut nodes) {
            Ok(()) => {},
            Err(e) => {
                return Err(e);
            },
        }
        if nodes.len() == 0 {
            return Err(ParseError::Empty);
        }
        Ok(take_node(&mut nodes, 0))
    }
}

} // verus!
