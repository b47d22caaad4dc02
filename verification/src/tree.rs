//! The typed parse tree that the recognizer produces and the AST builder
//! consumes. Each node carries a rule tag, its ordered children, and —
//! for the rules whose text the builder reads: numbers, operators,
//! comments and the group modifier — the text it matched.

use vstd::prelude::*;

verus! {

/// The closed vocabulary of grammar rules that can tag a parse-tree node.
#[derive(Clone, Copy, Debug, PartialEq, Eq, Structural)]
pub enum RuleTag {
    Main,
    InstructionList,
    Instruction,
    VarRef,
    DiceExpr,
    DiceTerm,
    DiceRoll,
    ParenExpr,
    Number,
    Op,
    Comment,
    ModifierList,
    Modifier,
    Explode,
    ExplodeAlias,
    ExplodeKeepHigh,
    Reroll,
    RerollOnce,
    RerollUntil,
    RerollAdd,
    KeepAlias,
    KeepHigh,
    KeepLow,
    DropHigh,
    DropLow,
    Unique,
    Sort,
    Count,
    Merge,
    Group,
}

/// One node of the typed parse tree.
#[derive(Debug, PartialEq)]
pub struct ParseNode {
    pub tag: RuleTag,
    pub text: String,
    pub children: Vec<ParseNode>,
}

/// Deep (mathematical) view of a parse-tree node.
pub ghost struct NodeV {
    pub tag: RuleTag,
    pub text: Seq<char>,
    pub children: Seq<NodeV>,
}

/// Deep view of a `ParseNode`.
pub open spec fn node_view(n: ParseNode) -> NodeV
    decreases n,
{
    NodeV { tag: n.tag, text: n.text@, children: nodes_view(n.children@) }
}

/// Deep view of a sequence of parse-tree nodes, element by element.
pub open spec fn nodes_view(ns: Seq<ParseNode>) -> Seq<NodeV>
    decreases ns,
{
    if ns.len() == 0 {
        Seq::empty()
    } else {
        seq![node_view(ns[0])] + nodes_view(ns.drop_first())
    }
}

impl View for ParseNode {
    type V = NodeV;

    open spec fn view(&self) -> NodeV {
        node_view(*self)
    }
}

/// `nodes_view` maps the sequence pointwise.
pub proof fn lemma_nodes_view(ns: Seq<ParseNode>)
    ensures
        nodes_view(ns).len() == ns.len(),
        forall|i: int| 0 <= i < ns.len() ==> nodes_view(ns)[i] == node_view(#[trigger] ns[i]),
    decreases ns,
{
    if ns.len() > 0 {
        lemma_nodes_view(ns.drop_first());
        assert forall|i: int| 0 <= i < ns.len() implies nodes_view(ns)[i] == node_view(
            #[trigger] ns[i],
        ) by {
            if i > 0 {
                assert(ns.drop_first()[i - 1] == ns[i]);
                assert(nodes_view(ns)[i] == nodes_view(ns.drop_first())[i - 1]);
            }
        }
    }
}

impl ParseNode {
    /// Builds a leaf node with no children.
    pub fn leaf(tag: RuleTag, text: String) -> (r: ParseNode)
        ensures
            r@ == (NodeV { tag, text: text@, children: Seq::<NodeV>::empty() }),
    {
        let n = ParseNode { tag, text, children: Vec::new() };
        proof {
            assert(n@.children =~= Seq::<NodeV>::empty());
        }
        n
    }
}

} // verus!
