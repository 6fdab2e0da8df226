//! The dialogue tree, the action produced by one evaluation step, and
//! their mathematical models.

use vstd::prelude::*;

verus! {

/// A dialogue program: a single utterance, an ordered sequence of
/// sub-programs, or the terminal marker meaning nothing is left to do.
#[derive(Debug, PartialEq)]
pub enum ASTNode {
    Line { name: String, message: String },
    Dialogue(Vec<ASTNode>),
    Noop,
}

/// The observable outcome of one evaluation step: an utterance to
/// surface, or silence when the step only did internal bookkeeping.
pub enum Action {
    Print(String),
    Noop,
}

/// Model of an [`ASTNode`]: the same tree, over sequences of characters
/// instead of heap-allocated strings and vectors.
pub enum NodeModel {
    Line { name: Seq<char>, message: Seq<char> },
    Dialogue(Seq<NodeModel>),
    Noop,
}

/// Model of an [`Action`].
pub enum ActionModel {
    Print(Seq<char>),
    Noop,
}

/// The text emitted when a `Line { name, message }` is played.
pub open spec fn line_text(name: Seq<char>, message: Seq<char>) -> Seq<char> {
    name + (" says ")@ + message
}

/// The model of a node.
pub open spec fn node_view(n: ASTNode) -> NodeModel
    decreases n, 0int,
{
    match n {
        ASTNode::Line { name, message } => NodeModel::Line { name: name@, message: message@ },
        ASTNode::Dialogue(items) => NodeModel::Dialogue(seq_view(items@)),
        ASTNode::Noop => NodeModel::Noop,
    }
}

/// The models of a sequence of nodes, element by element.
pub open spec fn seq_view(s: Seq<ASTNode>) -> Seq<NodeModel>
    decreases s, 1int,
{
    if s.len() == 0 {
        Seq::empty()
    } else {
        seq![node_view(s[0])] + seq_view(s.drop_first())
    }
}

/// `seq_view` maps `node_view` over the sequence, element by element.
pub broadcast proof fn lemma_seq_view(s: Seq<ASTNode>)
    ensures
        (#[trigger] seq_view(s)).len() == s.len(),
        forall|i: int| 0 <= i < s.len() ==> seq_view(s)[i] == node_view(s[i]),
    decreases s.len(),
{
    if s.len() > 0 {
        lemma_seq_view(s.drop_first());
    }
}

impl View for ASTNode {
    type V = NodeModel;

    open spec fn view(&self) -> NodeModel {
        node_view(*self)
    }
}

impl View for Action {
    type V = ActionModel;

    open spec fn view(&self) -> ActionModel {
        match self {
            Action::Print(text) => ActionModel::Print(text@),
            Action::Noop => ActionModel::Noop,
        }
    }
}

/// How far a tree is from the terminal `Noop`: every evaluation step
/// strictly shrinks this measure, so playback always terminates.
pub open spec fn tree_size(t: NodeModel) -> nat
    decreases t, 0int,
{
    match t {
        NodeModel::Line { name: _, message: _ } => 1,
        NodeModel::Dialogue(items) => 1 + items_size(items),
        NodeModel::Noop => 0,
    }
}

/// The summed sizes of a sequence of trees.
pub open spec fn items_size(items: Seq<NodeModel>) -> nat
    decreases items, 1int,
{
    if items.len() == 0 {
        0
    } else {
        tree_size(items[0]) + items_size(items.drop_first())
    }
}

/// Every utterance a tree will emit, in playback order.
pub open spec fn emits(t: NodeModel) -> Seq<Seq<char>>
    decreases t, 0int,
{
    match t {
        NodeModel::Line { name, message } => seq![line_text(name, message)],
        NodeModel::Dialogue(items) => items_emits(items),
        NodeModel::Noop => Seq::empty(),
    }
}

/// The concatenated emissions of a sequence of trees, in order.
pub open spec fn items_emits(items: Seq<NodeModel>) -> Seq<Seq<char>>
    decreases items, 1int,
{
    if items.len() == 0 {
        Seq::empty()
    } else {
        emits(items[0]) + items_emits(items.drop_first())
    }
}

/// Only the terminal `Noop` has size zero.
pub proof fn lemma_size_zero_is_noop(t: NodeModel)
    ensures
        tree_size(t) == 0 <==> t is Noop,
{
}

impl ASTNode {
    /// Whether this node is the terminal `Noop`: a driver checks this
    /// before each evaluation step.
    pub fn is_noop(&self) -> (b: bool)
        ensures
            b == (self@ is Noop),
    {
        match self {
            ASTNode::Noop => true,
            _ => false,
        }
    }
}

} // verus!
