//! General laws of the library, stated and proved once for every input.

use vstd::prelude::*;

use crate::ast::NodeModel;
use crate::ast::emits;
use crate::ast::items_emits;
use crate::ast::items_size;
use crate::ast::tree_size;
use crate::parser::line_node;
use crate::parser::parse_model;
use crate::parser::split_lines;

verus! {

/// Wrapping a tree in an extra `Dialogue` layer changes neither the
/// utterances it emits nor their order: nesting depth is unobservable
/// during playback.
pub proof fn lemma_nesting_unobservable(t: NodeModel)
    ensures
        emits(NodeModel::Dialogue(seq![t])) == emits(t),
{
    assert(seq![t].drop_first() =~= Seq::<NodeModel>::empty());
    assert(seq![t][0] == t);
    assert(items_emits(seq![t]) == emits(t) + items_emits(Seq::<NodeModel>::empty()));
    assert(emits(t) + Seq::<Seq<char>>::empty() =~= emits(t));
}

/// A `Noop` child inserted anywhere in a `Dialogue` is transparent: the
/// emitted utterances are identical with and without it.
pub proof fn lemma_noop_child_unobservable(items: Seq<NodeModel>, i: int)
    requires
        0 <= i <= items.len(),
    ensures
        emits(NodeModel::Dialogue(items.insert(i, NodeModel::Noop))) == emits(
            NodeModel::Dialogue(items),
        ),
{
    lemma_items_noop_insert(items, i);
}

/// The `items_emits` form of [`lemma_noop_child_unobservable`].
proof fn lemma_items_noop_insert(items: Seq<NodeModel>, i: int)
    requires
        0 <= i <= items.len(),
    ensures
        items_emits(items.insert(i, NodeModel::Noop)) == items_emits(items),
    decreases i,
{
    let ins = items.insert(i, NodeModel::Noop);
    if i == 0 {
        assert(ins[0] is Noop);
        assert(ins.drop_first() =~= items);
        assert(emits(ins[0]) =~= Seq::<Seq<char>>::empty());
        assert(Seq::<Seq<char>>::empty() + items_emits(items) =~= items_emits(items));
    } else {
        lemma_items_noop_insert(items.drop_first(), i - 1);
        assert(ins[0] == items[0]);
        assert(ins.drop_first() =~= items.drop_first().insert(i - 1, NodeModel::Noop));
    }
}

/// A parsed script is a flat tree whose size is one more than its
/// number of lines; since every evaluation step strictly shrinks
/// `tree_size`, playback of a parsed script reaches `Noop` in at most
/// one step more than the script has lines.
pub proof fn lemma_parse_size(s: Seq<char>)
    ensures
        s.len() == 0 ==> tree_size(parse_model(s)) == 1,
        s.len() > 0 ==> tree_size(parse_model(s)) == 1 + split_lines(s).len(),
{
    if s.len() > 0 {
        lemma_all_lines_size(split_lines(s).map_values(|seg: Seq<char>| line_node(seg)));
    }
}

/// A sequence of `Line` nodes has summed size equal to its length.
proof fn lemma_all_lines_size(items: Seq<NodeModel>)
    requires
        forall|i: int| 0 <= i < items.len() ==> items[i] is Line,
    ensures
        items_size(items) == items.len(),
    decreases items.len(),
{
    if items.len() > 0 {
        lemma_all_lines_size(items.drop_first());
        assert(tree_size(items[0]) == 1);
    }
}

} // verus!
