//! The single-step evaluator: each call performs one unit of observable
//! work and returns the action produced together with the residual
//! program.

use vstd::prelude::*;
use vstd::pervasive::unreached;
use vstd::string::StringExecFns;

use crate::ast::ASTNode;
use crate::ast::Action;
use crate::ast::ActionModel;
use crate::ast::NodeModel;
use crate::ast::emits;
use crate::ast::items_emits;
use crate::ast::items_size;
use crate::ast::lemma_seq_view;
use crate::ast::line_text;
use crate::ast::seq_view;
use crate::ast::tree_size;

verus! {

broadcast use lemma_seq_view;

/// The utterances one action surfaces: one for `Print`, none for `Noop`.
pub open spec fn act_emits(a: ActionModel) -> Seq<Seq<char>> {
    match a {
        ActionModel::Print(text) => seq![text],
        ActionModel::Noop => Seq::empty(),
    }
}

/// What one evaluation step does to a non-terminal tree: a `Line` emits
/// its text and is consumed; a `Dialogue` steps its first non-`Noop`
/// child in place, dropping the `Noop` children before it; an exhausted
/// `Dialogue` degrades silently to `Noop`.
pub open spec fn spec_advance(t: NodeModel) -> (ActionModel, NodeModel)
    recommends
        !(t is Noop),
    decreases t, 0int,
{
    match t {
        NodeModel::Line { name, message } => (
            ActionModel::Print(line_text(name, message)),
            NodeModel::Noop,
        ),
        NodeModel::Dialogue(items) => spec_advance_items(items),
        NodeModel::Noop => (ActionModel::Noop, NodeModel::Noop),
    }
}

/// One evaluation step of `Dialogue(items)`.
pub open spec fn spec_advance_items(items: Seq<NodeModel>) -> (ActionModel, NodeModel)
    decreases items, 1int,
{
    if items.len() == 0 {
        (ActionModel::Noop, NodeModel::Noop)
    } else if items[0] is Noop {
        spec_advance_items(items.drop_first())
    } else {
        let stepped = spec_advance(items[0]);
        (stepped.0, NodeModel::Dialogue(items.update(0, stepped.1)))
    }
}

/// One step is sound: the utterances of the old tree are exactly those
/// the step surfaces followed by those of the residual, and the residual
/// is strictly smaller, so repeated stepping reaches `Noop` within
/// `tree_size` steps.
pub proof fn lemma_advance_sound(t: NodeModel)
    requires
        !(t is Noop),
    ensures
        emits(t) == act_emits(spec_advance(t).0) + emits(spec_advance(t).1),
        tree_size(spec_advance(t).1) < tree_size(t),
    decreases t, 0int,
{
    match t {
        NodeModel::Line { name, message } => {
            assert(emits(t) =~= act_emits(spec_advance(t).0) + emits(spec_advance(t).1));
        },
        NodeModel::Dialogue(items) => {
            lemma_advance_items_sound(items);
        },
        NodeModel::Noop => {},
    }
}

/// The `Dialogue` case of `lemma_advance_sound`.
pub proof fn lemma_advance_items_sound(items: Seq<NodeModel>)
    ensures
        items_emits(items) == act_emits(spec_advance_items(items).0) + emits(
            spec_advance_items(items).1,
        ),
        tree_size(spec_advance_items(items).1) <= items_size(items),
    decreases items, 1int,
{
    if items.len() == 0 {
        assert(items_emits(items) =~= act_emits(spec_advance_items(items).0) + emits(
            spec_advance_items(items).1,
        ));
    } else if items[0] is Noop {
        lemma_advance_items_sound(items.drop_first());
        assert(emits(items[0]) =~= Seq::<Seq<char>>::empty());
        assert(items_emits(items) == emits(items[0]) + items_emits(items.drop_first()));
        assert(Seq::<Seq<char>>::empty() + items_emits(items.drop_first()) =~= items_emits(
            items.drop_first(),
        ));
    } else {
        lemma_advance_sound(items[0]);
        let stepped = spec_advance(items[0]);
        let updated = items.update(0, stepped.1);
        let tail = items.drop_first();
        assert(updated.drop_first() =~= tail);
        assert(items_emits(updated) == emits(stepped.1) + items_emits(tail));
        assert(items_emits(items) == emits(items[0]) + items_emits(tail));
        assert((act_emits(stepped.0) + emits(stepped.1)) + items_emits(tail) =~= act_emits(
            stepped.0,
        ) + (emits(stepped.1) + items_emits(tail)));
    }
}

/// Performs one evaluation step. The caller must not hand in the
/// terminal `Noop`: that is the one contract violation, and the only
/// fatal condition of the whole library.
pub fn advance(node: ASTNode) -> (r: (Action, ASTNode))
    requires
        !(node@ is Noop),
    ensures
        r.0@ == spec_advance(node@).0,
        r.1@ == spec_advance(node@).1,
        emits(node@) == act_emits(r.0@) + emits(r.1@),
        tree_size(r.1@) < tree_size(node@),
    decreases tree_size(node@), 0int,
{
    proof {
        lemma_advance_sound(node@);
    }
    match node {
        ASTNode::Dialogue(items) => advance_dialogue(items),
        ASTNode::Line { name, message } => advance_line(name, message),
        ASTNode::Noop => unreached(),
    }
}

/// One evaluation step of a dialogue's children: skips the `Noop`s at
/// the front, then steps the first live child in place; an exhausted
/// list degrades silently to `Noop`.
pub fn advance_dialogue(items: Vec<ASTNode>) -> (r: (Action, ASTNode))
    ensures
        r.0@ == spec_advance_items(seq_view(items@)).0,
        r.1@ == spec_advance_items(seq_view(items@)).1,
    decreases items_size(seq_view(items@)), 1int,
{
    let ghost orig: Seq<NodeModel> = seq_view(items@);
    let mut rest = items;
    while starts_with_noop(&rest)
        invariant
            spec_advance_items(orig) == spec_advance_items(seq_view(rest@)),
            items_size(seq_view(rest@)) <= items_size(orig),
        decreases rest@.len(),
    {
        let ghost before: Seq<NodeModel> = seq_view(rest@);
        rest.remove(0);
        proof {
            assert(before[0] is Noop);
            assert(before.drop_first() =~= seq_view(rest@));
        }
    }
    if rest.len() == 0 {
        return (Action::Noop, ASTNode::Noop);
    }
    let ghost stripped: Seq<NodeModel> = seq_view(rest@);
    let head = rest.remove(0);
    proof {
        assert(stripped.drop_first() =~= seq_view(rest@));
        assert(head@ == stripped[0]);
        assert(tree_size(head@) <= items_size(stripped)) by {
            assert(items_size(stripped) == tree_size(stripped[0]) + items_size(
                stripped.drop_first(),
            ));
        }
    }
    let (action, new_head) = advance(head);
    rest.insert(0, new_head);
    proof {
        assert(seq_view(rest@) =~= stripped.update(0, new_head@));
    }
    (action, ASTNode::Dialogue(rest))
}

/// Whether the first node of the list is a `Noop` that evaluation will
/// transparently skip.
fn starts_with_noop(v: &Vec<ASTNode>) -> (b: bool)
    ensures
        b == (v@.len() > 0 && v@[0] is Noop),
{
    if v.len() == 0 {
        return false;
    }
    match &v[0] {
        ASTNode::Noop => true,
        _ => false,
    }
}

/// Like [`advance`], but evaluating the terminal `Noop` is signalled by
/// `None` instead of being ruled out by contract, so unverified callers
/// can treat the misuse as a typed failure.
pub fn try_advance(node: ASTNode) -> (r: Option<(Action, ASTNode)>)
    ensures
        node@ is Noop <==> r is None,
        r matches Some(p) ==> p.0@ == spec_advance(node@).0 && p.1@ == spec_advance(node@).1,
{
    if node.is_noop() {
        None
    } else {
        Some(advance(node))
    }
}

/// The views of a list of strings.
pub open spec fn str_views(s: Seq<String>) -> Seq<Seq<char>> {
    s.map_values(|text: String| text@)
}

/// Drives [`advance`] to completion and collects every emitted
/// utterance, in order: the whole playback of a program.
pub fn play(node: ASTNode) -> (out: Vec<String>)
    ensures
        str_views(out@) == emits(node@),
{
    let ghost total: Seq<Seq<char>> = emits(node@);
    let mut current = node;
    let mut out: Vec<String> = Vec::new();
    proof {
        assert(str_views(out@) + emits(current@) =~= total);
    }
    while !current.is_noop()
        invariant
            str_views(out@) + emits(current@) == total,
        decreases tree_size(current@),
    {
        let (action, next) = advance(current);
        match action {
            Action::Print(text) => {
                let ghost prev: Seq<String> = out@;
                out.push(text);
                proof {
                    assert(str_views(out@) =~= str_views(prev).push(text@));
                    assert(str_views(prev).push(text@) + emits(next@) =~= str_views(prev) + (
                    act_emits(ActionModel::Print(text@)) + emits(next@)));
                }
            },
            Action::Noop => {
                proof {
                    assert(act_emits(ActionModel::Noop) + emits(next@) =~= emits(next@));
                }
            },
        }
        current = next;
    }
    proof {
        assert(str_views(out@) + emits(current@) =~= str_views(out@));
    }
    out
}

/// Playing a single utterance: emit `"{name} says {message}"` and leave
/// nothing behind.
pub fn advance_line(name: String, message: String) -> (r: (Action, ASTNode))
    ensures
        r.0@ == ActionModel::Print(line_text(name@, message@)),
        r.1@ == NodeModel::Noop,
{
    let text = name.concat(" says ").concat(message.as_str());
    (Action::Print(text), ASTNode::Noop)
}

} // verus!
