use crate::builder::{join_lines, BuilderState};
use crate::tree::{node_line, render, render_children, Position};
use vstd::prelude::*;

verus! {

/// One call that moves the cursor or grows the tree.
pub ghost enum Op {
    Leaf(Seq<char>),
    Enter,
    Exit,
}

impl BuilderState {
    /// The state after `op`, as `add_leaf`, `enter` and `exit` leave it.
    pub open spec fn step(self, op: Op) -> BuilderState {
        match op {
            Op::Leaf(text) => self.with_leaf(text),
            Op::Enter => self.entered(),
            Op::Exit => self.exited(),
        }
    }

    /// The state after the calls of `ops`, in order.
    pub open spec fn run(self, ops: Seq<Op>) -> BuilderState
        decreases ops.len(),
    {
        if ops.len() == 0 {
            self
        } else {
            self.run(ops.drop_last()).step(ops.last())
        }
    }
}

/// The number of descents in `ops` less the number of ascents.
pub open spec fn balance(ops: Seq<Op>) -> int
    decreases ops.len(),
{
    if ops.len() == 0 {
        0
    } else {
        balance(ops.drop_last()) + match ops.last() {
            Op::Enter => 1int,
            Op::Exit => -1int,
            Op::Leaf(_) => 0int,
        }
    }
}

/// Every ascent of `ops` closes a descent made before it in `ops`.
pub open spec fn never_below_start(ops: Seq<Op>) -> bool {
    forall|j: int| 0 <= j <= ops.len() ==> balance(#[trigger] ops.take(j)) >= 0
}

/// Every descent of `ops` is closed by one ascent of `ops`.
pub open spec fn balanced(ops: Seq<Op>) -> bool {
    never_below_start(ops) && balance(ops) == 0
}

/// Clearing is total: the state that `flush_string` and `clear` leave renders as the empty
/// text, so a `peek_string` right after a `flush_string` returns the empty string.
pub proof fn lemma_cleared_renders_empty()
    ensures
        BuilderState::initial().rendered() == Seq::<char>::empty(),
{
    let s = BuilderState::initial();
    let all = render(s.tree, Seq::empty(), 0, 1, s.indent);
    assert(node_line(None, Seq::empty(), Position::Only, 2) == Seq::<char>::empty());
    assert(render_children(s.tree.children, seq![false], 0, 2) == Seq::<Seq<char>>::empty());
    assert(all =~= seq![Seq::<char>::empty()]);
    assert(s.rendered_lines() =~= Seq::<Seq<char>>::empty());
}

/// Rendering depends on the tree and the indentation alone: not on the cursor nor on
/// whether it is enabled, so calls that change neither leave what `peek_string` returns unchanged.
pub proof fn lemma_render_depends_on_tree_and_indent(a: BuilderState, b: BuilderState)
    requires
        a.tree == b.tree,
        a.indent == b.indent,
    ensures
        a.rendered() == b.rendered(),
        a.rendered_lines() == b.rendered_lines(),
{
}

/// A descent followed at once by an ascent changes nothing: no empty branch is made.
pub proof fn lemma_enter_exit_cancel(s: BuilderState)
    requires
        s.consistent(),
        s.path.len() + s.dive_count < usize::MAX,
    ensures
        s.entered().exited() == s,
{
}

/// While the builder is disabled, leaves, descents and ascents leave no trace.
pub proof fn lemma_disabled_leaves_no_trace(s: BuilderState, ops: Seq<Op>)
    requires
        !s.enabled,
    ensures
        s.run(ops) == s,
    decreases ops.len(),
{
    if ops.len() > 0 {
        lemma_disabled_leaves_no_trace(s, ops.drop_last());
    }
}

/// Along calls whose ascents never outnumber their descents, the depth moves by the
/// difference, when the builder is enabled, and not at all otherwise.
proof fn lemma_depth_follows_balance(s: BuilderState, ops: Seq<Op>)
    requires
        s.path.len() + s.dive_count >= 1,
        s.path.len() + s.dive_count + ops.len() <= usize::MAX,
        never_below_start(ops),
    ensures
        s.run(ops).enabled == s.enabled,
        s.run(ops).path.len() + s.run(ops).dive_count >= 1,
        s.enabled ==> s.run(ops).depth() == s.depth() + balance(ops),
        !s.enabled ==> s.run(ops).depth() == s.depth(),
    decreases ops.len(),
{
    if ops.len() > 0 {
        let prev = ops.drop_last();
        assert forall|j: int| 0 <= j <= prev.len() implies balance(#[trigger] prev.take(j)) >= 0 by {
            assert(prev.take(j) =~= ops.take(j));
        }
        lemma_depth_follows_balance(s, prev);
        assert(ops.take(ops.len() as int) =~= ops);
        if s.enabled {
            lemma_balance_bounded(prev);
        }
    }
}

proof fn lemma_balance_bounded(ops: Seq<Op>)
    ensures
        balance(ops) <= ops.len(),
    decreases ops.len(),
{
    if ops.len() > 0 {
        lemma_balance_bounded(ops.drop_last());
    }
}

/// A balanced run of descents and ascents, with any leaves among them, ends at the depth
/// where it began.
pub proof fn lemma_balanced_keeps_depth(s: BuilderState, ops: Seq<Op>)
    requires
        s.consistent(),
        s.path.len() + s.dive_count + ops.len() <= usize::MAX,
        balanced(ops),
    ensures
        s.run(ops).depth() == s.depth(),
{
    lemma_depth_follows_balance(s, ops);
}

} // verus!
