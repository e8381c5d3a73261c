use crate::tree::{lemma_view_child_pushed, line_views, push_char, render, Node, Tree};
use vstd::prelude::*;

verus! {

/// A node with `text` and no children.
pub open spec fn leaf_node(text: Seq<char>) -> Node {
    Node { text: Some(text), children: Seq::empty() }
}

/// `levels` nested nodes, each the only child of the one above; the deepest holds `text`,
/// the others no text.
pub open spec fn chain(levels: nat, text: Seq<char>) -> Node
    decreases levels,
{
    if levels <= 1 {
        leaf_node(text)
    } else {
        Node { text: None, children: seq![chain((levels - 1) as nat, text)] }
    }
}

pub open spec fn zeros(n: nat) -> Seq<usize> {
    Seq::new(n, |_i: int| 0usize)
}

impl Node {
    /// Whether `path` names a node reached by always taking the last child.
    pub open spec fn on_last_branch(self, path: Seq<usize>) -> bool
        decreases path.len(),
    {
        path.len() == 0 || (self.children.len() == path[0] + 1 && self.children[path[0] as int].on_last_branch(
            path.drop_first(),
        ))
    }

    /// This tree with `c` appended to the children of the node that `path` names.
    pub open spec fn with_child_at(self, path: Seq<usize>, c: Node) -> Node {
        let t = self.at(path);
        self.replace_at(path, Node { text: t.text, children: t.children.push(c) })
    }
}

/// The lines joined by line breaks, with none after the last.
pub open spec fn join_lines(ls: Seq<Seq<char>>) -> Seq<char>
    decreases ls.len(),
{
    if ls.len() == 0 {
        Seq::empty()
    } else if ls.len() == 1 {
        ls[0]
    } else {
        join_lines(ls.drop_last()) + seq!['\n'] + ls.last()
    }
}

/// The model of a builder: the tree, the cursor over it, the indentation and whether it is enabled.
pub ghost struct BuilderState {
    pub tree: Node,
    /// Child index at each depth from the root to the current node.
    pub path: Seq<usize>,
    /// Descents requested but not yet materialized by a leaf.
    pub dive_count: nat,
    pub indent: nat,
    pub enabled: bool,
}

impl BuilderState {
    pub open spec fn initial() -> BuilderState {
        BuilderState {
            tree: Node { text: None, children: Seq::empty() },
            path: Seq::empty(),
            dive_count: 1,
            indent: 2,
            enabled: true,
        }
    }

    pub open spec fn depth(self) -> int {
        self.path.len() + self.dive_count - 1
    }

    /// The cursor follows the last branch of the tree, and its depth is neither negative nor
    /// beyond what a `usize` counts.
    pub open spec fn consistent(self) -> bool {
        &&& self.tree.on_last_branch(self.path)
        &&& self.path.len() + self.dive_count >= 1
        &&& self.path.len() + self.dive_count <= usize::MAX
        &&& self.indent >= 2
    }

    /// The state after adding a leaf with `text`.
    pub open spec fn with_leaf(self, text: Seq<char>) -> BuilderState {
        if !self.enabled {
            self
        } else if self.dive_count > 0 {
            BuilderState {
                tree: self.tree.with_child_at(self.path, chain(self.dive_count, text)),
                path: self.path.push(self.tree.at(self.path).children.len() as usize) + zeros(
                    (self.dive_count - 1) as nat,
                ),
                dive_count: 0,
                ..self
            }
        } else {
            let parent = self.path.drop_last();
            BuilderState {
                tree: self.tree.with_child_at(parent, leaf_node(text)),
                path: parent.push(self.tree.at(parent).children.len() as usize),
                ..self
            }
        }
    }

    /// The state after one more descent is requested.
    pub open spec fn entered(self) -> BuilderState {
        if self.enabled && self.path.len() + self.dive_count < usize::MAX {
            BuilderState { dive_count: self.dive_count + 1, ..self }
        } else {
            self
        }
    }

    /// Whether an ascent is possible: the builder is enabled and the cursor is below the top level.
    pub open spec fn can_exit(self) -> bool {
        self.enabled && self.depth() > 0
    }

    /// The state after one ascent: a pending descent is cancelled first, else the cursor
    /// moves to the parent.
    pub open spec fn exited(self) -> BuilderState {
        if !self.can_exit() {
            self
        } else if self.dive_count > 0 {
            BuilderState { dive_count: (self.dive_count - 1) as nat, ..self }
        } else {
            BuilderState { path: self.path.drop_last(), ..self }
        }
    }

    /// The displayed lines: those of the tree below its root.
    pub open spec fn rendered_lines(self) -> Seq<Seq<char>> {
        render(self.tree, Seq::empty(), 0, 1, self.indent).drop_first()
    }

    /// The tree as text.
    pub open spec fn rendered(self) -> Seq<char> {
        join_lines(self.rendered_lines())
    }
}

proof fn lemma_last_branch_is_valid(n: Node, p: Seq<usize>)
    requires
        n.on_last_branch(p),
    ensures
        n.valid_path(p),
    decreases p.len(),
{
    if p.len() > 0 {
        lemma_last_branch_is_valid(n.children[p[0] as int], p.drop_first());
    }
}

proof fn lemma_last_branch_parent(n: Node, p: Seq<usize>)
    requires
        n.on_last_branch(p),
        p.len() > 0,
    ensures
        n.on_last_branch(p.drop_last()),
    decreases p.len(),
{
    if p.len() > 1 {
        assert(p.drop_last().drop_first() =~= p.drop_first().drop_last());
        lemma_last_branch_parent(n.children[p[0] as int], p.drop_first());
    }
}

/// Appending `c` below the end of the last branch extends that branch into `c`.
proof fn lemma_grow_last_branch(n: Node, p: Seq<usize>, k: usize, c: Node, q: Seq<usize>)
    requires
        n.on_last_branch(p),
        n.at(p).children.len() == k,
        c.on_last_branch(q),
    ensures
        n.with_child_at(p, c).on_last_branch(p.push(k) + q),
    decreases p.len(),
{
    let grown = n.with_child_at(p, c);
    let path = p.push(k) + q;
    if p.len() == 0 {
        assert(path.drop_first() =~= q);
    } else {
        let i = p[0] as int;
        let child = n.children[i];
        assert(path.drop_first() =~= p.drop_first().push(k) + q);
        lemma_grow_last_branch(child, p.drop_first(), k, c, q);
        assert(grown.children[i] == child.with_child_at(p.drop_first(), c));
    }
}

proof fn lemma_last_branch_push(n: Node, p: Seq<usize>, i: usize)
    ensures
        n.on_last_branch(p.push(i)) <==> (n.on_last_branch(p) && n.at(p).children.len() == i + 1),
        n.on_last_branch(p) && i < n.at(p).children.len() ==> n.at(p.push(i)) == n.at(p).children[i as int],
    decreases p.len(),
{
    if p.len() > 0 {
        assert(p.push(i).drop_first() =~= p.drop_first().push(i));
        assert(p.push(i)[0] == p[0]);
        if p[0] < n.children.len() {
            let c = n.children[p[0] as int];
            lemma_last_branch_push(c, p.drop_first(), i);
        }
    } else {
        assert(p.push(i).drop_first() =~= Seq::<usize>::empty());
        assert(p.push(i) =~= seq![i]);
        if i < n.children.len() {
            assert(n.children[i as int].on_last_branch(p.push(i).drop_first()));
            assert(n.children[i as int].at(p.push(i).drop_first()) == n.children[i as int]);
        }
    }
}

proof fn lemma_last_branch_prefix(n: Node, p: Seq<usize>, j: int)
    requires
        0 <= j <= p.len(),
        n.on_last_branch(p),
    ensures
        n.on_last_branch(p.take(j)),
    decreases p.len() - j,
{
    if j < p.len() {
        lemma_last_branch_parent(n, p);
        lemma_last_branch_prefix(n, p.drop_last(), j);
        assert(p.drop_last().take(j) =~= p.take(j));
    } else {
        assert(p.take(j) =~= p);
    }
}

proof fn lemma_chain_last_branch(levels: nat, text: Seq<char>)
    requires
        levels >= 1,
    ensures
        chain(levels, text).on_last_branch(zeros((levels - 1) as nat)),
    decreases levels,
{
    if levels > 1 {
        lemma_chain_last_branch((levels - 1) as nat, text);
        assert(zeros((levels - 1) as nat).drop_first() =~= zeros((levels - 2) as nat));
    }
}

/// Relies on `Vec::pop`: removes and returns the last element; it allocates nothing and
/// never unwinds.
#[verifier::external_body]
fn pop_last(v: &mut Vec<usize>) -> (r: Option<usize>)
    ensures
        old(v)@.len() > 0 ==> r == Some(old(v)@.last()) && final(v)@ == old(v)@.drop_last(),
        old(v)@.len() == 0 ==> r is None && final(v)@ == old(v)@,
    opens_invariants none
    no_unwind
{
    v.pop()
}

/// Holds the current state of the tree, including the path to the branch.
pub struct TreeBuilderBase {
    tree: Tree,
    path: Vec<usize>,
    /// The length of `path`, kept beside it so that an ascent, which may run while a scope
    /// guard is dropped, reads no vector length.
    path_len: usize,
    dive_count: usize,
    indent: usize,
    enabled: bool,
}

impl View for TreeBuilderBase {
    type V = BuilderState;

    closed spec fn view(&self) -> BuilderState {
        BuilderState {
            tree: self.tree@,
            path: self.path@,
            dive_count: self.dive_count as nat,
            indent: self.indent as nat,
            enabled: self.enabled,
        }
    }
}

impl TreeBuilderBase {
    /// The fields agree with each other and the model is consistent.
    pub closed spec fn wf(&self) -> bool {
        self.path_len == self.path@.len() && self@.consistent()
    }

    /// Whether the fields agree with each other and the cursor follows the last branch:
    /// a walk down the path.
    pub fn is_consistent(&self) -> (r: bool)
        ensures
            r == self.wf(),
    {
        if self.indent < 2 || self.path_len != self.path.len() || self.dive_count > usize::MAX
            - self.path_len || self.path_len + self.dive_count < 1 {
            return false;
        }
        let ghost path = self.path@;
        let ghost t = self.tree@;
        let mut node: &Tree = &self.tree;
        let mut k: usize = 0;
        assert(path.take(0) =~= Seq::<usize>::empty());
        while k < self.path_len
            invariant
                k <= self.path_len == path.len(),
                path == self.path@,
                t == self.tree@,
                t.on_last_branch(path.take(k as int)),
                node@ == t.at(path.take(k as int)),
            decreases self.path_len - k,
        {
            let i = self.path[k];
            proof {
                lemma_last_branch_push(t, path.take(k as int), i);
                assert(path.take(k + 1) =~= path.take(k as int).push(i));
            }
            if i >= node.children.len() || node.children.len() - 1 != i {
                proof {
                    if t.on_last_branch(path) {
                        lemma_last_branch_prefix(t, path, k + 1);
                    }
                }
                return false;
            }
            node = &node.children[i];
            k = k + 1;
        }
        assert(path.take(k as int) =~= path);
        true
    }

    /// Create a new state
    pub fn new() -> (r: TreeBuilderBase)
        ensures
            r.wf(),
            r@ == BuilderState::initial(),
    {
        let r = TreeBuilderBase {
            tree: Tree::new(None),
            path: Vec::new(),
            path_len: 0,
            dive_count: 1,
            indent: 2,
            enabled: true,
        };
        assert(r@.path =~= Seq::<usize>::empty());
        r
    }

    /// Sets the indentation; a width below two is taken as two.
    pub fn set_indentation(&mut self, indent: usize)
        requires
            old(self).wf(),
        ensures
            final(self).wf(),
            final(self)@ == (BuilderState { indent: if indent >= 2 { indent as nat } else { 2 }, ..old(self)@ }),
    {
        self.indent = if indent >= 2 { indent } else { 2 };
    }

    pub fn set_enabled(&mut self, enabled: bool)
        requires
            old(self).wf(),
        ensures
            final(self).wf(),
            final(self)@ == (BuilderState { enabled, ..old(self)@ }),
    {
        self.enabled = enabled;
    }

    pub fn is_enabled(&self) -> (r: bool)
        ensures
            r == self@.enabled,
        opens_invariants none
        no_unwind
    {
        self.enabled
    }

    /// Adds a leaf with `text` at the cursor, materializing pending descents first.
    pub fn add_leaf(&mut self, text: &str)
        requires
            old(self).wf(),
        ensures
            final(self).wf(),
            final(self)@ == old(self)@.with_leaf(text@),
    {
        if !self.enabled {
            return;
        }
        let ghost s0 = self@;
        proof {
            lemma_last_branch_is_valid(s0.tree, s0.path);
        }
        if self.dive_count > 0 {
            let dive = self.dive_count;
            let mut node = Tree::new(Some(text));
            let mut level: usize = 1;
            while level < dive
                invariant
                    1 <= level <= dive,
                    node@ == chain(level as nat, text@),
                decreases dive - level,
            {
                let mut parent = Tree::new(None);
                let ghost before = parent;
                parent.children.push(node);
                proof {
                    lemma_view_child_pushed(before, parent, node);
                    assert(parent@.children =~= seq![chain(level as nat, text@)]);
                }
                node = parent;
                level = level + 1;
            }
            let mut idx: usize = 0;
            match self.tree.at_mut(self.path.as_slice()) {
                Some(x) => {
                    let ghost before = *x;
                    let ghost pushed = node;
                    x.children.push(node);
                    idx = x.children.len() - 1;
                    proof {
                        lemma_view_child_pushed(before, *x, pushed);
                    }
                },
                None => {},
            }
            assert(self.tree@ == s0.tree.with_child_at(s0.path, chain(dive as nat, text@)));
            self.path.push(idx);
            let mut k: usize = 1;
            while k < dive
                invariant
                    1 <= k <= dive,
                    self.path@ == s0.path.push(idx) + zeros((k - 1) as nat),
                    self.path_len == s0.path.len(),
                    s0.path.len() + dive <= usize::MAX,
                    self.dive_count == dive,
                    self.tree@ == s0.tree.with_child_at(s0.path, chain(dive as nat, text@)),
                    self.indent == s0.indent,
                    self.enabled == s0.enabled,
                decreases dive - k,
            {
                self.path.push(0);
                k = k + 1;
                assert(self.path@ =~= s0.path.push(idx) + zeros((k - 1) as nat));
            }
            assert(self.path@ =~= s0.path.push(idx) + zeros((dive - 1) as nat));
            self.path_len = self.path_len + dive;
            self.dive_count = 0;
            proof {
                lemma_chain_last_branch(dive as nat, text@);
                lemma_grow_last_branch(s0.tree, s0.path, idx, chain(dive as nat, text@), zeros((dive - 1) as nat));
            }
        } else {
            let ghost parent = s0.path.drop_last();
            proof {
                lemma_last_branch_parent(s0.tree, s0.path);
                lemma_last_branch_is_valid(s0.tree, parent);
            }
            let _ = pop_last(&mut self.path);
            let mut idx: usize = 0;
            match self.tree.at_mut(self.path.as_slice()) {
                Some(x) => {
                    let ghost before = *x;
                    let leaf = Tree::new(Some(text));
                    let ghost pushed = leaf;
                    x.children.push(leaf);
                    idx = x.children.len() - 1;
                    proof {
                        lemma_view_child_pushed(before, *x, pushed);
                    }
                },
                None => {},
            }
            self.path.push(idx);
            assert(self.path@ =~= parent.push(idx));
            proof {
                assert(leaf_node(text@).on_last_branch(Seq::empty()));
                lemma_grow_last_branch(s0.tree, parent, idx, leaf_node(text@), Seq::empty());
                assert(parent.push(idx) + Seq::<usize>::empty() =~= parent.push(idx));
            }
        }
    }

    /// Requests one descent; nothing is created until a leaf arrives.
    pub fn enter(&mut self)
        requires
            old(self).wf(),
        ensures
            final(self).wf(),
            final(self)@ == old(self)@.entered(),
    {
        if self.enabled && self.path_len + self.dive_count < usize::MAX {
            self.dive_count = self.dive_count + 1;
        }
    }

    /// Try stepping up to the parent tree branch.
    /// Returns false if already at the top branch.
    /// It asks for no well-formedness, as it runs while scope guards are dropped, where the
    /// check of `is_consistent` cannot.
    pub fn exit(&mut self) -> (r: bool)
        ensures
            old(self).wf() ==> final(self).wf(),
            old(self).wf() ==> final(self)@ == old(self)@.exited(),
            old(self).wf() ==> r == old(self)@.can_exit(),
        opens_invariants none
        no_unwind
    {
        if !self.enabled {
            false
        } else if self.dive_count > 1 || (self.dive_count == 1 && self.path_len > 0) {
            self.dive_count = self.dive_count - 1;
            true
        } else if self.dive_count == 0 && self.path_len > 1 {
            let _ = pop_last(&mut self.path);
            self.path_len = self.path_len - 1;
            proof {
                if old(self).wf() {
                    lemma_last_branch_parent(old(self)@.tree, old(self)@.path);
                }
            }
            true
        } else {
            false
        }
    }

    pub fn depth(&self) -> (r: usize)
        requires
            self.wf(),
        ensures
            r == self@.depth(),
    {
        self.path_len + self.dive_count - 1
    }

    /// Replaces everything with the fresh state, indentation and enabled flag included.
    pub fn clear(&mut self)
        ensures
            final(self).wf(),
            final(self)@ == BuilderState::initial(),
    {
        *self = TreeBuilderBase::new();
    }

    /// The rendered lines, the root's own line left out.
    pub fn peek_lines(&self) -> (r: Vec<String>)
        requires
            self.wf(),
        ensures
            line_views(r@) == self@.rendered_lines(),
    {
        let mut ls = self.tree.lines(&Vec::new(), 0, 1, self.indent);
        assert(line_views(ls@).len() >= 1);
        let ghost all = ls@;
        let _ = ls.remove(0);
        assert(line_views(ls@) =~= line_views(all).drop_first());
        ls
    }

    /// Returns the rendered lines and clears the tree.
    pub fn flush_lines(&mut self) -> (r: Vec<String>)
        requires
            old(self).wf(),
        ensures
            final(self).wf(),
            final(self)@ == BuilderState::initial(),
            line_views(r@) == old(self)@.rendered_lines(),
    {
        let ls = self.peek_lines();
        self.clear();
        ls
    }

    /// The rendered tree as text, lines joined by line breaks.
    pub fn peek_string(&self) -> (r: String)
        requires
            self.wf(),
        ensures
            r@ == self@.rendered(),
    {
        let ls = self.peek_lines();
        let mut txt = String::new();
        let mut i: usize = 0;
        while i < ls.len()
            invariant
                i <= ls@.len(),
                txt@ == join_lines(line_views(ls@).take(i as int)),
            decreases ls@.len() - i,
        {
            let ghost done = line_views(ls@).take(i as int);
            assert(line_views(ls@).take(i + 1).drop_last() =~= done);
            if i > 0 {
                push_char(&mut txt, '\n');
            }
            txt.append(ls[i].as_str());
            i = i + 1;
            assert(txt@ =~= join_lines(line_views(ls@).take(i as int)));
        }
        assert(line_views(ls@).take(i as int) =~= line_views(ls@));
        txt
    }

    /// Returns the rendered tree and clears it.
    pub fn flush_string(&mut self) -> (r: String)
        requires
            old(self).wf(),
        ensures
            final(self).wf(),
            final(self)@ == BuilderState::initial(),
            r@ == old(self)@.rendered(),
    {
        let s = self.peek_string();
        self.clear();
        s
    }
}

} // verus!
