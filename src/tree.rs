use vstd::prelude::*;

verus! {

/// Mathematical model of a tree: optional text and ordered children.
pub ghost struct Node {
    pub text: Option<Seq<char>>,
    pub children: Seq<Node>,
}

/// Tree that holds `text` for the current leaf and a list of `children` that are the branches.
pub struct Tree {
    pub text: Option<String>,
    pub children: Vec<Tree>,
}

/// Position of the element relative to its siblings
#[derive(Copy, Clone, Debug, PartialEq, Eq, Structural)]
pub enum Position {
    Inside,
    First,
    Last,
    Only,
}

pub open spec fn text_model(t: Option<String>) -> Option<Seq<char>> {
    match t {
        Some(s) => Some(s@),
        None => None,
    }
}

impl Tree {
    /// The model of this tree, node by node.
    pub open spec fn view(&self) -> Node
        decreases self,
    {
        Node {
            text: text_model(self.text),
            children: Seq::new(
                self.children@.len(),
                |i: int|
                    if 0 <= i < self.children@.len() {
                        self.children@[i].view()
                    } else {
                        Node { text: None, children: Seq::empty() }
                    },
            ),
        }
    }
}


impl Node {
    /// Whether `path` names a node: each index selects an existing child.
    pub open spec fn valid_path(self, path: Seq<usize>) -> bool
        decreases path.len(),
    {
        path.len() == 0 || (path[0] < self.children.len() && self.children[path[0] as int].valid_path(
            path.drop_first(),
        ))
    }

    /// The node that `path` names.
    pub open spec fn at(self, path: Seq<usize>) -> Node
        decreases path.len(),
    {
        if path.len() == 0 || path[0] >= self.children.len() {
            self
        } else {
            self.children[path[0] as int].at(path.drop_first())
        }
    }

    /// This tree with the node that `path` names replaced by `sub`.
    pub open spec fn replace_at(self, path: Seq<usize>, sub: Node) -> Node
        decreases path.len(),
    {
        if path.len() == 0 {
            sub
        } else if path[0] >= self.children.len() {
            self
        } else {
            Node {
                text: self.text,
                children: self.children.update(
                    path[0] as int,
                    self.children[path[0] as int].replace_at(path.drop_first(), sub),
                ),
            }
        }
    }
}

/// Replacing one child of a tree replaces the model of that child alone.
proof fn lemma_view_child_replaced(a: Tree, b: Tree, i: int)
    requires
        0 <= i < a.children@.len(),
        b.text == a.text,
        b.children@.len() == a.children@.len(),
        b.children@ == a.children@.update(i, b.children@[i]),
    ensures
        b@ == (Node { text: a@.text, children: a@.children.update(i, b.children@[i]@) }),
        b.children@[i]@ == a.children@[i]@ ==> b@ == a@,
{
    assert(b@.children =~= a@.children.update(i, b.children@[i]@));
    if b.children@[i]@ == a.children@[i]@ {
        assert(b@.children =~= a@.children);
    }
}

/// Where a node stands among `count` siblings, being the one at `index`.
pub open spec fn position_of(index: nat, count: nat) -> Position {
    if count == 1 {
        Position::Only
    } else if index == count - 1 {
        Position::Last
    } else if index == 0 {
        Position::First
    } else {
        Position::Inside
    }
}

/// Whether siblings follow a node at position `p`, so that the guide below it continues.
pub open spec fn continues(p: Position) -> bool {
    p == Position::Inside || p == Position::First
}

pub open spec fn repeat(c: char, n: nat) -> Seq<char> {
    Seq::new(n, |_i: int| c)
}

/// The ancestor columns: a guide or a blank for each flag, then `indent - 1` spaces.
pub open spec fn guide(flags: Seq<bool>, indent: nat) -> Seq<char>
    decreases flags.len(),
{
    if flags.len() == 0 {
        Seq::empty()
    } else {
        guide(flags.drop_last(), indent) + seq![if flags.last() { '│' } else { ' ' }] + repeat(
            ' ',
            (indent - 1) as nat,
        )
    }
}

/// The glyphs that join a node at position `p` to its parent.
pub open spec fn connector(p: Position, indent: nat) -> Seq<char> {
    seq![if continues(p) { '├' } else { '└' }] + repeat('─', (indent - 2) as nat) + seq!['╼']
}

/// `text` with each line break replaced by `brk`.
pub open spec fn expand_breaks(text: Seq<char>, brk: Seq<char>) -> Seq<char>
    decreases text.len(),
{
    if text.len() == 0 {
        Seq::empty()
    } else {
        expand_breaks(text.drop_last(), brk) + if text.last() == '\n' {
            brk
        } else {
            seq![text.last()]
        }
    }
}

/// The first line of a node with the given text, ancestor flags and position.
pub open spec fn node_line(text: Option<Seq<char>>, flags: Seq<bool>, p: Position, indent: nat) -> Seq<
    char,
> {
    if flags.len() > 1 {
        let pad = guide(flags.skip(2), indent);
        let brk = seq!['\n'] + pad + seq![if continues(p) { '│' } else { ' ' }, ' ', ' '];
        pad + connector(p, indent) + match text {
            Some(x) => seq![' '] + expand_breaks(x, brk),
            None => Seq::empty(),
        }
    } else {
        match text {
            Some(x) => x,
            None => Seq::empty(),
        }
    }
}

/// The lines of the subtree `n`, the child at `index` of `count` siblings, below ancestors
/// whose continuation flags are `flags`.
pub open spec fn render(n: Node, flags: Seq<bool>, index: nat, count: nat, indent: nat) -> Seq<
    Seq<char>,
>
    decreases n, 0nat,
{
    let p = position_of(index, count);
    seq![node_line(n.text, flags, p, indent)] + render_children(
        n.children,
        flags.push(continues(p)),
        n.children.len(),
        indent,
    )
}

/// The lines of the first `k` nodes of `cs`, in order.
pub open spec fn render_children(cs: Seq<Node>, flags: Seq<bool>, k: nat, indent: nat) -> Seq<
    Seq<char>,
>
    decreases cs, k,
{
    if k == 0 || k > cs.len() {
        Seq::empty()
    } else {
        render_children(cs, flags, (k - 1) as nat, indent) + render(
            cs[k - 1],
            flags,
            (k - 1) as nat,
            cs.len(),
            indent,
        )
    }
}

pub open spec fn line_views(v: Seq<String>) -> Seq<Seq<char>> {
    v.map_values(|s: String| s@)
}

/// Relies on `String::push`: appends one character.
#[verifier::external_body]
pub(crate) fn push_char(s: &mut String, c: char)
    ensures
        final(s)@ == old(s)@.push(c),
{
    s.push(c);
}

fn push_repeat(s: &mut String, c: char, n: usize)
    ensures
        final(s)@ == old(s)@ + repeat(c, n as nat),
{
    let mut i: usize = 0;
    while i < n
        invariant
            i <= n,
            s@ == old(s)@ + repeat(c, i as nat),
        decreases n - i,
    {
        push_char(s, c);
        i = i + 1;
        assert(s@ =~= old(s)@ + repeat(c, i as nat));
    }
}

/// Appending a child to a tree appends the model of that child.
pub(crate) proof fn lemma_view_child_pushed(a: Tree, b: Tree, c: Tree)
    requires
        b.text == a.text,
        b.children@ == a.children@.push(c),
    ensures
        b@ == (Node { text: a@.text, children: a@.children.push(c@) }),
{
    assert(b@.children =~= a@.children.push(c@));
}

impl Tree {
    /// Create a new tree with some optional text.
    pub fn new(text: Option<&str>) -> (r: Tree)
        ensures
            r@ == (Node {
                text: match text {
                    Some(x) => Some(x@),
                    None => None,
                },
                children: Seq::empty(),
            }),
    {
        let r = Tree {
            text: match text {
                Some(x) => Some(x.to_owned()),
                None => None,
            },
            children: Vec::new(),
        };
        assert(r@.children =~= Seq::empty());
        r
    }

    /// The first line of this node: ancestor guides, connector and text.
    fn node_line(&self, does_continue: &Vec<bool>, position: Position, indent: usize) -> (r: String)
        requires
            indent >= 2,
        ensures
            r@ == node_line(self@.text, does_continue@, position, indent as nat),
    {
        let mut txt = String::new();
        if does_continue.len() > 1 {
            let mut j: usize = 2;
            while j < does_continue.len()
                invariant
                    2 <= j <= does_continue@.len(),
                    indent >= 2,
                    txt@ == guide(does_continue@.subrange(2, j as int), indent as nat),
                decreases does_continue@.len() - j,
            {
                assert(does_continue@.subrange(2, j + 1).drop_last() =~= does_continue@.subrange(2, j as int));
                push_char(&mut txt, if does_continue[j] { '│' } else { ' ' });
                push_repeat(&mut txt, ' ', indent - 1);
                j = j + 1;
            }
            assert(does_continue@.subrange(2, j as int) =~= does_continue@.skip(2));
            let pad = txt.clone();
            push_char(&mut txt, if position == Position::Only || position == Position::Last { '└' } else { '├' });
            push_repeat(&mut txt, '─', indent - 2);
            push_char(&mut txt, '╼');
            let ghost head = txt@;
            assert(head =~= pad@ + connector(position, indent as nat));
            match &self.text {
                Some(x) => {
                    push_char(&mut txt, ' ');
                    let col = if position == Position::Only || position == Position::Last { ' ' } else { '│' };
                    assert(col == if continues(position) { '│' } else { ' ' });
                    let ghost brk = seq!['\n'] + pad@ + seq![col, ' ', ' '];
                    let ghost start = txt@;
                    let ghost mut done: int = 0;
                    for c in it: x.chars()
                        invariant
                            it.seq() == x@,
                            done == it.index(),
                            brk == seq!['\n'] + pad@ + seq![col, ' ', ' '],
                            txt@ == start + expand_breaks(x@.take(done), brk),
                    {
                        let ghost k = it.index();
                        assert(it.seq().take(k + 1).drop_last() =~= it.seq().take(k as int));
                        assert(it.seq().take(k + 1).last() == c);
                        let ghost before = txt@;
                        assert(expand_breaks(x@.take(k + 1), brk) == expand_breaks(x@.take(k as int), brk)
                            + if c == '\n' { brk } else { seq![c] });
                        if c == '\n' {
                            push_char(&mut txt, '\n');
                            txt.append(pad.as_str());
                            push_char(&mut txt, col);
                            push_char(&mut txt, ' ');
                            push_char(&mut txt, ' ');
                            assert(txt@ =~= before + brk);
                        } else {
                            push_char(&mut txt, c);
                        }
                        assert(txt@ =~= start + expand_breaks(it.seq().take(k + 1), brk));
                        proof {
                            done = k + 1;
                        }
                    }
                    assert(x@.take(done) =~= x@);
                },
                None => {},
            }
        } else {
            match &self.text {
                Some(x) => {
                    txt.append(x.as_str());
                },
                None => {},
            }
        }
        txt
    }
}

impl Tree {
    /// "Render" this tree as a list of `String`s.
    /// Each string represents a line in the tree.
    /// `does_continue` is a bool for each column indicating whether the tree continues.
    pub fn lines(&self, does_continue: &Vec<bool>, index: usize, pool_size: usize, indent: usize) -> (r:
        Vec<String>)
        requires
            index < pool_size,
            indent >= 2,
        ensures
            line_views(r@) == render(self@, does_continue@, index as nat, pool_size as nat, indent as nat),
        decreases self,
    {
        let position = if pool_size == 1 {
            Position::Only
        } else if index == pool_size - 1 {
            Position::Last
        } else if index == 0 {
            Position::First
        } else {
            Position::Inside
        };
        let mut next_continue: Vec<bool> = Vec::new();
        let mut j: usize = 0;
        while j < does_continue.len()
            invariant
                j <= does_continue@.len(),
                next_continue@ == does_continue@.take(j as int),
            decreases does_continue@.len() - j,
        {
            next_continue.push(does_continue[j]);
            j = j + 1;
            assert(next_continue@ =~= does_continue@.take(j as int));
        }
        assert(does_continue@.take(j as int) =~= does_continue@);
        next_continue.push(position == Position::Inside || position == Position::First);
        let ghost flags = next_continue@;
        assert(position == position_of(index as nat, pool_size as nat));
        let mut ret: Vec<String> = Vec::new();
        ret.push(self.node_line(does_continue, position, indent));
        assert(line_views(ret@) =~= seq![node_line(self@.text, does_continue@, position, indent as nat)]);
        let n = self.children.len();
        let mut k: usize = 0;
        while k < n
            invariant
                n == self.children@.len(),
                n == self@.children.len(),
                k <= n,
                indent >= 2,
                next_continue@ == flags,
                line_views(ret@) == seq![node_line(self@.text, does_continue@, position, indent as nat)]
                    + render_children(self@.children, flags, k as nat, indent as nat),
            decreases n - k,
        {
            let mut sub = self.children[k].lines(&next_continue, k, n, indent);
            let ghost prev = ret@;
            let ghost subv = sub@;
            ret.append(&mut sub);
            assert(self@.children[k as int] == self.children@[k as int]@);
            assert(line_views(ret@) =~= line_views(prev) + line_views(subv));
            k = k + 1;
        }
        ret
    }
}

impl Tree {
    /// Navigate to the branch at the given `path` relative to this tree.
    /// If a valid branch is found by following the path, it is returned.
    pub fn at_mut(&mut self, path: &[usize]) -> (r: Option<&mut Tree>)
        ensures
            old(self)@.valid_path(path@) <==> r is Some,
            r is None ==> final(self)@ == old(self)@,
            r is Some ==> (*r->Some_0)@ == old(self)@.at(path@),
            r is Some ==> final(self)@ == old(self)@.replace_at(path@, (*final(r->Some_0))@),
    {
        assert(path@.skip(0) =~= path@);
        self.at_mut_from(path, 0)
    }

    #[verifier::rlimit(60)]
    fn at_mut_from(&mut self, path: &[usize], k: usize) -> (r: Option<&mut Tree>)
        requires
            k <= path@.len(),
        ensures
            old(self)@.valid_path(path@.skip(k as int)) <==> r is Some,
            r is None ==> final(self)@ == old(self)@,
            r is Some ==> (*r->Some_0)@ == old(self)@.at(path@.skip(k as int)),
            r is Some ==> final(self)@ == old(self)@.replace_at(path@.skip(k as int), (*final(r->Some_0))@),
        decreases path@.len() - k,
    {
        if k >= path.len() {
            return Some(self);
        }
        let i = path[k];
        assert(path@.skip(k as int).drop_first() =~= path@.skip(k + 1));
        if i < self.children.len() {
            proof {
                let a = *self;
                assert forall|b: Tree|
                    b.text == a.text && b.children@.len() == a.children@.len() && b.children@ == a.children@.update(i as int, b.children@[i as int])
                    implies #[trigger] b@ == (Node {
                        text: a@.text,
                        children: a@.children.update(i as int, b.children@[i as int]@),
                    }) && (b.children@[i as int]@ == a.children@[i as int]@ ==> b@ == a@) by {
                    lemma_view_child_replaced(a, b, i as int);
                }
            }
            self.children[i].at_mut_from(path, k + 1)
        } else {
            None
        }
    }
}

} // verus!
