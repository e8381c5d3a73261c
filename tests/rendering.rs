use debug_tree::{Position, Tree, TreeBuilder, TreeBuilderBase};

#[test]
fn flush_then_peek_is_empty() {
    let d = TreeBuilder::new();
    d.add_leaf("a");
    let _b = d.add_branch("b");
    d.add_leaf("c");
    assert_eq!("a\nb\n└╼ c", d.flush_string());
    assert_eq!("", d.peek_string());
}

#[test]
fn balanced_enter_exit_keeps_depth() {
    let d = TreeBuilder::new();
    d.add_leaf("a");
    let before = d.depth();
    d.enter();
    d.add_leaf("b");
    d.enter();
    d.enter();
    d.add_leaf("c");
    assert_eq!(before + 3, d.depth());
    assert!(d.exit());
    assert!(d.exit());
    assert!(d.exit());
    assert_eq!(before, d.depth());
}

#[test]
fn repeated_peek_is_identical() {
    let d = TreeBuilder::new();
    d.add_leaf("x");
    d.enter();
    d.add_leaf("y\nz");
    let first = d.peek_string();
    let second = d.peek_string();
    assert_eq!(first, second);
    assert_eq!("x\n└╼ y\n   z", first);
}

#[test]
fn scenario_leaf_enter_exit() {
    let d = TreeBuilder::new();
    d.add_leaf("1");
    d.enter();
    d.add_leaf("1.1");
    d.exit();
    d.add_leaf("2");
    assert_eq!("1\n└╼ 1.1\n2", d.flush_string());
}

#[test]
fn released_branches_leave_nothing() {
    let d = TreeBuilder::new();
    {
        let mut a = d.enter_scoped();
        let mut b = d.enter_scoped();
        let mut c = d.enter_scoped();
        assert_eq!(3, d.depth());
        c.release();
        b.release();
        a.release();
    }
    assert_eq!(0, d.depth());
    assert_eq!("", d.peek_string());
}

#[test]
fn nested_add_branch_released_at_once() {
    let d = TreeBuilder::new();
    {
        let _a = d.add_branch("a");
        {
            let _b = d.add_branch("b");
            {
                let _c = d.add_branch("c");
            }
        }
    }
    assert_eq!(0, d.depth());
    assert_eq!("a\n└╼ b\n  └╼ c", d.flush_string());
}

#[test]
fn multi_line_only_child() {
    let d = TreeBuilder::new();
    d.add_leaf("R");
    d.enter();
    d.add_leaf("A\nB");
    assert_eq!("R\n└╼ A\n   B", d.flush_string());
}

#[test]
fn multi_line_with_sibling_below() {
    let d = TreeBuilder::new();
    d.add_leaf("R");
    d.enter();
    d.add_leaf("A\nB");
    d.add_leaf("C");
    assert_eq!("R\n├╼ A\n│  B\n└╼ C", d.flush_string());
}

#[test]
fn disabled_period_leaves_no_trace() {
    let d = TreeBuilder::new();
    d.set_enabled(false);
    d.add_leaf("ignored");
    {
        let _b = d.add_branch("ignored branch");
        d.add_leaf("ignored child");
    }
    d.enter();
    assert!(!d.exit());
    d.set_enabled(true);
    d.add_leaf("X");
    assert_eq!("X", d.flush_string());
}

#[test]
fn scope_made_while_disabled_is_inert() {
    let d = TreeBuilder::new();
    d.add_leaf("a");
    d.enter();
    d.add_leaf("b");
    d.set_enabled(false);
    let guard = d.enter_scoped();
    assert!(!guard.is_armed());
    d.set_enabled(true);
    drop(guard);
    assert_eq!(1, d.depth());
}

#[test]
fn wide_indentation_on_two_levels() {
    let d = TreeBuilder::new();
    d.set_indentation(4);
    d.add_leaf("1");
    d.enter();
    d.add_leaf("1.1");
    d.enter();
    d.add_leaf("1.1.1");
    d.exit();
    d.add_leaf("1.2");
    assert_eq!("1\n├──╼ 1.1\n│   └──╼ 1.1.1\n└──╼ 1.2", d.flush_string());
}

#[test]
fn narrow_indentation_is_raised_to_two() {
    let d = TreeBuilder::new();
    d.set_indentation(0);
    d.add_leaf("1");
    d.enter();
    d.add_leaf("1.1");
    assert_eq!("1\n└╼ 1.1", d.flush_string());
}

#[test]
fn clear_resets_indentation_and_enabled_flag() {
    let d = TreeBuilder::new();
    d.set_indentation(4);
    d.set_enabled(false);
    d.clear();
    assert!(d.is_enabled());
    d.add_leaf("1");
    d.enter();
    d.add_leaf("1.1");
    assert_eq!("1\n└╼ 1.1", d.peek_string());
}

#[test]
fn exit_at_top_level_is_refused() {
    let d = TreeBuilder::new();
    assert!(!d.exit());
    assert_eq!(0, d.depth());
    d.add_leaf("a");
    assert!(!d.exit());
    d.add_leaf("b");
    assert_eq!("a\nb", d.peek_string());
}

#[test]
fn pending_descents_become_a_chain() {
    let d = TreeBuilder::new();
    d.enter();
    d.enter();
    assert_eq!(2, d.depth());
    d.add_leaf("x");
    assert_eq!(2, d.depth());
    assert_eq!("\n└╼\n  └╼ x", d.peek_string());
}

#[test]
fn release_is_idempotent() {
    let d = TreeBuilder::new();
    d.add_leaf("a");
    let mut g = d.enter_scoped();
    d.add_leaf("b");
    d.add_leaf("c");
    let mut inner = d.enter_scoped();
    d.add_leaf("c.1");
    assert!(inner.is_armed());
    inner.release();
    assert!(!inner.is_armed());
    inner.release();
    assert_eq!(1, d.depth());
    g.release();
    g.release();
    assert_eq!(0, d.depth());
    d.add_leaf("d");
    assert_eq!("a\n├╼ b\n└╼ c\n  └╼ c.1\nd", d.flush_string());
}

#[test]
fn flush_lines_hands_each_line() {
    let d = TreeBuilder::new();
    d.add_leaf("a");
    d.enter();
    d.add_leaf("b\nc");
    let lines = d.flush_lines();
    assert_eq!(vec!["a".to_string(), "└╼ b\n   c".to_string()], lines);
    assert!(d.peek_lines().is_empty());
}

#[test]
fn clones_share_one_tree() {
    let d = TreeBuilder::new();
    let e = d.clone();
    d.add_leaf("a");
    e.enter();
    d.add_leaf("b");
    assert_eq!("a\n└╼ b", e.peek_string());
}

#[test]
fn base_state_machine() {
    let mut b = TreeBuilderBase::new();
    assert!(b.is_consistent());
    b.add_leaf("1");
    b.enter();
    b.add_leaf("1.1");
    assert_eq!(1, b.depth());
    assert!(b.exit());
    assert_eq!(0, b.depth());
    b.add_leaf("2");
    assert_eq!("1\n└╼ 1.1\n2", b.flush_string());
    assert_eq!("", b.peek_string());
    assert!(b.is_consistent());
}

#[test]
fn tree_at_mut_follows_path() {
    let mut t = Tree::new(None);
    t.children.push(Tree::new(Some("a")));
    t.children.push(Tree::new(Some("b")));
    t.children[1].children.push(Tree::new(Some("b.1")));
    assert_eq!(Some("b.1".to_string()), t.at_mut(&[1, 0]).and_then(|x| x.text.clone()));
    assert!(t.at_mut(&[2]).is_none());
    assert!(t.at_mut(&[0, 0]).is_none());
    if let Some(x) = t.at_mut(&[0]) {
        x.text = Some("A".to_string());
    }
    assert_eq!(Some("A".to_string()), t.children[0].text.clone());
    assert!(t.at_mut(&[]).is_some());
}

#[test]
fn tree_lines_positions() {
    let mut t = Tree::new(Some("p"));
    t.children.push(Tree::new(Some("a")));
    t.children.push(Tree::new(Some("b")));
    t.children.push(Tree::new(Some("c")));
    let lines = t.lines(&vec![false], 0, 1, 2);
    assert_eq!(vec!["p", "├╼ a", "├╼ b", "└╼ c"], lines);
    let deeper = t.lines(&vec![false, true, false], 1, 3, 3);
    assert_eq!(vec!["   ├─╼ p", "   │  ├─╼ a", "   │  ├─╼ b", "   │  └─╼ c"], deeper);
    assert_eq!(Position::Only, Position::Only);
}
