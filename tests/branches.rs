use debug_tree::{ScopedBranch, TreeBuilder};

#[test]
fn unnamed_branch() {
    let tree = TreeBuilder::new();
    tree.add_leaf(&format!("1"));
    let _l = tree.enter_scoped();
    tree.add_leaf(&format!("1.1"));
    {
        let _l = tree.enter_scoped();
        tree.add_leaf(&format!("1.1.1"));
    }
    tree.add_leaf(&format!("1.2"));
    assert_eq!(
        "\
1
├╼ 1.1
│ └╼ 1.1.1
└╼ 1.2",
        tree.flush_string()
    );
}

#[test]
fn named_branch() {
    let tree = TreeBuilder::new();
    let _l = tree.add_branch(&format!("11"));
    {
        let _l = tree.add_branch(&format!("11.1"));
        tree.add_leaf(&format!("11.1.1"));
    }
    tree.add_leaf(&format!("11.2"));
    assert_eq!(
        "\
11
├╼ 11.1
│ └╼ 11.1.1
└╼ 11.2",
        tree.flush_string()
    );
}

#[test]
fn test_branch() {
    let d: TreeBuilder = TreeBuilder::new();
    d.add_leaf("1");
    {
        let _l = d.enter_scoped();
        d.add_leaf("1.1");
        d.add_leaf("1.2");
    }
    d.add_leaf("2");
    d.add_leaf("3");
    let _l = d.enter_scoped();
    d.add_leaf("3.1");
    d.add_leaf("3.2");
    assert_eq!(
        "\
1
├╼ 1.1
└╼ 1.2
2
3
├╼ 3.1
└╼ 3.2",
        d.flush_string()
    );
}

#[test]
fn test_branch2() {
    let d = TreeBuilder::new();
    d.add_leaf("1");
    {
        let _scope = d.enter_scoped();
        d.add_leaf("1.1");
        {
            let _scope = d.enter_scoped();
            d.add_leaf("1.1.1");
        }
    }

    d.add_leaf("2");
    d.enter();
    d.add_leaf("2.1");
    d.enter();
    d.add_leaf("2.1.1");
    assert_eq!(
        "\
1
└╼ 1.1
  └╼ 1.1.1
2
└╼ 2.1
  └╼ 2.1.1",
        d.flush_string()
    );
}

#[test]
fn simple() {
    let d = TreeBuilder::new();
    d.add_leaf("Hi");
    assert_eq!("Hi", d.flush_string());
}

#[test]
fn depth() {
    let d = TreeBuilder::new();
    assert_eq!(0, d.depth());
    d.add_leaf("Hi");
    assert_eq!(0, d.depth());
    let _b = d.add_branch("Hi");
    assert_eq!(1, d.depth());
    d.add_leaf("Hi");
    assert_eq!(1, d.depth());
}

#[test]
fn indent() {
    let d = TreeBuilder::new();
    d.add_leaf("1");
    let _debug_tree_branch = if d.is_enabled() {
        d.enter_scoped()
    } else {
        ScopedBranch::none()
    };
    d.add_leaf("1.1");
    {
        let _debug_tree_branch = if d.is_enabled() {
            d.enter_scoped()
        } else {
            ScopedBranch::none()
        };
        d.add_leaf("1.1.1");
    }
    d.set_indentation(4);
    assert_eq!(
        "\
1
└──╼ 1.1
    └──╼ 1.1.1",
        d.flush_string()
    );
}

#[test]
fn macros() {
    let d = TreeBuilder::new();
    if d.is_enabled() {
        d.add_leaf(&format!("1"));
    }
    {
        let _debug_tree_branch = if d.is_enabled() {
            d.enter_scoped()
        } else {
            ScopedBranch::none()
        };
        if d.is_enabled() {
            d.add_leaf(&format!("1.1"));
        }
    }
    assert_eq!(
        "\
1
└╼ 1.1",
        d.flush_string()
    );
}

#[test]
fn leaf_with_value() {
    let d = TreeBuilder::new();
    let value = {
        let v = 1;
        if d.is_enabled() {
            d.add_leaf(&format!("{}", &v));
        }
        v
    };
    assert_eq!("1", d.flush_string());
    assert_eq!(1, value);
}

#[test]
fn macros2() {
    let d = TreeBuilder::new();
    let _debug_tree_branch = if d.is_enabled() {
        d.add_branch(&format!("1"))
    } else {
        ScopedBranch::none()
    };
    if d.is_enabled() {
        d.add_leaf(&format!("1.1"));
    }
    assert_eq!(
        "\
1
└╼ 1.1",
        d.flush_string()
    );
}

#[test]
fn mid() {
    let d = TreeBuilder::new();
    d.add_leaf(&format!("{}{}", "1", "0"));
    d.enter();
    d.add_leaf("10.1");
    d.add_leaf("10.2");
    d.enter();
    d.add_leaf("10.1.1");
    d.add_leaf("10.1.2\nNext line");
    d.exit();
    d.add_leaf(&format!("10.3"));
    assert_eq!(
        "\
10
├╼ 10.1
├╼ 10.2
│ ├╼ 10.1.1
│ └╼ 10.1.2
│    Next line
└╼ 10.3",
        d.flush_string()
    );
}

fn factors(tree: &TreeBuilder, x: usize) {
    let _l = tree.add_branch(&format!("{}", x));
    for i in 1..x {
        if x % i == 0 {
            factors(tree, i);
        }
    }
}

#[test]
fn recursive() {
    let tree = TreeBuilder::new();
    factors(&tree, 6);
    assert_eq!(
        "\
6
├╼ 1
├╼ 2
│ └╼ 1
└╼ 3
  └╼ 1",
        tree.flush_string()
    );
}

fn a(tree: &TreeBuilder) {
    let _l = tree.add_branch(&format!("a"));
    b(tree);
    c(tree);
}

fn b(tree: &TreeBuilder) {
    let _l = tree.add_branch(&format!("b"));
    c(tree);
}

fn c(tree: &TreeBuilder) {
    let _l = tree.add_branch(&format!("c"));
    tree.add_leaf(&format!("Nothing to see here"));
}

#[test]
fn nested() {
    let tree = TreeBuilder::new();
    a(&tree);
    assert_eq!(
        "\
a
├╼ b
│ └╼ c
│   └╼ Nothing to see here
└╼ c
  └╼ Nothing to see here",
        tree.flush_string()
    );
}

#[test]
fn disabled_output() {
    let tree = TreeBuilder::new();
    tree.set_enabled(false);
    if tree.is_enabled() {
        tree.add_leaf(&format!("Leaf"));
    }
    tree.add_leaf("Leaf");

    let _debug_tree_branch = if tree.is_enabled() {
        tree.add_branch(&format!("Branch"))
    } else {
        ScopedBranch::none()
    };
    tree.add_branch("Branch");
    assert_eq!("", tree.flush_string());
}

#[test]
fn enabled_output() {
    let tree = TreeBuilder::new();
    tree.set_enabled(false);
    let _debug_tree_branch = if tree.is_enabled() {
        tree.add_branch(&format!("Ignored branch"))
    } else {
        ScopedBranch::none()
    };
    if tree.is_enabled() {
        tree.add_leaf(&format!("Ignored leaf"));
    }
    tree.set_enabled(true);
    if tree.is_enabled() {
        tree.add_leaf(&format!("Leaf"));
    }
    tree.add_leaf("Leaf");

    let _debug_tree_branch = if tree.is_enabled() {
        tree.add_branch(&format!("Branch"))
    } else {
        ScopedBranch::none()
    };
    tree.add_branch("Branch");
    assert_eq!(
        "\
Leaf
Leaf
Branch
└╼ Branch",
        tree.flush_string()
    );
}
