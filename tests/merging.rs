use use_merge::binding::{ProducedItem, Visibility};
use use_merge::diff::diff_use_items;
use use_merge::extract::{base_set, ExtractError, Item, LineColumn, Snapshot, UseDecl, UseTree};
use use_merge::merge::{reconcile_files, render_block, MergeError};
use use_merge::reconcile::{reconcile, ReconcileError};
use use_merge::splice::{inject_use_items, SpliceError};

fn s(t: &str) -> String {
    t.to_string()
}

fn path(p: &[&str]) -> Vec<String> {
    p.iter().map(|x| x.to_string()).collect()
}

fn single(name: &str, p: &[&str]) -> ProducedItem {
    ProducedItem::Single { name: s(name), path: path(p), vis: Visibility::Inherited, attrs: vec![] }
}

fn rename(orig: &str, name: &str, p: &[&str]) -> ProducedItem {
    ProducedItem::Rename {
        name: s(name),
        orig: s(orig),
        path: path(p),
        vis: Visibility::Inherited,
        attrs: vec![],
    }
}

fn glob(p: &[&str]) -> ProducedItem {
    ProducedItem::Glob { path: path(p), vis: Visibility::Inherited, attrs: vec![] }
}

fn lc(line: usize, column: usize) -> LineColumn {
    LineColumn { line, column }
}

/// `use seg0::seg1::...::leaf;` as a tree.
fn tree(segs: &[&str], leaf: UseTree) -> UseTree {
    let mut t = leaf;
    for seg in segs.iter().rev() {
        t = UseTree::Path(s(seg), Box::new(t));
    }
    t
}

fn use_item(t: UseTree, line: usize) -> Item {
    Item::Use(UseDecl {
        vis: Visibility::Inherited,
        attrs: vec![],
        tree: t,
        start: lc(line, 0),
        end: lc(line, 9),
    })
}

fn snap(items: Vec<ProducedItem>) -> Snapshot {
    match Snapshot::new(items) {
        Ok(s) => s,
        Err(_) => panic!("duplicate identity"),
    }
}

fn sorted_lines(v: &[ProducedItem]) -> Vec<String> {
    let mut r: Vec<String> = v.iter().map(|p| p.render()).collect();
    r.sort();
    r
}

#[test]
fn render_forms() {
    assert_eq!(single("b", &["a"]).render(), "use a::b;");
    assert_eq!(rename("b", "c", &["a"]).render(), "use a::b as c;");
    assert_eq!(glob(&["m", "n"]).render(), "use m::n::*;");
    let p = ProducedItem::Single {
        name: s("x"),
        path: path(&["k"]),
        vis: Visibility::Public,
        attrs: vec![],
    };
    assert_eq!(p.render(), "pub use k::x;");
    let r = ProducedItem::Single {
        name: s("x"),
        path: vec![],
        vis: Visibility::Restricted(s("crate")),
        attrs: vec![],
    };
    assert_eq!(r.render(), "pub(crate) use x;");
}

#[test]
fn identity_and_full_equality() {
    assert!(single("b", &["a"]).same_identity(&rename("z", "b", &["q"])));
    assert!(!single("b", &["a"]).is_same(&rename("b", "b", &["a"])));
    assert!(!glob(&["a"]).same_identity(&single("a", &[])));
    assert!(glob(&["a"]).same_identity(&glob(&["a"])));
    assert!(!glob(&["a"]).same_identity(&glob(&["b"])));
    assert!(single("b", &["a"]).is_same(&single("b", &["a"])));
}

#[test]
fn group_and_self_expand() {
    // use p::{X, Y as Z, *, self};
    let group = UseTree::Group(vec![
        UseTree::Name(s("X")),
        UseTree::Rename(s("Y"), s("Z")),
        UseTree::Glob,
        UseTree::Name(s("self")),
    ]);
    let items = vec![use_item(tree(&["p", "q"], group), 1), Item::Other];
    let snapshot = match base_set(&items) {
        Ok(s) => s,
        Err(_) => panic!("unexpected duplicate"),
    };
    let lines: Vec<String> = snapshot.items.iter().map(|p| p.render()).collect();
    assert_eq!(
        lines,
        vec![s("use p::q::X;"), s("use p::q::Y as Z;"), s("use p::q::*;"), s("use p::q;")]
    );
}

#[test]
fn duplicate_identity_is_refused() {
    let items = vec![
        use_item(tree(&["a"], UseTree::Name(s("b"))), 1),
        use_item(tree(&["c"], UseTree::Name(s("b"))), 2),
    ];
    match base_set(&items) {
        Err(ExtractError::Duplicate(e)) => assert_eq!(e.item.render(), "use a::b;"),
        Err(ExtractError::MisplacedSelf) => panic!("no misplaced self here"),
        Ok(_) => panic!("duplicate accepted"),
    }
    let ok = vec![
        use_item(tree(&["a"], UseTree::Name(s("b"))), 1),
        use_item(tree(&["c"], UseTree::Name(s("d"))), 2),
    ];
    assert!(base_set(&ok).is_ok());
}

#[test]
fn diff_of_snapshot_with_itself_is_empty() {
    let a = snap(vec![single("b", &["a"]), glob(&["m"]), rename("x", "y", &["z"])]);
    let b = snap(vec![single("b", &["a"]), glob(&["m"]), rename("x", "y", &["z"])]);
    let d = diff_use_items(&a, &b);
    assert!(d.added.is_empty());
    assert!(d.removed.is_empty());
}

#[test]
fn diff_records_modification_as_remove_and_add() {
    let base = snap(vec![single("b", &["a"]), single("k", &["j"])]);
    let new = snap(vec![rename("b", "c", &["a"]), single("k", &["j"]), single("e", &["d"])]);
    let d = diff_use_items(&base, &new);
    assert_eq!(sorted_lines(&d.added), vec![s("use a::b as c;"), s("use d::e;")]);
    assert_eq!(sorted_lines(&d.removed), vec![s("use a::b;")]);
}

#[test]
fn unchanged_branch_yields_other_branch() {
    let base = snap(vec![single("b", &["a"]), single("k", &["j"])]);
    let a = snap(vec![single("b", &["a"]), single("e", &["d"])]);
    let b = snap(vec![single("b", &["a"]), single("k", &["j"])]);
    let da = diff_use_items(&base, &a);
    let db = diff_use_items(&base, &b);
    match reconcile(&base, &da, &db) {
        Ok(v) => assert_eq!(sorted_lines(&v), vec![s("use a::b;"), s("use d::e;")]),
        Err(_) => panic!("unexpected conflict"),
    }
}

#[test]
fn differing_additions_conflict() {
    let base = snap(vec![]);
    let a = snap(vec![single("x", &["p"])]);
    let b = snap(vec![rename("y", "x", &["q"])]);
    let da = diff_use_items(&base, &a);
    let db = diff_use_items(&base, &b);
    match reconcile(&base, &da, &db) {
        Err(ReconcileError::Conflicts(c)) => {
            assert_eq!(c.len(), 1);
            assert_eq!(c[0].0.render(), "use p::x;");
            assert_eq!(c[0].1.render(), "use q::y as x;");
        },
        Ok(_) => panic!("conflict missed"),
    }
}

#[test]
fn equal_additions_collapse() {
    let base = snap(vec![]);
    let a = snap(vec![single("x", &["p"])]);
    let b = snap(vec![single("x", &["p"])]);
    let da = diff_use_items(&base, &a);
    let db = diff_use_items(&base, &b);
    match reconcile(&base, &da, &db) {
        Ok(v) => assert_eq!(sorted_lines(&v), vec![s("use p::x;")]),
        Err(_) => panic!("unexpected conflict"),
    }
}

#[test]
fn glob_suppresses_named_import() {
    let base = snap(vec![]);
    let a = snap(vec![glob(&["mod"]), single("x", &["mod"])]);
    let b = snap(vec![]);
    let da = diff_use_items(&base, &a);
    let db = diff_use_items(&base, &b);
    match reconcile(&base, &da, &db) {
        Ok(v) => assert_eq!(sorted_lines(&v), vec![s("use mod::*;")]),
        Err(_) => panic!("unexpected conflict"),
    }
}

#[test]
fn removal_wins_over_untouched_copy() {
    let base = snap(vec![single("b", &["a"]), single("k", &["j"])]);
    let a = snap(vec![single("k", &["j"])]);
    let b = snap(vec![single("b", &["a"]), single("k", &["j"])]);
    let da = diff_use_items(&base, &a);
    let db = diff_use_items(&base, &b);
    match reconcile(&base, &da, &db) {
        Ok(v) => assert_eq!(sorted_lines(&v), vec![s("use j::k;")]),
        Err(_) => panic!("unexpected conflict"),
    }
}

#[test]
fn splice_empty_replacement_removes_the_import_line() {
    let source = "use a::b;\n";
    let items = vec![use_item(tree(&["a"], UseTree::Name(s("b"))), 1)];
    assert_eq!(inject_use_items("", source, &items), Ok(s("")));

    let source = "// head\nuse a::b;\n\nfn main() {}\n";
    let items = vec![use_item(tree(&["a"], UseTree::Name(s("b"))), 2), Item::Other];
    assert_eq!(inject_use_items("", source, &items), Ok(s("// head\n\nfn main() {}\n")));
}

#[test]
fn splice_replaces_every_import_group() {
    let source = "use a::b;\nuse c::{\n    d,\n};\n\nfn f() {}\nuse e::f;\nfn g() {}\n";
    let mut second = use_item(tree(&["c"], UseTree::Group(vec![UseTree::Name(s("d"))])), 2);
    if let Item::Use(d) = &mut second {
        d.end = lc(4, 2);
    }
    let items = vec![
        use_item(tree(&["a"], UseTree::Name(s("b"))), 1),
        second,
        Item::Other,
        use_item(tree(&["e"], UseTree::Name(s("f"))), 7),
        Item::Other,
    ];
    let out = inject_use_items("use x::y;\nuse z::w;\n", source, &items);
    assert_eq!(out, Ok(s("use x::y;\nuse z::w;\n\nfn f() {}\nfn g() {}\n")));
}

#[test]
fn splice_keeps_indentation() {
    let source = "mod m {\n    use a::b;\n}\n";
    let items = vec![Item::Use(UseDecl {
        vis: Visibility::Inherited,
        attrs: vec![],
        tree: tree(&["a"], UseTree::Name(s("b"))),
        start: lc(2, 4),
        end: lc(2, 13),
    })];
    let out = inject_use_items("use p::q;\nuse r::s;\n", source, &items);
    assert_eq!(out, Ok(s("mod m {\n    use p::q;\n    use r::s;\n}\n")));
}

#[test]
fn splice_errors() {
    let source = "fn f() {}\n";
    assert_eq!(inject_use_items("use a::b;\n", source, &vec![Item::Other]), Err(SpliceError::NoImports));
    let far = vec![use_item(tree(&["a"], UseTree::Name(s("b"))), 5)];
    assert_eq!(inject_use_items("", source, &far), Err(SpliceError::StartOutOfText));
    let code_before = vec![Item::Use(UseDecl {
        vis: Visibility::Inherited,
        attrs: vec![],
        tree: tree(&["a"], UseTree::Name(s("b"))),
        start: lc(1, 3),
        end: lc(1, 12),
    })];
    assert_eq!(inject_use_items("", "fn use a::b;\n", &code_before), Err(SpliceError::NotAtLineStart));
}

#[test]
fn splice_gives_identical_import_regions() {
    let block = "use a::b as c;\nuse d::e;\n";
    let base = "use a::b;\n\nfn one() {}\n";
    let b = "use a::b;\nuse d::e;\n\nfn two() {}\n";
    let base_items = vec![use_item(tree(&["a"], UseTree::Name(s("b"))), 1), Item::Other];
    let b_items = vec![
        use_item(tree(&["a"], UseTree::Name(s("b"))), 1),
        use_item(tree(&["d"], UseTree::Name(s("e"))), 2),
        Item::Other,
    ];
    let base_out = inject_use_items(block, base, &base_items).unwrap();
    let b_out = inject_use_items(block, b, &b_items).unwrap();
    assert_eq!(base_out, "use a::b as c;\nuse d::e;\n\nfn one() {}\n");
    assert_eq!(b_out, "use a::b as c;\nuse d::e;\n\nfn two() {}\n");
}

#[test]
fn end_to_end_rename_and_addition() {
    let base = vec![use_item(tree(&["a"], UseTree::Name(s("b"))), 1)];
    let a = vec![use_item(tree(&["a"], UseTree::Rename(s("b"), s("c"))), 1)];
    let b = vec![
        use_item(tree(&["a"], UseTree::Name(s("b"))), 1),
        use_item(tree(&["d"], UseTree::Name(s("e"))), 2),
        Item::Other,
    ];
    match reconcile_files(&base, &a, &b) {
        Ok(v) => {
            assert_eq!(sorted_lines(&v), vec![s("use a::b as c;"), s("use d::e;")]);
            let text = render_block(&v);
            assert!(text.contains("use a::b as c;\n"));
            assert!(text.contains("use d::e;\n"));
            assert_eq!(text.lines().count(), 2);
            let base_src = "use a::b;\n\nfn main() {}\n";
            let a_src = "use a::b as c;\n\nfn main() {}\n";
            let b_src = "use a::b;\nuse d::e;\n\nfn main() {\n    run();\n}\n";
            let spliced_base = inject_use_items(&text, base_src, &base).unwrap();
            let spliced_a = inject_use_items(&text, a_src, &a).unwrap();
            let spliced_b = inject_use_items(&text, b_src, &b).unwrap();
            assert_eq!(spliced_base, format!("{}\nfn main() {{}}\n", text));
            assert_eq!(spliced_a, spliced_base);
            assert_eq!(spliced_b, format!("{}\nfn main() {{\n    run();\n}}\n", text));
        },
        Err(_) => panic!("unexpected failure"),
    }
}

#[test]
fn renames_of_one_import_to_different_names_are_both_kept() {
    // `as x` and `as y` introduce different names, so they share no identity.
    let base = vec![use_item(tree(&["a"], UseTree::Name(s("b"))), 1)];
    let a = vec![use_item(tree(&["a"], UseTree::Rename(s("b"), s("x"))), 1)];
    let b = vec![use_item(tree(&["a"], UseTree::Rename(s("b"), s("y"))), 1)];
    match reconcile_files(&base, &a, &b) {
        Ok(v) => assert_eq!(sorted_lines(&v), vec![s("use a::b as x;"), s("use a::b as y;")]),
        Err(_) => panic!("unexpected failure"),
    }
}

#[test]
fn end_to_end_conflicting_additions() {
    let base = vec![use_item(tree(&["a"], UseTree::Name(s("b"))), 1)];
    let a = vec![
        use_item(tree(&["a"], UseTree::Name(s("b"))), 1),
        use_item(tree(&["p"], UseTree::Rename(s("q"), s("x"))), 2),
    ];
    let b = vec![
        use_item(tree(&["a"], UseTree::Name(s("b"))), 1),
        use_item(tree(&["r"], UseTree::Name(s("x"))), 2),
    ];
    match reconcile_files(&base, &a, &b) {
        Err(MergeError::Conflicts(c)) => {
            assert_eq!(c.len(), 1);
            assert_eq!(c[0].0.render(), "use p::q as x;");
            assert_eq!(c[0].1.render(), "use r::x;");
        },
        _ => panic!("conflict missed"),
    }
}

#[test]
fn duplicate_in_branch_is_refused() {
    let base = vec![use_item(tree(&["a"], UseTree::Name(s("b"))), 1)];
    let a = vec![
        use_item(tree(&["a"], UseTree::Name(s("b"))), 1),
        use_item(tree(&["c"], UseTree::Name(s("b"))), 2),
    ];
    let b = vec![use_item(tree(&["a"], UseTree::Name(s("b"))), 1)];
    assert!(matches!(reconcile_files(&base, &a, &b), Err(MergeError::Duplicate(_))));
}

#[test]
fn render_writes_attributes_first() {
    let p = ProducedItem::Single {
        name: s("b"),
        path: path(&["a"]),
        vis: Visibility::Inherited,
        attrs: vec![s("#[cfg(test)]")],
    };
    assert_eq!(p.render(), "#[cfg(test)] use a::b;");
    let g = ProducedItem::Glob {
        path: path(&["m"]),
        vis: Visibility::Public,
        attrs: vec![s("#[doc(hidden)]"), s("#[allow(unused)]")],
    };
    assert_eq!(g.render(), "#[doc(hidden)] #[allow(unused)] pub use m::*;");
    assert_ne!(p.render(), single("b", &["a"]).render());
}

#[test]
fn self_outside_a_path_is_refused() {
    // use {self};
    let items = vec![use_item(UseTree::Group(vec![UseTree::Name(s("self"))]), 1)];
    assert!(matches!(base_set(&items), Err(ExtractError::MisplacedSelf)));
    let fine = vec![use_item(tree(&["m"], UseTree::Group(vec![UseTree::Name(s("self"))])), 1)];
    assert!(base_set(&fine).is_ok());
}

#[test]
fn duplicate_payload_comes_from_first_malformed_file() {
    let base = vec![use_item(tree(&["a"], UseTree::Name(s("b"))), 1)];
    let a = vec![use_item(tree(&["a"], UseTree::Name(s("b"))), 1)];
    let b = vec![
        use_item(tree(&["p"], UseTree::Name(s("q"))), 1),
        use_item(tree(&["r"], UseTree::Name(s("q"))), 2),
    ];
    match reconcile_files(&base, &a, &b) {
        Err(MergeError::Duplicate(d)) => assert_eq!(d.item.render(), "use p::q;"),
        _ => panic!("duplicate missed"),
    }
}
