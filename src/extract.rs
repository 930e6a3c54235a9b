//! The snapshot extractor: the bindings that a file's top-level imports
//! introduce.
use vstd::prelude::*;
use crate::binding::{Binding, ProducedItem, Visibility, VisibilityView, texts_view, bindings_view, copy_texts};

verus! {

/// A position in source text: 1-based line, 0-based column in characters.
#[derive(Clone, Copy, Debug, PartialEq, Eq, Structural)]
pub struct LineColumn {
    pub line: usize,
    pub column: usize,
}

/// The tree of one import declaration.
pub enum UseTree {
    /// `segment::tree`
    Path(String, Box<UseTree>),
    /// `name`, or `self` for the module named by the enclosing path.
    Name(String),
    /// `orig as name`: the first text is the original name, the second the
    /// new one.
    Rename(String, String),
    /// `*`
    Glob,
    /// `{tree, tree, ...}`
    Group(Vec<UseTree>),
}

/// One top-level import declaration with its source span.
pub struct UseDecl {
    pub vis: Visibility,
    pub attrs: Vec<String>,
    pub tree: UseTree,
    /// Start of the declaration: of its first attribute, else of its
    /// visibility, else of the `use` keyword.
    pub start: LineColumn,
    /// End of the terminating `;`.
    pub end: LineColumn,
}

/// A top-level item of a parsed file.
pub enum Item {
    Use(UseDecl),
    Other,
}

/// The bindings produced by the leaf `name` under `prefix`.
pub open spec fn leaf_binding(
    name: Seq<char>,
    prefix: Seq<Seq<char>>,
    vis: VisibilityView,
    attrs: Seq<Seq<char>>,
) -> Binding {
    if name == "self"@ && prefix.len() > 0 {
        Binding::Single { name: prefix.last(), path: prefix.drop_last(), vis, attrs }
    } else {
        Binding::Single { name, path: prefix, vis, attrs }
    }
}

/// The bindings of a tree whose enclosing path is `prefix`, leaves in
/// source order.
pub open spec fn tree_bindings(
    t: UseTree,
    prefix: Seq<Seq<char>>,
    vis: VisibilityView,
    attrs: Seq<Seq<char>>,
) -> Seq<Binding>
    decreases t,
{
    match t {
        UseTree::Path(seg, sub) => tree_bindings(*sub, prefix.push(seg@), vis, attrs),
        UseTree::Name(name) => seq![leaf_binding(name@, prefix, vis, attrs)],
        UseTree::Rename(orig, name) => seq![
            Binding::Rename { name: name@, orig: orig@, path: prefix, vis, attrs },
        ],
        UseTree::Glob => seq![Binding::Glob { path: prefix, vis, attrs }],
        UseTree::Group(items) => group_bindings(items@, prefix, vis, attrs),
    }
}

/// The bindings of the trees of a group, one tree after the other.
pub open spec fn group_bindings(
    ts: Seq<UseTree>,
    prefix: Seq<Seq<char>>,
    vis: VisibilityView,
    attrs: Seq<Seq<char>>,
) -> Seq<Binding>
    decreases ts,
{
    if ts.len() == 0 {
        Seq::empty()
    } else {
        group_bindings(ts.drop_last(), prefix, vis, attrs) + tree_bindings(
            ts.last(),
            prefix,
            vis,
            attrs,
        )
    }
}

/// No `self` leaf of the tree stands outside a path; `nested` says that the
/// tree lies under at least one path segment.
pub open spec fn tree_self_placed(t: UseTree, nested: bool) -> bool
    decreases t,
{
    match t {
        UseTree::Path(_, sub) => tree_self_placed(*sub, true),
        UseTree::Name(name) => nested || name@ != "self"@,
        UseTree::Group(items) => group_self_placed(items@, nested),
        _ => true,
    }
}

/// No `self` leaf of the trees of a group stands outside a path.
pub open spec fn group_self_placed(ts: Seq<UseTree>, nested: bool) -> bool
    decreases ts,
{
    if ts.len() == 0 {
        true
    } else {
        group_self_placed(ts.drop_last(), nested) && tree_self_placed(ts.last(), nested)
    }
}

/// No top-level import of the file has a `self` leaf outside a path.
pub open spec fn file_self_placed(items: Seq<Item>) -> bool
    decreases items.len(),
{
    if items.len() == 0 {
        true
    } else {
        file_self_placed(items.drop_last()) && match items.last() {
            Item::Use(d) => tree_self_placed(d.tree, false),
            Item::Other => true,
        }
    }
}

proof fn lemma_group_self_placed(ts: Seq<UseTree>, nested: bool, i: int)
    requires
        group_self_placed(ts, nested),
        0 <= i < ts.len(),
    ensures
        tree_self_placed(ts[i], nested),
    decreases ts.len(),
{
    if i < ts.len() - 1 {
        lemma_group_self_placed(ts.drop_last(), nested, i);
    }
}

proof fn lemma_file_self_placed(items: Seq<Item>, i: int)
    requires
        file_self_placed(items),
        0 <= i < items.len(),
    ensures
        items[i] matches Item::Use(d) ==> tree_self_placed(d.tree, false),
    decreases items.len(),
{
    if i < items.len() - 1 {
        lemma_file_self_placed(items.drop_last(), i);
    }
}

/// Whether no `self` leaf of the tree stands outside a path.
fn self_placed(t: &UseTree, nested: bool) -> (r: bool)
    ensures
        r == tree_self_placed(*t, nested),
    decreases t,
{
    match t {
        UseTree::Path(_, sub) => self_placed(sub, true),
        UseTree::Name(name) => nested || !is_self_keyword(name),
        UseTree::Group(items) => {
            let mut i: usize = 0;
            while i < items.len()
                invariant
                    0 <= i <= items.len(),
                    (*t) is Group && (*t)->Group_0 == *items,
                    group_self_placed(items@.take(i as int), nested),
                decreases items.len() - i,
            {
                proof {
                    broadcast use vstd::std_specs::vec::axiom_vec_index_decreases;

                    assert(decreases_to!(*t => (*t)->Group_0));
                    assert(decreases_to!((*t)->Group_0 => (*t)->Group_0@));
                    assert(decreases_to!((*t)->Group_0@ => items@[i as int]));
                    assert(items@.take(i + 1).drop_last() =~= items@.take(i as int));
                    assert(items@.take(i + 1).last() == items@[i as int]);
                }
                if !self_placed(&items[i], nested) {
                    proof {
                        if group_self_placed(items@, nested) {
                            lemma_group_self_placed(items@, nested, i as int);
                        }
                    }
                    return false;
                }
                i = i + 1;
            }
            proof {
                assert(items@.take(items.len() as int) =~= items@);
            }
            true
        },
        _ => true,
    }
}

/// Whether no top-level import of the file has a `self` leaf outside a path.
pub fn file_self_placed_exec(items: &Vec<Item>) -> (r: bool)
    ensures
        r == file_self_placed(items@),
{
    let mut i: usize = 0;
    while i < items.len()
        invariant
            0 <= i <= items.len(),
            file_self_placed(items@.take(i as int)),
        decreases items.len() - i,
    {
        proof {
            assert(items@.take(i + 1).drop_last() =~= items@.take(i as int));
            assert(items@.take(i + 1).last() == items@[i as int]);
        }
        if let Item::Use(d) = &items[i] {
            if !self_placed(&d.tree, false) {
                proof {
                    if file_self_placed(items@) {
                        lemma_file_self_placed(items@, i as int);
                    }
                }
                return false;
            }
        }
        i = i + 1;
    }
    proof {
        assert(items@.take(items.len() as int) =~= items@);
    }
    true
}

/// The bindings of one declaration.
pub open spec fn decl_bindings(d: UseDecl) -> Seq<Binding> {
    tree_bindings(d.tree, Seq::empty(), d.vis@, texts_view(d.attrs@))
}

/// The bindings of every top-level import of a file, in source order.
pub open spec fn file_bindings(items: Seq<Item>) -> Seq<Binding>
    decreases items.len(),
{
    if items.len() == 0 {
        Seq::empty()
    } else {
        file_bindings(items.drop_last()) + match items.last() {
            Item::Use(d) => decl_bindings(d),
            Item::Other => Seq::empty(),
        }
    }
}

/// No two bindings of the sequence share an identity.
pub open spec fn unique_identities(s: Seq<Binding>) -> bool {
    forall|i: int, j: int|
        0 <= i < s.len() && 0 <= j < s.len() && i != j ==> #[trigger] s[i].identity()
            != #[trigger] s[j].identity()
}

fn is_self_keyword(s: &String) -> (r: bool)
    ensures
        r == (s@ == "self"@),
{
    proof {
        reveal_strlit("self");
    }
    let t = s.as_str();
    if t.unicode_len() != 4 {
        return false;
    }
    let r = t.get_char(0) == 's' && t.get_char(1) == 'e' && t.get_char(2) == 'l' && t.get_char(3)
        == 'f';
    proof {
        if r {
            assert(s@ =~= "self"@);
        }
    }
    r
}

/// Appends the bindings of `t`, whose enclosing path is `cur_path`, to `out`.
fn produced_names_inner(
    t: &UseTree,
    cur_path: &mut Vec<String>,
    out: &mut Vec<ProducedItem>,
    vis: &Visibility,
    attrs: &Vec<String>,
)
    requires
        tree_self_placed(*t, old(cur_path)@.len() > 0),
    ensures
        final(cur_path)@ == old(cur_path)@,
        bindings_view(final(out)@) == bindings_view(old(out)@) + tree_bindings(
            *t,
            texts_view(old(cur_path)@),
            vis@,
            texts_view(attrs@),
        ),
    decreases t,
{
    let ghost prefix = texts_view(cur_path@);
    let ghost start = bindings_view(out@);
    match t {
        UseTree::Path(seg, sub) => {
            cur_path.push(seg.clone());
            proof {
                assert(texts_view(cur_path@) =~= prefix.push(seg@));
            }
            produced_names_inner(sub, cur_path, out, vis, attrs);
            cur_path.pop();
            proof {
                assert(cur_path@ =~= old(cur_path)@);
            }
        },
        UseTree::Name(name) => {
            let item = if is_self_keyword(name) && cur_path.len() > 0 {
                let mut path = copy_texts(cur_path);
                let last = path.pop().unwrap();
                proof {
                    assert(texts_view(path@) =~= prefix.drop_last());
                }
                ProducedItem::Single { name: last, path, vis: vis.copy(), attrs: copy_texts(attrs) }
            } else {
                ProducedItem::Single {
                    name: name.clone(),
                    path: copy_texts(cur_path),
                    vis: vis.copy(),
                    attrs: copy_texts(attrs),
                }
            };
            out.push(item);
            proof {
                assert(bindings_view(out@) =~= start + tree_bindings(
                    *t,
                    prefix,
                    vis@,
                    texts_view(attrs@),
                ));
            }
        },
        UseTree::Rename(orig, name) => {
            out.push(
                ProducedItem::Rename {
                    name: name.clone(),
                    orig: orig.clone(),
                    path: copy_texts(cur_path),
                    vis: vis.copy(),
                    attrs: copy_texts(attrs),
                },
            );
            proof {
                assert(bindings_view(out@) =~= start + tree_bindings(
                    *t,
                    prefix,
                    vis@,
                    texts_view(attrs@),
                ));
            }
        },
        UseTree::Glob => {
            out.push(
                ProducedItem::Glob { path: copy_texts(cur_path), vis: vis.copy(), attrs: copy_texts(attrs) },
            );
            proof {
                assert(bindings_view(out@) =~= start + tree_bindings(
                    *t,
                    prefix,
                    vis@,
                    texts_view(attrs@),
                ));
            }
        },
        UseTree::Group(items) => {
            let mut i: usize = 0;
            while i < items.len()
                invariant
                    0 <= i <= items.len(),
                    cur_path@ == old(cur_path)@,
                    prefix == texts_view(old(cur_path)@),
                    (*t) is Group && (*t)->Group_0 == *items,
                    group_self_placed(items@, cur_path@.len() > 0),
                    bindings_view(out@) == start + group_bindings(
                        items@.take(i as int),
                        prefix,
                        vis@,
                        texts_view(attrs@),
                    ),
                decreases items.len() - i,
            {
                proof {
                    broadcast use vstd::std_specs::vec::axiom_vec_index_decreases;

                    assert(decreases_to!(*t => (*t)->Group_0));
                    assert(decreases_to!((*t)->Group_0 => (*t)->Group_0@));
                    assert(decreases_to!((*t)->Group_0@ => items@[i as int]));
                    lemma_group_self_placed(items@, cur_path@.len() > 0, i as int);
                }
                produced_names_inner(&items[i], cur_path, out, vis, attrs);
                proof {
                    assert(items@.take(i + 1).drop_last() =~= items@.take(i as int));
                    assert(bindings_view(out@) =~= start + group_bindings(
                        items@.take(i + 1),
                        prefix,
                        vis@,
                        texts_view(attrs@),
                    ));
                }
                i = i + 1;
            }
            proof {
                assert(items@.take(items.len() as int) =~= items@);
            }
        },
    }
}

/// Appends the bindings of one declaration to `out`.
pub fn produced_names(d: &UseDecl, out: &mut Vec<ProducedItem>)
    requires
        tree_self_placed(d.tree, false),
    ensures
        bindings_view(final(out)@) == bindings_view(old(out)@) + decl_bindings(*d),
{
    let mut cur_path: Vec<String> = Vec::new();
    proof {
        assert(texts_view(cur_path@) =~= Seq::empty());
    }
    produced_names_inner(&d.tree, &mut cur_path, out, &d.vis, &d.attrs);
}

/// All bindings of the top-level imports, in source order.
pub fn collect_bindings(items: &Vec<Item>) -> (r: Vec<ProducedItem>)
    requires
        file_self_placed(items@),
    ensures
        bindings_view(r@) == file_bindings(items@),
{
    let mut out: Vec<ProducedItem> = Vec::new();
    let mut i: usize = 0;
    proof {
        assert(bindings_view(out@) =~= file_bindings(items@.take(0)));
    }
    while i < items.len()
        invariant
            0 <= i <= items.len(),
            bindings_view(out@) == file_bindings(items@.take(i as int)),
            file_self_placed(items@),
        decreases items.len() - i,
    {
        proof {
            assert(items@.take(i + 1).drop_last() =~= items@.take(i as int));
            lemma_file_self_placed(items@, i as int);
        }
        match &items[i] {
            Item::Use(d) => {
                produced_names(d, &mut out);
            },
            Item::Other => {
                proof {
                    assert(bindings_view(out@) =~= file_bindings(items@.take(i + 1)));
                }
            },
        }
        i = i + 1;
    }
    proof {
        assert(items@.take(items.len() as int) =~= items@);
    }
    out
}

/// The bindings that one file introduces, no two sharing an identity.
pub struct Snapshot {
    pub items: Vec<ProducedItem>,
}

impl Snapshot {
    pub open spec fn bindings(&self) -> Seq<Binding> {
        bindings_view(self.items@)
    }

    pub open spec fn wf(&self) -> bool {
        unique_identities(self.bindings())
    }

    /// The snapshot as a set of bindings.
    pub open spec fn set(&self) -> Set<Binding> {
        self.bindings().to_set()
    }

    /// Builds a snapshot, refusing two bindings with one identity.
    ///
    /// The error holds the earlier of the first two such bindings.
    pub fn new(items: Vec<ProducedItem>) -> (r: Result<Snapshot, DuplicateBinding>)
        ensures
            r is Ok <==> unique_identities(bindings_view(items@)),
            r matches Ok(s) ==> s.items@ == items@,
            r matches Err(e) ==> exists|i: int, j: int|
                0 <= i < j < items@.len() && items@[i]@.identity() == items@[j]@.identity()
                    && e.item@ == items@[i]@,
    {
        let ghost v = bindings_view(items@);
        let mut j: usize = 0;
        while j < items.len()
            invariant
                0 <= j <= items.len(),
                v == bindings_view(items@),
                forall|a: int, b: int|
                    0 <= a < j && 0 <= b < j && a != b ==> #[trigger] v[a].identity()
                        != #[trigger] v[b].identity(),
            decreases items.len() - j,
        {
            let mut i: usize = 0;
            while i < j
                invariant
                    0 <= i <= j < items.len(),
                    v == bindings_view(items@),
                    forall|a: int| 0 <= a < i ==> v[a].identity() != v[j as int].identity(),
                decreases j - i,
            {
                if items[i].same_identity(&items[j]) {
                    proof {
                        assert(v[i as int].identity() == v[j as int].identity());
                        assert(!unique_identities(v));
                    }
                    return Err(DuplicateBinding { item: items[i].copy() });
                }
                i = i + 1;
            }
            j = j + 1;
        }
        Ok(Snapshot { items })
    }
}

/// Two bindings of one file share an identity: the file is malformed.
pub struct DuplicateBinding {
    pub item: ProducedItem,
}

/// `x` is the earlier of two bindings of `s` that share an identity.
pub open spec fn duplicate_witness(s: Seq<Binding>, x: Binding) -> bool {
    exists|i: int, j: int|
        0 <= i < j < s.len() && s[i].identity() == s[j].identity() && x == s[i]
}

/// Why a file's imports give no snapshot.
pub enum ExtractError {
    /// A `self` leaf stands outside any path, as in `use {self};`.
    MisplacedSelf,
    /// Two bindings of the file share an identity.
    Duplicate(DuplicateBinding),
}

/// The snapshot of a parsed file's top-level imports.
pub fn base_set(items: &Vec<Item>) -> (r: Result<Snapshot, ExtractError>)
    ensures
        r matches Err(ExtractError::MisplacedSelf) <==> !file_self_placed(items@),
        r is Ok <==> file_self_placed(items@) && unique_identities(file_bindings(items@)),
        r matches Ok(s) ==> s.bindings() == file_bindings(items@),
        r matches Err(ExtractError::Duplicate(e)) ==> duplicate_witness(
            file_bindings(items@),
            e.item@,
        ),
{
    if !file_self_placed_exec(items) {
        return Err(ExtractError::MisplacedSelf);
    }
    let v = collect_bindings(items);
    match Snapshot::new(v) {
        Ok(s) => Ok(s),
        Err(e) => {
            proof {
                let i = choose|i: int, j: int|
                    0 <= i < j < v@.len() && v@[i]@.identity() == v@[j]@.identity() && e.item@
                        == v@[i]@;
                assert(bindings_view(v@)[i.0] == v@[i.0]@);
                assert(bindings_view(v@)[i.1] == v@[i.1]@);
            }
            Err(ExtractError::Duplicate(e))
        },
    }
}

} // verus!
