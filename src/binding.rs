//! The binding model: one name (or one wildcard) introduced by an import.
use vstd::prelude::*;
use vstd::string::*;

verus! {

/// Visibility qualifier of an import declaration.
pub enum Visibility {
    Inherited,
    Public,
    /// `pub(...)`: the scope text between the parentheses, such as `crate`
    /// or `in crate::x`.
    Restricted(String),
}

/// Mathematical view of a [`Visibility`].
pub enum VisibilityView {
    Inherited,
    Public,
    Restricted(Seq<char>),
}

impl View for Visibility {
    type V = VisibilityView;

    open spec fn view(&self) -> VisibilityView {
        match self {
            Visibility::Inherited => VisibilityView::Inherited,
            Visibility::Public => VisibilityView::Public,
            Visibility::Restricted(s) => VisibilityView::Restricted(s@),
        }
    }
}

/// A path, or a list of attributes, seen as a sequence of texts.
pub open spec fn texts_view(v: Seq<String>) -> Seq<Seq<char>> {
    v.map_values(|s: String| s@)
}

/// One name introduced by an import declaration.
pub enum ProducedItem {
    /// `path::name`
    Single { name: String, path: Vec<String>, vis: Visibility, attrs: Vec<String> },
    /// `path::orig as name`
    Rename {
        name: String,
        orig: String,
        path: Vec<String>,
        vis: Visibility,
        attrs: Vec<String>,
    },
    /// `path::*`
    Glob { path: Vec<String>, vis: Visibility, attrs: Vec<String> },
}

/// Mathematical view of a [`ProducedItem`].
pub enum Binding {
    Single {
        name: Seq<char>,
        path: Seq<Seq<char>>,
        vis: VisibilityView,
        attrs: Seq<Seq<char>>,
    },
    Rename {
        name: Seq<char>,
        orig: Seq<char>,
        path: Seq<Seq<char>>,
        vis: VisibilityView,
        attrs: Seq<Seq<char>>,
    },
    Glob { path: Seq<Seq<char>>, vis: VisibilityView, attrs: Seq<Seq<char>> },
}

/// The merge key of a binding.
pub enum Identity {
    /// A plain or renamed binding is known by the name it introduces.
    Name(Seq<char>),
    /// A wildcard is known by the path it opens.
    GlobPath(Seq<Seq<char>>),
}

impl Binding {
    pub open spec fn identity(self) -> Identity {
        match self {
            Binding::Single { name, .. } => Identity::Name(name),
            Binding::Rename { name, .. } => Identity::Name(name),
            Binding::Glob { path, .. } => Identity::GlobPath(path),
        }
    }

    pub open spec fn source_path(self) -> Seq<Seq<char>> {
        match self {
            Binding::Single { path, .. } => path,
            Binding::Rename { path, .. } => path,
            Binding::Glob { path, .. } => path,
        }
    }
}

impl View for ProducedItem {
    type V = Binding;

    open spec fn view(&self) -> Binding {
        match self {
            ProducedItem::Single { name, path, vis, attrs } => Binding::Single {
                name: name@,
                path: texts_view(path@),
                vis: vis@,
                attrs: texts_view(attrs@),
            },
            ProducedItem::Rename { name, orig, path, vis, attrs } => Binding::Rename {
                name: name@,
                orig: orig@,
                path: texts_view(path@),
                vis: vis@,
                attrs: texts_view(attrs@),
            },
            ProducedItem::Glob { path, vis, attrs } => Binding::Glob {
                path: texts_view(path@),
                vis: vis@,
                attrs: texts_view(attrs@),
            },
        }
    }
}

/// The views of a sequence of bindings.
pub open spec fn bindings_view(v: Seq<ProducedItem>) -> Seq<Binding> {
    v.map_values(|p: ProducedItem| p@)
}

/// Compares two lists of texts element by element.
pub fn texts_equal(a: &Vec<String>, b: &Vec<String>) -> (r: bool)
    ensures
        r == (texts_view(a@) == texts_view(b@)),
{
    if a.len() != b.len() {
        proof {
            assert(texts_view(a@).len() != texts_view(b@).len());
        }
        return false;
    }
    let mut i: usize = 0;
    while i < a.len()
        invariant
            a.len() == b.len(),
            0 <= i <= a.len(),
            forall|k: int| 0 <= k < i ==> a@[k]@ == b@[k]@,
        decreases a.len() - i,
    {
        if a[i] != b[i] {
            proof {
                assert(texts_view(a@)[i as int] != texts_view(b@)[i as int]);
            }
            return false;
        }
        i = i + 1;
    }
    proof {
        assert(texts_view(a@) =~= texts_view(b@));
    }
    true
}

/// Copies a list of texts.
pub fn copy_texts(a: &Vec<String>) -> (r: Vec<String>)
    ensures
        texts_view(r@) == texts_view(a@),
        r@.len() == a@.len(),
{
    let mut r: Vec<String> = Vec::new();
    let mut i: usize = 0;
    while i < a.len()
        invariant
            0 <= i <= a.len(),
            r@.len() == i,
            forall|k: int| 0 <= k < i ==> r@[k]@ == a@[k]@,
        decreases a.len() - i,
    {
        r.push(a[i].clone());
        i = i + 1;
    }
    proof {
        assert(texts_view(r@) =~= texts_view(a@));
    }
    r
}

impl Visibility {
    /// Structural equality of two visibility qualifiers.
    pub fn is_same(&self, other: &Visibility) -> (r: bool)
        ensures
            r == (self@ == other@),
    {
        match (self, other) {
            (Visibility::Inherited, Visibility::Inherited) => true,
            (Visibility::Public, Visibility::Public) => true,
            (Visibility::Restricted(a), Visibility::Restricted(b)) => a.eq(b),
            _ => false,
        }
    }

    pub fn copy(&self) -> (r: Visibility)
        ensures
            r@ == self@,
    {
        match self {
            Visibility::Inherited => Visibility::Inherited,
            Visibility::Public => Visibility::Public,
            Visibility::Restricted(s) => Visibility::Restricted(s.clone()),
        }
    }
}

impl ProducedItem {
    /// Full equality: every field of the variant matches.
    pub fn is_same(&self, other: &ProducedItem) -> (r: bool)
        ensures
            r == (self@ == other@),
    {
        match (self, other) {
            (
                ProducedItem::Single { name: n1, path: p1, vis: v1, attrs: a1 },
                ProducedItem::Single { name: n2, path: p2, vis: v2, attrs: a2 },
            ) => n1.eq(n2) && texts_equal(p1, p2) && v1.is_same(v2) && texts_equal(a1, a2),
            (
                ProducedItem::Rename { name: n1, orig: o1, path: p1, vis: v1, attrs: a1 },
                ProducedItem::Rename { name: n2, orig: o2, path: p2, vis: v2, attrs: a2 },
            ) => n1.eq(n2) && texts_equal(p1, p2) && o1.eq(o2) && v1.is_same(v2) && texts_equal(
                a1,
                a2,
            ),
            (
                ProducedItem::Glob { path: p1, vis: v1, attrs: a1 },
                ProducedItem::Glob { path: p2, vis: v2, attrs: a2 },
            ) => texts_equal(p1, p2) && v1.is_same(v2) && texts_equal(a1, a2),
            _ => false,
        }
    }

    /// Identity equality: the two bindings are matched against each other
    /// when merging.
    pub fn same_identity(&self, other: &ProducedItem) -> (r: bool)
        ensures
            r == (self@.identity() == other@.identity()),
    {
        match (self, other) {
            (ProducedItem::Single { name: n1, .. }, ProducedItem::Single { name: n2, .. }) => n1.eq(n2),
            (ProducedItem::Rename { name: n1, .. }, ProducedItem::Rename { name: n2, .. }) => n1.eq(n2),
            (ProducedItem::Single { name: n1, .. }, ProducedItem::Rename { name: n2, .. }) => n1.eq(n2),
            (ProducedItem::Rename { name: n1, .. }, ProducedItem::Single { name: n2, .. }) => n1.eq(n2),
            (ProducedItem::Glob { path: p1, .. }, ProducedItem::Glob { path: p2, .. }) => {
                texts_equal(p1, p2)
            },
            _ => false,
        }
    }

    pub fn copy(&self) -> (r: ProducedItem)
        ensures
            r@ == self@,
    {
        match self {
            ProducedItem::Single { name, path, vis, attrs } => ProducedItem::Single {
                name: name.clone(),
                path: copy_texts(path),
                vis: vis.copy(),
                attrs: copy_texts(attrs),
            },
            ProducedItem::Rename { name, orig, path, vis, attrs } => ProducedItem::Rename {
                name: name.clone(),
                orig: orig.clone(),
                path: copy_texts(path),
                vis: vis.copy(),
                attrs: copy_texts(attrs),
            },
            ProducedItem::Glob { path, vis, attrs } => ProducedItem::Glob {
                path: copy_texts(path),
                vis: vis.copy(),
                attrs: copy_texts(attrs),
            },
        }
    }

    pub fn is_glob(&self) -> (r: bool)
        ensures
            r == (self@ is Glob),
    {
        match self {
            ProducedItem::Glob { .. } => true,
            _ => false,
        }
    }

    pub fn path(&self) -> (r: &Vec<String>)
        ensures
            texts_view(r@) == self@.source_path(),
    {
        match self {
            ProducedItem::Single { path, .. } => path,
            ProducedItem::Rename { path, .. } => path,
            ProducedItem::Glob { path, .. } => path,
        }
    }
}

/// Declaration text of a visibility qualifier followed by the `use` keyword.
pub open spec fn vis_text(v: VisibilityView) -> Seq<char> {
    match v {
        VisibilityView::Inherited => "use "@,
        VisibilityView::Public => "pub use "@,
        VisibilityView::Restricted(scope) => "pub("@ + scope + ") use "@,
    }
}

/// Each segment of a path followed by `::`.
pub open spec fn path_text(p: Seq<Seq<char>>) -> Seq<char>
    decreases p.len(),
{
    if p.len() == 0 {
        Seq::empty()
    } else {
        path_text(p.drop_last()) + p.last() + "::"@
    }
}

/// Each attribute followed by a space.
pub open spec fn attrs_text(attrs: Seq<Seq<char>>) -> Seq<char>
    decreases attrs.len(),
{
    if attrs.len() == 0 {
        Seq::empty()
    } else {
        attrs_text(attrs.drop_last()) + attrs.last() + " "@
    }
}

/// The one-line declaration, attributes first, that introduces exactly this binding.
pub open spec fn rendered(b: Binding) -> Seq<char> {
    match b {
        Binding::Single { name, path, vis, attrs } => attrs_text(attrs) + vis_text(vis) + path_text(
            path,
        ) + name + ";"@,
        Binding::Rename { name, orig, path, vis, attrs } => attrs_text(attrs) + vis_text(vis)
            + path_text(path) + orig + " as "@ + name + ";"@,
        Binding::Glob { path, vis, attrs } => attrs_text(attrs) + vis_text(vis) + path_text(path)
            + "*;"@,
    }
}

fn append_vis(s: &mut String, v: &Visibility)
    ensures
        final(s)@ == old(s)@ + vis_text(v@),
{
    match v {
        Visibility::Inherited => s.append("use "),
        Visibility::Public => s.append("pub use "),
        Visibility::Restricted(scope) => {
            s.append("pub(");
            s.append(scope.as_str());
            s.append(") use ");
            proof {
                assert(final(s)@ =~= old(s)@ + vis_text(v@));
            }
        },
    }
}

fn append_attrs(s: &mut String, attrs: &Vec<String>)
    ensures
        final(s)@ == old(s)@ + attrs_text(texts_view(attrs@)),
{
    let ghost start = s@;
    let mut i: usize = 0;
    while i < attrs.len()
        invariant
            0 <= i <= attrs.len(),
            s@ == start + attrs_text(texts_view(attrs@).take(i as int)),
        decreases attrs.len() - i,
    {
        s.append(attrs[i].as_str());
        s.append(" ");
        proof {
            let tv = texts_view(attrs@);
            assert(tv.take(i + 1).drop_last() =~= tv.take(i as int));
            assert(s@ =~= start + attrs_text(tv.take(i + 1)));
        }
        i = i + 1;
    }
    proof {
        assert(texts_view(attrs@).take(attrs.len() as int) =~= texts_view(attrs@));
    }
}

fn append_path(s: &mut String, path: &Vec<String>)
    ensures
        final(s)@ == old(s)@ + path_text(texts_view(path@)),
{
    let ghost start = s@;
    let mut i: usize = 0;
    while i < path.len()
        invariant
            0 <= i <= path.len(),
            s@ == start + path_text(texts_view(path@).take(i as int)),
        decreases path.len() - i,
    {
        s.append(path[i].as_str());
        s.append("::");
        proof {
            let tv = texts_view(path@);
            assert(tv.take(i + 1).drop_last() =~= tv.take(i as int));
            assert(s@ =~= start + path_text(tv.take(i + 1)));
        }
        i = i + 1;
    }
    proof {
        assert(texts_view(path@).take(path.len() as int) =~= texts_view(path@));
    }
}

impl ProducedItem {
    /// The declaration text of this binding, for reports and for the
    /// reconciled import block.
    pub fn render(&self) -> (r: String)
        ensures
            r@ == rendered(self@),
    {
        let mut s = String::new();
        match self {
            ProducedItem::Single { name, path, vis, attrs } => {
                append_attrs(&mut s, attrs);
                append_vis(&mut s, vis);
                append_path(&mut s, path);
                s.append(name.as_str());
                s.append(";");
            },
            ProducedItem::Rename { name, orig, path, vis, attrs } => {
                append_attrs(&mut s, attrs);
                append_vis(&mut s, vis);
                append_path(&mut s, path);
                s.append(orig.as_str());
                s.append(" as ");
                s.append(name.as_str());
                s.append(";");
            },
            ProducedItem::Glob { path, vis, attrs } => {
                append_attrs(&mut s, attrs);
                append_vis(&mut s, vis);
                append_path(&mut s, path);
                s.append("*;");
            },
        }
        proof {
            assert(s@ =~= rendered(self@));
        }
        s
    }
}

} // verus!
