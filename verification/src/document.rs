//! The arena-based document tree.
//!
//! A [`Document`] owns all nodes; a node is addressed by an opaque
//! [`NodeKey`] rather than by an owning pointer, and an element's attributes
//! live out of line in a parallel table. Nodes are created bottom-up: an
//! element may only reference children that already exist, so every child
//! key is strictly smaller than its parent's, which is the well-formedness
//! invariant ([`Document::wf`]) that the recursive printer's termination
//! rests on.

use indexmap::IndexMap;
use vstd::prelude::*;

use crate::attrs::{attr_entries, attrs_insert, attrs_new, insert_entry};

verus! {

/// A structural defect found while rendering.
#[derive(Debug, Clone, Copy, PartialEq, Eq, Structural)]
pub enum XmlError {
    /// A key referenced by a child list, by the leading or trailing
    /// sequence, or as the root has no node in the arena.
    BrokenReference,
    /// The root key names a node that is not an element.
    InvalidRoot,
}

/// An opaque, copyable handle identifying one node within one `Document`.
/// A key has no meaning across different documents.
#[derive(Debug, Clone, Copy, PartialEq, Eq, Hash, Structural)]
pub struct NodeKey {
    idx: usize,
}

impl View for NodeKey {
    type V = int;

    closed spec fn view(&self) -> int {
        self.idx as int
    }
}

/// The processing-instruction data rendered as `<?xml ... ?>`.
#[derive(Debug, Clone)]
pub struct Declaration {
    pub version: Option<String>,
    pub encoding: Option<String>,
    pub standalone: Option<String>,
}

/// Mathematical model of a [`Declaration`].
pub struct DeclView {
    pub version: Option<Seq<char>>,
    pub encoding: Option<Seq<char>>,
    pub standalone: Option<Seq<char>>,
}

pub open spec fn opt_str_view(o: Option<String>) -> Option<Seq<char>> {
    match o {
        Some(s) => Some(s@),
        None => None,
    }
}

impl View for Declaration {
    type V = DeclView;

    open spec fn view(&self) -> DeclView {
        DeclView {
            version: opt_str_view(self.version),
            encoding: opt_str_view(self.encoding),
            standalone: opt_str_view(self.standalone),
        }
    }
}

/// An element: a tag name and the keys of its children, in document order.
#[derive(Debug, Clone)]
pub struct ElementValue {
    pub name: String,
    pub children: Vec<NodeKey>,
}

/// Mathematical model of an [`ElementValue`]: the name and the child keys as
/// arena indices.
pub struct ElementView {
    pub name: Seq<char>,
    pub children: Seq<int>,
}

pub open spec fn keys_view(keys: Seq<NodeKey>) -> Seq<int> {
    keys.map(|i: int, k: NodeKey| k@)
}

impl View for ElementValue {
    type V = ElementView;

    open spec fn view(&self) -> ElementView {
        ElementView { name: self.name@, children: keys_view(self.children@) }
    }
}

/// One node of the tree.
#[derive(Debug, Clone)]
pub enum NodeValue {
    /// A tag with children; its attributes live in the document's attribute
    /// table.
    Element(ElementValue),
    /// Character data, entity-escaped and whitespace-trimmed when rendered.
    Text(String),
    /// Character data rendered inside a CDATA section, never escaped.
    CData(String),
    /// A document-type declaration payload, rendered verbatim.
    DocumentType(String),
    /// A comment payload, rendered verbatim.
    Comment(String),
}

/// Mathematical model of a [`NodeValue`].
pub enum NodeView {
    Element(ElementView),
    Text(Seq<char>),
    CData(Seq<char>),
    DocumentType(Seq<char>),
    Comment(Seq<char>),
}

impl View for NodeValue {
    type V = NodeView;

    open spec fn view(&self) -> NodeView {
        match self {
            NodeValue::Element(e) => NodeView::Element(e@),
            NodeValue::Text(t) => NodeView::Text(t@),
            NodeValue::CData(t) => NodeView::CData(t@),
            NodeValue::DocumentType(t) => NodeView::DocumentType(t@),
            NodeValue::Comment(t) => NodeView::Comment(t@),
        }
    }
}

pub open spec fn opt_decl_view(o: Option<Declaration>) -> Option<DeclView> {
    match o {
        Some(d) => Some(d@),
        None => None,
    }
}

/// Mathematical model of a [`Document`].
pub struct DocView {
    /// The arena: node models by index.
    pub nodes: Seq<NodeView>,
    /// Attribute entries per node, parallel to `nodes`; empty for
    /// non-elements.
    pub attrs: Seq<Seq<(Seq<char>, Seq<char>)>>,
    /// Index of the content root.
    pub root: int,
    /// The optional leading declaration.
    pub decl: Option<DeclView>,
    /// Indices of top-level siblings printed before the root.
    pub before: Seq<int>,
    /// Indices of top-level siblings printed after the root.
    pub after: Seq<int>,
}

/// The owning arena.
pub struct Document {
    nodes: Vec<NodeValue>,
    attrs: Vec<IndexMap<String, String>>,
    root_key: NodeKey,
    decl: Option<Declaration>,
    before: Vec<NodeKey>,
    after: Vec<NodeKey>,
}

impl View for Document {
    type V = DocView;

    closed spec fn view(&self) -> DocView {
        DocView {
            nodes: self.nodes@.map(|i: int, n: NodeValue| n@),
            attrs: self.attrs@.map(|i: int, m: IndexMap<String, String>| attr_entries(m)),
            root: self.root_key@,
            decl: opt_decl_view(self.decl),
            before: keys_view(self.before@),
            after: keys_view(self.after@),
        }
    }
}

/// Every child key of an element at arena index `i` is in range and strictly
/// smaller than `i`.
pub open spec fn node_wf(n: NodeView, i: int) -> bool {
    n matches NodeView::Element(e) ==> forall|j: int|
        0 <= j < e.children.len() ==> 0 <= #[trigger] e.children[j] < i
}

/// Well-formedness of a document model: the attribute table is parallel to
/// the arena, and children always precede their parent in the arena (which
/// is what rendering's termination rests on).
pub open spec fn view_wf(d: DocView) -> bool {
    &&& d.attrs.len() == d.nodes.len()
    &&& forall|i: int| 0 <= i < d.nodes.len() ==> node_wf(#[trigger] d.nodes[i], i)
}

/// The `(name, value)` pairs as character sequences.
pub open spec fn pairs_view(pairs: Seq<(String, String)>) -> Seq<(Seq<char>, Seq<char>)> {
    pairs.map(|i: int, p: (String, String)| (p.0@, p.1@))
}

/// The entries that inserting the given pairs, in order, into an empty
/// attribute map leaves behind.
pub open spec fn entries_of_pairs(pairs: Seq<(Seq<char>, Seq<char>)>) -> Seq<
    (Seq<char>, Seq<char>),
>
    decreases pairs.len(),
{
    if pairs.len() == 0 {
        Seq::empty()
    } else {
        insert_entry(entries_of_pairs(pairs.drop_last()), pairs.last().0, pairs.last().1)
    }
}

impl Document {
    /// Well-formedness: every constructor establishes [`view_wf`] of the
    /// document's model and every mutator preserves it.
    pub open spec fn wf(&self) -> bool {
        view_wf(self@)
    }

    /// An empty document. Its root key references no node until `set_root`
    /// points it at an element; rendering it reports `BrokenReference`.
    pub fn new() -> (d: Document)
        ensures
            d@.nodes == Seq::<NodeView>::empty(),
            d@.attrs == Seq::<Seq<(Seq<char>, Seq<char>)>>::empty(),
            d@.root == 0,
            d@.decl is None,
            d@.before == Seq::<int>::empty(),
            d@.after == Seq::<int>::empty(),
            d.wf(),
    {
        let d = Document {
            nodes: Vec::new(),
            attrs: Vec::new(),
            root_key: NodeKey { idx: 0 },
            decl: None,
            before: Vec::new(),
            after: Vec::new(),
        };
        proof {
            assert(d@.nodes =~= Seq::<NodeView>::empty());
            assert(d@.attrs =~= Seq::<Seq<(Seq<char>, Seq<char>)>>::empty());
            assert(d@.before =~= Seq::<int>::empty());
            assert(d@.after =~= Seq::<int>::empty());
        }
        d
    }

    fn push_node_with_attrs(&mut self, node: NodeValue, attrs: IndexMap<String, String>) -> (k:
        NodeKey)
        ensures
            final(self)@.nodes == old(self)@.nodes.push(node@),
            final(self)@.attrs == old(self)@.attrs.push(attr_entries(attrs)),
            final(self)@.root == old(self)@.root,
            final(self)@.decl == old(self)@.decl,
            final(self)@.before == old(self)@.before,
            final(self)@.after == old(self)@.after,
            k@ == old(self)@.nodes.len(),
            old(self).wf() && node_wf(node@, old(self)@.nodes.len() as int) ==> final(self).wf(),
    {
        let k = NodeKey { idx: self.nodes.len() };
        let ghost node_view = node@;
        self.nodes.push(node);
        self.attrs.push(attrs);
        proof {
            assert(self@.nodes =~= old(self)@.nodes.push(node_view));
            assert(self@.attrs =~= old(self)@.attrs.push(attr_entries(attrs)));
            if old(self).wf() && node_wf(node_view, old(self)@.nodes.len() as int) {
                assert forall|i: int| 0 <= i < self@.nodes.len() implies node_wf(
                    #[trigger] self@.nodes[i],
                    i,
                ) by {
                    if i < old(self)@.nodes.len() {
                        assert(self@.nodes[i] == old(self)@.nodes[i]);
                    }
                }
            }
        }
        k
    }

    /// Adds a text node and returns its key.
    pub fn push_text(&mut self, content: &str) -> (k: NodeKey)
        ensures
            final(self)@.nodes == old(self)@.nodes.push(NodeView::Text(content@)),
            final(self)@.attrs == old(self)@.attrs.push(Seq::<(Seq<char>, Seq<char>)>::empty()),
            final(self)@.root == old(self)@.root,
            final(self)@.decl == old(self)@.decl,
            final(self)@.before == old(self)@.before,
            final(self)@.after == old(self)@.after,
            k@ == old(self)@.nodes.len(),
            old(self).wf() ==> final(self).wf(),
    {
        self.push_node_with_attrs(NodeValue::Text(content.to_owned()), attrs_new())
    }

    /// Adds a CDATA node and returns its key.
    pub fn push_cdata(&mut self, content: &str) -> (k: NodeKey)
        ensures
            final(self)@.nodes == old(self)@.nodes.push(NodeView::CData(content@)),
            final(self)@.attrs == old(self)@.attrs.push(Seq::<(Seq<char>, Seq<char>)>::empty()),
            final(self)@.root == old(self)@.root,
            final(self)@.decl == old(self)@.decl,
            final(self)@.before == old(self)@.before,
            final(self)@.after == old(self)@.after,
            k@ == old(self)@.nodes.len(),
            old(self).wf() ==> final(self).wf(),
    {
        self.push_node_with_attrs(NodeValue::CData(content.to_owned()), attrs_new())
    }

    /// Adds a document-type node and returns its key.
    pub fn push_document_type(&mut self, content: &str) -> (k: NodeKey)
        ensures
            final(self)@.nodes == old(self)@.nodes.push(NodeView::DocumentType(content@)),
            final(self)@.attrs == old(self)@.attrs.push(Seq::<(Seq<char>, Seq<char>)>::empty()),
            final(self)@.root == old(self)@.root,
            final(self)@.decl == old(self)@.decl,
            final(self)@.before == old(self)@.before,
            final(self)@.after == old(self)@.after,
            k@ == old(self)@.nodes.len(),
            old(self).wf() ==> final(self).wf(),
    {
        self.push_node_with_attrs(NodeValue::DocumentType(content.to_owned()), attrs_new())
    }

    /// Adds a comment node and returns its key.
    pub fn push_comment(&mut self, content: &str) -> (k: NodeKey)
        ensures
            final(self)@.nodes == old(self)@.nodes.push(NodeView::Comment(content@)),
            final(self)@.attrs == old(self)@.attrs.push(Seq::<(Seq<char>, Seq<char>)>::empty()),
            final(self)@.root == old(self)@.root,
            final(self)@.decl == old(self)@.decl,
            final(self)@.before == old(self)@.before,
            final(self)@.after == old(self)@.after,
            k@ == old(self)@.nodes.len(),
            old(self).wf() ==> final(self).wf(),
    {
        self.push_node_with_attrs(NodeValue::Comment(content.to_owned()), attrs_new())
    }

    /// Adds an element whose children must already exist in this document.
    /// The attribute pairs are inserted in order, so a repeated name keeps
    /// its first position and takes the last value. Fails with
    /// `BrokenReference`, changing nothing, when a child key is dangling.
    pub fn push_element(
        &mut self,
        name: &str,
        attrs: Vec<(String, String)>,
        children: Vec<NodeKey>,
    ) -> (r: Result<NodeKey, XmlError>)
        ensures
            match r {
                Ok(k) => {
                    &&& forall|j: int|
                        0 <= j < children@.len() ==> 0 <= #[trigger] keys_view(children@)[j] < old(
                            self,
                        )@.nodes.len()
                    &&& k@ == old(self)@.nodes.len()
                    &&& final(self)@.nodes == old(self)@.nodes.push(
                        NodeView::Element(
                            ElementView { name: name@, children: keys_view(children@) },
                        ),
                    )
                    &&& final(self)@.attrs == old(self)@.attrs.push(
                        entries_of_pairs(pairs_view(attrs@)),
                    )
                    &&& final(self)@.root == old(self)@.root
                    &&& final(self)@.decl == old(self)@.decl
                    &&& final(self)@.before == old(self)@.before
                    &&& final(self)@.after == old(self)@.after
                    &&& old(self).wf() ==> final(self).wf()
                },
                Err(e) => {
                    &&& e == XmlError::BrokenReference
                    &&& exists|j: int|
                        0 <= j < children@.len() && #[trigger] keys_view(children@)[j] >= old(
                            self,
                        )@.nodes.len()
                    &&& *final(self) == *old(self)
                },
            },
    {
        let n = self.nodes.len();
        let mut j: usize = 0;
        while j < children.len()
            invariant
                j <= children@.len(),
                n == self@.nodes.len(),
                forall|i: int| 0 <= i < j ==> 0 <= #[trigger] keys_view(children@)[i] < n,
                self == old(self),
            decreases children@.len() - j,
        {
            if children[j].idx >= n {
                proof {
                    assert(keys_view(children@)[j as int] >= n);
                }
                return Err(XmlError::BrokenReference);
            }
            proof {
                assert(keys_view(children@)[j as int] < n);
            }
            j += 1;
        }
        let mut m = attrs_new();
        let mut i: usize = 0;
        while i < attrs.len()
            invariant
                i <= attrs@.len(),
                attr_entries(m) == entries_of_pairs(pairs_view(attrs@).take(i as int)),
            decreases attrs@.len() - i,
        {
            let ghost prefix = pairs_view(attrs@).take(i as int);
            let kv = &attrs[i];
            attrs_insert(&mut m, kv.0.clone(), kv.1.clone());
            proof {
                let next = pairs_view(attrs@).take(i as int + 1);
                assert(next.drop_last() =~= prefix);
                assert(next.last() == pairs_view(attrs@)[i as int]);
            }
            i += 1;
        }
        proof {
            assert(pairs_view(attrs@).take(attrs@.len() as int) =~= pairs_view(attrs@));
        }
        let element = ElementValue { name: name.to_owned(), children };
        let ghost ev = element@;
        let k = self.push_node_with_attrs(NodeValue::Element(element), m);
        proof {
            assert(ev == ElementView { name: name@, children: keys_view(children@) });
            assert(node_wf(NodeView::Element(ev), old(self)@.nodes.len() as int));
        }
        Ok(k)
    }

    /// Points the document's content root at the given key. Validation
    /// happens at render time: a dangling key surfaces as `BrokenReference`,
    /// a non-element as `InvalidRoot`.
    pub fn set_root(&mut self, key: NodeKey)
        ensures
            final(self)@ == (DocView { root: key@, ..old(self)@ }),
            old(self).wf() ==> final(self).wf(),
    {
        self.root_key = key;
    }

    /// Sets or clears the leading XML declaration.
    pub fn set_declaration(&mut self, decl: Option<Declaration>)
        ensures
            final(self)@ == (DocView { decl: opt_decl_view(decl), ..old(self)@ }),
            old(self).wf() ==> final(self).wf(),
    {
        self.decl = decl;
    }

    /// Appends a key to the top-level siblings printed before the root.
    pub fn push_before(&mut self, key: NodeKey)
        ensures
            final(self)@ == (DocView { before: old(self)@.before.push(key@), ..old(self)@ }),
            old(self).wf() ==> final(self).wf(),
    {
        self.before.push(key);
        proof {
            assert(self@.before =~= old(self)@.before.push(key@));
            assert(self@ == (DocView { before: old(self)@.before.push(key@), ..old(self)@ }));
        }
    }

    /// Appends a key to the top-level siblings printed after the root.
    pub fn push_after(&mut self, key: NodeKey)
        ensures
            final(self)@ == (DocView { after: old(self)@.after.push(key@), ..old(self)@ }),
            old(self).wf() ==> final(self).wf(),
    {
        self.after.push(key);
        proof {
            assert(self@.after =~= old(self)@.after.push(key@));
            assert(self@ == (DocView { after: old(self)@.after.push(key@), ..old(self)@ }));
        }
    }

    /// The key of the content root.
    pub fn root(&self) -> (k: NodeKey)
        ensures
            k@ == self@.root,
    {
        self.root_key
    }

    /// The number of nodes in the arena.
    pub fn node_count(&self) -> (n: usize)
        ensures
            n == self@.nodes.len(),
    {
        self.nodes.len()
    }

    /// The node a key refers to, or `BrokenReference` when the key is not in
    /// this document.
    pub fn node(&self, key: NodeKey) -> (r: Result<&NodeValue, XmlError>)
        ensures
            match r {
                Ok(n) => 0 <= key@ < self@.nodes.len() && n@ == self@.nodes[key@],
                Err(e) => !(0 <= key@ < self@.nodes.len()) && e == XmlError::BrokenReference,
            },
    {
        if key.idx < self.nodes.len() {
            Ok(&self.nodes[key.idx])
        } else {
            Err(XmlError::BrokenReference)
        }
    }

    /// The node a key that is known to be in range refers to.
    pub fn node_at(&self, key: NodeKey) -> (r: &NodeValue)
        requires
            0 <= key@ < self@.nodes.len(),
        ensures
            r@ == self@.nodes[key@],
    {
        &self.nodes[key.idx]
    }

    /// The attribute map of a key that is known to be in range.
    pub fn attrs_at(&self, key: NodeKey) -> (r: &IndexMap<String, String>)
        requires
            0 <= key@ < self@.attrs.len(),
        ensures
            attr_entries(*r) == self@.attrs[key@],
    {
        &self.attrs[key.idx]
    }

    /// The attribute map recorded for a key, or nothing when the key is not
    /// in this document. The map is only meaningful for element nodes; the
    /// printer ignores it for all others.
    pub fn attributes(&self, key: NodeKey) -> (r: Option<&IndexMap<String, String>>)
        ensures
            match r {
                Some(m) => 0 <= key@ < self@.attrs.len() && attr_entries(*m) == self@.attrs[key@],
                None => !(0 <= key@ < self@.attrs.len()),
            },
    {
        if key.idx < self.attrs.len() {
            Some(&self.attrs[key.idx])
        } else {
            None
        }
    }

    /// The optional leading declaration.
    pub fn declaration(&self) -> (r: &Option<Declaration>)
        ensures
            opt_decl_view(*r) == self@.decl,
    {
        &self.decl
    }

    /// The keys printed before the root, in order.
    pub fn before(&self) -> (r: &Vec<NodeKey>)
        ensures
            keys_view(r@) == self@.before,
    {
        &self.before
    }

    /// The keys printed after the root, in order.
    pub fn after(&self) -> (r: &Vec<NodeKey>)
        ensures
            keys_view(r@) == self@.after,
    {
        &self.after
    }
}

} // verus!
