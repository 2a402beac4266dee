//! The recursive printer.
//!
//! The specification functions here (`spec_decl_render`, `spec_fmt_attrs`,
//! `spec_element_render`, `spec_node_render`, `spec_document_render`) define
//! the rendered output of every construct, character for character, over the
//! document's mathematical model. The executable printer walks the tree with
//! a [`State`] (current indentation and current key) threaded through every
//! call and is proved to append exactly what the specification says.

use vstd::prelude::*;
use vstd::string::StrSliceExecFns;
use vstd::string::StringExecFns;

use indexmap::IndexMap;

use crate::attrs::{attr_entries, attrs_get_index, attrs_len};
use crate::config::Config;
use crate::document::{
    keys_view, node_wf, view_wf, Declaration, DeclView, DocView, Document, ElementValue,
    ElementView, NodeKey, NodeValue, NodeView, XmlError,
};
use crate::entities::{escape_seq, process_entities, trim_seq, trim_str};

verus! {

/// A run of spaces.
pub open spec fn spaces(n: int) -> Seq<char>
    decreases n,
{
    if n <= 0 {
        Seq::empty()
    } else {
        spaces(n - 1).push(' ')
    }
}

/// A newline in pretty mode, nothing in compact mode.
pub open spec fn nl(pretty: bool) -> Seq<char> {
    if pretty {
        "\n"@
    } else {
        Seq::empty()
    }
}

/// Leaf nodes are indented only in pretty mode.
pub open spec fn pre_indent(pretty: bool, ind: int) -> Seq<char> {
    if pretty {
        spaces(ind)
    } else {
        Seq::empty()
    }
}

/// The indentation of a node's children: one configured step deeper in
/// pretty mode, unchanged in compact mode.
pub open spec fn spec_child_indent(cfg: Config, ind: int) -> int {
    if cfg.is_pretty {
        ind + cfg.indent
    } else {
        ind
    }
}

/// The attributes' share of the estimated line length: the name and value
/// lengths plus four extra characters per attribute, approximating `=""`
/// plus a separating space.
pub open spec fn est_attrs(attrs: Seq<(Seq<char>, Seq<char>)>) -> int
    decreases attrs.len(),
{
    if attrs.len() == 0 {
        0
    } else {
        est_attrs(attrs.drop_last()) + attrs.last().0.len() + attrs.last().1.len() + 4
    }
}

/// The estimated rendered line length of an element's opening tag, counted
/// in characters.
pub open spec fn spec_est_line(tag: Seq<char>, attrs: Seq<(Seq<char>, Seq<char>)>) -> int {
    tag.len() + 2 + est_attrs(attrs)
}

/// Whether attributes wrap onto one line each: only in pretty mode, and
/// exactly when the estimate exceeds the configured maximum line length.
pub open spec fn spec_wraps(cfg: Config, tag: Seq<char>, attrs: Seq<(Seq<char>, Seq<char>)>) -> bool {
    cfg.is_pretty && spec_est_line(tag, attrs) > cfg.max_line_length as int
}

/// One rendered attribute with its leading separator: a newline plus child
/// indentation when wrapping, nothing before the first attribute otherwise,
/// and a single space before every later one. Names are never escaped;
/// values are.
pub open spec fn spec_attr_piece(
    attrs: Seq<(Seq<char>, Seq<char>)>,
    cfg: Config,
    wrap: bool,
    ind: int,
    i: int,
) -> Seq<char> {
    (if wrap {
        "\n"@ + spaces(ind)
    } else if i == 0 {
        Seq::empty()
    } else {
        " "@
    }) + attrs[i].0 + "=\""@ + escape_seq(attrs[i].1, cfg.entity_mode) + "\""@
}

/// The first `i` attributes, rendered.
pub open spec fn spec_attrs_upto(
    attrs: Seq<(Seq<char>, Seq<char>)>,
    cfg: Config,
    wrap: bool,
    ind: int,
    i: int,
) -> Seq<char>
    decreases i,
{
    if i <= 0 || i > attrs.len() {
        Seq::empty()
    } else {
        spec_attrs_upto(attrs, cfg, wrap, ind, i - 1) + spec_attr_piece(attrs, cfg, wrap, ind, i - 1)
    }
}

/// The full attribute list of an element, rendered.
pub open spec fn spec_fmt_attrs(
    tag: Seq<char>,
    attrs: Seq<(Seq<char>, Seq<char>)>,
    cfg: Config,
    ind: int,
) -> Seq<char> {
    spec_attrs_upto(
        attrs,
        cfg,
        spec_wraps(cfg, tag, attrs),
        spec_child_indent(cfg, ind),
        attrs.len() as int,
    )
}

/// The rendered declaration: each present field is followed by one space, so
/// a single space always precedes `?>`.
pub open spec fn spec_decl_render(d: DeclView, pretty: bool) -> Seq<char> {
    "<?xml "@ + (match d.version {
        Some(v) => "version=\""@ + v + "\" "@,
        None => Seq::empty(),
    }) + (match d.encoding {
        Some(v) => "encoding=\""@ + v + "\" "@,
        None => Seq::empty(),
    }) + (match d.standalone {
        Some(v) => "standalone=\""@ + v + "\" "@,
        None => Seq::empty(),
    }) + "?>"@ + nl(pretty)
}

/// The first `i` children of the element at `key`, rendered.
pub open spec fn spec_children_upto(
    d: DocView,
    cfg: Config,
    children: Seq<int>,
    ind: int,
    i: int,
    key: int,
) -> Seq<char>
    decreases key, 0int, i,
        when 0 <= key < d.nodes.len() && view_wf(d) && (forall|j: int|
            0 <= j < children.len() ==> 0 <= #[trigger] children[j] < key)
{
    if i <= 0 || i > children.len() {
        Seq::empty()
    } else {
        spec_children_upto(d, cfg, children, ind, i - 1, key) + spec_node_render(
            d,
            cfg,
            children[i - 1],
            ind,
        )
    }
}

/// The rendered element at `key`: a self-closing tag when it has no
/// children, otherwise an opening tag, the children one step deeper, and a
/// closing tag.
pub open spec fn spec_element_render(d: DocView, cfg: Config, key: int, ind: int) -> Seq<char>
    decreases key, 1int, 0int,
        when 0 <= key < d.nodes.len() && view_wf(d)
{
    match d.nodes[key] {
        NodeView::Element(e) => {
            let attrs = d.attrs[key];
            let open_part = if attrs.len() > 0 {
                spaces(ind) + "<"@ + e.name + " "@ + spec_fmt_attrs(e.name, attrs, cfg, ind)
            } else {
                spaces(ind) + "<"@ + e.name
            };
            if e.children.len() == 0 {
                open_part + " />"@ + nl(cfg.is_pretty)
            } else {
                open_part + ">"@ + nl(cfg.is_pretty) + spec_children_upto(
                    d,
                    cfg,
                    e.children,
                    spec_child_indent(cfg, ind),
                    e.children.len() as int,
                    key,
                ) + spaces(ind) + "</"@ + e.name + ">"@ + nl(cfg.is_pretty)
            }
        },
        _ => Seq::empty(),
    }
}

/// The rendered node at `key`. An element always takes the element rule;
/// leaves are indented in pretty mode, then printed by kind, then a newline
/// in pretty mode. Text is escaped and trimmed; CDATA, document-type and
/// comment payloads are emitted verbatim between their delimiters.
pub open spec fn spec_node_render(d: DocView, cfg: Config, key: int, ind: int) -> Seq<char>
    decreases key, 2int, 0int,
        when 0 <= key < d.nodes.len() && view_wf(d)
{
    match d.nodes[key] {
        NodeView::Element(e) => spec_element_render(d, cfg, key, ind),
        NodeView::Text(t) => pre_indent(cfg.is_pretty, ind) + trim_seq(
            escape_seq(t, cfg.entity_mode),
        ) + nl(cfg.is_pretty),
        NodeView::CData(t) => pre_indent(cfg.is_pretty, ind) + "<![CDATA["@ + t + "]]>"@ + nl(
            cfg.is_pretty,
        ),
        NodeView::DocumentType(t) => pre_indent(cfg.is_pretty, ind) + "<!DOCTYPE"@ + t + ">"@ + nl(
            cfg.is_pretty,
        ),
        NodeView::Comment(t) => pre_indent(cfg.is_pretty, ind) + "<!--"@ + t + "-->"@ + nl(
            cfg.is_pretty,
        ),
    }
}

/// The first `i` of the document's leading or trailing siblings, rendered at
/// depth zero.
pub open spec fn spec_keys_upto(d: DocView, cfg: Config, keys: Seq<int>, i: int) -> Seq<char>
    decreases i,
{
    if i <= 0 || i > keys.len() {
        Seq::empty()
    } else {
        spec_keys_upto(d, cfg, keys, i - 1) + spec_node_render(d, cfg, keys[i - 1], 0)
    }
}

/// The whole rendered document: declaration, leading siblings, root element,
/// trailing siblings, all top-level parts at depth zero.
pub open spec fn spec_document_render(d: DocView, cfg: Config) -> Seq<char> {
    (match d.decl {
        Some(dv) => spec_decl_render(dv, cfg.is_pretty),
        None => Seq::empty(),
    }) + spec_keys_upto(d, cfg, d.before, d.before.len() as int) + spec_element_render(
        d,
        cfg,
        d.root,
        0,
    ) + spec_keys_upto(d, cfg, d.after, d.after.len() as int)
}

/// A document renders without a structural error exactly when the root key
/// resolves to an element and every leading and trailing key resolves to a
/// node.
pub open spec fn spec_renderable(d: DocView) -> bool {
    &&& 0 <= d.root < d.nodes.len()
    &&& d.nodes[d.root] is Element
    &&& forall|i: int| 0 <= i < d.before.len() ==> 0 <= #[trigger] d.before[i] < d.nodes.len()
    &&& forall|i: int| 0 <= i < d.after.len() ==> 0 <= #[trigger] d.after[i] < d.nodes.len()
}

/// The error a non-renderable document reports: a dangling root key is a
/// broken reference, a root that is not an element is an invalid root, and
/// otherwise some leading or trailing key dangles.
pub open spec fn spec_render_error(d: DocView) -> XmlError {
    if !(0 <= d.root < d.nodes.len()) {
        XmlError::BrokenReference
    } else if !(d.nodes[d.root] is Element) {
        XmlError::InvalidRoot
    } else {
        XmlError::BrokenReference
    }
}

/// No overflow can arise from indenting below the given key: in pretty mode
/// the current indentation plus one step per remaining level fits in
/// `usize`.
pub open spec fn indent_budget_ok(cfg: Config, ind: int, key: int) -> bool {
    cfg.is_pretty ==> ind + (key + 1) * (cfg.indent as int) <= usize::MAX as int
}

/// The traversal context threaded through every printer call: the current
/// indentation and the key of the current node (used to look up that node's
/// attributes, which live outside the node itself).
#[derive(Debug, Clone, Copy)]
pub struct State {
    pub indent: usize,
    pub key: NodeKey,
}

impl State {
    /// The initial context: depth zero, at the document's root.
    pub fn new(document: &Document) -> (s: State)
        ensures
            s.indent == 0,
            s.key@ == document@.root,
    {
        State { indent: 0, key: document.root() }
    }

    /// One configured indentation step deeper; unchanged in compact mode.
    pub fn with_indent(&self, config: &Config) -> (s: State)
        requires
            config.is_pretty ==> self.indent + config.indent <= usize::MAX,
        ensures
            s.indent as int == spec_child_indent(*config, self.indent as int),
            s.key == self.key,
    {
        if !config.is_pretty {
            return *self;
        }
        State { indent: self.indent + config.indent, key: self.key }
    }

    /// The same depth at another node.
    pub fn with_key(&self, key: NodeKey) -> (s: State)
        ensures
            s.indent == self.indent,
            s.key == key,
    {
        State { indent: self.indent, key }
    }
}

fn push_spaces(out: &mut String, n: usize)
    ensures
        final(out)@ == old(out)@ + spaces(n as int),
{
    let mut i: usize = 0;
    while i < n
        invariant
            i <= n,
            out@ == old(out)@ + spaces(i as int),
        decreases n - i,
    {
        out.append(" ");
        proof {
            reveal_strlit(" ");
            assert(out@ =~= old(out)@ + spaces(i as int + 1));
        }
        i += 1;
    }
}

impl Declaration {
    /// Writes `<?xml `, each present field as `name="value" ` (values are
    /// not escaped), then `?>`, then a newline in pretty mode.
    #[verifier::rlimit(50)]
    pub fn print(&self, out: &mut String, config: &Config)
        ensures
            final(out)@ == old(out)@ + spec_decl_render(self@, config.is_pretty),
    {
        let ghost version_part = match self@.version {
            Some(v) => "version=\""@ + v + "\" "@,
            None => Seq::<char>::empty(),
        };
        let ghost encoding_part = match self@.encoding {
            Some(v) => "encoding=\""@ + v + "\" "@,
            None => Seq::<char>::empty(),
        };
        let ghost standalone_part = match self@.standalone {
            Some(v) => "standalone=\""@ + v + "\" "@,
            None => Seq::<char>::empty(),
        };
        out.append("<?xml ");
        if let Some(version) = &self.version {
            out.append("version=\"");
            out.append(version.as_str());
            out.append("\" ");
        }
        proof {
            assert(out@ =~= old(out)@ + "<?xml "@ + version_part);
        }
        let ghost s1 = out@;
        if let Some(encoding) = &self.encoding {
            out.append("encoding=\"");
            out.append(encoding.as_str());
            out.append("\" ");
        }
        proof {
            assert(out@ =~= s1 + encoding_part);
        }
        let ghost s2 = out@;
        if let Some(standalone) = &self.standalone {
            out.append("standalone=\"");
            out.append(standalone.as_str());
            out.append("\" ");
        }
        proof {
            assert(out@ =~= s2 + standalone_part);
        }
        out.append("?>");
        if config.is_pretty {
            out.append("\n");
        }
        proof {
            assert(out@ =~= old(out)@ + spec_decl_render(self@, config.is_pretty));
        }
    }
}

fn fmt_attrs(
    out: &mut String,
    tag: &str,
    config: &Config,
    context: &State,
    attrs: &IndexMap<String, String>,
)
    requires
        config.is_pretty ==> context.indent + config.indent <= usize::MAX,
    ensures
        final(out)@ == old(out)@ + spec_fmt_attrs(
            tag@,
            attr_entries(*attrs),
            *config,
            context.indent as int,
        ),
{
    let ghost entries = attr_entries(*attrs);
    let n = attrs_len(attrs);

    let mut est: Option<usize> = tag.unicode_len().checked_add(2);
    proof {
        assert(entries.take(0) =~= Seq::<(Seq<char>, Seq<char>)>::empty());
    }
    let mut i: usize = 0;
    while i < n
        invariant
            i <= n,
            n == entries.len(),
            entries == attr_entries(*attrs),
            match est {
                Some(v) => v as int == spec_est_line(tag@, entries.take(i as int)),
                None => spec_est_line(tag@, entries.take(i as int)) > usize::MAX as int,
            },
        decreases n - i,
    {
        let ghost prefix = entries.take(i as int);
        let kv_opt = attrs_get_index(attrs, i);
        match kv_opt {
            Some(kv) => {
                let ck = kv.0.as_str().unicode_len();
                let cv = kv.1.as_str().unicode_len();
                proof {
                    assert(entries.take(i as int + 1).drop_last() =~= prefix);
                    assert(entries.take(i as int + 1).last() == entries[i as int]);
                    assert(ck as int == entries[i as int].0.len());
                    assert(cv as int == entries[i as int].1.len());
                }
                est = match est {
                    Some(e) => match e.checked_add(ck) {
                        Some(e2) => match e2.checked_add(cv) {
                            Some(e3) => e3.checked_add(4),
                            None => None,
                        },
                        None => None,
                    },
                    None => None,
                };
            },
            None => {
                proof {
                    assert(false);
                }
            },
        }
        i += 1;
    }
    proof {
        assert(entries.take(n as int) =~= entries);
    }

    let is_newlines = config.is_pretty && match est {
        Some(e) => e > config.max_line_length,
        None => true,
    };
    let ghost wrap = spec_wraps(*config, tag@, entries);
    proof {
        assert(is_newlines == wrap);
    }

    let child = context.with_indent(config);
    let mut i: usize = 0;
    while i < n
        invariant
            i <= n,
            n == entries.len(),
            entries == attr_entries(*attrs),
            is_newlines == wrap,
            child.indent as int == spec_child_indent(*config, context.indent as int),
            out@ == old(out)@ + spec_attrs_upto(
                entries,
                *config,
                wrap,
                child.indent as int,
                i as int,
            ),
        decreases n - i,
    {
        let kv_opt = attrs_get_index(attrs, i);
        match kv_opt {
            Some(kv) => {
                if is_newlines {
                    out.append("\n");
                    push_spaces(out, child.indent);
                } else if i > 0 {
                    out.append(" ");
                }
                out.append(kv.0.as_str());
                out.append("=\"");
                let escaped = process_entities(kv.1.as_str(), config.entity_mode);
                out.append(escaped.as_str());
                out.append("\"");
                proof {
                    assert(out@ =~= old(out)@ + spec_attrs_upto(
                        entries,
                        *config,
                        wrap,
                        child.indent as int,
                        i as int + 1,
                    ));
                }
            },
            None => {
                proof {
                    assert(false);
                }
            },
        }
        i += 1;
    }
}

impl ElementValue {
    /// Renders this element, which must be the node at `context.key`, at the
    /// context's indentation.
    #[verifier::rlimit(100)]
    pub fn print(&self, out: &mut String, config: &Config, context: State, doc: &Document)
        requires
            doc.wf(),
            0 <= context.key@ < doc@.nodes.len(),
            doc@.nodes[context.key@] == NodeView::Element(self@),
            indent_budget_ok(*config, context.indent as int, context.key@),
        ensures
            final(out)@ == old(out)@ + spec_element_render(
                doc@,
                *config,
                context.key@,
                context.indent as int,
            ),
        decreases context.key@, 1int,
    {
        proof {
            if config.is_pretty {
                let ci = config.indent as int;
                let k = context.key@;
                assert(ci <= (k + 1) * ci) by (nonlinear_arith)
                    requires
                        0 <= ci,
                        0 <= k,
                ;
            }
        }
        let attrs = doc.attrs_at(context.key);
        let n_attrs = attrs_len(attrs);

        push_spaces(out, context.indent);
        out.append("<");
        out.append(self.name.as_str());
        if n_attrs > 0 {
            out.append(" ");
            fmt_attrs(out, self.name.as_str(), config, &context, attrs);
        }

        if self.children.len() == 0 {
            out.append(" />");
            if config.is_pretty {
                out.append("\n");
            }
            proof {
                assert(out@ =~= old(out)@ + spec_element_render(
                    doc@,
                    *config,
                    context.key@,
                    context.indent as int,
                ));
            }
            return ;
        }

        out.append(">");
        if config.is_pretty {
            out.append("\n");
        }
        let ghost open_done = out@;

        let child_context = context.with_indent(config);
        let ghost e = self@;
        let ghost child_ind = spec_child_indent(*config, context.indent as int);
        proof {
            assert(node_wf(doc@.nodes[context.key@], context.key@));
            assert(forall|j: int|
                0 <= j < e.children.len() ==> 0 <= #[trigger] e.children[j] < context.key@);
            assert(spec_children_upto(doc@, *config, e.children, child_ind, 0, context.key@)
                =~= Seq::<char>::empty());
            assert(out@ =~= open_done + spec_children_upto(
                doc@,
                *config,
                e.children,
                child_ind,
                0,
                context.key@,
            ));
        }
        let mut i: usize = 0;
        while i < self.children.len()
            invariant
                i <= self.children@.len(),
                doc.wf(),
                0 <= context.key@ < doc@.nodes.len(),
                doc@.nodes[context.key@] == NodeView::Element(e),
                e == self@,
                forall|j: int|
                    0 <= j < e.children.len() ==> 0 <= #[trigger] e.children[j] < context.key@,
                indent_budget_ok(*config, context.indent as int, context.key@),
                child_context.indent as int == child_ind,
                child_context.key == context.key,
                child_ind == spec_child_indent(*config, context.indent as int),
                out@ == open_done + spec_children_upto(
                    doc@,
                    *config,
                    e.children,
                    child_ind,
                    i as int,
                    context.key@,
                ),
            decreases self.children@.len() - i,
        {
            let child = self.children[i];
            proof {
                assert(e.children[i as int] == keys_view(self.children@)[i as int]);
                assert(e.children[i as int] == child@);
                assert(0 <= child@ < context.key@);
                if config.is_pretty {
                    let ci = config.indent as int;
                    let k = context.key@;
                    let c = child@;
                    assert((c + 2) * ci <= (k + 1) * ci) by (nonlinear_arith)
                        requires
                            0 <= ci,
                            c + 2 <= k + 1,
                    ;
                    assert((c + 2) * ci == ci + (c + 1) * ci) by (nonlinear_arith);
                }
            }
            let value = doc.node_at(child);
            value.print(out, config, child_context.with_key(child), doc);
            proof {
                assert(out@ =~= open_done + spec_children_upto(
                    doc@,
                    *config,
                    e.children,
                    child_ind,
                    i as int + 1,
                    context.key@,
                ));
            }
            i += 1;
        }

        push_spaces(out, context.indent);
        out.append("</");
        out.append(self.name.as_str());
        out.append(">");
        if config.is_pretty {
            out.append("\n");
        }
        proof {
            assert(out@ =~= old(out)@ + spec_element_render(
                doc@,
                *config,
                context.key@,
                context.indent as int,
            ));
        }
    }
}

impl NodeValue {
    /// Renders this node, which must be the node at `context.key`. Elements
    /// always take the element rule; leaves are indented in pretty mode,
    /// printed by kind, and followed by a newline in pretty mode.
    pub fn print(&self, out: &mut String, config: &Config, context: State, doc: &Document)
        requires
            doc.wf(),
            0 <= context.key@ < doc@.nodes.len(),
            doc@.nodes[context.key@] == self@,
            indent_budget_ok(*config, context.indent as int, context.key@),
        ensures
            final(out)@ == old(out)@ + spec_node_render(
                doc@,
                *config,
                context.key@,
                context.indent as int,
            ),
        decreases context.key@, 2int,
    {
        if let NodeValue::Element(e) = self {
            e.print(out, config, context, doc);
            return ;
        }

        if config.is_pretty {
            push_spaces(out, context.indent);
        }

        match self {
            NodeValue::Text(t) => {
                let escaped = process_entities(t.as_str(), config.entity_mode);
                let trimmed = trim_str(escaped.as_str());
                out.append(trimmed);
            },
            NodeValue::CData(t) => {
                out.append("<![CDATA[");
                out.append(t.as_str());
                out.append("]]>");
            },
            NodeValue::DocumentType(t) => {
                out.append("<!DOCTYPE");
                out.append(t.as_str());
                out.append(">");
            },
            NodeValue::Comment(t) => {
                out.append("<!--");
                out.append(t.as_str());
                out.append("-->");
            },
            NodeValue::Element(_) => {
                proof {
                    assert(false);
                }
            },
        }

        if config.is_pretty {
            out.append("\n");
        }
        proof {
            assert(out@ =~= old(out)@ + spec_node_render(
                doc@,
                *config,
                context.key@,
                context.indent as int,
            ));
        }
    }
}

impl Document {
    /// Renders the whole document into `out`: declaration, leading siblings,
    /// root element, trailing siblings. On a structural error nothing is
    /// appended and the error says what was wrong, as `spec_render_error`
    /// pins down.
    pub fn print(&self, out: &mut String, config: &Config) -> (r: Result<(), XmlError>)
        requires
            self.wf(),
            config.is_pretty ==> self@.nodes.len() * (config.indent as int) <= usize::MAX as int,
        ensures
            match r {
                Ok(_) => spec_renderable(self@) && final(out)@ == old(out)@
                    + spec_document_render(self@, *config),
                Err(e) => !spec_renderable(self@) && e == spec_render_error(self@) && final(out)@
                    == old(out)@,
            },
    {
        let root = self.root();
        let root_node = match self.node(root) {
            Ok(n) => n,
            Err(e) => {
                return Err(e);
            },
        };
        let element = match root_node {
            NodeValue::Element(e) => e,
            _ => {
                proof {
                    assert(!(self@.nodes[self@.root] is Element));
                }
                return Err(XmlError::InvalidRoot);
            },
        };
        proof {
            assert(0 <= self@.root < self@.nodes.len());
            assert(self@.nodes[self@.root] == NodeView::Element(element@));
        }

        let before = self.before();
        let mut i: usize = 0;
        while i < before.len()
            invariant
                i <= before@.len(),
                keys_view(before@) == self@.before,
                0 <= self@.root < self@.nodes.len(),
                self@.nodes[self@.root] is Element,
                forall|j: int| 0 <= j < i ==> 0 <= #[trigger] self@.before[j] < self@.nodes.len(),
            decreases before@.len() - i,
        {
            proof {
                assert(self@.before[i as int] == keys_view(before@)[i as int]);
            }
            if let Err(e) = self.node(before[i]) {
                proof {
                    assert(!(0 <= self@.before[i as int] < self@.nodes.len()));
                    assert(!spec_renderable(self@));
                }
                return Err(e);
            }
            i += 1;
        }

        let after = self.after();
        let mut i: usize = 0;
        while i < after.len()
            invariant
                i <= after@.len(),
                keys_view(after@) == self@.after,
                0 <= self@.root < self@.nodes.len(),
                self@.nodes[self@.root] is Element,
                forall|j: int| 0 <= j < i ==> 0 <= #[trigger] self@.after[j] < self@.nodes.len(),
            decreases after@.len() - i,
        {
            proof {
                assert(self@.after[i as int] == keys_view(after@)[i as int]);
            }
            if let Err(e) = self.node(after[i]) {
                proof {
                    assert(!(0 <= self@.after[i as int] < self@.nodes.len()));
                    assert(!spec_renderable(self@));
                }
                return Err(e);
            }
            i += 1;
        }

        let context = State::new(self);

        if let Some(decl) = self.declaration() {
            decl.print(out, config);
        }
        let ghost decl_done = out@;
        proof {
            assert(decl_done =~= old(out)@ + (match self@.decl {
                Some(dv) => spec_decl_render(dv, config.is_pretty),
                None => Seq::<char>::empty(),
            }));
        }

        let mut i: usize = 0;
        while i < before.len()
            invariant
                i <= before@.len(),
                keys_view(before@) == self@.before,
                forall|j: int| 0 <= j < before@.len() ==> 0 <= #[trigger] self@.before[j]
                    < self@.nodes.len(),
                self.wf(),
                config.is_pretty ==> self@.nodes.len() * (config.indent as int)
                    <= usize::MAX as int,
                context.indent == 0,
                out@ == decl_done + spec_keys_upto(self@, *config, self@.before, i as int),
            decreases before@.len() - i,
        {
            let key = before[i];
            proof {
                assert(self@.before[i as int] == keys_view(before@)[i as int]);
                if config.is_pretty {
                    let ci = config.indent as int;
                    let k = key@;
                    let len = self@.nodes.len() as int;
                    assert((k + 1) * ci <= len * ci) by (nonlinear_arith)
                        requires
                            0 <= ci,
                            k + 1 <= len,
                    ;
                }
            }
            let node_value = self.node_at(key);
            node_value.print(out, config, context.with_key(key), self);
            proof {
                assert(out@ =~= decl_done + spec_keys_upto(
                    self@,
                    *config,
                    self@.before,
                    i as int + 1,
                ));
            }
            i += 1;
        }
        let ghost before_done = out@;

        proof {
            if config.is_pretty {
                let ci = config.indent as int;
                let k = self@.root;
                let len = self@.nodes.len() as int;
                assert((k + 1) * ci <= len * ci) by (nonlinear_arith)
                    requires
                        0 <= ci,
                        k + 1 <= len,
                ;
            }
        }
        element.print(out, config, context, self);
        let ghost root_done = out@;

        let mut i: usize = 0;
        while i < after.len()
            invariant
                i <= after@.len(),
                keys_view(after@) == self@.after,
                forall|j: int| 0 <= j < after@.len() ==> 0 <= #[trigger] self@.after[j]
                    < self@.nodes.len(),
                self.wf(),
                config.is_pretty ==> self@.nodes.len() * (config.indent as int)
                    <= usize::MAX as int,
                context.indent == 0,
                out@ == root_done + spec_keys_upto(self@, *config, self@.after, i as int),
            decreases after@.len() - i,
        {
            let key = after[i];
            proof {
                assert(self@.after[i as int] == keys_view(after@)[i as int]);
                if config.is_pretty {
                    let ci = config.indent as int;
                    let k = key@;
                    let len = self@.nodes.len() as int;
                    assert((k + 1) * ci <= len * ci) by (nonlinear_arith)
                        requires
                            0 <= ci,
                            k + 1 <= len,
                    ;
                }
            }
            let node_value = self.node_at(key);
            node_value.print(out, config, context.with_key(key), self);
            proof {
                assert(out@ =~= root_done + spec_keys_upto(
                    self@,
                    *config,
                    self@.after,
                    i as int + 1,
                ));
            }
            i += 1;
        }

        proof {
            assert(out@ =~= old(out)@ + spec_document_render(self@, *config));
        }
        Ok(())
    }

    /// Renders the whole document to a fresh string, or reports the
    /// structural error without producing any output.
    pub fn render_to_string(&self, config: &Config) -> (r: Result<String, XmlError>)
        requires
            self.wf(),
            config.is_pretty ==> self@.nodes.len() * (config.indent as int) <= usize::MAX as int,
        ensures
            match r {
                Ok(s) => spec_renderable(self@) && s@ == spec_document_render(self@, *config),
                Err(e) => !spec_renderable(self@) && e == spec_render_error(self@),
            },
    {
        let mut out = String::new();
        match self.print(&mut out, config) {
            Ok(_) => Ok(out),
            Err(e) => Err(e),
        }
    }
}

/// Self-closing equivalence: an element with an empty child list always
/// renders in the ` />` form, with or without attributes; it never renders
/// an explicit empty body followed by a closing tag.
pub proof fn lemma_self_closing(d: DocView, cfg: Config, e: ElementView, key: int, ind: int)
    requires
        view_wf(d),
        0 <= key < d.nodes.len(),
        d.nodes[key] == NodeView::Element(e),
        e.children.len() == 0,
    ensures
        spec_element_render(d, cfg, key, ind) == (if d.attrs[key].len() > 0 {
            spaces(ind) + "<"@ + e.name + " "@ + spec_fmt_attrs(e.name, d.attrs[key], cfg, ind)
                + " />"@ + nl(cfg.is_pretty)
        } else {
            spaces(ind) + "<"@ + e.name + " />"@ + nl(cfg.is_pretty)
        }),
{
}

/// Attribute-wrap trigger: in pretty mode the attributes render one per
/// line, each preceded by a newline and child indentation, exactly when the
/// estimated line length exceeds the configured maximum; at or below it they
/// render inline, separated by single spaces.
pub proof fn lemma_attr_wrap_trigger(
    cfg: Config,
    tag: Seq<char>,
    attrs: Seq<(Seq<char>, Seq<char>)>,
    ind: int,
)
    requires
        cfg.is_pretty,
    ensures
        spec_est_line(tag, attrs) > cfg.max_line_length as int ==> spec_fmt_attrs(
            tag,
            attrs,
            cfg,
            ind,
        ) == spec_attrs_upto(attrs, cfg, true, ind + cfg.indent, attrs.len() as int),
        spec_est_line(tag, attrs) <= cfg.max_line_length as int ==> spec_fmt_attrs(
            tag,
            attrs,
            cfg,
            ind,
        ) == spec_attrs_upto(attrs, cfg, false, ind + cfg.indent, attrs.len() as int),
{
}

/// Text trimming: a text node renders as its escaped content with
/// whitespace removed from both ends, in pretty and compact mode alike.
pub proof fn lemma_text_trimmed(d: DocView, cfg: Config, t: Seq<char>, key: int, ind: int)
    requires
        view_wf(d),
        0 <= key < d.nodes.len(),
        d.nodes[key] == NodeView::Text(t),
    ensures
        spec_node_render(d, cfg, key, ind) == pre_indent(cfg.is_pretty, ind) + trim_seq(
            escape_seq(t, cfg.entity_mode),
        ) + nl(cfg.is_pretty),
{
}

/// A declaration with no fields renders as exactly `<?xml ?>`, followed by a
/// newline only in pretty mode.
pub proof fn lemma_declaration_no_fields(dv: DeclView, pretty: bool)
    requires
        dv.version is None,
        dv.encoding is None,
        dv.standalone is None,
    ensures
        spec_decl_render(dv, pretty) == "<?xml ?>"@ + nl(pretty),
{
    reveal_strlit("<?xml ");
    reveal_strlit("?>");
    reveal_strlit("<?xml ?>");
    assert(spec_decl_render(dv, pretty) =~= "<?xml ?>"@ + nl(pretty));
}

proof fn lemma_compact_attrs(
    attrs: Seq<(Seq<char>, Seq<char>)>,
    cfg1: Config,
    cfg2: Config,
    ind: int,
    i: int,
)
    requires
        !cfg1.is_pretty,
        !cfg2.is_pretty,
        cfg1.entity_mode == cfg2.entity_mode,
    ensures
        spec_attrs_upto(attrs, cfg1, false, ind, i) == spec_attrs_upto(attrs, cfg2, false, ind, i),
    decreases i,
{
    if 0 < i <= attrs.len() {
        lemma_compact_attrs(attrs, cfg1, cfg2, ind, i - 1);
    }
}

proof fn lemma_compact_children(
    d: DocView,
    cfg1: Config,
    cfg2: Config,
    children: Seq<int>,
    ind: int,
    i: int,
    key: int,
)
    requires
        view_wf(d),
        0 <= key < d.nodes.len(),
        forall|j: int| 0 <= j < children.len() ==> 0 <= #[trigger] children[j] < key,
        !cfg1.is_pretty,
        !cfg2.is_pretty,
        cfg1.entity_mode == cfg2.entity_mode,
    ensures
        spec_children_upto(d, cfg1, children, ind, i, key) == spec_children_upto(
            d,
            cfg2,
            children,
            ind,
            i,
            key,
        ),
    decreases key, 0int, i,
{
    if 0 < i <= children.len() {
        lemma_compact_children(d, cfg1, cfg2, children, ind, i - 1, key);
        lemma_compact_node(d, cfg1, cfg2, children[i - 1], ind);
    }
}

proof fn lemma_compact_element(d: DocView, cfg1: Config, cfg2: Config, key: int, ind: int)
    requires
        view_wf(d),
        0 <= key < d.nodes.len(),
        !cfg1.is_pretty,
        !cfg2.is_pretty,
        cfg1.entity_mode == cfg2.entity_mode,
    ensures
        spec_element_render(d, cfg1, key, ind) == spec_element_render(d, cfg2, key, ind),
    decreases key, 1int, 0int,
{
    match d.nodes[key] {
        NodeView::Element(e) => {
            lemma_compact_attrs(d.attrs[key], cfg1, cfg2, ind, d.attrs[key].len() as int);
            if e.children.len() > 0 {
                assert(node_wf(d.nodes[key], key));
                lemma_compact_children(
                    d,
                    cfg1,
                    cfg2,
                    e.children,
                    ind,
                    e.children.len() as int,
                    key,
                );
            }
        },
        _ => {},
    }
}

/// Compact mode ignores the layout settings: with pretty mode off, a node's
/// rendering does not depend on the configured indent width or maximum line
/// length (no indentation step is taken and no attribute ever wraps), only
/// on the entity mode.
pub proof fn lemma_compact_node(d: DocView, cfg1: Config, cfg2: Config, key: int, ind: int)
    requires
        view_wf(d),
        0 <= key < d.nodes.len(),
        !cfg1.is_pretty,
        !cfg2.is_pretty,
        cfg1.entity_mode == cfg2.entity_mode,
    ensures
        spec_node_render(d, cfg1, key, ind) == spec_node_render(d, cfg2, key, ind),
    decreases key, 2int, 0int,
{
    if d.nodes[key] is Element {
        lemma_compact_element(d, cfg1, cfg2, key, ind);
    }
}

proof fn lemma_compact_keys(d: DocView, cfg1: Config, cfg2: Config, keys: Seq<int>, i: int)
    requires
        view_wf(d),
        forall|j: int| 0 <= j < keys.len() ==> 0 <= #[trigger] keys[j] < d.nodes.len(),
        !cfg1.is_pretty,
        !cfg2.is_pretty,
        cfg1.entity_mode == cfg2.entity_mode,
    ensures
        spec_keys_upto(d, cfg1, keys, i) == spec_keys_upto(d, cfg2, keys, i),
    decreases i,
{
    if 0 < i <= keys.len() {
        lemma_compact_keys(d, cfg1, cfg2, keys, i - 1);
        lemma_compact_node(d, cfg1, cfg2, keys[i - 1], 0);
    }
}

/// Compact mode ignores the layout settings at the document level: two
/// compact configurations with the same entity mode render any renderable
/// well-formed document to the same text, whatever their indent width and
/// maximum line length.
pub proof fn lemma_compact_document(d: DocView, cfg1: Config, cfg2: Config)
    requires
        view_wf(d),
        spec_renderable(d),
        !cfg1.is_pretty,
        !cfg2.is_pretty,
        cfg1.entity_mode == cfg2.entity_mode,
    ensures
        spec_document_render(d, cfg1) == spec_document_render(d, cfg2),
{
    lemma_compact_keys(d, cfg1, cfg2, d.before, d.before.len() as int);
    lemma_compact_keys(d, cfg1, cfg2, d.after, d.after.len() as int);
    lemma_compact_element(d, cfg1, cfg2, d.root, 0);
}

} // verus!
