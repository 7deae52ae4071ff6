//! The glyph of a window button inside an Aurorae SVG: the group with id
//! `active-center` (the focused window, at rest), rewritten as a
//! standalone SVG document on the canvas of the theme's file. The document is
//! parsed by `roxmltree`; its nodes come here in document order with
//! their parents, and the group is written back out from them.
use vstd::prelude::*;
use roxmltree::NodeType;
use crate::text::push_all;

verus! {

/// What a node of the document is.
pub enum SvgNodeKind {
    /// An element: its local name and its attributes (local name, value).
    Element { tag: String, attrs: Vec<(String, String)> },
    Text(String),
    /// A comment or a processing instruction.
    Other,
}

/// A node of the document, with its id and its parent's id.
pub struct SvgNode {
    pub id: u32,
    pub parent: Option<u32>,
    pub kind: SvgNodeKind,
}

pub enum KindModel {
    Element { tag: Seq<char>, attrs: Seq<(Seq<char>, Seq<char>)> },
    Text(Seq<char>),
    Other,
}

pub struct NodeModel {
    pub id: u32,
    pub parent: Option<u32>,
    pub kind: KindModel,
}

pub open spec fn attrs_view(a: Seq<(String, String)>) -> Seq<(Seq<char>, Seq<char>)> {
    a.map_values(|p: (String, String)| (p.0@, p.1@))
}

impl View for SvgNode {
    type V = NodeModel;

    open spec fn view(&self) -> NodeModel {
        NodeModel {
            id: self.id,
            parent: self.parent,
            kind: match self.kind {
                SvgNodeKind::Element { tag, attrs } => KindModel::Element { tag: tag@, attrs: attrs_view(attrs@) },
                SvgNodeKind::Text(t) => KindModel::Text(t@),
                SvgNodeKind::Other => KindModel::Other,
            },
        }
    }
}

pub open spec fn nodes_view(v: Seq<SvgNode>) -> Seq<NodeModel> {
    v.map_values(|n: SvgNode| n@)
}

/// The nodes `roxmltree` reads in an XML text: its root element and every
/// node under it, in document order; `None` when the text is not
/// well-formed XML.
pub uninterp spec fn svg_node_list(contents: Seq<char>) -> Option<Seq<NodeModel>>;

/// Calls `roxmltree::Document::parse` and lists `descendants()` of the
/// root element (the element first), each node with its `id`, its
/// parent's `id`, and its kind, name, attributes and text. The contract
/// only names the result.
#[verifier::external_body]
fn svg_nodes(contents: &str) -> (r: Option<Vec<SvgNode>>)
    ensures
        match r {
            Some(v) => svg_node_list(contents@) == Some(nodes_view(v@)),
            None => svg_node_list(contents@) is None,
        },
{
    let doc = roxmltree::Document::parse(contents).ok()?;
    Some(doc.root_element().descendants().map(|n| SvgNode {
        id: n.id().get(),
        parent: n.parent().map(|p| p.id().get()),
        kind: match n.node_type() {
            NodeType::Element => SvgNodeKind::Element {
                tag: n.tag_name().name().to_owned(),
                attrs: n.attributes().map(|a| (a.name().to_owned(), a.value().to_owned())).collect(),
            },
            NodeType::Text => SvgNodeKind::Text(n.text().unwrap_or("").to_owned()),
            _ => SvgNodeKind::Other,
        },
    }).collect())
}

/// Where the block of nodes under the node whose subtree holds `ids`
/// ends, scanning from `j`: the first node whose parent is not in it.
pub open spec fn sub_end(r: Seq<NodeModel>, j: int, ids: Seq<u32>) -> int
    decreases r.len() - j,
{
    if j < 0 || j >= r.len() {
        r.len() as int
    } else if r[j].parent matches Some(p) && ids.contains(p) {
        sub_end(r, j + 1, ids.push(r[j].id))
    } else {
        j
    }
}

/// The end of the subtree of node `k` (the node and the nodes under it
/// follow each other in document order).
pub open spec fn end_of(r: Seq<NodeModel>, k: int) -> int {
    sub_end(r, k + 1, seq![r[k].id])
}

pub proof fn lemma_sub_end(r: Seq<NodeModel>, j: int, ids: Seq<u32>)
    requires
        0 <= j <= r.len(),
    ensures
        j <= sub_end(r, j, ids) <= r.len(),
    decreases r.len() - j,
{
    if j < r.len() {
        if r[j].parent matches Some(p) && ids.contains(p) {
            lemma_sub_end(r, j + 1, ids.push(r[j].id));
        }
    }
}

/// ` name="value"` for each attribute, in order.
pub open spec fn attrs_text(a: Seq<(Seq<char>, Seq<char>)>) -> Seq<char>
    decreases a.len(),
{
    if a.len() == 0 {
        seq![]
    } else {
        attrs_text(a.drop_last()) + " "@ + a.last().0 + "=\""@ + a.last().1 + "\""@
    }
}

/// The markup of node `a` whose subtree ends at `e`: a text as it is, a
/// comment as nothing, an element with its attributes and the markup of
/// its children, self-closed when that markup is empty.
pub open spec fn node_markup(r: Seq<NodeModel>, a: int, e: int) -> Seq<char>
    decreases e - a, 0int,
{
    if a < 0 || a >= e || e > r.len() {
        seq![]
    } else {
        match r[a].kind {
            KindModel::Text(t) => t,
            KindModel::Other => seq![],
            KindModel::Element { tag, attrs } => {
                let inner = range_markup(r, a + 1, e);
                if inner.len() == 0 {
                    "<"@ + tag + attrs_text(attrs) + "/>"@
                } else {
                    "<"@ + tag + attrs_text(attrs) + ">"@ + inner + "</"@ + tag + ">"@
                }
            },
        }
    }
}

/// The markup of the nodes of `[a, b)`, each top node with its subtree.
pub open spec fn range_markup(r: Seq<NodeModel>, a: int, b: int) -> Seq<char>
    decreases b - a, 1int,
{
    if a < 0 || a >= b || b > r.len() {
        seq![]
    } else {
        proof {
            lemma_sub_end(r, a + 1, seq![r[a].id]);
        }
        let e = if end_of(r, a) < b {
            end_of(r, a)
        } else {
            b
        };
        node_markup(r, a, e) + range_markup(r, e, b)
    }
}

/// The value of the first attribute named `name`.
pub open spec fn attr_value(a: Seq<(Seq<char>, Seq<char>)>, name: Seq<char>, i: int) -> Option<Seq<char>>
    decreases a.len() - i,
{
    if i < 0 || i >= a.len() {
        None
    } else if a[i].0 == name {
        Some(a[i].1)
    } else {
        attr_value(a, name, i + 1)
    }
}

pub open spec fn node_attr(n: NodeModel, name: Seq<char>) -> Option<Seq<char>> {
    match n.kind {
        KindModel::Element { attrs, .. } => attr_value(attrs, name, 0),
        _ => None,
    }
}

/// The first node from `k` on that is the group `active-center`.
pub open spec fn group_from(r: Seq<NodeModel>, k: int) -> Option<int>
    decreases r.len() - k,
{
    if k < 0 || k >= r.len() {
        None
    } else if node_attr(r[k], "id"@) == Some("active-center"@) {
        Some(k)
    } else {
        group_from(r, k + 1)
    }
}

/// The root's attribute `name`, or `default`.
pub open spec fn root_attr_or(r: Seq<NodeModel>, name: Seq<char>, default: Seq<char>) -> Seq<char> {
    match if r.len() > 0 { node_attr(r[0], name) } else { None } {
        Some(v) => v,
        None => default,
    }
}

pub open spec fn view_box_text(r: Seq<NodeModel>) -> Seq<char> {
    match if r.len() > 0 { node_attr(r[0], "viewBox"@) } else { None } {
        Some(v) => " viewBox=\""@ + v + "\""@,
        None => seq![],
    }
}

/// The standalone document of the group at `g`: the root's `width` and
/// `height` (22 when absent) and its `viewBox` when it has one.
pub open spec fn standalone_svg(r: Seq<NodeModel>, g: int) -> Seq<char> {
    "<svg xmlns=\"http://www.w3.org/2000/svg\" width=\""@ + root_attr_or(r, "width"@, "22"@) + "\" height=\""@
        + root_attr_or(r, "height"@, "22"@) + "\""@ + view_box_text(r) + ">"@ + node_markup(r, g, end_of(r, g))
        + "</svg>"@
}

/// The glyph of an Aurorae SVG text, when it parses and has the group.
pub open spec fn active_center_of(contents: Seq<char>) -> Option<Seq<char>> {
    match svg_node_list(contents) {
        None => None,
        Some(r) => match group_from(r, 0) {
            None => None,
            Some(g) => Some(standalone_svg(r, g)),
        },
    }
}

fn attr_exec(attrs: &Vec<(String, String)>, name: &str) -> (r: Option<String>)
    ensures
        match r {
            Some(v) => attr_value(attrs_view(attrs@), name@, 0) == Some(v@),
            None => attr_value(attrs_view(attrs@), name@, 0) is None,
        },
{
    let n = name.to_owned();
    let ghost a = attrs_view(attrs@);
    let mut i: usize = 0;
    while i < attrs.len()
        invariant
            i <= attrs@.len(),
            a == attrs_view(attrs@),
            n@ == name@,
            attr_value(a, name@, 0) == attr_value(a, name@, i as int),
        decreases attrs@.len() - i,
    {
        if attrs[i].0 == n {
            return Some(attrs[i].1.clone());
        }
        i += 1;
    }
    None
}

fn node_attr_exec(node: &SvgNode, name: &str) -> (r: Option<String>)
    ensures
        match r {
            Some(v) => node_attr(node@, name@) == Some(v@),
            None => node_attr(node@, name@) is None,
        },
{
    match &node.kind {
        SvgNodeKind::Element { attrs, .. } => attr_exec(attrs, name),
        _ => None,
    }
}

fn contains_id(ids: &Vec<u32>, x: u32) -> (r: bool)
    ensures
        r == ids@.contains(x),
{
    let mut i: usize = 0;
    while i < ids.len()
        invariant
            i <= ids@.len(),
            forall|k: int| 0 <= k < i ==> ids@[k] != x,
        decreases ids@.len() - i,
    {
        if ids[i] == x {
            assert(ids@[i as int] == x);
            return true;
        }
        i += 1;
    }
    false
}

fn end_exec(r: &Vec<SvgNode>, k: usize) -> (e: usize)
    requires
        k < r@.len(),
    ensures
        e == end_of(nodes_view(r@), k as int),
        k < e <= r@.len(),
{
    let ghost rv = nodes_view(r@);
    let len = r.len();
    let mut ids: Vec<u32> = Vec::new();
    ids.push(r[k].id);
    let mut j = k + 1;
    proof {
        assert(ids@ =~= seq![rv[k as int].id]);
        lemma_sub_end(rv, j as int, ids@);
    }
    loop
        invariant
            k < j <= r@.len(),
            len == r@.len(),
            rv == nodes_view(r@),
            end_of(rv, k as int) == sub_end(rv, j as int, ids@),
        decreases r@.len() - j,
    {
        if j >= len {
            return j;
        }
        let inside = match r[j].parent {
            Some(p) => contains_id(&ids, p),
            None => false,
        };
        if !inside {
            return j;
        }
        ids.push(r[j].id);
        j += 1;
    }
}

fn attrs_text_exec(attrs: &Vec<(String, String)>) -> (s: String)
    ensures
        s@ == attrs_text(attrs_view(attrs@)),
{
    let ghost a = attrs_view(attrs@);
    let mut out = String::new();
    let mut i: usize = 0;
    while i < attrs.len()
        invariant
            i <= attrs@.len(),
            a == attrs_view(attrs@),
            out@ == attrs_text(a.take(i as int)),
        decreases attrs@.len() - i,
    {
        assert(a.take(i + 1).drop_last() =~= a.take(i as int));
        push_all(&mut out, " ");
        push_all(&mut out, attrs[i].0.as_str());
        push_all(&mut out, "=\"");
        push_all(&mut out, attrs[i].1.as_str());
        push_all(&mut out, "\"");
        i += 1;
    }
    assert(a.take(i as int) =~= a);
    out
}

fn node_markup_exec(r: &Vec<SvgNode>, a: usize, e: usize) -> (s: String)
    requires
        a < e <= r@.len(),
    ensures
        s@ == node_markup(nodes_view(r@), a as int, e as int),
    decreases e - a, 0int,
{
    match &r[a].kind {
        SvgNodeKind::Text(t) => t.clone(),
        SvgNodeKind::Other => String::new(),
        SvgNodeKind::Element { tag, attrs } => {
            let inner = range_markup_exec(r, a + 1, e);
            let mut out = "<".to_owned();
            push_all(&mut out, tag.as_str());
            let at = attrs_text_exec(attrs);
            push_all(&mut out, at.as_str());
            if inner.as_str().is_empty() {
                push_all(&mut out, "/>");
            } else {
                push_all(&mut out, ">");
                push_all(&mut out, inner.as_str());
                push_all(&mut out, "</");
                push_all(&mut out, tag.as_str());
                push_all(&mut out, ">");
            }
            out
        },
    }
}

fn range_markup_exec(r: &Vec<SvgNode>, a: usize, b: usize) -> (s: String)
    requires
        a <= b <= r@.len(),
    ensures
        s@ == range_markup(nodes_view(r@), a as int, b as int),
    decreases b - a, 1int,
{
    let ghost rv = nodes_view(r@);
    let mut out = String::new();
    let mut i = a;
    while i < b
        invariant
            a <= i <= b <= r@.len(),
            rv == nodes_view(r@),
            out@ + range_markup(rv, i as int, b as int) == range_markup(rv, a as int, b as int),
        decreases b - i,
    {
        let e0 = end_exec(r, i);
        let e = if e0 < b {
            e0
        } else {
            b
        };
        let piece = node_markup_exec(r, i, e);
        let ghost before = out@;
        push_all(&mut out, piece.as_str());
        assert(out@ + range_markup(rv, e as int, b as int) =~= before + range_markup(rv, i as int, b as int));
        i = e;
    }
    assert(out@ + range_markup(rv, i as int, b as int) =~= out@);
    out
}

/// The `active-center` group of an Aurorae SVG as a standalone SVG
/// document; `None` when the text does not parse or has no such group.
pub fn active_center_svg(contents: &str) -> (r: Option<String>)
    ensures
        match r {
            Some(s) => active_center_of(contents@) == Some(s@),
            None => active_center_of(contents@) is None,
        },
{
    let nodes = match svg_nodes(contents) {
        Some(n) => n,
        None => {
            return None;
        },
    };
    let ghost rv = nodes_view(nodes@);
    let mut g: usize = 0;
    let mut found = false;
    while !found && g < nodes.len()
        invariant
            g <= nodes@.len(),
            rv == nodes_view(nodes@),
            found ==> g < nodes@.len() && group_from(rv, 0) == Some(g as int),
            !found ==> group_from(rv, 0) == group_from(rv, g as int),
        decreases nodes@.len() - g + (if found { 0int } else { 1int }),
    {
        let is_group = match node_attr_exec(&nodes[g], "id") {
            Some(v) => v == "active-center".to_owned(),
            None => false,
        };
        if is_group {
            found = true;
        } else {
            g += 1;
        }
    }
    if !found {
        return None;
    }
    let root_width = if nodes.len() > 0 { node_attr_exec(&nodes[0], "width") } else { None };
    let root_height = if nodes.len() > 0 { node_attr_exec(&nodes[0], "height") } else { None };
    let root_view_box = if nodes.len() > 0 { node_attr_exec(&nodes[0], "viewBox") } else { None };
    let mut out = "<svg xmlns=\"http://www.w3.org/2000/svg\" width=\"".to_owned();
    match &root_width {
        Some(w) => push_all(&mut out, w.as_str()),
        None => push_all(&mut out, "22"),
    }
    push_all(&mut out, "\" height=\"");
    match &root_height {
        Some(h) => push_all(&mut out, h.as_str()),
        None => push_all(&mut out, "22"),
    }
    push_all(&mut out, "\"");
    match &root_view_box {
        Some(v) => {
            push_all(&mut out, " viewBox=\"");
            push_all(&mut out, v.as_str());
            push_all(&mut out, "\"");
        },
        None => {},
    }
    push_all(&mut out, ">");
    let e = end_exec(&nodes, g);
    let body = node_markup_exec(&nodes, g, e);
    push_all(&mut out, body.as_str());
    push_all(&mut out, "</svg>");
    Some(out)
}

} // verus!
