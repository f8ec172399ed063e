use vstd::prelude::*;

use crate::text::{chars_eq, chars_of, eq_str, push_all};

use ego_tree::iter::Edge;

verus! {

/// One attribute: namespace URI (empty for none), local name, value.
pub type AttrView = (Seq<char>, Seq<char>, Seq<char>);

/// A node of a parsed HTML document.
pub enum Tree {
    Text(Seq<char>),
    Element(Seq<char>, Seq<AttrView>, Seq<Tree>),
    /// The document itself, a doctype, a comment or a processing instruction.
    Other(Seq<Tree>),
}

/// What a document walk reports of a node when it enters it.
pub enum NodeKind {
    Text(Seq<char>),
    Element(Seq<char>, Seq<AttrView>),
    Other,
}

/// One step of a walk over a document tree: entering a node, or leaving the last one entered.
pub enum EventView {
    Open(NodeKind),
    Close,
}

/// One attribute of an element, as the HTML parser stored it.
#[derive(Debug, Clone)]
pub struct DomAttr {
    pub ns: Vec<char>,
    pub local: Vec<char>,
    pub value: Vec<char>,
}

impl View for DomAttr {
    type V = AttrView;

    open spec fn view(&self) -> AttrView {
        (self.ns@, self.local@, self.value@)
    }
}

/// An element: local name, attributes in stored order, and children.
#[derive(Debug)]
pub struct DomElement {
    pub name: Vec<char>,
    pub attrs: Vec<DomAttr>,
    pub children: Vec<DomNode>,
}

/// A node of a parsed HTML document.
#[derive(Debug)]
pub enum DomNode {
    Text(Vec<char>),
    Element(DomElement),
    Other(Vec<DomNode>),
}

pub open spec fn attrs_view(a: Seq<DomAttr>) -> Seq<AttrView> {
    a.map_values(|x: DomAttr| x@)
}

impl DomNode {
    pub open spec fn tree(&self) -> Tree
        decreases self, 0nat,
    {
        match self {
            DomNode::Text(t) => Tree::Text(t@),
            DomNode::Element(e) => Tree::Element(
                e.name@,
                attrs_view(e.attrs@),
                trees_of(e.children@),
            ),
            DomNode::Other(k) => Tree::Other(trees_of(k@)),
        }
    }
}

pub open spec fn trees_of(v: Seq<DomNode>) -> Seq<Tree>
    decreases v, 1nat,
{
    if v.len() == 0 {
        seq![]
    } else {
        trees_of(v.drop_last()).push(v.last().tree())
    }
}


pub proof fn lemma_trees_of(v: Seq<DomNode>)
    ensures
        trees_of(v).len() == v.len(),
        forall|i: int| 0 <= i < v.len() ==> #[trigger] trees_of(v)[i] == v[i].tree(),
    decreases v.len(),
{
    if v.len() > 0 {
        lemma_trees_of(v.drop_last());
        assert forall|i: int| 0 <= i < v.len() implies #[trigger] trees_of(v)[i] == v[i].tree() by {
            if i < v.len() - 1 {
                assert(v.drop_last()[i] == v[i]);
            }
        }
    }
}

// ---------------------------------------------------------------- the parser's walk

/// What the HTML parser stored for one node.
#[derive(Debug)]
pub enum NodeData {
    Text(String),
    /// Local name, and attributes as (namespace URI, local name, value).
    Element(String, Vec<(String, String, String)>),
    Other,
}

/// One step of the parser's walk over the document tree.
#[derive(Debug)]
pub enum HtmlEvent {
    Open(NodeData),
    Close,
}

pub open spec fn attr_triple_view(a: (String, String, String)) -> AttrView {
    (a.0@, a.1@, a.2@)
}

impl View for HtmlEvent {
    type V = EventView;

    open spec fn view(&self) -> EventView {
        match self {
            HtmlEvent::Open(NodeData::Text(t)) => EventView::Open(NodeKind::Text(t@)),
            HtmlEvent::Open(NodeData::Element(n, a)) => EventView::Open(
                NodeKind::Element(n@, a@.map_values(|x: (String, String, String)| attr_triple_view(x))),
            ),
            HtmlEvent::Open(NodeData::Other) => EventView::Open(NodeKind::Other),
            HtmlEvent::Close => EventView::Close,
        }
    }
}

pub open spec fn events_view(ev: Seq<HtmlEvent>) -> Seq<EventView> {
    ev.map_values(|e: HtmlEvent| e@)
}

/// `scraper::Html`, carried through unopened.
#[verifier::external_type_specification]
#[verifier::external_body]
pub struct ExHtml(scraper::Html);

/// An HTML document as `scraper::Html::parse_document` parsed it, next to the text it came from.
pub struct HtmlDocument {
    html: scraper::Html,
    source: String,
}

impl HtmlDocument {
    pub closed spec fn source(&self) -> Seq<char> {
        self.source@
    }
}

/// Calls `scraper::Html::parse_document`. Trusted: the document remembers its text.
#[verifier::external_body]
pub fn parse_html(html: &str) -> (doc: HtmlDocument)
    ensures
        doc.source() == html@,
{
    HtmlDocument { html: scraper::Html::parse_document(html), source: html.to_string() }
}

/// What `scraper::Html::select` yields, on the document that `scraper::Html::parse_document`
/// builds for a text, for a CSS selector text: for each element it yields, in its order, the
/// walk over that element (each node entered, with its kind, text, local name and attributes,
/// and left); `None` where `scraper::Selector::parse` refuses the selector.
pub uninterp spec fn html_select(html: Seq<char>, css: Seq<char>) -> Option<Seq<Seq<EventView>>>;

pub open spec fn walks_view(w: Seq<Vec<HtmlEvent>>) -> Seq<Seq<EventView>> {
    w.map_values(|x: Vec<HtmlEvent>| events_view(x@))
}

/// Calls `scraper::Selector::parse` and `scraper::Html::select`, and walks each element that it
/// yields with `ego_tree`'s `traverse`. Trusted: the result is what `html_select` names for the
/// document's text and the selector text; node data are copied as they are.
#[verifier::external_body]
pub fn select_walks(doc: &HtmlDocument, css: &str) -> (r: Option<Vec<Vec<HtmlEvent>>>)
    ensures
        r matches Some(w) ==> html_select(doc.source(), css@) == Some(walks_view(w@)),
        r is None ==> html_select(doc.source(), css@) is None,
{
    let selector = scraper::Selector::parse(css).ok()?;
    Some(doc.html.select(&selector).map(|element| element.traverse().map(|edge| match edge {
        Edge::Open(node) => HtmlEvent::Open(match node.value() {
            scraper::Node::Text(t) => NodeData::Text(t.to_string()),
            scraper::Node::Element(e) => NodeData::Element(e.name().to_string(), e.attrs.iter().map(
                |(q, v)| (q.ns.to_string(), q.local.to_string(), v.to_string()),
            ).collect()),
            _ => NodeData::Other,
        }),
        Edge::Close(_) => HtmlEvent::Close,
    }).collect()).collect())
}

// ---------------------------------------------------------------- building the tree

pub open spec fn kind_tree(k: NodeKind, kids: Seq<Tree>) -> Tree {
    match k {
        NodeKind::Text(t) => Tree::Text(t),
        NodeKind::Element(n, a) => Tree::Element(n, a, kids),
        NodeKind::Other => Tree::Other(kids),
    }
}

/// The node that the walk enters at `pos`, and the position after it is left.
pub open spec fn build_node(ev: Seq<EventView>, pos: int) -> (Tree, int)
    decreases ev.len() - pos, 0nat,
{
    if pos < 0 || pos >= ev.len() {
        (Tree::Other(seq![]), ev.len() as int)
    } else {
        match ev[pos] {
            EventView::Close => (Tree::Other(seq![]), pos + 1),
            EventView::Open(k) => {
                let (kids, end) = build_children(ev, pos + 1);
                (kind_tree(k, kids), if end < ev.len() {
                    end + 1
                } else {
                    end
                })
            },
        }
    }
}

/// The nodes that the walk enters from `pos` on, up to the step that leaves their parent,
/// and the position of that step.
pub open spec fn build_children(ev: Seq<EventView>, pos: int) -> (Seq<Tree>, int)
    decreases ev.len() - pos, 1nat,
{
    if pos < 0 || pos >= ev.len() {
        (seq![], ev.len() as int)
    } else if ev[pos] is Close {
        (seq![], pos)
    } else {
        let (t, next) = build_node(ev, pos);
        if pos < next <= ev.len() {
            let (rest, end) = build_children(ev, next);
            (seq![t] + rest, end)
        } else {
            (seq![t], ev.len() as int)
        }
    }
}

/// The document tree of a walk: the node that the walk enters first.
pub open spec fn document_tree(ev: Seq<EventView>) -> Tree {
    if ev.len() > 0 {
        build_node(ev, 0).0
    } else {
        Tree::Other(seq![])
    }
}

fn convert_attrs(a: &Vec<(String, String, String)>) -> (out: Vec<DomAttr>)
    ensures
        attrs_view(out@) == a@.map_values(|x: (String, String, String)| attr_triple_view(x)),
{
    let mut out: Vec<DomAttr> = Vec::new();
    let mut i: usize = 0;
    while i < a.len()
        invariant
            i <= a@.len(),
            attrs_view(out@) == a@.take(i as int).map_values(
                |x: (String, String, String)| attr_triple_view(x),
            ),
        decreases a@.len() - i,
    {
        let (ns, local, value) = &a[i];
        let attr = DomAttr {
            ns: chars_of(ns.as_str()),
            local: chars_of(local.as_str()),
            value: chars_of(value.as_str()),
        };
        let ghost before = out@;
        out.push(attr);
        assert(attrs_view(out@) =~= attrs_view(before).push(attr@));
        assert(a@.take(i + 1).map_values(|x: (String, String, String)| attr_triple_view(x))
            =~= a@.take(i as int).map_values(|x: (String, String, String)| attr_triple_view(x)).push(
            attr_triple_view(a@[i as int]),
        ));
        i += 1;
    }
    assert(a@.take(a@.len() as int) =~= a@);
    out
}

fn node_at(ev: &Vec<HtmlEvent>, pos: usize) -> (r: (DomNode, usize))
    requires
        pos < ev@.len(),
    ensures
        (r.0.tree(), r.1 as int) == build_node(events_view(ev@), pos as int),
    decreases ev@.len() - pos, 0nat,
{
    let ghost evv = events_view(ev@);
    let n = ev.len();
    assert(evv[pos as int] == ev@[pos as int]@);
    match &ev[pos] {
        HtmlEvent::Close => (DomNode::Other(Vec::new()), pos + 1),
        HtmlEvent::Open(data) => {
            let (kids, end) = children_at(ev, pos + 1);
            let next = if end < ev.len() {
                end + 1
            } else {
                end
            };
            let node = match data {
                NodeData::Text(t) => DomNode::Text(chars_of(t.as_str())),
                NodeData::Element(n, a) => DomNode::Element(
                    DomElement { name: chars_of(n.as_str()), attrs: convert_attrs(a), children: kids },
                ),
                NodeData::Other => DomNode::Other(kids),
            };
            (node, next)
        },
    }
}

fn children_at(ev: &Vec<HtmlEvent>, pos: usize) -> (r: (Vec<DomNode>, usize))
    requires
        pos <= ev@.len(),
    ensures
        (trees_of(r.0@), r.1 as int) == build_children(events_view(ev@), pos as int),
        r.1 <= ev@.len(),
    decreases ev@.len() - pos, 1nat,
{
    let ghost evv = events_view(ev@);
    let mut kids: Vec<DomNode> = Vec::new();
    let mut p: usize = pos;
    loop
        invariant
            pos <= p <= ev@.len(),
            evv == events_view(ev@),
            trees_of(kids@) + build_children(evv, p as int).0 == build_children(evv, pos as int).0,
            build_children(evv, p as int).1 == build_children(evv, pos as int).1,
        decreases ev@.len() - p,
    {
        if p >= ev.len() {
            assert(trees_of(kids@) + Seq::<Tree>::empty() =~= trees_of(kids@));
            return (kids, ev.len());
        }
        assert(evv[p as int] == ev@[p as int]@);
        if let HtmlEvent::Close = &ev[p] {
            assert(trees_of(kids@) + Seq::<Tree>::empty() =~= trees_of(kids@));
            return (kids, p);
        }
        let (t, next) = node_at(ev, p);
        let ghost before = trees_of(kids@);
        let ghost kv = kids@;
        kids.push(t);
        assert(kids@.drop_last() =~= kv);
        assert(trees_of(kids@) == before.push(t.tree()));
        if !(p < next && next <= ev.len()) {
            assert(before.push(t.tree()) =~= before + seq![t.tree()]);
            return (kids, ev.len());
        }
        let ghost rest = build_children(evv, next as int).0;
        assert(before + (seq![t.tree()] + rest) =~= before.push(t.tree()) + rest);
        p = next;
    }
}


/// Builds the document tree from a walk over it: the node that the walk enters first.
pub fn build_document(events: &Vec<HtmlEvent>) -> (doc: DomNode)
    ensures
        doc.tree() == document_tree(events_view(events@)),
{
    if events.len() == 0 {
        let d = DomNode::Other(Vec::new());
        assert(trees_of(Seq::<DomNode>::empty()) =~= Seq::<Tree>::empty());
        d
    } else {
        node_at(events, 0).0
    }
}

/// The trees of the walks, one after the other.
pub open spec fn walk_trees(ws: Seq<Seq<EventView>>) -> Seq<Tree> {
    ws.map_values(|w: Seq<EventView>| document_tree(w))
}

/// The elements that `scraper::Html::select` yields for a CSS selector text, in its order, each
/// as a tree; `None` where the selector does not parse.
pub open spec fn select_spec(html: Seq<char>, css: Seq<char>) -> Option<Seq<Tree>> {
    match html_select(html, css) {
        Some(ws) => Some(walk_trees(ws)),
        None => None,
    }
}

/// Builds a tree from each walk, in order.
pub fn build_all(walks: &Vec<Vec<HtmlEvent>>) -> (out: Vec<DomNode>)
    ensures
        trees_of(out@) == walk_trees(walks_view(walks@)),
{
    let ghost wv = walks_view(walks@);
    let mut out: Vec<DomNode> = Vec::new();
    let mut i: usize = 0;
    while i < walks.len()
        invariant
            i <= walks@.len(),
            wv == walks_view(walks@),
            trees_of(out@) == walk_trees(wv.take(i as int)),
        decreases walks@.len() - i,
    {
        let d = build_document(&walks[i]);
        let ghost before = out@;
        out.push(d);
        assert(out@.drop_last() =~= before);
        assert(walk_trees(wv.take(i + 1)) =~= walk_trees(wv.take(i as int)).push(d.tree()));
        i += 1;
    }
    assert(wv.take(walks@.len() as int) =~= wv);
    out
}

/// The elements of a document that match a CSS selector text, in the order that
/// `scraper::Html::select` yields them; `None` where the selector does not parse.
pub fn select_document(doc: &HtmlDocument, css: &str) -> (r: Option<Vec<DomNode>>)
    ensures
        r matches Some(v) ==> select_spec(doc.source(), css@) == Some(trees_of(v@)),
        r is None ==> select_spec(doc.source(), css@) is None,
{
    match select_walks(doc, css) {
        Some(w) => Some(build_all(&w)),
        None => None,
    }
}

// ---------------------------------------------------------------- reading the tree

pub open spec fn kids(t: Tree) -> Seq<Tree> {
    match t {
        Tree::Element(_, _, k) => k,
        Tree::Other(k) => k,
        Tree::Text(_) => seq![],
    }
}

pub open spec fn attrs_of(t: Tree) -> Seq<AttrView> {
    match t {
        Tree::Element(_, a, _) => a,
        _ => seq![],
    }
}

/// `Element::attr`: the value of the attribute without namespace that has the given local name.
pub open spec fn attr_spec(attrs: Seq<AttrView>, name: Seq<char>) -> Option<Seq<char>>
    decreases attrs.len(),
{
    if attrs.len() == 0 {
        None
    } else if attrs[0].0.len() == 0 && attrs[0].1 == name {
        Some(attrs[0].2)
    } else {
        attr_spec(attrs.drop_first(), name)
    }
}

/// The attribute value that `Element::attr` finds.
pub fn attr<'a>(attrs: &'a Vec<DomAttr>, name: &str) -> (r: Option<&'a Vec<char>>)
    ensures
        r matches Some(v) ==> attr_spec(attrs_view(attrs@), name@) == Some(v@),
        r is None ==> attr_spec(attrs_view(attrs@), name@) is None,
{
    let ghost av = attrs_view(attrs@);
    let mut i: usize = 0;
    assert(av.skip(0) =~= av);
    while i < attrs.len()
        invariant
            i <= attrs@.len(),
            av == attrs_view(attrs@),
            attr_spec(av, name@) == attr_spec(av.skip(i as int), name@),
        decreases attrs@.len() - i,
    {
        assert(av.skip(i as int).drop_first() =~= av.skip(i + 1));
        assert(av.skip(i as int)[0] == attrs@[i as int]@);
        let a = &attrs[i];
        if a.ns.len() == 0 && eq_str(a.local.as_slice(), name) {
            return Some(&a.value);
        }
        i += 1;
    }
    None
}

// ---------------------------------------------------------------- selectors

/// A list of tag names as a CSS selector (`p`, `h1,h2`, ...): elements with one of these
/// local names.
pub enum Sel {
    Names(Seq<Seq<char>>),
}

#[derive(Debug)]
pub enum Selector {
    Names(Vec<Vec<char>>),
}

impl View for Selector {
    type V = Sel;

    open spec fn view(&self) -> Sel {
        match self {
            Selector::Names(v) => Sel::Names(v@.map_values(|x: Vec<char>| x@)),
        }
    }
}

/// Whether a node matches a selector.
pub open spec fn sel_matches(s: Sel, t: Tree) -> bool {
    match t {
        Tree::Element(name, _, _) => match s {
            Sel::Names(names) => names.contains(name),
        },
        _ => false,
    }
}

/// The nodes of a forest, in tree order, that match a selector: what `select` yields.
pub open spec fn select_forest(ts: Seq<Tree>, s: Sel) -> Seq<Tree>
    decreases ts,
{
    if ts.len() == 0 {
        seq![]
    } else {
        let last = ts.last();
        let below = match last {
            Tree::Element(_, _, k) => select_forest(k, s),
            Tree::Other(k) => select_forest(k, s),
            Tree::Text(_) => seq![],
        };
        select_forest(ts.drop_last(), s) + (if sel_matches(s, last) {
            seq![last]
        } else {
            seq![]
        }) + below
    }
}

fn names_contain(names: &Vec<Vec<char>>, name: &Vec<char>) -> (r: bool)
    ensures
        r == names@.map_values(|x: Vec<char>| x@).contains(name@),
{
    let ghost nv = names@.map_values(|x: Vec<char>| x@);
    let mut i: usize = 0;
    while i < names.len()
        invariant
            i <= names@.len(),
            nv == names@.map_values(|x: Vec<char>| x@),
            forall|j: int| 0 <= j < i ==> nv[j] != name@,
        decreases names@.len() - i,
    {
        if chars_eq(names[i].as_slice(), name.as_slice()) {
            assert(nv[i as int] == name@);
            return true;
        }
        i += 1;
    }
    false
}

/// Whether a node matches a selector.
pub fn matches(sel: &Selector, n: &DomNode) -> (r: bool)
    ensures
        r == sel_matches(sel@, n.tree()),
{
    match n {
        DomNode::Element(e) => match sel {
            Selector::Names(names) => names_contain(names, &e.name),
        },
        _ => false,
    }
}

pub open spec fn refs_trees<'a>(v: Seq<&'a DomNode>) -> Seq<Tree> {
    v.map_values(|n: &DomNode| n.tree())
}

/// Appends to `out` the nodes of `forest` (in tree order) that match `sel`.
pub fn select_into<'a>(forest: &'a Vec<DomNode>, sel: &Selector, out: &mut Vec<&'a DomNode>)
    ensures
        refs_trees(final(out)@) == refs_trees(old(out)@) + select_forest(trees_of(forest@), sel@),
    decreases forest@,
{
    proof {
        lemma_trees_of(forest@);
    }
    let ghost ts = trees_of(forest@);
    let ghost start = refs_trees(out@);
    let mut i: usize = 0;
    while i < forest.len()
        invariant
            i <= forest@.len(),
            ts == trees_of(forest@),
            ts.len() == forest@.len(),
            forall|j: int| 0 <= j < forest@.len() ==> #[trigger] ts[j] == forest@[j].tree(),
            refs_trees(out@) == start + select_forest(ts.take(i as int), sel@),
        decreases forest@.len() - i,
    {
        let n = &forest[i];
        let ghost before = refs_trees(out@);
        let ghost t = ts.take(i + 1);
        assert(t.drop_last() =~= ts.take(i as int));
        assert(t.last() == n.tree());
        if matches(sel, n) {
            out.push(n);
            assert(refs_trees(out@) =~= before + seq![n.tree()]);
        } else {
            assert(before + Seq::<Tree>::empty() =~= before);
        }
        let ghost mid = refs_trees(out@);
        match n {
            DomNode::Element(e) => {
                assert(decreases_to!(forest@ => e.children@));
                select_into(&e.children, sel, out);
            },
            DomNode::Other(k) => {
                assert(decreases_to!(forest@ => k@));
                select_into(k, sel, out);
            },
            DomNode::Text(_) => {
                assert(mid + Seq::<Tree>::empty() =~= mid);
            },
        }
        assert(refs_trees(out@) =~= start + select_forest(t, sel@));
        i += 1;
    }
    assert(ts.take(forest@.len() as int) =~= ts);
}


// ---------------------------------------------------------------- text

/// The text nodes of a forest, in tree order.
pub open spec fn forest_texts(ts: Seq<Tree>) -> Seq<Seq<char>>
    decreases ts,
{
    if ts.len() == 0 {
        seq![]
    } else {
        let last = ts.last();
        let own = match last {
            Tree::Text(x) => seq![x],
            Tree::Element(_, _, k) => forest_texts(k),
            Tree::Other(k) => forest_texts(k),
        };
        forest_texts(ts.drop_last()) + own
    }
}

/// The text nodes of a node and its descendants, in tree order (`ElementRef::text`).
pub open spec fn node_texts(t: Tree) -> Seq<Seq<char>> {
    forest_texts(seq![t])
}

/// The pieces, one after the other.
pub open spec fn concat_all(ps: Seq<Seq<char>>) -> Seq<char>
    decreases ps.len(),
{
    if ps.len() == 0 {
        seq![]
    } else {
        concat_all(ps.drop_last()) + ps.last()
    }
}

/// All the text of a node, concatenated.
pub open spec fn text_of(t: Tree) -> Seq<char> {
    concat_all(node_texts(t))
}

/// Appends the text nodes of `forest`, in tree order.
pub fn collect_texts(forest: &Vec<DomNode>, out: &mut Vec<Vec<char>>)
    ensures
        final(out)@.map_values(|x: Vec<char>| x@) == old(out)@.map_values(|x: Vec<char>| x@)
            + forest_texts(trees_of(forest@)),
    decreases forest@,
{
    proof {
        lemma_trees_of(forest@);
    }
    let ghost ts = trees_of(forest@);
    let ghost start = out@.map_values(|x: Vec<char>| x@);
    let mut i: usize = 0;
    while i < forest.len()
        invariant
            i <= forest@.len(),
            ts == trees_of(forest@),
            ts.len() == forest@.len(),
            forall|j: int| 0 <= j < forest@.len() ==> #[trigger] ts[j] == forest@[j].tree(),
            out@.map_values(|x: Vec<char>| x@) == start + forest_texts(ts.take(i as int)),
        decreases forest@.len() - i,
    {
        let ghost t = ts.take(i + 1);
        assert(t.drop_last() =~= ts.take(i as int));
        let ghost before = out@.map_values(|x: Vec<char>| x@);
        match &forest[i] {
            DomNode::Text(x) => {
                out.push(copy_all(x));
                assert(out@.map_values(|x: Vec<char>| x@) =~= before + seq![x@]);
            },
            DomNode::Element(e) => {
                assert(decreases_to!(forest@ => e.children@));
                collect_texts(&e.children, out);
            },
            DomNode::Other(k) => {
                assert(decreases_to!(forest@ => k@));
                collect_texts(k, out);
            },
        }
        assert(out@.map_values(|x: Vec<char>| x@) =~= start + forest_texts(t));
        i += 1;
    }
    assert(ts.take(forest@.len() as int) =~= ts);
}

fn copy_all(x: &Vec<char>) -> (r: Vec<char>)
    ensures
        r@ == x@,
{
    let mut r: Vec<char> = Vec::new();
    push_all(&mut r, x.as_slice());
    r
}

/// The text nodes of a node and its descendants, in tree order.
pub fn node_texts_exec(n: &DomNode) -> (out: Vec<Vec<char>>)
    ensures
        out@.map_values(|x: Vec<char>| x@) == node_texts(n.tree()),
{
    let mut out: Vec<Vec<char>> = Vec::new();
    assert(seq![n.tree()].drop_last() =~= Seq::<Tree>::empty());
    assert(seq![n.tree()].last() == n.tree());
    match n {
        DomNode::Text(x) => {
            out.push(copy_all(x));
            assert(forest_texts(seq![n.tree()]) =~= forest_texts(Seq::<Tree>::empty()) + seq![x@]);
        },
        DomNode::Element(e) => {
            collect_texts(&e.children, &mut out);
            assert(forest_texts(seq![n.tree()]) =~= forest_texts(Seq::<Tree>::empty())
                + forest_texts(trees_of(e.children@)));
        },
        DomNode::Other(k) => {
            collect_texts(k, &mut out);
            assert(forest_texts(seq![n.tree()]) =~= forest_texts(Seq::<Tree>::empty())
                + forest_texts(trees_of(k@)));
        },
    }
    assert(out@.map_values(|x: Vec<char>| x@) =~= node_texts(n.tree()));
    out
}

/// The pieces, one after the other.
pub fn concat_exec(ps: &Vec<Vec<char>>) -> (out: Vec<char>)
    ensures
        out@ == concat_all(ps@.map_values(|x: Vec<char>| x@)),
{
    let ghost pv = ps@.map_values(|x: Vec<char>| x@);
    let mut out: Vec<char> = Vec::new();
    let mut i: usize = 0;
    while i < ps.len()
        invariant
            i <= ps@.len(),
            pv == ps@.map_values(|x: Vec<char>| x@),
            out@ == concat_all(pv.take(i as int)),
        decreases ps@.len() - i,
    {
        assert(pv.take(i + 1).drop_last() =~= pv.take(i as int));
        push_all(&mut out, ps[i].as_slice());
        i += 1;
    }
    assert(pv.take(ps@.len() as int) =~= pv);
    out
}

/// All the text of a node, concatenated.
pub fn text_of_exec(n: &DomNode) -> (out: Vec<char>)
    ensures
        out@ == text_of(n.tree()),
{
    concat_exec(&node_texts_exec(n))
}

} // verus!
