//! Extraction of page metadata (title, description, canonical URL,
//! image) from an HTML document. Parsing is html5ever's, behind one
//! trusted wrapper that hands the document over as a plain tree; the
//! walk over that tree — which elements are read, which keys win, and
//! how earlier values are kept — is verified.

use vstd::prelude::*;

use html5ever::tendril::TendrilSink;

use crate::text::{string_to_chars, trim_spec, trim_str, trunc, truncate_chars};

verus! {

#[verifier::external_type_specification]
#[verifier::external_body]
pub struct ExRcdomNode(markup5ever_rcdom::Node);

/// An HTML document as a plain tree: exactly what the metadata walk
/// reads.
pub enum HtmlNode {
    Element { name: String, attrs: Vec<(String, String)>, children: Vec<HtmlNode> },
    Text(String),
    Document(Vec<HtmlNode>),
    Other,
}

/// The meta info of an HTML page.
#[derive(Debug)]
pub struct Meta {
    pub title: String,
    pub description: String,
    pub url: Option<String>,
    pub image: Option<String>,
}

/// The mathematical value of the extracted metadata.
pub struct MetaV {
    pub title: Seq<char>,
    pub description: Seq<char>,
    pub url: Option<Seq<char>>,
    pub image: Option<Seq<char>>,
}

impl View for Meta {
    type V = MetaV;

    open spec fn view(&self) -> MetaV {
        MetaV {
            title: self.title@,
            description: self.description@,
            url: match self.url {
                Some(u) => Some(u@),
                None => None,
            },
            image: match self.image {
                Some(i) => Some(i@),
                None => None,
            },
        }
    }
}

impl Meta {
    /// Truncate the title and the description to at most 200
    /// characters; the URL and the image are left alone.
    pub fn truncate(&mut self)
        ensures
            final(self)@.title == trunc(old(self)@.title, 200),
            final(self)@.description == trunc(old(self)@.description, 200),
            final(self)@.url == old(self)@.url,
            final(self)@.image == old(self)@.image,
    {
        self.title = truncate_chars(self.title.as_str(), 200);
        self.description = truncate_chars(self.description.as_str(), 200);
    }
}

// ---------------------------------------------------------------------
// The walk, specified.
// ---------------------------------------------------------------------
/// The first attribute named `name` whose trimmed value is non-empty.
pub open spec fn attr_lookup(attrs: Seq<(Seq<char>, Seq<char>)>, name: Seq<char>) -> Option<
    Seq<char>,
>
    decreases attrs.len(),
{
    if attrs.len() == 0 {
        None
    } else if attrs[0].0 == name && trim_spec(attrs[0].1).len() > 0 {
        Some(trim_spec(attrs[0].1))
    } else {
        attr_lookup(attrs.skip(1), name)
    }
}

/// The key of a `<meta>` element: its `name` attribute, else its
/// `property` attribute.
pub open spec fn meta_key(attrs: Seq<(Seq<char>, Seq<char>)>) -> Option<Seq<char>> {
    match attr_lookup(attrs, "name"@) {
        Some(k) => Some(k),
        None => attr_lookup(attrs, "property"@),
    }
}

pub open spec fn is_desc_key(k: Seq<char>) -> bool {
    k == "description"@ || k == "og:description"@ || k == "twitter:description"@
}

pub open spec fn is_title_key(k: Seq<char>) -> bool {
    k == "og:title"@ || k == "twitter:title"@
}

pub open spec fn is_image_key(k: Seq<char>) -> bool {
    k == "og:image"@ || k == "twitter:image"@
}

pub open spec fn is_url_key(k: Seq<char>) -> bool {
    k == "og:url"@ || k == "twitter:url"@
}

/// What one `<meta>` element under `<head>` contributes: the first
/// value wins, and a missing or empty `content` contributes nothing.
pub open spec fn apply_meta_elem(m: MetaV, attrs: Seq<(Seq<char>, Seq<char>)>) -> MetaV {
    match meta_key(attrs) {
        Some(k) => {
            if is_desc_key(k) && m.description.len() == 0 {
                match attr_lookup(attrs, "content"@) {
                    Some(c) => MetaV { description: c, ..m },
                    None => m,
                }
            } else if is_title_key(k) && m.title.len() == 0 {
                match attr_lookup(attrs, "content"@) {
                    Some(c) => MetaV { title: c, ..m },
                    None => m,
                }
            } else if is_image_key(k) && m.image is None {
                match attr_lookup(attrs, "content"@) {
                    Some(c) => MetaV { image: Some(c), ..m },
                    None => m,
                }
            } else if is_url_key(k) && m.url is None {
                match attr_lookup(attrs, "content"@) {
                    Some(c) => MetaV { url: Some(c), ..m },
                    None => m,
                }
            } else {
                m
            }
        },
        None => m,
    }
}

/// The concatenated text of a `<title>` element's child text nodes.
pub open spec fn title_text(children: Seq<HtmlNode>) -> Seq<char>
    decreases children.len(),
{
    if children.len() == 0 {
        Seq::empty()
    } else {
        (match children[0] {
            HtmlNode::Text(s) => s@,
            _ => Seq::<char>::empty(),
        }) + title_text(children.skip(1))
    }
}

/// Walk one node in document order. Only `<html>` and `<head>` are
/// descended into; `<meta>` and `<title>` are read under `<head>`.
pub open spec fn walk_spec(n: HtmlNode, m: MetaV, sup: Seq<char>) -> MetaV
    decreases n, 0int,
{
    match n {
        HtmlNode::Element { name, attrs, children } => {
            if name@ == "html"@ || name@ == "head"@ {
                walk_children(children@, 0, m, name@)
            } else if name@ == "meta"@ && sup == "head"@ {
                apply_meta_elem(m, attrs@.map_values(|a: (String, String)| (a.0@, a.1@)))
            } else if name@ == "title"@ && sup == "head"@ {
                MetaV { title: trim_spec(title_text(children@)), ..m }
            } else {
                m
            }
        },
        _ => m,
    }
}

/// Walk the children from index `i` on.
pub open spec fn walk_children(children: Seq<HtmlNode>, i: int, m: MetaV, sup: Seq<char>) -> MetaV
    decreases children, children.len() - i,
{
    if i < 0 || i >= children.len() {
        m
    } else {
        walk_children(children, i + 1, walk_spec(children[i], m, sup), sup)
    }
}

/// The empty metadata.
pub open spec fn meta_empty() -> MetaV {
    MetaV { title: Seq::empty(), description: Seq::empty(), url: None, image: None }
}

/// The metadata extracted from a parsed document, truncated to the
/// persisted limits.
pub open spec fn extract_meta_spec(root: HtmlNode) -> MetaV {
    let m = match root {
        HtmlNode::Document(children) => walk_children(children@, 0, meta_empty(), "html"@),
        _ => walk_spec(root, meta_empty(), "html"@),
    };
    MetaV { title: trunc(m.title, 200), description: trunc(m.description, 200), ..m }
}

// ---------------------------------------------------------------------
// The trusted parser boundary.
// ---------------------------------------------------------------------
/// What html5ever parses the given bytes to: a function of the bytes
/// alone.
pub uninterp spec fn dom_of(bytes: Seq<u8>) -> HtmlNode;

/// Relies on the shapes of `markup5ever_rcdom::NodeData`: one arm per
/// handled variant, moving names, attributes, text and children into
/// the library's tree.
#[verifier::external_body]
fn dom_to_tree(h: &markup5ever_rcdom::Handle) -> HtmlNode {
    let children: Vec<HtmlNode> = h.children.borrow().iter().map(dom_to_tree).collect();
    match &h.data {
        markup5ever_rcdom::NodeData::Document => HtmlNode::Document(children),
        markup5ever_rcdom::NodeData::Element { name, attrs, .. } => HtmlNode::Element {
            name: name.local.to_string(),
            attrs: attrs.borrow().iter().map(
                |a| (a.name.local.to_string(), a.value.to_string()),
            ).collect(),
            children: children,
        },
        markup5ever_rcdom::NodeData::Text { contents } => HtmlNode::Text(
            contents.borrow().to_string(),
        ),
        _ => HtmlNode::Other,
    }
}

/// Relies on `html5ever::parse_document` over an `RcDom` sink, with
/// scripting off and the doctype dropped: parsing is a deterministic
/// function of the bytes.
#[verifier::external_body]
fn parse_html_dom(html: &[u8]) -> (r: HtmlNode)
    ensures
        r == dom_of(html@),
{
    let opts = html5ever::ParseOpts {
        tree_builder: html5ever::tree_builder::TreeBuilderOpts {
            scripting_enabled: false,
            drop_doctype: true,
            ..Default::default()
        },
        ..Default::default()
    };
    let mut bytes = html;
    let dom = html5ever::parse_document(markup5ever_rcdom::RcDom::default(), opts)
        .from_utf8()
        .read_from(&mut bytes)
        .unwrap();
    dom_to_tree(&dom.document)
}

// ---------------------------------------------------------------------
// The walk, executed.
// ---------------------------------------------------------------------
/// Look up an attribute as [`attr_lookup`] does.
fn attr_lookup_exec(attrs: &Vec<(String, String)>, name: &str) -> (r: Option<String>)
    ensures
        ({
            let av = attrs@.map_values(|a: (String, String)| (a.0@, a.1@));
            match r {
                Some(v) => attr_lookup(av, name@) == Some(v@),
                None => attr_lookup(av, name@) is None,
            }
        }),
{
    let ghost av = attrs@.map_values(|a: (String, String)| (a.0@, a.1@));
    let n = attrs.len();
    let mut i: usize = 0;
    proof {
        assert(av.skip(0) =~= av);
    }
    loop
        invariant
            i <= n,
            n == attrs@.len(),
            av == attrs@.map_values(|a: (String, String)| (a.0@, a.1@)),
            av.len() == n,
            attr_lookup(av, name@) == attr_lookup(av.skip(i as int), name@),
        decreases n - i,
    {
        if i == n {
            return None;
        }
        let a = &attrs[i];
        proof {
            assert(av.skip(i as int)[0] == av[i as int]);
            assert(av[i as int] == (a.0@, a.1@));
            assert(av.skip(i as int).skip(1) =~= av.skip(i + 1));
        }
        if crate::text::str_eq(a.0.as_str(), name) {
            let trimmed = trim_str(a.1.as_str());
            if trimmed.as_str().unicode_len() > 0 {
                return Some(trimmed);
            }
        }
        i = i + 1;
    }
}

/// Apply one `<meta>` element.
fn apply_meta_exec(m: Meta, attrs: &Vec<(String, String)>) -> (r: Meta)
    ensures
        r@ == apply_meta_elem(m@, attrs@.map_values(|a: (String, String)| (a.0@, a.1@))),
{
    let key = match attr_lookup_exec(attrs, "name") {
        Some(k) => Some(k),
        None => attr_lookup_exec(attrs, "property"),
    };
    let key = match key {
        Some(k) => k,
        None => {
            return m;
        },
    };
    let k = key.as_str();
    let is_desc = crate::text::str_eq(k, "description") || crate::text::str_eq(
        k,
        "og:description",
    ) || crate::text::str_eq(k, "twitter:description");
    let is_title = crate::text::str_eq(k, "og:title") || crate::text::str_eq(k, "twitter:title");
    let is_image = crate::text::str_eq(k, "og:image") || crate::text::str_eq(k, "twitter:image");
    let is_url = crate::text::str_eq(k, "og:url") || crate::text::str_eq(k, "twitter:url");
    if is_desc && m.description.as_str().unicode_len() == 0 {
        match attr_lookup_exec(attrs, "content") {
            Some(c) => Meta { description: c, ..m },
            None => m,
        }
    } else if is_title && m.title.as_str().unicode_len() == 0 {
        match attr_lookup_exec(attrs, "content") {
            Some(c) => Meta { title: c, ..m },
            None => m,
        }
    } else if is_image && m.image.is_none() {
        match attr_lookup_exec(attrs, "content") {
            Some(c) => Meta { image: Some(c), ..m },
            None => m,
        }
    } else if is_url && m.url.is_none() {
        match attr_lookup_exec(attrs, "content") {
            Some(c) => Meta { url: Some(c), ..m },
            None => m,
        }
    } else {
        m
    }
}

/// Concatenate the text children of a `<title>` element.
fn title_text_exec(children: &Vec<HtmlNode>) -> (r: String)
    ensures
        r@ == title_text(children@),
{
    let n = children.len();
    let mut acc: Vec<char> = Vec::new();
    let mut i: usize = 0;
    proof {
        assert(children@.skip(0) =~= children@);
        assert(acc@ + title_text(children@.skip(0)) =~= title_text(children@));
    }
    while i < n
        invariant
            i <= n,
            n == children@.len(),
            acc@ + title_text(children@.skip(i as int)) == title_text(children@),
        decreases n - i,
    {
        proof {
            assert(children@.skip(i as int)[0] == children@[i as int]);
            assert(children@.skip(i as int).skip(1) =~= children@.skip(i + 1));
        }
        match &children[i] {
            HtmlNode::Text(s) => {
                crate::text::push_str_chars(&mut acc, s.as_str());
            },
            _ => {},
        }
        proof {
            assert(acc@ + title_text(children@.skip(i + 1)) =~= title_text(children@));
        }
        i = i + 1;
    }
    proof {
        assert(title_text(children@.skip(n as int)) =~= Seq::<char>::empty());
        assert(acc@ =~= title_text(children@));
    }
    crate::text::chars_to_string(&acc)
}

/// Walk one node.
fn walk_exec(n: &HtmlNode, m: Meta, sup: &str) -> (r: Meta)
    ensures
        r@ == walk_spec(*n, m@, sup@),
    decreases *n, 0int,
{
    match n {
        HtmlNode::Element { name, attrs, children } => {
            let is_html = crate::text::str_eq(name.as_str(), "html");
            let is_head = crate::text::str_eq(name.as_str(), "head");
            if is_html || is_head {
                walk_children_exec(children, m, name.as_str())
            } else if crate::text::str_eq(name.as_str(), "meta") && crate::text::str_eq(
                sup,
                "head",
            ) {
                apply_meta_exec(m, attrs)
            } else if crate::text::str_eq(name.as_str(), "title") && crate::text::str_eq(
                sup,
                "head",
            ) {
                let t = title_text_exec(children);
                Meta { title: trim_str(t.as_str()), ..m }
            } else {
                m
            }
        },
        _ => m,
    }
}

/// Walk a child list in document order.
fn walk_children_exec(children: &Vec<HtmlNode>, m: Meta, sup: &str) -> (r: Meta)
    ensures
        r@ == walk_children(children@, 0, m@, sup@),
    decreases children@, children@.len(),
{
    let n = children.len();
    let mut acc = m;
    let mut i: usize = 0;
    while i < n
        invariant
            i <= n,
            n == children@.len(),
            walk_children(children@, 0, m@, sup@) == walk_children(
                children@,
                i as int,
                acc@,
                sup@,
            ),
        decreases n - i,
    {
        proof {
            assert(children@[i as int] == children@.index(i as int));
        }
        acc = walk_exec(&children[i], acc, sup);
        i = i + 1;
    }
    acc
}

/// Parse HTML bytes and extract the page metadata.
pub fn parse_html_meta(html: &[u8]) -> (r: Meta)
    ensures
        r@ == extract_meta_spec(dom_of(html@)),
{
    let root = parse_html_dom(html);
    let m0 = Meta { title: String::new(), description: String::new(), url: None, image: None };
    let mut m = match &root {
        HtmlNode::Document(children) => walk_children_exec(children, m0, "html"),
        _ => walk_exec(&root, m0, "html"),
    };
    m.truncate();
    m
}

} // verus!
