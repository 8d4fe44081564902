//! A flat event stream over markup: the shape in which both markup sources
//! (a lenient fragment parser and an XML reader) hand a document's structure
//! to the verified engine.

use vstd::prelude::*;

use crate::text::{seq_eq_ci, str_eq, str_eq_ci};
use quick_xml::events::Event;

verus! {

/// One structural event of a markup document, in document order.
#[derive(Debug, Clone)]
pub enum MarkupEvent {
    /// An element opens; its children follow until the matching `Close`.
    Open { name: String, attrs: Vec<(String, String)> },
    /// A self-closing element: it opens and closes at once, with no children.
    SelfClose { name: String, attrs: Vec<(String, String)> },
    /// Character data.
    Text(String),
    /// An element closes.
    Close { name: String },
    /// A node that carries no structure or text (comment, declaration).
    Skip,
}

/// Mathematical model of a `MarkupEvent`.
pub enum MarkupEventV {
    Open { name: Seq<char>, attrs: Seq<(Seq<char>, Seq<char>)> },
    SelfClose { name: Seq<char>, attrs: Seq<(Seq<char>, Seq<char>)> },
    Text(Seq<char>),
    Close { name: Seq<char> },
    Skip,
}

impl View for MarkupEvent {
    type V = MarkupEventV;

    open spec fn view(&self) -> MarkupEventV {
        match self {
            MarkupEvent::Open { name, attrs } => MarkupEventV::Open {
                name: name@,
                attrs: attrs.deep_view(),
            },
            MarkupEvent::SelfClose { name, attrs } => MarkupEventV::SelfClose {
                name: name@,
                attrs: attrs.deep_view(),
            },
            MarkupEvent::Text(t) => MarkupEventV::Text(t@),
            MarkupEvent::Close { name } => MarkupEventV::Close { name: name@ },
            MarkupEvent::Skip => MarkupEventV::Skip,
        }
    }
}

impl DeepView for MarkupEvent {
    type V = MarkupEventV;

    open spec fn deep_view(&self) -> MarkupEventV {
        self@
    }
}

/// The value of the first attribute whose name matches `key` exactly.
pub open spec fn attr_lookup(attrs: Seq<(Seq<char>, Seq<char>)>, key: Seq<char>) -> Option<
    Seq<char>,
>
    decreases attrs.len(),
{
    if attrs.len() == 0 {
        None
    } else if attrs[0].0 == key {
        Some(attrs[0].1)
    } else {
        attr_lookup(attrs.drop_first(), key)
    }
}

/// The value of the first attribute whose name matches `key` up to ASCII case.
pub open spec fn attr_lookup_ci(attrs: Seq<(Seq<char>, Seq<char>)>, key: Seq<char>) -> Option<
    Seq<char>,
>
    decreases attrs.len(),
{
    if attrs.len() == 0 {
        None
    } else if seq_eq_ci(attrs[0].0, key) {
        Some(attrs[0].1)
    } else {
        attr_lookup_ci(attrs.drop_first(), key)
    }
}

/// Finds an attribute by exact name.
pub fn get_attr(attrs: &Vec<(String, String)>, key: &str) -> (r: Option<String>)
    ensures
        r.deep_view() == attr_lookup(attrs.deep_view(), key@),
{
    let n = attrs.len();
    let mut i: usize = 0;
    proof {
        assert(attrs.deep_view().subrange(0, n as int) =~= attrs.deep_view());
    }
    while i < n
        invariant
            n == attrs.len(),
            i <= n,
            attr_lookup(attrs.deep_view(), key@) == attr_lookup(
                attrs.deep_view().subrange(i as int, n as int),
                key@,
            ),
        decreases n - i,
    {
        let ghost pre = attrs.deep_view().subrange(i as int, n as int);
        proof {
            assert(pre[0] == attrs.deep_view()[i as int]);
            assert(pre.drop_first() =~= attrs.deep_view().subrange(i as int + 1, n as int));
        }
        if str_eq(attrs[i].0.as_str(), key) {
            return Some(attrs[i].1.clone());
        }
        i = i + 1;
    }
    proof {
        assert(attrs.deep_view().subrange(n as int, n as int).len() == 0);
    }
    None
}

/// Finds an attribute by name, ignoring ASCII case; an HTML-dialect source
/// folds attribute names to lower case.
pub fn get_attr_ci(attrs: &Vec<(String, String)>, key: &str) -> (r: Option<String>)
    ensures
        r.deep_view() == attr_lookup_ci(attrs.deep_view(), key@),
{
    let n = attrs.len();
    let mut i: usize = 0;
    proof {
        assert(attrs.deep_view().subrange(0, n as int) =~= attrs.deep_view());
    }
    while i < n
        invariant
            n == attrs.len(),
            i <= n,
            attr_lookup_ci(attrs.deep_view(), key@) == attr_lookup_ci(
                attrs.deep_view().subrange(i as int, n as int),
                key@,
            ),
        decreases n - i,
    {
        let ghost pre = attrs.deep_view().subrange(i as int, n as int);
        proof {
            assert(pre[0] == attrs.deep_view()[i as int]);
            assert(pre.drop_first() =~= attrs.deep_view().subrange(i as int + 1, n as int));
        }
        if str_eq_ci(attrs[i].0.as_str(), key) {
            return Some(attrs[i].1.clone());
        }
        i = i + 1;
    }
    proof {
        assert(attrs.deep_view().subrange(n as int, n as int).len() == 0);
    }
    None
}

/// What `scraper::Html::parse_fragment` yields on an input, flattened to
/// events in document order.
pub uninterp spec fn fragment_events(s: Seq<char>) -> Seq<MarkupEventV>;

/// Relies on scraper's `Html::parse_fragment`: a lenient parse of one verse's
/// markup; the parse depends on the input characters alone.
#[verifier::external_body]
pub fn parse_fragment_events(s: &str) -> (evs: Vec<MarkupEvent>)
    ensures
        evs.deep_view() == fragment_events(s@),
{
    let html = scraper::Html::parse_fragment(s);
    let mut out = Vec::new();
    push_node_events(html.tree.root(), &mut out);
    out
}

#[verifier::external_type_specification]
#[verifier::external_body]
#[verifier::reject_recursive_types(T)]
pub struct ExNodeRef<'a, T: 'a>(ego_tree::NodeRef<'a, T>);

#[verifier::external_type_specification]
#[verifier::external_body]
pub struct ExNode(scraper::node::Node);

#[verifier::external_type_specification]
#[verifier::external_body]
pub struct ExElement(scraper::node::Element);

/// Relies on scraper's `Element`: its name and its attributes, in order.
#[verifier::external_body]
fn element_parts(e: &scraper::node::Element) -> (t: (String, Vec<(String, String)>)) {
    let attrs = e.attrs().map(|(k, v)| (k.to_string(), v.to_string())).collect();
    (e.name().to_string(), attrs)
}

/// Relies on ego_tree's `NodeRef` and scraper's `Node`: the node kind, the
/// element name, the text content, and the child order.
#[verifier::external_body]
fn push_node_events(node: ego_tree::NodeRef<scraper::node::Node>, out: &mut Vec<MarkupEvent>) {
    match node.value() {
        scraper::node::Node::Text(t) => out.push(MarkupEvent::Text(t.text.to_string())),
        scraper::node::Node::Element(e) => {
            let (name, attrs) = element_parts(e);
            out.push(MarkupEvent::Open { name, attrs });
            for child in node.children() {
                push_node_events(child, out);
            }
            out.push(MarkupEvent::Close { name: e.name().to_string() });
        },
        _ => for child in node.children() {
            push_node_events(child, out);
        },
    }
}

#[verifier::external_type_specification]
#[verifier::external_body]
#[verifier::reject_recursive_types(R)]
pub struct ExReader<R>(quick_xml::Reader<R>);

#[verifier::external_type_specification]
#[verifier::external_body]
pub struct ExBytesStart<'a>(quick_xml::events::BytesStart<'a>);

/// Relies on quick_xml's `Reader::from_str`: a reader over one in-memory
/// document.
#[verifier::external_body]
fn xml_reader_from_str<'a>(s: &'a str) -> (r: quick_xml::Reader<&'a [u8]>) {
    quick_xml::Reader::from_str(s)
}

/// Relies on quick_xml's `BytesStart`: a tag's name and its decoded
/// attributes, in document order.
#[verifier::external_body]
fn tag_parts(e: &quick_xml::events::BytesStart) -> (t: (String, Vec<(String, String)>)) {
    let name = e.name().as_ref().to_string();
    let attrs = e.attributes().flatten().map(
        |a| (a.key.as_ref().to_string(), a.value.into_owned()),
    ).collect();
    (name, attrs)
}

/// Relies on quick_xml's `Reader::read_event`: the next event of the
/// document; a general reference stays as its escaped text, and the end of
/// input and a malformed-markup error both end the stream.
#[verifier::external_body]
fn next_xml_event(r: &mut quick_xml::Reader<&[u8]>) -> (e: Option<MarkupEvent>) {
    match r.read_event() {
        Ok(Event::Start(t)) => {
            let (name, attrs) = tag_parts(&t);
            Some(MarkupEvent::Open { name, attrs })
        },
        Ok(Event::Empty(t)) => {
            let (name, attrs) = tag_parts(&t);
            Some(MarkupEvent::SelfClose { name, attrs })
        },
        Ok(Event::Text(t)) => Some(MarkupEvent::Text(t.as_ref().to_string())),
        Ok(Event::GeneralRef(t)) => Some(MarkupEvent::Text(format!("&{};", t.as_ref()))),
        Ok(Event::End(t)) => Some(MarkupEvent::Close { name: t.name().as_ref().to_string() }),
        Ok(Event::Eof) | Err(_) => None,
        Ok(_) => Some(MarkupEvent::Skip),
    }
}

/// What the XML reader yields on an input, as events in document order: a
/// function of the input characters alone.
pub uninterp spec fn xml_events(s: Seq<char>) -> Seq<MarkupEventV>;

/// Relies on quick_xml's `Reader`: reads every event of one in-memory
/// document into a list, in document order, stopping at the end of input or
/// the first malformed-markup error; the parse depends on the input
/// characters alone.
#[verifier::external_body]
pub fn read_xml_events(xml: &str) -> (evs: Vec<MarkupEvent>)
    ensures
        evs.deep_view() == xml_events(xml@),
{
    let mut reader = xml_reader_from_str(xml);
    let mut out: Vec<MarkupEvent> = Vec::new();
    while let Some(ev) = next_xml_event(&mut reader) {
        out.push(ev);
    }
    out
}

} // verus!
