//! The XML that rawprogram and patch files are made of.

use vstd::prelude::*;

use crate::text::{
    decimal, eq_ignore_ascii_case, same_ignoring_case, same_text, Decimal, NumberError,
};

verus! {

/// An element: its name and its attributes.
#[derive(Debug)]
pub struct Element {
    pub name: String,
    /// Names and values. Where a name occurs twice, the first one counts.
    pub attributes: Vec<(String, String)>,
}

/// A node below the root of a document.
#[derive(Debug)]
pub enum XmlNode {
    Element(Element),
    Comment(String),
    CData(String),
    Text(String),
    ProcessingInstruction(String, Option<String>),
}

/// A document: the nodes directly below its root element, in order.
#[derive(Debug)]
pub struct Document {
    pub children: Vec<XmlNode>,
}

/// An entry of a rawprogram or patch file that cannot be used.
#[derive(Debug)]
pub enum EntryError {
    /// The element lacks an attribute.
    Missing { element: String, name: String },
    /// The value of an attribute is not a number of the wanted size.
    Invalid { element: String, name: String, value: String, cause: NumberError },
    /// The entry is meant for another slot than the one that is supported.
    Slot(u8),
}

/// What an [`Element`] stands for.
#[verifier::ext_equal]
pub struct ElementModel {
    pub name: Seq<char>,
    pub attributes: Map<Seq<char>, Seq<char>>,
}

/// What an [`XmlNode`] stands for.
pub enum NodeModel {
    Element(ElementModel),
    Comment(Seq<char>),
    CData(Seq<char>),
    Text(Seq<char>),
    ProcessingInstruction(Seq<char>, Option<Seq<char>>),
}

/// What an [`EntryError`] stands for.
pub enum EntryErrorModel {
    Missing { element: Seq<char>, name: Seq<char> },
    Invalid { element: Seq<char>, name: Seq<char>, value: Seq<char>, cause: NumberError },
    Slot(u8),
}

/// The value of the first attribute called `name`.
pub open spec fn first_value(attributes: Seq<(String, String)>, name: Seq<char>) -> Option<
    Seq<char>,
>
    decreases attributes.len(),
{
    if attributes.len() == 0 {
        None
    } else if attributes[0].0@ == name {
        Some(attributes[0].1@)
    } else {
        first_value(attributes.drop_first(), name)
    }
}

impl View for Element {
    type V = ElementModel;

    open spec fn view(&self) -> ElementModel {
        ElementModel {
            name: self.name@,
            attributes: Map::new(
                |k: Seq<char>| first_value(self.attributes@, k) is Some,
                |k: Seq<char>| first_value(self.attributes@, k)->0,
            ),
        }
    }
}

impl View for XmlNode {
    type V = NodeModel;

    open spec fn view(&self) -> NodeModel {
        match self {
            XmlNode::Element(e) => NodeModel::Element(e@),
            XmlNode::Comment(s) => NodeModel::Comment(s@),
            XmlNode::CData(s) => NodeModel::CData(s@),
            XmlNode::Text(s) => NodeModel::Text(s@),
            XmlNode::ProcessingInstruction(t, d) => NodeModel::ProcessingInstruction(
                t@,
                match d {
                    Some(d) => Some(d@),
                    None => None,
                },
            ),
        }
    }
}

impl View for Document {
    type V = Seq<NodeModel>;

    open spec fn view(&self) -> Seq<NodeModel> {
        self.children@.map_values(|n: XmlNode| n@)
    }
}

impl View for EntryError {
    type V = EntryErrorModel;

    open spec fn view(&self) -> EntryErrorModel {
        match self {
            EntryError::Missing { element, name } => EntryErrorModel::Missing {
                element: element@,
                name: name@,
            },
            EntryError::Invalid { element, name, value, cause } => EntryErrorModel::Invalid {
                element: element@,
                name: name@,
                value: value@,
                cause: *cause,
            },
            EntryError::Slot(slot) => EntryErrorModel::Slot(*slot),
        }
    }
}

/// What `xmltree::Element::parse` makes of `data`: the nodes below the root
/// element, or the text of its error.
pub uninterp spec fn xml_children(data: Seq<u8>) -> Result<Seq<NodeModel>, Seq<char>>;

/// Calls `xmltree::Element::parse` and takes over the children of the root
/// element: the name and the attributes of each element, and the text of each
/// other node. What lies below those elements is left behind.
///
/// The contract claims that the outcome depends on the bytes alone, the order of
/// attributes aside, which `xmltree` does not keep. It does not say what the
/// outcome is. A document that is nested so deeply that the stack runs out
/// while it is read is beyond what the contract covers.
#[verifier::external_body]
fn read_nodes(data: &[u8]) -> (r: Result<Document, String>)
    ensures
        match r {
            Ok(doc) => xml_children(data@) == Ok::<Seq<NodeModel>, Seq<char>>(doc@),
            Err(text) => xml_children(data@) == Err::<Seq<NodeModel>, Seq<char>>(text@),
        },
{
    let root = xmltree::Element::parse(data).map_err(|e| e.to_string())?;
    let convert = |node| match node {
        xmltree::XMLNode::Element(e) => XmlNode::Element(
            Element { name: e.name, attributes: e.attributes.into_iter().collect() },
        ),
        xmltree::XMLNode::Comment(s) => XmlNode::Comment(s),
        xmltree::XMLNode::CData(s) => XmlNode::CData(s),
        xmltree::XMLNode::Text(s) => XmlNode::Text(s),
        xmltree::XMLNode::ProcessingInstruction(t, d) => XmlNode::ProcessingInstruction(t, d),
    };
    Ok(Document { children: root.children.into_iter().map(convert).collect() })
}

/// Reads a document, or says why it is not well-formed.
pub fn parse_document(data: &[u8]) -> (r: Result<Document, String>)
    ensures
        match r {
            Ok(doc) => xml_children(data@) == Ok::<Seq<NodeModel>, Seq<char>>(doc@),
            Err(text) => xml_children(data@) == Err::<Seq<NodeModel>, Seq<char>>(text@),
        },
{
    read_nodes(data)
}

impl Element {
    /// The value of the attribute called `name`.
    pub fn attribute(&self, name: &str) -> (r: Option<&str>)
        ensures
            match r {
                Some(v) => self@.attributes.contains_key(name@) && self@.attributes[name@] == v@,
                None => !self@.attributes.contains_key(name@),
            },
    {
        let n: usize = self.attributes.len();
        let mut i: usize = 0;
        assert(self.attributes@.skip(0) == self.attributes@);
        while i < n
            invariant
                i <= n == self.attributes@.len(),
                first_value(self.attributes@, name@) == first_value(
                    self.attributes@.skip(i as int),
                    name@,
                ),
            decreases n - i,
        {
            let ghost rest = self.attributes@.skip(i as int);
            assert(rest[0] == self.attributes@[i as int]);
            assert(rest.drop_first() == self.attributes@.skip(i + 1));
            if same_text(self.attributes[i].0.as_str(), name) {
                return Some(self.attributes[i].1.as_str());
            }
            i += 1;
        }
        None
    }
}

/// The attribute `name` of `e`, which has to be there.
pub open spec fn attr_text(e: ElementModel, name: Seq<char>) -> Result<Seq<char>, EntryErrorModel> {
    if e.attributes.contains_key(name) {
        Ok(e.attributes[name])
    } else {
        Err(EntryErrorModel::Missing { element: e.name, name })
    }
}

/// The attribute `name` of `e` as a number of at most `max`.
pub open spec fn attr_number(e: ElementModel, name: Seq<char>, max: nat) -> Result<
    nat,
    EntryErrorModel,
> {
    match attr_text(e, name) {
        Err(x) => Err(x),
        Ok(value) => match decimal(value, max) {
            Ok(n) => Ok(n),
            Err(cause) => Err(
                EntryErrorModel::Invalid { element: e.name, name, value, cause },
            ),
        },
    }
}

/// The attribute `name` of `e` as a number, or `default` where it is missing or
/// empty.
pub open spec fn attr_number_or(
    e: ElementModel,
    name: Seq<char>,
    default: nat,
    max: nat,
) -> Result<nat, EntryErrorModel> {
    if e.attributes.contains_key(name) && e.attributes[name].len() > 0 {
        attr_number(e, name, max)
    } else {
        Ok(default)
    }
}

/// The elements among `nodes` that are called `name`, whatever the case of its
/// letters.
pub open spec fn named_elements(nodes: Seq<NodeModel>, name: Seq<char>) -> Seq<ElementModel>
    decreases nodes.len(),
{
    if nodes.len() == 0 {
        Seq::empty()
    } else {
        let before = named_elements(nodes.drop_last(), name);
        match nodes.last() {
            NodeModel::Element(e) => if same_ignoring_case(e.name, name) {
                before.push(e)
            } else {
                before
            },
            _ => before,
        }
    }
}

/// The attribute `name` of `e`, which has to be there.
pub fn attr<'a>(e: &'a Element, name: &str) -> (r: Result<&'a str, EntryError>)
    ensures
        match r {
            Ok(v) => attr_text(e@, name@) == Ok::<Seq<char>, EntryErrorModel>(v@),
            Err(x) => attr_text(e@, name@) == Err::<Seq<char>, EntryErrorModel>(x@),
        },
{
    match e.attribute(name) {
        Some(v) => Ok(v),
        None => Err(EntryError::Missing { element: e.name.clone(), name: name.to_owned() }),
    }
}

/// The attribute `name` of `e` as a number.
pub fn attr_parse<T: Decimal>(e: &Element, name: &str) -> (r: Result<T, EntryError>)
    ensures
        match r {
            Ok(v) => attr_number(e@, name@, T::limit()) == Ok::<nat, EntryErrorModel>(v.number()),
            Err(x) => attr_number(e@, name@, T::limit()) == Err::<nat, EntryErrorModel>(x@),
        },
{
    let value = match attr(e, name) {
        Ok(v) => v,
        Err(x) => return Err(x),
    };
    match T::from_decimal(value) {
        Ok(v) => Ok(v),
        Err(cause) => Err(
            EntryError::Invalid {
                element: e.name.clone(),
                name: name.to_owned(),
                value: value.to_owned(),
                cause,
            },
        ),
    }
}

/// The attribute `name` of `e` as a number, or `default` where it is missing or
/// empty.
pub fn attr_parse_or<T: Decimal>(e: &Element, name: &str, default: T) -> (r: Result<T, EntryError>)
    ensures
        match r {
            Ok(v) => attr_number_or(e@, name@, default.number(), T::limit()) == Ok::<
                nat,
                EntryErrorModel,
            >(v.number()),
            Err(x) => attr_number_or(e@, name@, default.number(), T::limit()) == Err::<
                nat,
                EntryErrorModel,
            >(x@),
        },
{
    match e.attribute(name) {
        Some(v) => if v.is_empty() {
            Ok(default)
        } else {
            attr_parse(e, name)
        },
        None => Ok(default),
    }
}

/// The elements directly below the root that are called `name`, whatever the
/// case of its letters.
pub fn elements<'a>(xml: &'a Document, name: &str) -> (r: Vec<&'a Element>)
    ensures
        r@.map_values(|e: &Element| e@) == named_elements(xml@, name@),
{
    let n: usize = xml.children.len();
    let mut out: Vec<&'a Element> = Vec::new();
    let mut i: usize = 0;
    assert(out@.map_values(|e: &Element| e@) == named_elements(xml@.take(0), name@));
    while i < n
        invariant
            i <= n == xml.children@.len(),
            out@.map_values(|e: &Element| e@) == named_elements(xml@.take(i as int), name@),
        decreases n - i,
    {
        let ghost seen = xml@.take(i + 1);
        assert(seen.drop_last() == xml@.take(i as int));
        assert(seen.last() == xml.children@[i as int]@);
        let ghost before = out@;
        if let XmlNode::Element(e) = &xml.children[i] {
            if eq_ignore_ascii_case(e.name.as_str(), name) {
                out.push(e);
                assert(out@.map_values(|e: &Element| e@) == before.map_values(
                    |e: &Element| e@,
                ).push(e@));
            }
        }
        i += 1;
    }
    assert(xml@.take(n as int) == xml@);
    out
}

/// Of several attributes of one name, the first one counts.
pub proof fn law_first_attribute_counts(attributes: Seq<(String, String)>, name: Seq<char>, i: int)
    requires
        0 <= i < attributes.len(),
        attributes[i].0@ == name,
        forall|j: int| 0 <= j < i ==> (#[trigger] attributes[j]).0@ != name,
    ensures
        first_value(attributes, name) == Some(attributes[i].1@),
    decreases attributes.len(),
{
    if i > 0 {
        let rest = attributes.drop_first();
        assert(attributes[0].0@ != name);
        assert(rest[i - 1] == attributes[i]);
        assert forall|j: int| 0 <= j < i - 1 implies (#[trigger] rest[j]).0@ != name by {
            assert(rest[j] == attributes[j + 1]);
        }
        law_first_attribute_counts(rest, name, i - 1);
    }
}

/// A name that no attribute has has no value.
pub proof fn law_absent_attribute_has_no_value(attributes: Seq<(String, String)>, name: Seq<char>)
    requires
        forall|j: int| 0 <= j < attributes.len() ==> (#[trigger] attributes[j]).0@ != name,
    ensures
        first_value(attributes, name) is None,
    decreases attributes.len(),
{
    if attributes.len() > 0 {
        let rest = attributes.drop_first();
        assert(attributes[0].0@ != name);
        assert forall|j: int| 0 <= j < rest.len() implies (#[trigger] rest[j]).0@ != name by {
            assert(rest[j] == attributes[j + 1]);
        }
        law_absent_attribute_has_no_value(rest, name);
    }
}

/// An element stands for its name and the values of its attributes.
pub proof fn law_element_stands_for_its_parts(e: Element, name: Seq<char>)
    ensures
        e@.name == e.name@,
        match first_value(e.attributes@, name) {
            Some(v) => e@.attributes.contains_key(name) && e@.attributes[name] == v,
            None => !e@.attributes.contains_key(name),
        },
{
}

/// A document stands for its nodes, in order, and each node for what it holds.
pub proof fn law_document_stands_for_its_nodes(doc: Document)
    ensures
        doc@.len() == doc.children@.len(),
        forall|i: int|
            0 <= i < doc@.len() ==> match doc.children@[i] {
                XmlNode::Element(e) => #[trigger] doc@[i] == NodeModel::Element(e@),
                XmlNode::Comment(t) => doc@[i] == NodeModel::Comment(t@),
                XmlNode::CData(t) => doc@[i] == NodeModel::CData(t@),
                XmlNode::Text(t) => doc@[i] == NodeModel::Text(t@),
                XmlNode::ProcessingInstruction(t, Some(d)) => doc@[i]
                    == NodeModel::ProcessingInstruction(t@, Some(d@)),
                XmlNode::ProcessingInstruction(t, None) => doc@[i]
                    == NodeModel::ProcessingInstruction(t@, None),
            },
{
}

/// An error of an entry stands for what it names.
pub proof fn law_entry_error_stands_for_its_parts(x: EntryError)
    ensures
        x matches EntryError::Missing { element, name } ==> x@ == (EntryErrorModel::Missing {
            element: element@,
            name: name@,
        }),
        x matches EntryError::Invalid { element, name, value, cause } ==> x@ == (
        EntryErrorModel::Invalid { element: element@, name: name@, value: value@, cause }),
        x matches EntryError::Slot(slot) ==> x@ == EntryErrorModel::Slot(slot),
{
}

/// What is wrong with an attribute that is needed as a number of at most `max`.
pub open spec fn number_problem(e: ElementModel, name: Seq<char>, max: nat) -> EntryErrorModel {
    if e.attributes.contains_key(name) {
        EntryErrorModel::Invalid {
            element: e.name,
            name,
            value: e.attributes[name],
            cause: decimal(e.attributes[name], max)->Err_0,
        }
    } else {
        EntryErrorModel::Missing { element: e.name, name }
    }
}

/// Whether an attribute is there and is a number of at most `max`.
pub open spec fn has_number(e: ElementModel, name: Seq<char>, max: nat) -> bool {
    e.attributes.contains_key(name) && decimal(e.attributes[name], max) is Ok
}

/// An attribute that is asked for is handed out as it stands, and its absence is an
/// error that names the element and the attribute.
pub proof fn law_attribute_is_read_as_it_stands(e: ElementModel, name: Seq<char>)
    ensures
        e.attributes.contains_key(name) ==> attr_text(e, name) == Ok::<Seq<char>, EntryErrorModel>(
            e.attributes[name],
        ),
        !e.attributes.contains_key(name) ==> attr_text(e, name) == Err::<
            Seq<char>,
            EntryErrorModel,
        >(EntryErrorModel::Missing { element: e.name, name }),
{
}

/// An attribute that is asked for as a number is the number that its text spells,
/// and a default counts exactly where the attribute is missing or empty.
pub proof fn law_attribute_is_read_as_a_number(
    e: ElementModel,
    name: Seq<char>,
    default: nat,
    max: nat,
)
    ensures
        attr_number(e, name, max) == if has_number(e, name, max) {
            Ok::<nat, EntryErrorModel>(decimal(e.attributes[name], max)->Ok_0)
        } else {
            Err(number_problem(e, name, max))
        },
        attr_number_or(e, name, default, max) == if !e.attributes.contains_key(name)
            || e.attributes[name].len() == 0 {
            Ok::<nat, EntryErrorModel>(default)
        } else {
            attr_number(e, name, max)
        },
{
}

/// Elements of one name, whatever its case, as a property of nodes.
pub open spec fn called(name: Seq<char>) -> spec_fn(NodeModel) -> bool {
    |n: NodeModel| n is Element && same_ignoring_case(n->Element_0.name, name)
}

/// The elements that are found are all those of the name and no others, each once,
/// in the order of the document.
pub proof fn law_elements_are_all_of_that_name(nodes: Seq<NodeModel>, name: Seq<char>)
    ensures
        named_elements(nodes, name).len() == nodes.filter(called(name)).len(),
        forall|k: int|
            0 <= k < named_elements(nodes, name).len() ==> nodes.filter(called(name))[k]
                == NodeModel::Element(#[trigger] named_elements(nodes, name)[k]),
    decreases nodes.len(),
{
    reveal(Seq::filter);
    if nodes.len() > 0 {
        law_elements_are_all_of_that_name(nodes.drop_last(), name);
    }
}

} // verus!
