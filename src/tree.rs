//! The syntax tree that the parser builds, and its mathematical model.
use vstd::prelude::*;

verus! {

broadcast use vstd::std_specs::vec::group_vec_axioms;

/// A node below an element: a run of text or a nested element.
#[derive(Debug, PartialEq)]
pub enum HTMLChild {
    Text(String),
    Element(Box<HTMLElement>),
}

/// A start tag: its name and its attributes in the order written.
#[derive(Debug, PartialEq)]
pub enum HTMLStartTag {
    Tag(String, Vec<HTMLAttribute>),
}

/// An end tag: its name.
#[derive(Debug, PartialEq)]
pub enum HTMLEndTag {
    Tag(String),
}

/// The value of an attribute: the text between its quotes.
#[derive(Debug, PartialEq)]
pub enum HTMLValue {
    String(String),
}

/// One `name=value` pair of a start tag.
#[derive(Debug, PartialEq)]
pub enum HTMLAttribute {
    Attribute { name: String, value: HTMLValue },
}

/// An element: self-closing, or with children between a start and an end tag.
#[derive(Debug, PartialEq)]
pub enum HTMLElement {
    SelfClosingElement(HTMLStartTag),
    ElementWithChildren { start_tag: HTMLStartTag, end_tag: HTMLEndTag, children: Vec<HTMLChild> },
}

/// Model of an attribute.
pub struct AttributeModel {
    pub name: Seq<char>,
    pub value: Seq<char>,
}

/// Model of a start tag.
pub struct TagModel {
    pub name: Seq<char>,
    pub attributes: Seq<AttributeModel>,
}

/// Model of a child node.
pub enum ChildModel {
    Text(Seq<char>),
    Element(ElementModel),
}

/// Model of an element; `end` is the end tag's name.
pub enum ElementModel {
    SelfClosing(TagModel),
    WithChildren { start: TagModel, children: Seq<ChildModel>, end: Seq<char> },
}

impl View for HTMLValue {
    type V = Seq<char>;

    open spec fn view(&self) -> Seq<char> {
        match self {
            HTMLValue::String(s) => s@,
        }
    }
}

impl View for HTMLAttribute {
    type V = AttributeModel;

    open spec fn view(&self) -> AttributeModel {
        match self {
            HTMLAttribute::Attribute { name, value } => AttributeModel { name: name@, value: value@ },
        }
    }
}

/// Models of a sequence of attributes, in order.
pub open spec fn attributes_model(v: Seq<HTMLAttribute>) -> Seq<AttributeModel> {
    v.map_values(|a: HTMLAttribute| a@)
}

impl View for HTMLStartTag {
    type V = TagModel;

    open spec fn view(&self) -> TagModel {
        match self {
            HTMLStartTag::Tag(name, attributes) => TagModel {
                name: name@,
                attributes: attributes_model(attributes@),
            },
        }
    }
}

impl View for HTMLEndTag {
    type V = Seq<char>;

    open spec fn view(&self) -> Seq<char> {
        match self {
            HTMLEndTag::Tag(name) => name@,
        }
    }
}

pub open spec fn element_model(e: HTMLElement) -> ElementModel
    decreases e,
{
    match e {
        HTMLElement::SelfClosingElement(start) => ElementModel::SelfClosing(start@),
        HTMLElement::ElementWithChildren { start_tag, end_tag, children } => {
            ElementModel::WithChildren {
                start: start_tag@,
                children: children_model(children@),
                end: end_tag@,
            }
        },
    }
}

pub open spec fn child_model(c: HTMLChild) -> ChildModel
    decreases c,
{
    match c {
        HTMLChild::Text(t) => ChildModel::Text(t@),
        HTMLChild::Element(e) => ChildModel::Element(element_model(*e)),
    }
}

/// Models of a sequence of children, in order.
pub open spec fn children_model(cs: Seq<HTMLChild>) -> Seq<ChildModel>
    decreases cs,
{
    if cs.len() == 0 {
        Seq::empty()
    } else {
        children_model(cs.subrange(0, cs.len() - 1)).push(child_model(cs[cs.len() - 1]))
    }
}

impl View for HTMLElement {
    type V = ElementModel;

    open spec fn view(&self) -> ElementModel {
        element_model(*self)
    }
}

impl View for HTMLChild {
    type V = ChildModel;

    open spec fn view(&self) -> ChildModel {
        child_model(*self)
    }
}

} // verus!
