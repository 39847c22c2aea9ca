//! The parser: each rule of the grammar as an executable function.
//!
//! The functions that end in `_at` work on the characters `cs` of the input
//! `src` from a position `i`, and return the position after what they
//! matched. The public functions take a string and return what is left of it.
use crate::chars::{split_at_char, substring, to_chars};
use crate::grammar::{
    has_char, in_class, is_attribute_char, is_text_char, parse_attribute, parse_attribute_name,
    parse_attribute_value, parse_attributes, parse_child, parse_children, parse_closing,
    parse_element, parse_element_node, parse_opening, parse_quoted, parse_run, parse_self_closing,
    parse_tag_body, parse_tag_name, parse_text_node, parse_with_children, run_end, CharClass,
};
pub use crate::tree::{
    HTMLAttribute, HTMLChild, HTMLElement, HTMLEndTag, HTMLStartTag, HTMLValue,
};
use crate::tree::{attributes_model, children_model};
use vstd::prelude::*;

verus! {

broadcast use vstd::std_specs::vec::group_vec_axioms;

/// The input does not match the rule.
#[derive(Debug, Clone, Copy, PartialEq, Eq)]
pub struct ParseError;

/// `r` is what the grammar gives in `m`: the same end and the same value, or
/// a failure on both sides.
pub open spec fn agrees<T: View>(r: Result<(usize, T), ParseError>, m: Option<(int, T::V)>) -> bool {
    match (r, m) {
        (Ok((j, v)), Some((k, w))) => j == k && v@ == w,
        (Err(_), None) => true,
        _ => false,
    }
}

/// An end within `[lo, s.len()]` on success.
pub open spec fn ends_within<T>(r: Result<(usize, T), ParseError>, lo: int, s: Seq<char>) -> bool {
    r matches Ok((j, _)) ==> lo <= j <= s.len()
}

fn in_class_exec(c: char, k: CharClass) -> (r: bool)
    ensures
        r == in_class(c, k),
{
    match k {
        CharClass::Text => c != '{' && c != '<' && c != '>' && c != '}',
        CharClass::Tag => ('a' <= c && c <= 'z') || ('A' <= c && c <= 'Z') || ('0' <= c && c
            <= '9'),
        CharClass::Attribute => !(c == '"' || c == '<' || c == '>' || c == '\'' || c == '/' || c
            == '=' || c == ' ' || c == '\t' || c == '\n' || c == '\r'),
        CharClass::Space => c == ' ' || c == '\t' || c == '\n' || c == '\r',
        CharClass::Except(q) => c != q,
    }
}

fn run_end_at(cs: &Vec<char>, i: usize, k: CharClass) -> (j: usize)
    requires
        i <= cs@.len(),
    ensures
        j == run_end(cs@, i as int, k),
        i <= j <= cs@.len(),
{
    let mut j = i;
    while j < cs.len() && in_class_exec(cs[j], k)
        invariant
            i <= j <= cs@.len(),
            run_end(cs@, i as int, k) == run_end(cs@, j as int, k),
        decreases cs@.len() - j,
    {
        j = j + 1;
    }
    j
}

fn has_char_at(cs: &Vec<char>, i: usize, c: char) -> (r: bool)
    ensures
        r == has_char(cs@, i as int, c),
        cs@.len() <= usize::MAX,
{
    i < cs.len() && cs[i] == c
}

fn run_at(src: &str, cs: &Vec<char>, i: usize, k: CharClass) -> (r: Result<(usize, String), ParseError>)
    requires
        cs@ == src@,
        i <= cs@.len(),
    ensures
        agrees(r, parse_run(cs@, i as int, k)),
        ends_within(r, i + 1, cs@),
{
    let j = run_end_at(cs, i, k);
    if j > i {
        Ok((j, substring(src, cs, i, j)))
    } else {
        Err(ParseError)
    }
}

fn quoted_at(src: &str, cs: &Vec<char>, i: usize, q: char) -> (r: Result<(usize, String), ParseError>)
    requires
        cs@ == src@,
        i <= cs@.len(),
    ensures
        agrees(r, parse_quoted(cs@, i as int, q)),
        ends_within(r, i + 2, cs@),
{
    if has_char_at(cs, i, q) {
        let j = run_end_at(cs, i + 1, CharClass::Except(q));
        if j < cs.len() {
            return Ok((j + 1, substring(src, cs, i + 1, j)));
        }
    }
    Err(ParseError)
}

fn attribute_value_at(src: &str, cs: &Vec<char>, i: usize) -> (r: Result<(usize, HTMLValue), ParseError>)
    requires
        cs@ == src@,
        i <= cs@.len(),
    ensures
        agrees(r, parse_attribute_value(cs@, i as int)),
        ends_within(r, i + 2, cs@),
{
    match quoted_at(src, cs, i, '"') {
        Ok((j, v)) => Ok((j, HTMLValue::String(v))),
        Err(_) => {
            let (j, v) = quoted_at(src, cs, i, '\'')?;
            Ok((j, HTMLValue::String(v)))
        },
    }
}

fn attribute_at(src: &str, cs: &Vec<char>, i: usize) -> (r: Result<(usize, HTMLAttribute), ParseError>)
    requires
        cs@ == src@,
        i <= cs@.len(),
    ensures
        agrees(r, parse_attribute(cs@, i as int)),
        ends_within(r, i + 1, cs@),
{
    let a = run_end_at(cs, i, CharClass::Space);
    let (b, name) = run_at(src, cs, a, CharClass::Attribute)?;
    let c = run_end_at(cs, b, CharClass::Space);
    if !has_char_at(cs, c, '=') {
        return Err(ParseError);
    }
    let d = run_end_at(cs, c + 1, CharClass::Space);
    let (e, value) = attribute_value_at(src, cs, d)?;
    Ok((e, HTMLAttribute::Attribute { name, value }))
}


fn attributes_at(src: &str, cs: &Vec<char>, i: usize) -> (r: (usize, Vec<HTMLAttribute>))
    requires
        cs@ == src@,
        i <= cs@.len(),
    ensures
        parse_attributes(cs@, i as int) == (r.0 as int, attributes_model(r.1@)),
        i <= r.0 <= cs@.len(),
{
    let mut attributes: Vec<HTMLAttribute> = Vec::new();
    let mut j = i;
    loop
        invariant
            cs@ == src@,
            i <= j <= cs@.len(),
            parse_attributes(cs@, i as int).0 == parse_attributes(cs@, j as int).0,
            parse_attributes(cs@, i as int).1 == attributes_model(attributes@) + parse_attributes(
                cs@,
                j as int,
            ).1,
        decreases cs@.len() - j,
    {
        match attribute_at(src, cs, j) {
            Ok((k, a)) => {
                let ghost before = attributes@;
                attributes.push(a);
                proof {
                    assert(attributes_model(attributes@) =~= attributes_model(before).push(a@));
                    assert(attributes_model(before) + parse_attributes(cs@, j as int).1
                        =~= attributes_model(attributes@) + parse_attributes(cs@, k as int).1);
                }
                j = k;
            },
            Err(_) => {
                proof {
                    assert(attributes_model(attributes@) + Seq::empty() =~= attributes_model(
                        attributes@,
                    ));
                }
                return (j, attributes);
            },
        }
    }
}

fn tag_body_at(src: &str, cs: &Vec<char>, i: usize) -> (r: Result<(usize, HTMLStartTag), ParseError>)
    requires
        cs@ == src@,
        i <= cs@.len(),
    ensures
        agrees(r, parse_tag_body(cs@, i as int)),
        ends_within(r, i + 1, cs@),
{
    let (b, name) = run_at(src, cs, i, CharClass::Tag)?;
    let (c, attributes) = attributes_at(src, cs, b);
    let d = run_end_at(cs, c, CharClass::Space);
    Ok((d, HTMLStartTag::Tag(name, attributes)))
}

fn opening_at(src: &str, cs: &Vec<char>, i: usize) -> (r: Result<(usize, HTMLStartTag), ParseError>)
    requires
        cs@ == src@,
        i <= cs@.len(),
    ensures
        agrees(r, parse_opening(cs@, i as int)),
        ends_within(r, i + 1, cs@),
{
    let a = run_end_at(cs, i, CharClass::Space);
    if !has_char_at(cs, a, '<') {
        return Err(ParseError);
    }
    let (d, tag) = tag_body_at(src, cs, a + 1)?;
    if !has_char_at(cs, d, '>') {
        return Err(ParseError);
    }
    Ok((d + 1, tag))
}

fn closing_at(src: &str, cs: &Vec<char>, i: usize) -> (r: Result<(usize, HTMLEndTag), ParseError>)
    requires
        cs@ == src@,
        i <= cs@.len(),
    ensures
        agrees(r, parse_closing(cs@, i as int)),
        ends_within(r, i + 1, cs@),
{
    if !(has_char_at(cs, i, '<') && has_char_at(cs, i + 1, '/')) {
        return Err(ParseError);
    }
    let (b, name) = run_at(src, cs, i + 2, CharClass::Tag)?;
    if !has_char_at(cs, b, '>') {
        return Err(ParseError);
    }
    Ok((b + 1, HTMLEndTag::Tag(name)))
}

fn self_closing_at(src: &str, cs: &Vec<char>, i: usize) -> (r: Result<(usize, HTMLElement), ParseError>)
    requires
        cs@ == src@,
        i <= cs@.len(),
    ensures
        agrees(r, parse_self_closing(cs@, i as int)),
        ends_within(r, i + 1, cs@),
{
    if !has_char_at(cs, i, '<') {
        return Err(ParseError);
    }
    let (d, tag) = tag_body_at(src, cs, i + 1)?;
    if !(has_char_at(cs, d, '/') && has_char_at(cs, d + 1, '>')) {
        return Err(ParseError);
    }
    Ok((d + 2, HTMLElement::SelfClosingElement(tag)))
}

fn element_at(src: &str, cs: &Vec<char>, i: usize) -> (r: Result<(usize, HTMLElement), ParseError>)
    requires
        cs@ == src@,
        i <= cs@.len(),
    ensures
        agrees(r, parse_element(cs@, i as int)),
        ends_within(r, i + 1, cs@),
    decreases cs@.len() - i, 1int,
{
    match with_children_at(src, cs, i) {
        Ok(r) => Ok(r),
        Err(_) => self_closing_at(src, cs, i),
    }
}

fn with_children_at(src: &str, cs: &Vec<char>, i: usize) -> (r: Result<(usize, HTMLElement), ParseError>)
    requires
        cs@ == src@,
        i <= cs@.len(),
    ensures
        agrees(r, parse_with_children(cs@, i as int)),
        ends_within(r, i + 1, cs@),
    decreases cs@.len() - i, 0int,
{
    let (b, start_tag) = opening_at(src, cs, i)?;
    let (c, children) = children_at(src, cs, b);
    let (d, end_tag) = closing_at(src, cs, c)?;
    Ok((d, HTMLElement::ElementWithChildren { start_tag, end_tag, children }))
}

fn element_node_at(src: &str, cs: &Vec<char>, i: usize) -> (r: Result<(usize, HTMLChild), ParseError>)
    requires
        cs@ == src@,
        i <= cs@.len(),
    ensures
        agrees(r, parse_element_node(cs@, i as int)),
        ends_within(r, i + 1, cs@),
    decreases cs@.len() - i, 2int,
{
    let (j, e) = element_at(src, cs, i)?;
    Ok((j, HTMLChild::Element(Box::new(e))))
}

fn text_node_at(src: &str, cs: &Vec<char>, i: usize) -> (r: Result<(usize, HTMLChild), ParseError>)
    requires
        cs@ == src@,
        i <= cs@.len(),
    ensures
        agrees(r, parse_text_node(cs@, i as int)),
        ends_within(r, i + 1, cs@),
{
    let (j, t) = run_at(src, cs, i, CharClass::Text)?;
    Ok((j, HTMLChild::Text(t)))
}

fn child_at(src: &str, cs: &Vec<char>, i: usize) -> (r: Result<(usize, HTMLChild), ParseError>)
    requires
        cs@ == src@,
        i <= cs@.len(),
    ensures
        agrees(r, parse_child(cs@, i as int)),
        ends_within(r, i + 1, cs@),
    decreases cs@.len() - i, 3int,
{
    match text_node_at(src, cs, i) {
        Ok(r) => Ok(r),
        Err(_) => element_node_at(src, cs, i),
    }
}

fn children_at(src: &str, cs: &Vec<char>, i: usize) -> (r: (usize, Vec<HTMLChild>))
    requires
        cs@ == src@,
        i <= cs@.len(),
    ensures
        parse_children(cs@, i as int) == (r.0 as int, children_model(r.1@)),
        i <= r.0 <= cs@.len(),
    decreases cs@.len() - i, 4int,
{
    let mut children: Vec<HTMLChild> = Vec::new();
    let mut j = i;
    loop
        invariant
            cs@ == src@,
            i <= j <= cs@.len(),
            parse_children(cs@, i as int).0 == parse_children(cs@, j as int).0,
            parse_children(cs@, i as int).1 == children_model(children@) + parse_children(
                cs@,
                j as int,
            ).1,
        decreases cs@.len() - j,
    {
        match child_at(src, cs, j) {
            Ok((k, c)) => {
                let ghost before = children@;
                children.push(c);
                proof {
                    assert(children@.subrange(0, children@.len() - 1) =~= before);
                    assert(children_model(children@) == children_model(before).push(c@));
                    assert(children_model(before) + parse_children(cs@, j as int).1
                        =~= children_model(children@) + parse_children(cs@, k as int).1);
                }
                j = k;
            },
            Err(_) => {
                proof {
                    assert(children_model(children@) + Seq::empty() =~= children_model(
                        children@,
                    ));
                }
                return (j, children);
            },
        }
    }
}


/// `r` is what the grammar gives in `m` on all of `input`: on success the
/// same value, and what is left of `input` after the end that `m` gives.
pub open spec fn parsed<T: View>(
    input: Seq<char>,
    r: Result<(&str, T), ParseError>,
    m: Option<(int, T::V)>,
) -> bool {
    match (r, m) {
        (Ok((rest, v)), Some((j, w))) => rest@ == input.subrange(j, input.len() as int) && v@ == w,
        (Err(_), None) => true,
        _ => false,
    }
}

/// Hands back what is left of `input` after the end that `r` gives.
fn finish<'a, T: View>(
    input: &'a str,
    cs: &Vec<char>,
    r: Result<(usize, T), ParseError>,
    Ghost(m): Ghost<Option<(int, T::V)>>,
) -> (res: Result<(&'a str, T), ParseError>)
    requires
        cs@ == input@,
        ends_within(r, 0, cs@),
        agrees(r, m),
    ensures
        parsed(input@, res, m),
{
    match r {
        Ok((j, v)) => {
            let (_, rest) = split_at_char(input, cs, j);
            Ok((rest, v))
        },
        Err(e) => Err(e),
    }
}

fn one_char<'a>(input: &'a str, k: CharClass) -> (r: Result<(&'a str, char), ParseError>)
    ensures
        match r {
            Ok((rest, c)) => input@.len() > 0 && in_class(input@[0], k) && c == input@[0] && rest@
                == input@.drop_first(),
            Err(_) => !(input@.len() > 0 && in_class(input@[0], k)),
        },
{
    let cs = to_chars(input);
    if cs.len() > 0 && in_class_exec(cs[0], k) {
        let (_, rest) = split_at_char(input, &cs, 1);
        proof {
            assert(rest@ =~= input@.drop_first());
        }
        Ok((rest, cs[0]))
    } else {
        Err(ParseError)
    }
}

/// One character that may stand in text.
pub fn html_char(input: &str) -> (r: Result<(&str, char), ParseError>)
    ensures
        match r {
            Ok((rest, c)) => input@.len() > 0 && is_text_char(input@[0]) && c == input@[0] && rest@
                == input@.drop_first(),
            Err(_) => !(input@.len() > 0 && is_text_char(input@[0])),
        },
{
    one_char(input, CharClass::Text)
}

/// One character that may stand in an attribute name.
pub fn attribute_char(input: &str) -> (r: Result<(&str, char), ParseError>)
    ensures
        match r {
            Ok((rest, c)) => input@.len() > 0 && is_attribute_char(input@[0]) && c == input@[0]
                && rest@ == input@.drop_first(),
            Err(_) => !(input@.len() > 0 && is_attribute_char(input@[0])),
        },
{
    one_char(input, CharClass::Attribute)
}

/// The longest non-empty run of text characters, as a text node.
pub fn html_text(input: &str) -> (r: Result<(&str, HTMLChild), ParseError>)
    ensures
        parsed(input@, r, parse_text_node(input@, 0)),
{
    let cs = to_chars(input);
    let r = text_node_at(input, &cs, 0);
    finish(input, &cs, r, Ghost(parse_text_node(cs@, 0)))
}

/// The longest non-empty run of ASCII letters and digits.
pub fn tag_name(input: &str) -> (r: Result<(&str, &str), ParseError>)
    ensures
        parsed(input@, r, parse_tag_name(input@, 0)),
{
    let cs = to_chars(input);
    let j = run_end_at(&cs, 0, CharClass::Tag);
    if j > 0 {
        let (name, rest) = split_at_char(input, &cs, j);
        Ok((rest, name))
    } else {
        Err(ParseError)
    }
}

/// The longest non-empty run of attribute characters.
pub fn attribute_name(input: &str) -> (r: Result<(&str, String), ParseError>)
    ensures
        parsed(input@, r, parse_attribute_name(input@, 0)),
{
    let cs = to_chars(input);
    let r = run_at(input, &cs, 0, CharClass::Attribute);
    finish(input, &cs, r, Ghost(parse_attribute_name(cs@, 0)))
}

/// A value between double quotes.
pub fn attribute_value_double_string(input: &str) -> (r: Result<(&str, HTMLValue), ParseError>)
    ensures
        parsed(input@, r, parse_quoted(input@, 0, '"')),
{
    let cs = to_chars(input);
    let r = match quoted_at(input, &cs, 0, '"') {
        Ok((j, v)) => Ok((j, HTMLValue::String(v))),
        Err(e) => Err(e),
    };
    finish(input, &cs, r, Ghost(parse_quoted(cs@, 0, '"')))
}

/// A value between single quotes.
pub fn attribute_value_single_string(input: &str) -> (r: Result<(&str, HTMLValue), ParseError>)
    ensures
        parsed(input@, r, parse_quoted(input@, 0, '\'')),
{
    let cs = to_chars(input);
    let r = match quoted_at(input, &cs, 0, '\'') {
        Ok((j, v)) => Ok((j, HTMLValue::String(v))),
        Err(e) => Err(e),
    };
    finish(input, &cs, r, Ghost(parse_quoted(cs@, 0, '\'')))
}

/// A value between double quotes, else between single quotes.
pub fn attribute_value(input: &str) -> (r: Result<(&str, HTMLValue), ParseError>)
    ensures
        parsed(input@, r, parse_attribute_value(input@, 0)),
{
    let cs = to_chars(input);
    let r = attribute_value_at(input, &cs, 0);
    finish(input, &cs, r, Ghost(parse_attribute_value(cs@, 0)))
}

/// One `name = value` attribute, with optional whitespace around its parts.
pub fn html_attribute(input: &str) -> (r: Result<(&str, HTMLAttribute), ParseError>)
    ensures
        parsed(input@, r, parse_attribute(input@, 0)),
{
    let cs = to_chars(input);
    let r = attribute_at(input, &cs, 0);
    finish(input, &cs, r, Ghost(parse_attribute(cs@, 0)))
}

/// As many attributes as follow one another; never fails.
pub fn html_attributes(input: &str) -> (r: Result<(&str, Vec<HTMLAttribute>), ParseError>)
    ensures
        r matches Ok((rest, v)) && rest@ == input@.subrange(
            parse_attributes(input@, 0).0,
            input@.len() as int,
        ) && attributes_model(v@) == parse_attributes(input@, 0).1,
{
    let cs = to_chars(input);
    let (j, v) = attributes_at(input, &cs, 0);
    let (_, rest) = split_at_char(input, &cs, j);
    Ok((rest, v))
}

/// A start tag, with optional whitespace before it.
pub fn opening_element(input: &str) -> (r: Result<(&str, HTMLStartTag), ParseError>)
    ensures
        parsed(input@, r, parse_opening(input@, 0)),
{
    let cs = to_chars(input);
    let r = opening_at(input, &cs, 0);
    finish(input, &cs, r, Ghost(parse_opening(cs@, 0)))
}

/// An end tag `</name>`.
pub fn closing_element(input: &str) -> (r: Result<(&str, HTMLEndTag), ParseError>)
    ensures
        parsed(input@, r, parse_closing(input@, 0)),
{
    let cs = to_chars(input);
    let r = closing_at(input, &cs, 0);
    finish(input, &cs, r, Ghost(parse_closing(cs@, 0)))
}

/// A start tag, children and an end tag, whatever the two names.
pub fn element_with_children(input: &str) -> (r: Result<(&str, HTMLElement), ParseError>)
    ensures
        parsed(input@, r, parse_with_children(input@, 0)),
{
    let cs = to_chars(input);
    let r = with_children_at(input, &cs, 0);
    finish(input, &cs, r, Ghost(parse_with_children(cs@, 0)))
}

/// A self-closing element `<name attributes/>`.
pub fn self_closing_element(input: &str) -> (r: Result<(&str, HTMLElement), ParseError>)
    ensures
        parsed(input@, r, parse_self_closing(input@, 0)),
{
    let cs = to_chars(input);
    let r = self_closing_at(input, &cs, 0);
    finish(input, &cs, r, Ghost(parse_self_closing(cs@, 0)))
}

/// An element: with children if that matches, else self-closing, tried
/// from the start of `input` again.
pub fn html_element(input: &str) -> (r: Result<(&str, HTMLElement), ParseError>)
    ensures
        parsed(input@, r, parse_element(input@, 0)),
{
    let cs = to_chars(input);
    let r = element_at(input, &cs, 0);
    finish(input, &cs, r, Ghost(parse_element(cs@, 0)))
}

/// An element, as a child node.
pub fn html_element_wrapper(input: &str) -> (r: Result<(&str, HTMLChild), ParseError>)
    ensures
        parsed(input@, r, parse_element_node(input@, 0)),
{
    let cs = to_chars(input);
    let r = element_node_at(input, &cs, 0);
    finish(input, &cs, r, Ghost(parse_element_node(cs@, 0)))
}

/// A child node: text, else an element.
pub fn html_child(input: &str) -> (r: Result<(&str, HTMLChild), ParseError>)
    ensures
        parsed(input@, r, parse_child(input@, 0)),
{
    let cs = to_chars(input);
    let r = child_at(input, &cs, 0);
    finish(input, &cs, r, Ghost(parse_child(cs@, 0)))
}

/// As many child nodes as follow one another; never fails.
pub fn html_children(input: &str) -> (r: Result<(&str, Vec<HTMLChild>), ParseError>)
    ensures
        r matches Ok((rest, v)) && rest@ == input@.subrange(
            parse_children(input@, 0).0,
            input@.len() as int,
        ) && children_model(v@) == parse_children(input@, 0).1,
{
    let cs = to_chars(input);
    let (j, v) = children_at(input, &cs, 0);
    let (_, rest) = split_at_char(input, &cs, j);
    Ok((rest, v))
}

} // verus!
