//! The grammar of the markup language, as spec functions over a character
//! sequence `s` and a position `i`. A rule gives `Some((j, v))` when it
//! matches `s[i..j]` with value `v`, and `None` when it fails; a rule that
//! fails consumes nothing.
use crate::tree::{AttributeModel, ChildModel, ElementModel, TagModel};
use vstd::prelude::*;

verus! {

/// Characters that may stand in text: all but `{`, `<`, `>` and `}`.
pub open spec fn is_text_char(c: char) -> bool {
    c != '{' && c != '<' && c != '>' && c != '}'
}

/// Characters that may stand in an attribute name: all but quotes, angle
/// brackets, `/`, `=` and whitespace.
pub open spec fn is_attribute_char(c: char) -> bool {
    !(c == '"' || c == '<' || c == '>' || c == '\'' || c == '/' || c == '=' || c == ' ' || c
        == '\t' || c == '\n' || c == '\r')
}

/// ASCII letters and digits, the characters of a tag name.
pub open spec fn is_tag_char(c: char) -> bool {
    ('a' <= c && c <= 'z') || ('A' <= c && c <= 'Z') || ('0' <= c && c <= '9')
}

/// Whitespace between the parts of a tag.
pub open spec fn is_space(c: char) -> bool {
    c == ' ' || c == '\t' || c == '\n' || c == '\r'
}

/// A set of characters that a run is made of.
#[derive(Clone, Copy)]
pub enum CharClass {
    Text,
    Tag,
    Attribute,
    Space,
    Except(char),
}

pub open spec fn in_class(c: char, k: CharClass) -> bool {
    match k {
        CharClass::Text => is_text_char(c),
        CharClass::Tag => is_tag_char(c),
        CharClass::Attribute => is_attribute_char(c),
        CharClass::Space => is_space(c),
        CharClass::Except(q) => c != q,
    }
}

/// End of the longest run of characters of class `k` that starts at `i`.
pub open spec fn run_end(s: Seq<char>, i: int, k: CharClass) -> int
    decreases s.len() - i,
{
    if 0 <= i < s.len() && in_class(s[i], k) {
        run_end(s, i + 1, k)
    } else {
        i
    }
}

/// `s` holds `c` at position `i`.
pub open spec fn has_char(s: Seq<char>, i: int, c: char) -> bool {
    0 <= i < s.len() && s[i] == c
}

/// A non-empty run of characters of class `k`.
pub open spec fn parse_run(s: Seq<char>, i: int, k: CharClass) -> Option<(int, Seq<char>)> {
    let j = run_end(s, i, k);
    if j > i {
        Some((j, s.subrange(i, j)))
    } else {
        None
    }
}

/// Text: one or more text characters.
pub open spec fn parse_text(s: Seq<char>, i: int) -> Option<(int, Seq<char>)> {
    parse_run(s, i, CharClass::Text)
}

/// A tag name: one or more ASCII letters or digits.
pub open spec fn parse_tag_name(s: Seq<char>, i: int) -> Option<(int, Seq<char>)> {
    parse_run(s, i, CharClass::Tag)
}

/// An attribute name: one or more attribute characters.
pub open spec fn parse_attribute_name(s: Seq<char>, i: int) -> Option<(int, Seq<char>)> {
    parse_run(s, i, CharClass::Attribute)
}

/// Text between two quote characters `q`, which it cannot hold.
pub open spec fn parse_quoted(s: Seq<char>, i: int, q: char) -> Option<(int, Seq<char>)> {
    if has_char(s, i, q) {
        let j = run_end(s, i + 1, CharClass::Except(q));
        if j < s.len() {
            Some((j + 1, s.subrange(i + 1, j)))
        } else {
            None
        }
    } else {
        None
    }
}

/// An attribute value: double-quoted, else single-quoted.
pub open spec fn parse_attribute_value(s: Seq<char>, i: int) -> Option<(int, Seq<char>)> {
    match parse_quoted(s, i, '"') {
        Some(r) => Some(r),
        None => parse_quoted(s, i, '\''),
    }
}

/// An attribute: whitespace, name, whitespace, `=`, whitespace, value.
pub open spec fn parse_attribute(s: Seq<char>, i: int) -> Option<(int, AttributeModel)> {
    match parse_attribute_name(s, run_end(s, i, CharClass::Space)) {
        Some((b, name)) => {
            let c = run_end(s, b, CharClass::Space);
            if has_char(s, c, '=') {
                match parse_attribute_value(s, run_end(s, c + 1, CharClass::Space)) {
                    Some((e, value)) => Some((e, AttributeModel { name, value })),
                    None => None,
                }
            } else {
                None
            }
        },
        None => None,
    }
}

/// Zero or more attributes, as many as match.
pub open spec fn parse_attributes(s: Seq<char>, i: int) -> (int, Seq<AttributeModel>)
    decreases s.len() - i,
{
    match parse_attribute(s, i) {
        Some((j, a)) => if i < j <= s.len() {
            let (k, rest) = parse_attributes(s, j);
            (k, seq![a] + rest)
        } else {
            (i, Seq::empty())
        },
        None => (i, Seq::empty()),
    }
}

/// What follows `<` in a start tag or a self-closing element: the tag name,
/// the attributes and trailing whitespace.
pub open spec fn parse_tag_body(s: Seq<char>, i: int) -> Option<(int, TagModel)> {
    match parse_tag_name(s, i) {
        Some((b, name)) => {
            let (c, attributes) = parse_attributes(s, b);
            Some((run_end(s, c, CharClass::Space), TagModel { name, attributes }))
        },
        None => None,
    }
}

/// A start tag: whitespace, `<`, tag body, `>`.
pub open spec fn parse_opening(s: Seq<char>, i: int) -> Option<(int, TagModel)> {
    let a = run_end(s, i, CharClass::Space);
    if has_char(s, a, '<') {
        match parse_tag_body(s, a + 1) {
            Some((d, tag)) => if has_char(s, d, '>') {
                Some((d + 1, tag))
            } else {
                None
            },
            None => None,
        }
    } else {
        None
    }
}

/// An end tag: `</`, tag name, `>`.
pub open spec fn parse_closing(s: Seq<char>, i: int) -> Option<(int, Seq<char>)> {
    if has_char(s, i, '<') && has_char(s, i + 1, '/') {
        match parse_tag_name(s, i + 2) {
            Some((b, name)) => if has_char(s, b, '>') {
                Some((b + 1, name))
            } else {
                None
            },
            None => None,
        }
    } else {
        None
    }
}

/// A self-closing element: `<`, tag body, `/>`.
pub open spec fn parse_self_closing(s: Seq<char>, i: int) -> Option<(int, ElementModel)> {
    if has_char(s, i, '<') {
        match parse_tag_body(s, i + 1) {
            Some((d, tag)) => if has_char(s, d, '/') && has_char(s, d + 1, '>') {
                Some((d + 2, ElementModel::SelfClosing(tag)))
            } else {
                None
            },
            None => None,
        }
    } else {
        None
    }
}

/// An element: with children, else self-closing, both tried from `i`.
pub open spec fn parse_element(s: Seq<char>, i: int) -> Option<(int, ElementModel)>
    decreases s.len() - i, 1int,
{
    match parse_with_children(s, i) {
        Some(r) => Some(r),
        None => parse_self_closing(s, i),
    }
}

/// An element with children: start tag, children, end tag. The two names
/// need not agree here.
pub open spec fn parse_with_children(s: Seq<char>, i: int) -> Option<(int, ElementModel)>
    decreases s.len() - i, 0int,
{
    match parse_opening(s, i) {
        Some((b, start)) => if i < b <= s.len() {
            let (c, children) = parse_children(s, b);
            match parse_closing(s, c) {
                Some((d, end)) => Some((d, ElementModel::WithChildren { start, children, end })),
                None => None,
            }
        } else {
            None
        },
        None => None,
    }
}

/// Text as a child node.
pub open spec fn parse_text_node(s: Seq<char>, i: int) -> Option<(int, ChildModel)> {
    match parse_text(s, i) {
        Some((j, t)) => Some((j, ChildModel::Text(t))),
        None => None,
    }
}

/// An element as a child node.
pub open spec fn parse_element_node(s: Seq<char>, i: int) -> Option<(int, ChildModel)>
    decreases s.len() - i, 2int,
{
    match parse_element(s, i) {
        Some((j, e)) => Some((j, ChildModel::Element(e))),
        None => None,
    }
}

/// A child: text, else an element.
pub open spec fn parse_child(s: Seq<char>, i: int) -> Option<(int, ChildModel)>
    decreases s.len() - i, 3int,
{
    match parse_text_node(s, i) {
        Some(r) => Some(r),
        None => parse_element_node(s, i),
    }
}

/// Zero or more children, as many as match.
pub open spec fn parse_children(s: Seq<char>, i: int) -> (int, Seq<ChildModel>)
    decreases s.len() - i, 4int,
{
    match parse_child(s, i) {
        Some((j, c)) => if i < j <= s.len() {
            let (k, rest) = parse_children(s, j);
            (k, seq![c] + rest)
        } else {
            (i, Seq::empty())
        },
        None => (i, Seq::empty()),
    }
}

} // verus!
