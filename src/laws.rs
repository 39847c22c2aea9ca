//! Laws of the grammar and the analyzer, proved over their models.
use crate::analyzer::{children_mismatch, first_mismatch, same_name};
use crate::grammar::{
    in_class, is_attribute_char, is_tag_char, is_text_char, parse_attribute, parse_attributes,
    parse_child, parse_children, parse_closing, parse_element, parse_opening, parse_self_closing,
    parse_tag_body, parse_text_node, parse_with_children, run_end, CharClass,
};
use crate::tree::{AttributeModel, ChildModel, ElementModel, TagModel};
use vstd::prelude::*;

verus! {

/// A tag name: one or more ASCII letters or digits.
pub open spec fn is_tag_name(n: Seq<char>) -> bool {
    n.len() > 0 && forall|p: int| 0 <= p < n.len() ==> is_tag_char(#[trigger] n[p])
}

/// An attribute name: one or more attribute characters.
pub open spec fn is_attribute_name(n: Seq<char>) -> bool {
    n.len() > 0 && forall|p: int| 0 <= p < n.len() ==> is_attribute_char(#[trigger] n[p])
}

/// Text: one or more text characters.
pub open spec fn is_text(t: Seq<char>) -> bool {
    t.len() > 0 && forall|p: int| 0 <= p < t.len() ==> is_text_char(#[trigger] t[p])
}

/// A run of class `k` from `i` ends at the first position not in `k`.
proof fn lemma_run_end(s: Seq<char>, i: int, j: int, k: CharClass)
    requires
        0 <= i <= j <= s.len(),
        forall|p: int| i <= p < j ==> in_class(#[trigger] s[p], k),
        j == s.len() || !in_class(s[j], k),
    ensures
        run_end(s, i, k) == j,
    decreases j - i,
{
    if i < j {
        lemma_run_end(s, i + 1, j, k);
    }
}

/// Text made of text characters alone is read whole, as one text node with
/// the same characters; the empty string is no text.
pub proof fn law_text_read_whole(s: Seq<char>)
    requires
        forall|p: int| 0 <= p < s.len() ==> is_text_char(#[trigger] s[p]),
    ensures
        s.len() > 0 ==> parse_text_node(s, 0) == Some((s.len() as int, ChildModel::Text(s))),
        s.len() == 0 ==> parse_text_node(s, 0) is None,
{
    lemma_run_end(s, 0, s.len() as int, CharClass::Text);
    assert(s.subrange(0, s.len() as int) =~= s);
}


/// At position `i` of `s`, `w` spaces and then `name=value`, the value
/// between quotes `q`, read as that attribute.
proof fn lemma_attribute_at(
    s: Seq<char>,
    i: int,
    w: int,
    name: Seq<char>,
    value: Seq<char>,
    q: char,
)
    requires
        is_attribute_name(name),
        q == '"' || q == '\'',
        forall|p: int| 0 <= p < value.len() ==> #[trigger] value[p] != q,
        0 <= i,
        0 <= w,
        i + w + name.len() + value.len() + 3 <= s.len(),
        forall|p: int| i <= p < i + w ==> #[trigger] s[p] == ' ',
        s.subrange(i + w, i + w + name.len() + value.len() + 3) == name + seq!['=', q] + value
            + seq![q],
    ensures
        parse_attribute(s, i) == Some(
            ((i + w + name.len() + value.len() + 3) as int, AttributeModel { name, value }),
        ),
{
    let a = i + w;
    let n = name.len() as int;
    let v = value.len() as int;
    let t = name + seq!['=', q] + value + seq![q];
    assert forall|p: int| 0 <= p < t.len() implies #[trigger] s[a + p] == t[p] by {
        assert(s.subrange(a, a + t.len())[p] == s[a + p]);
    }
    assert forall|p: int| i <= p < a implies in_class(#[trigger] s[p], CharClass::Space) by {}
    assert forall|p: int| a <= p < a + n implies in_class(#[trigger] s[p], CharClass::Attribute) by {
        assert(s[a + (p - a)] == t[p - a]);
        assert(t[p - a] == name[p - a]);
    }
    assert forall|p: int| a + n + 2 <= p < a + n + 2 + v implies in_class(
        #[trigger] s[p],
        CharClass::Except(q),
    ) by {
        assert(s[a + (p - a)] == t[p - a]);
        assert(t[p - a] == value[p - a - n - 2]);
    }
    assert(s[a + 0] == t[0] && t[0] == name[0]);
    assert(s[a + n] == t[n] && t[n] == '=');
    assert(s[a + (n + 1)] == t[n + 1] && t[n + 1] == q);
    assert(s[a + (n + 2 + v)] == t[n + 2 + v] && t[n + 2 + v] == q);
    lemma_run_end(s, i, a, CharClass::Space);
    lemma_run_end(s, a, a + n, CharClass::Attribute);
    lemma_run_end(s, a + n, a + n, CharClass::Space);
    lemma_run_end(s, a + n + 1, a + n + 1, CharClass::Space);
    lemma_run_end(s, a + n + 2, a + n + 2 + v, CharClass::Except(q));
    assert(s.subrange(a, a + n) =~= name) by {
        assert forall|p: int| 0 <= p < n implies s.subrange(a, a + n)[p] == name[p] by {
            assert(s[a + p] == t[p]);
        }
    }
    assert(s.subrange(a + n + 2, a + n + 2 + v) =~= value) by {
        assert forall|p: int| 0 <= p < v implies s.subrange(a + n + 2, a + n + 2 + v)[p]
            == value[p] by {
            assert(s[a + (n + 2 + p)] == t[n + 2 + p]);
        }
    }
}

/// `name=value` with the value between quotes `q` reads back as the same
/// name and value; without the closing quote it is no attribute.
pub proof fn law_attribute_round_trip(name: Seq<char>, value: Seq<char>, q: char)
    requires
        is_attribute_name(name),
        q == '"' || q == '\'',
        forall|p: int| 0 <= p < value.len() ==> #[trigger] value[p] != q,
    ensures
        parse_attribute(name + seq!['=', q] + value + seq![q], 0) == Some(
            ((name.len() + value.len() + 3) as int, AttributeModel { name, value }),
        ),
        parse_attribute(name + seq!['=', q] + value, 0) is None,
{
    let n = name.len() as int;
    let v = value.len() as int;
    let open = name + seq!['=', q] + value;
    let s = open + seq![q];
    assert(s.subrange(0, n + v + 3) =~= s);
    lemma_attribute_at(s, 0, 0, name, value, q);
    assert forall|p: int| 0 <= p < n implies in_class(#[trigger] open[p], CharClass::Attribute) by {
        assert(open[p] == name[p]);
    }
    assert forall|p: int| n + 2 <= p < n + 2 + v implies in_class(
        #[trigger] open[p],
        CharClass::Except(q),
    ) by {
        assert(open[p] == value[p - n - 2]);
    }
    assert(open[0] == name[0] && open[n] == '=' && open[n + 1] == q);
    lemma_run_end(open, 0, 0, CharClass::Space);
    lemma_run_end(open, 0, n, CharClass::Attribute);
    lemma_run_end(open, n, n, CharClass::Space);
    lemma_run_end(open, n + 1, n + 1, CharClass::Space);
    lemma_run_end(open, n + 2, n + 2 + v, CharClass::Except(q));
}

/// When no element with children can be read at `i`, the element read at
/// `i` is the self-closing one read from the same position: the failed
/// attempt leaves nothing consumed behind.
pub proof fn law_fallback_starts_over(s: Seq<char>, i: int)
    requires
        parse_with_children(s, i) is None,
    ensures
        parse_element(s, i) == parse_self_closing(s, i),
{
}

/// The tag body `n` that ends at position `e` of `s`, where a character
/// that is neither space nor attribute character stands: the name `n` and
/// no attributes.
proof fn lemma_bare_tag_body(s: Seq<char>, i: int, n: Seq<char>)
    requires
        is_tag_name(n),
        0 <= i,
        i + n.len() < s.len(),
        s.subrange(i, i + n.len()) == n,
        !is_tag_char(s[i + n.len()]),
        !is_attribute_char(s[i + n.len()]),
        !in_class(s[i + n.len()], CharClass::Space),
    ensures
        parse_tag_body(s, i) == Some(
            ((i + n.len()) as int, TagModel { name: n, attributes: Seq::empty() }),
        ),
{
    let e = i + n.len();
    assert forall|p: int| i <= p < e implies in_class(#[trigger] s[p], CharClass::Tag) by {
        assert(s.subrange(i, e)[p - i] == s[p]);
    }
    lemma_run_end(s, i, e, CharClass::Tag);
    lemma_run_end(s, e, e, CharClass::Space);
    lemma_run_end(s, e, e, CharClass::Attribute);
    assert(parse_attributes(s, e) == (e, Seq::<AttributeModel>::empty()));
}

/// `<n/>` is a self-closing element named `n`: the attempt to read an
/// element with children fails, and the element is read again from the
/// start. The analyzer accepts it whatever `n` is.
pub proof fn law_self_closing(n: Seq<char>)
    requires
        is_tag_name(n),
    ensures
        parse_element(seq!['<'] + n + seq!['/', '>'], 0) == Some(
            (
                (n.len() + 3) as int,
                ElementModel::SelfClosing(TagModel { name: n, attributes: Seq::empty() }),
            ),
        ),
        first_mismatch(ElementModel::SelfClosing(TagModel { name: n, attributes: Seq::empty() }))
            is None,
{
    let s = seq!['<'] + n + seq!['/', '>'];
    let e = n.len() + 1int;
    assert(s.subrange(1, e) =~= n);
    assert(s[0] == '<' && s[e] == '/' && s[e + 1] == '>');
    lemma_bare_tag_body(s, 1, n);
    lemma_run_end(s, 0, 0, CharClass::Space);
    assert(parse_opening(s, 0) is None);
    assert(parse_with_children(s, 0) is None);
    assert(parse_self_closing(s, 0) == Some(
        ((n.len() + 3) as int, ElementModel::SelfClosing(TagModel { name: n, attributes: Seq::empty() })),
    ));
}

/// `<n a=qvq/>`, one attribute with its value `v` between quotes `q`, is a
/// self-closing element named `n` with that attribute, and the analyzer
/// accepts it.
pub proof fn law_self_closing_with_attribute(n: Seq<char>, a: Seq<char>, v: Seq<char>, q: char)
    requires
        is_tag_name(n),
        is_attribute_name(a),
        q == '"' || q == '\'',
        forall|p: int| 0 <= p < v.len() ==> #[trigger] v[p] != q,
    ensures
        ({
            let s = seq!['<'] + n + seq![' '] + a + seq!['=', q] + v + seq![q] + seq!['/', '>'];
            let e = ElementModel::SelfClosing(
                TagModel { name: n, attributes: seq![AttributeModel { name: a, value: v }] },
            );
            &&& parse_element(s, 0) == Some((s.len() as int, e))
            &&& first_mismatch(e) is None
        }),
{
    let s = seq!['<'] + n + seq![' '] + a + seq!['=', q] + v + seq![q] + seq!['/', '>'];
    let e = n.len() + 1int;
    let j = e + 1 + a.len() + v.len() + 3;
    let attr = AttributeModel { name: a, value: v };
    assert(s.len() == j + 2);
    assert(s[0] == '<' && s[e] == ' ' && s[j] == '/' && s[j + 1] == '>');
    assert(s.subrange(1, e) =~= n);
    assert(s.subrange(e + 1, j) =~= a + seq!['=', q] + v + seq![q]);
    assert forall|p: int| 1 <= p < e implies in_class(#[trigger] s[p], CharClass::Tag) by {
        assert(s.subrange(1, e)[p - 1] == s[p]);
    }
    lemma_run_end(s, 1, e, CharClass::Tag);
    lemma_attribute_at(s, e, 1, a, v, q);
    lemma_run_end(s, j, j, CharClass::Space);
    lemma_run_end(s, j, j, CharClass::Attribute);
    assert(parse_attribute(s, j) is None);
    assert(parse_attributes(s, j) == (j, Seq::<AttributeModel>::empty()));
    assert(seq![attr] + Seq::<AttributeModel>::empty() =~= seq![attr]);
    assert(parse_attributes(s, e) == (j, seq![attr]));
    let tag = TagModel { name: n, attributes: seq![attr] };
    assert(parse_tag_body(s, 1) == Some((j, tag)));
    lemma_run_end(s, 0, 0, CharClass::Space);
    assert(parse_opening(s, 0) is None);
    assert(parse_with_children(s, 0) is None);
    assert(parse_self_closing(s, 0) == Some((j + 2, ElementModel::SelfClosing(tag))));
}

/// `<n>t</m>`, with text `t`, is an element with children whatever the two
/// names. The analyzer accepts it exactly when `n` and `m` are the same name,
/// letter case aside, and else names both.
pub proof fn law_end_tag_must_match(n: Seq<char>, t: Seq<char>, m: Seq<char>)
    requires
        is_tag_name(n),
        is_text(t),
        is_tag_name(m),
    ensures
        ({
            let s = seq!['<'] + n + seq!['>'] + t + seq!['<', '/'] + m + seq!['>'];
            let e = ElementModel::WithChildren {
                start: TagModel { name: n, attributes: Seq::empty() },
                children: seq![ChildModel::Text(t)],
                end: m,
            };
            &&& parse_element(s, 0) == Some((s.len() as int, e))
            &&& same_name(n, m) ==> first_mismatch(e) is None
            &&& !same_name(n, m) ==> first_mismatch(e) == Some((n, m))
        }),
{
    let s = seq!['<'] + n + seq!['>'] + t + seq!['<', '/'] + m + seq!['>'];
    let a = n.len() + 1int;
    let b = a + 1;
    let c = b + t.len() as int;
    let d = c + 2 + m.len() as int;
    assert(s.len() == d + 1);
    assert(s[0] == '<' && s[a] == '>' && s[c] == '<' && s[c + 1] == '/' && s[d] == '>');
    assert(s.subrange(1, a) =~= n);
    assert(s.subrange(b, c) =~= t);
    assert(s.subrange(c + 2, d) =~= m);
    lemma_run_end(s, 0, 0, CharClass::Space);
    lemma_bare_tag_body(s, 1, n);
    let start = TagModel { name: n, attributes: Seq::empty() };
    assert(parse_opening(s, 0) == Some((b, start)));
    assert forall|p: int| b <= p < c implies in_class(#[trigger] s[p], CharClass::Text) by {
        assert(s.subrange(b, c)[p - b] == s[p]);
    }
    lemma_run_end(s, b, c, CharClass::Text);
    assert(parse_child(s, b) == Some((c, ChildModel::Text(t))));
    lemma_run_end(s, c, c, CharClass::Text);
    lemma_run_end(s, c, c, CharClass::Space);
    lemma_run_end(s, c + 1, c + 1, CharClass::Tag);
    assert(parse_opening(s, c) is None);
    assert(parse_self_closing(s, c) is None);
    assert(parse_element(s, c) is None);
    assert(parse_child(s, c) is None);
    assert(parse_children(s, c) == (c, Seq::<ChildModel>::empty()));
    assert(seq![ChildModel::Text(t)] + Seq::<ChildModel>::empty() =~= seq![ChildModel::Text(t)]);
    assert(parse_children(s, b) == (c, seq![ChildModel::Text(t)]));
    assert forall|p: int| c + 2 <= p < d implies in_class(#[trigger] s[p], CharClass::Tag) by {
        assert(s.subrange(c + 2, d)[p - c - 2] == s[p]);
    }
    lemma_run_end(s, c + 2, d, CharClass::Tag);
    assert(parse_closing(s, c) == Some((s.len() as int, m)));
    let children = seq![ChildModel::Text(t)];
    assert(children.subrange(0, 0) =~= Seq::<ChildModel>::empty());
    assert(children_mismatch(Seq::<ChildModel>::empty()) is None);
    assert(children_mismatch(children) is None);
}


/// Every element with children in `e` ends with the very name it starts with.
pub open spec fn tags_identical(e: ElementModel) -> bool
    decreases e,
{
    match e {
        ElementModel::SelfClosing(_) => true,
        ElementModel::WithChildren { start, children, end } => start.name == end
            && children_identical(children),
    }
}

/// Every element among `cs` ends with the very names it starts with.
pub open spec fn children_identical(cs: Seq<ChildModel>) -> bool
    decreases cs,
{
    if cs.len() == 0 {
        true
    } else {
        children_identical(cs.subrange(0, cs.len() - 1)) && match cs[cs.len() - 1] {
            ChildModel::Element(e) => tags_identical(e),
            ChildModel::Text(_) => true,
        }
    }
}

/// A tree, however deeply nested, whose end tags repeat their start tags'
/// names passes the analyzer.
pub proof fn law_identical_names_pass(e: ElementModel)
    requires
        tags_identical(e),
    ensures
        first_mismatch(e) is None,
    decreases e,
{
    if let ElementModel::WithChildren { start, children, end } = e {
        lemma_identical_children_pass(children);
    }
}

proof fn lemma_identical_children_pass(cs: Seq<ChildModel>)
    requires
        children_identical(cs),
    ensures
        children_mismatch(cs) is None,
    decreases cs,
{
    if cs.len() > 0 {
        lemma_identical_children_pass(cs.subrange(0, cs.len() - 1));
        if let ChildModel::Element(e) = cs[cs.len() - 1] {
            law_identical_names_pass(e);
        }
    }
}

} // verus!
