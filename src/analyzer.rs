//! Checks that every element with children closes with the name it opened
//! with, letter case aside.
use crate::tree::{child_model, children_model, ChildModel, ElementModel, HTMLChild, HTMLElement, HTMLEndTag, HTMLStartTag};
use vstd::prelude::*;
use vstd::string::StringExecFns;

verus! {

broadcast use vstd::std_specs::vec::group_vec_axioms;

/// The lowercase form of `s`, as `str::to_lowercase` gives it.
pub uninterp spec fn lower_of(s: Seq<char>) -> Seq<char>;

/// Relies on `str::to_lowercase`: its result depends on the characters of
/// `s` alone.
#[verifier::external_body]
fn lowercase(s: &str) -> (r: String)
    ensures
        r@ == lower_of(s@),
{
    s.to_lowercase()
}

/// Two tag names are the same name when their lowercase forms are equal.
pub open spec fn same_name(a: Seq<char>, b: Seq<char>) -> bool {
    lower_of(a) == lower_of(b)
}

/// The first start and end tag names, depth first and left to right, that
/// are not the same name; `None` when all agree.
pub open spec fn first_mismatch(e: ElementModel) -> Option<(Seq<char>, Seq<char>)>
    decreases e,
{
    match e {
        ElementModel::SelfClosing(_) => None,
        ElementModel::WithChildren { start, children, end } => if !same_name(start.name, end) {
            Some((start.name, end))
        } else {
            children_mismatch(children)
        },
    }
}

/// The first mismatch among the element children of `cs`, in order.
pub open spec fn children_mismatch(cs: Seq<ChildModel>) -> Option<(Seq<char>, Seq<char>)>
    decreases cs,
{
    if cs.len() == 0 {
        None
    } else {
        match children_mismatch(cs.subrange(0, cs.len() - 1)) {
            Some(m) => Some(m),
            None => match cs[cs.len() - 1] {
                ChildModel::Element(e) => first_mismatch(e),
                ChildModel::Text(_) => None,
            },
        }
    }
}

/// The message that names a start tag and the end tag that does not match it.
pub open spec fn mismatch_message(start: Seq<char>, end: Seq<char>) -> Seq<char> {
    "Start and end tag are not equal. Start tag: "@ + start + ", end tag: "@ + end
}

/// The verdict on a mismatch, or on none.
pub open spec fn verdict(m: Option<(Seq<char>, Seq<char>)>, r: Result<(), String>) -> bool {
    match (m, r) {
        (None, Ok(())) => true,
        (Some((start, end)), Err(msg)) => msg@ == mismatch_message(start, end),
        _ => false,
    }
}

/// A mismatch in a prefix of `cs` is the first mismatch of all of `cs`.
proof fn lemma_mismatch_in_prefix(cs: Seq<ChildModel>, n: int)
    requires
        0 <= n <= cs.len(),
        children_mismatch(cs.subrange(0, n)) is Some,
    ensures
        children_mismatch(cs) == children_mismatch(cs.subrange(0, n)),
    decreases cs.len() - n,
{
    if n < cs.len() {
        let longer = cs.subrange(0, n + 1);
        assert(longer.subrange(0, n) =~= cs.subrange(0, n));
        lemma_mismatch_in_prefix(cs, n + 1);
    } else {
        assert(cs.subrange(0, n) =~= cs);
    }
}

/// The models of a prefix are the prefix of the models.
proof fn lemma_children_model_prefix(cs: Seq<HTMLChild>, n: int)
    requires
        0 <= n <= cs.len(),
    ensures
        children_model(cs.subrange(0, n)) == children_model(cs).subrange(0, n),
        children_model(cs).len() == cs.len(),
    decreases cs.len(),
{
    if cs.len() > 0 {
        let init = cs.subrange(0, cs.len() - 1);
        lemma_children_model_prefix(init, if n < cs.len() { n } else { 0 });
        if n < cs.len() {
            assert(init.subrange(0, n) =~= cs.subrange(0, n));
            assert(children_model(init).subrange(0, n) =~= children_model(cs).subrange(0, n));
        } else {
            assert(cs.subrange(0, n) =~= cs);
            assert(children_model(cs).subrange(0, n) =~= children_model(cs));
        }
    } else {
        assert(cs.subrange(0, n) =~= cs);
        assert(children_model(cs).subrange(0, n) =~= children_model(cs));
    }
}

fn mismatch_error(start: &String, end: &String) -> (msg: String)
    ensures
        msg@ == mismatch_message(start@, end@),
{
    let mut msg = "Start and end tag are not equal. Start tag: ".to_owned();
    msg.append(start.as_str());
    msg.append(", end tag: ");
    msg.append(end.as_str());
    msg
}

/// The verdict on one start and end tag, given the lowercase form of each:
/// `Ok` when the two forms are equal, else the error that names both tags.
pub fn compare_folded(start: &String, end: &String, start_folded: &String, end_folded: &String) -> (r:
    Result<(), String>)
    ensures
        match r {
            Ok(()) => start_folded@ == end_folded@,
            Err(msg) => start_folded@ != end_folded@ && msg@ == mismatch_message(start@, end@),
        },
{
    if !start_folded.eq(end_folded) {
        Err(mismatch_error(start, end))
    } else {
        Ok(())
    }
}

/// Checks `tree`: `Ok` when every start tag below it, itself included, has
/// the same name as its end tag; else an error that names the first pair
/// that differs.
pub fn analyze_tree(tree: &HTMLElement) -> (r: Result<(), String>)
    ensures
        verdict(first_mismatch(tree@), r),
    decreases tree,
{
    match tree {
        HTMLElement::ElementWithChildren { start_tag, end_tag, children } => {
            let HTMLStartTag::Tag(start_name, _) = start_tag;
            let HTMLEndTag::Tag(end_name) = end_tag;
            let a = lowercase(start_name.as_str());
            let b = lowercase(end_name.as_str());
            compare_folded(start_name, end_name, &a, &b)?;
            analyze_children(children)
        },
        HTMLElement::SelfClosingElement(_) => Ok(()),
    }
}

/// Checks each element among `children`, in order, and stops at the first
/// error.
pub fn analyze_children(children: &Vec<HTMLChild>) -> (r: Result<(), String>)
    ensures
        verdict(children_mismatch(children_model(children@)), r),
    decreases children,
{
    let mut i: usize = 0;
    while i < children.len()
        invariant
            i <= children@.len(),
            children_mismatch(children_model(children@.subrange(0, i as int))) is None,
        decreases children@.len() - i,
    {
        let ghost pre = children@.subrange(0, i as int);
        let ghost next = children@.subrange(0, i + 1);
        proof {
            assert(next.subrange(0, next.len() - 1) =~= pre);
            let ms = children_model(next);
            assert(ms.subrange(0, ms.len() - 1) =~= children_model(pre));
            assert(ms[ms.len() - 1] == child_model(children@[i as int]));
            lemma_children_model_prefix(children@, i + 1);
        }
        match &children[i] {
            HTMLChild::Element(elem) => {
                let r = analyze_tree(elem);
                if r.is_err() {
                    proof {
                        lemma_mismatch_in_prefix(children_model(children@), i + 1);
                    }
                    return r;
                }
            },
            HTMLChild::Text(_) => {},
        }
        i = i + 1;
    }
    proof {
        assert(children@.subrange(0, i as int) =~= children@);
    }
    Ok(())
}

} // verus!
