use compiler::analyzer::{analyze_children, analyze_tree, compare_folded};
use compiler::parser::{
    closing_element, element_with_children, html_attribute, html_attributes, html_child,
    html_children, html_element, html_element_wrapper, html_text, opening_element,
    self_closing_element, tag_name, HTMLAttribute, HTMLChild, HTMLElement, HTMLEndTag,
    HTMLStartTag, HTMLValue,
};

fn attr(name: &str, value: &str) -> HTMLAttribute {
    HTMLAttribute::Attribute {
        name: name.to_string(),
        value: HTMLValue::String(value.to_string()),
    }
}

fn text(t: &str) -> HTMLChild {
    HTMLChild::Text(t.to_string())
}

#[test]
fn nested_document_parses_and_passes() {
    let (rest, tree) = html_element("<div><h1>Title</h1><div/></div>").unwrap();
    assert_eq!(rest, "");
    let expected = HTMLElement::ElementWithChildren {
        start_tag: HTMLStartTag::Tag("div".to_string(), vec![]),
        end_tag: HTMLEndTag::Tag("div".to_string()),
        children: vec![
            HTMLChild::Element(Box::new(HTMLElement::ElementWithChildren {
                start_tag: HTMLStartTag::Tag("h1".to_string(), vec![]),
                end_tag: HTMLEndTag::Tag("h1".to_string()),
                children: vec![text("Title")],
            })),
            HTMLChild::Element(Box::new(HTMLElement::SelfClosingElement(HTMLStartTag::Tag(
                "div".to_string(),
                vec![],
            )))),
        ],
    };
    assert_eq!(tree, expected);
    assert_eq!(analyze_tree(&tree), Ok(()));
}

#[test]
fn mismatched_end_tag_is_named() {
    let (rest, tree) = html_element("<div>This works as well!</other>").unwrap();
    assert_eq!(rest, "");
    assert_eq!(
        analyze_tree(&tree),
        Err("Start and end tag are not equal. Start tag: div, end tag: other".to_string())
    );
}

#[test]
fn sample_document_reports_inner_mismatch() {
    let html = "<div>
        Testing this out
        <h1>
            This works!
            <div class='testing' anotherOne   ='this works!'>Sub element</div>
            <div/>
        </h1>
        <div>This works as well!</other>
    </div>";
    let (rest, tree) = html_element(html).unwrap();
    assert_eq!(rest, "");
    assert_eq!(
        analyze_tree(&tree),
        Err("Start and end tag are not equal. Start tag: div, end tag: other".to_string())
    );
}

#[test]
fn irregular_whitespace_between_attributes() {
    let (rest, tree) = html_element("<div class='x'  y ='z'>t</div>").unwrap();
    assert_eq!(rest, "");
    assert_eq!(
        tree,
        HTMLElement::ElementWithChildren {
            start_tag: HTMLStartTag::Tag("div".to_string(), vec![attr("class", "x"), attr("y", "z")]),
            end_tag: HTMLEndTag::Tag("div".to_string()),
            children: vec![text("t")],
        }
    );
}

#[test]
fn self_closing_after_failed_attempt() {
    let (rest, tree) = html_element("<a/>").unwrap();
    assert_eq!(rest, "");
    assert_eq!(
        tree,
        HTMLElement::SelfClosingElement(HTMLStartTag::Tag("a".to_string(), vec![]))
    );
    assert_eq!(analyze_tree(&tree), Ok(()));
    element_with_children("<a/>").unwrap_err();
}

#[test]
fn self_closing_with_attribute() {
    let (rest, tree) = self_closing_element("<n attr='v'/>").unwrap();
    assert_eq!(rest, "");
    assert_eq!(
        tree,
        HTMLElement::SelfClosingElement(HTMLStartTag::Tag("n".to_string(), vec![attr("attr", "v")]))
    );
    assert_eq!(analyze_tree(&tree), Ok(()));
    let (_, again) = html_element("<n attr='v' />").unwrap();
    assert_eq!(again, tree);
}

#[test]
fn end_tag_case_is_ignored() {
    let (_, tree) = html_element("<DIV>x</div>").unwrap();
    assert_eq!(analyze_tree(&tree), Ok(()));
    let (_, tree) = html_element("<Ab>x</aB>").unwrap();
    assert_eq!(analyze_tree(&tree), Ok(()));
}

#[test]
fn first_mismatch_wins() {
    let (_, tree) = html_element("<a><b>x</c><d>y</e></a>").unwrap();
    assert_eq!(
        analyze_tree(&tree),
        Err("Start and end tag are not equal. Start tag: b, end tag: c".to_string())
    );
}

#[test]
fn outer_mismatch_is_reported_before_children() {
    let (_, tree) = html_element("<a><b>x</c></z>").unwrap();
    assert_eq!(
        analyze_tree(&tree),
        Err("Start and end tag are not equal. Start tag: a, end tag: z".to_string())
    );
}

#[test]
fn children_are_checked_in_order() {
    let (_, children) = html_children("t<x/><p>q</P>").unwrap();
    assert_eq!(children.len(), 3);
    assert_eq!(analyze_children(&children), Ok(()));
    let (_, children) = html_children("<p>q</r>u<s>v</t>").unwrap();
    assert_eq!(
        analyze_children(&children),
        Err("Start and end tag are not equal. Start tag: p, end tag: r".to_string())
    );
}

#[test]
fn text_is_read_whole() {
    assert_eq!(html_text("a b c").unwrap(), ("", text("a b c")));
    assert_eq!(html_text("x}y").unwrap(), ("}y", text("x")));
    html_text("").unwrap_err();
}

#[test]
fn text_with_multibyte_characters() {
    assert_eq!(html_text("héllo wörld<b/>").unwrap(), ("<b/>", text("héllo wörld")));
    assert_eq!(html_text("日本語>").unwrap(), (">", text("日本語")));
    tag_name("é").unwrap_err();
}

#[test]
fn attribute_round_trip() {
    assert_eq!(html_attribute("name='value'").unwrap(), ("", attr("name", "value")));
    assert_eq!(html_attribute("name=\"value\"").unwrap(), ("", attr("name", "value")));
    assert_eq!(html_attribute("  name = 'v' rest").unwrap(), (" rest", attr("name", "v")));
    html_attribute("name=\"value").unwrap_err();
    html_attribute("name").unwrap_err();
}

#[test]
fn attributes_may_be_none() {
    assert_eq!(html_attributes("").unwrap(), ("", vec![]));
    assert_eq!(html_attributes(">").unwrap(), (">", vec![]));
    assert_eq!(
        html_attributes(" a='1' b=\"2\"/>").unwrap(),
        ("/>", vec![attr("a", "1"), attr("b", "2")])
    );
}

#[test]
fn start_and_end_tags() {
    assert_eq!(
        opening_element("  <p id='i'>x").unwrap(),
        ("x", HTMLStartTag::Tag("p".to_string(), vec![attr("id", "i")]))
    );
    assert_eq!(
        closing_element("</p>tail").unwrap(),
        ("tail", HTMLEndTag::Tag("p".to_string()))
    );
    closing_element("</ p>").unwrap_err();
    closing_element("</p >").unwrap_err();
    opening_element("<p").unwrap_err();
}

#[test]
fn trailing_input_is_returned() {
    let (rest, tree) = html_element("<p/>rest").unwrap();
    assert_eq!(rest, "rest");
    assert_eq!(
        tree,
        HTMLElement::SelfClosingElement(HTMLStartTag::Tag("p".to_string(), vec![]))
    );
}

#[test]
fn children_and_wrapper() {
    let (rest, child) = html_child("<i/>z").unwrap();
    assert_eq!(rest, "z");
    assert_eq!(
        child,
        HTMLChild::Element(Box::new(HTMLElement::SelfClosingElement(HTMLStartTag::Tag(
            "i".to_string(),
            vec![]
        ))))
    );
    assert_eq!(html_element_wrapper("<i/>z").unwrap(), ("z", child));
    html_element_wrapper("text").unwrap_err();
    let (rest, children) = html_children("ab<c/>d</x>").unwrap();
    assert_eq!(rest, "</x>");
    assert_eq!(children.len(), 3);
    assert_eq!(html_children("</x>").unwrap(), ("</x>", vec![]));
}

#[test]
fn broken_markup_fails() {
    html_element("").unwrap_err();
    html_element("text").unwrap_err();
    html_element("<a>unclosed").unwrap_err();
    html_element("<a>x</a").unwrap_err();
    html_element("<a b>x</a>").unwrap_err();
}

#[test]
fn folded_names_decide() {
    let s = |x: &str| x.to_string();
    assert_eq!(compare_folded(&s("Div"), &s("DIV"), &s("div"), &s("div")), Ok(()));
    assert_eq!(
        compare_folded(&s("Div"), &s("Span"), &s("div"), &s("span")),
        Err("Start and end tag are not equal. Start tag: Div, end tag: Span".to_string())
    );
}
