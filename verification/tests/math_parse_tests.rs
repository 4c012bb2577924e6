//! Tests for the MathML scanner.

use loki_layout::parse_mathml;

#[test]
fn a_fraction_parses_into_its_operands() {
    let root = parse_mathml(
        r#"<math xmlns="http://www.w3.org/1998/Math/MathML"><mfrac><mi>x</mi><mn>2</mn></mfrac></math>"#,
    )
    .expect("parses");
    assert_eq!(root.tag, "math");
    assert_eq!(root.attr("xmlns"), Some("http://www.w3.org/1998/Math/MathML"));
    assert_eq!(root.children.len(), 1);
    let frac = &root.children[0];
    assert_eq!(frac.tag, "mfrac");
    assert_eq!(frac.children[0].tag, "mi");
    assert_eq!(frac.children[0].text, "x");
    assert_eq!(frac.children[1].text, "2");
}

#[test]
fn prefixes_are_stripped_and_entities_unescaped() {
    let root = parse_mathml(r#"<m:math><m:mo stretchy="false">&lt;&amp;</m:mo></m:math>"#)
        .expect("parses");
    assert_eq!(root.tag, "math");
    let mo = &root.children[0];
    assert_eq!(mo.tag, "mo");
    assert_eq!(mo.text, "<&");
    assert_eq!(mo.attr("stretchy"), Some("false"));
    assert_eq!(mo.attr("missing"), None);
}

#[test]
fn non_ascii_text_survives() {
    let root = parse_mathml("<math><mi>é</mi><mi>π</mi></math>").expect("parses");
    assert_eq!(root.children[0].text, "é");
    assert_eq!(root.children[1].text, "π");
}

#[test]
fn text_without_elements_is_none() {
    assert!(parse_mathml("not math at all").is_none());
    assert!(parse_mathml("").is_none());
}

#[test]
fn self_closing_elements_have_no_children() {
    let root = parse_mathml("<math><mspace width=\"1em\"/><mi>y</mi></math>").expect("parses");
    assert_eq!(root.children.len(), 2);
    assert_eq!(root.children[0].tag, "mspace");
    assert!(root.children[0].children.is_empty());
    assert_eq!(root.children[1].text, "y");
}

#[test]
fn a_stray_slash_in_a_tag_is_stepped_over() {
    let root = parse_mathml("<a / b>").expect("parses");
    assert_eq!(root.tag, "a");
    assert_eq!(root.attr("b"), Some(""));
    let root = parse_mathml("<math><mi / x='1'>y</mi></math>").expect("parses");
    assert_eq!(root.children[0].text, "y");
    assert_eq!(root.children[0].attr("x"), Some("1"));
}
