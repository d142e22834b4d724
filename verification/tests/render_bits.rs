use lini::render::icon_fit::attr;
use lini::layout::PlacedNode;
use lini::render::{style_attr_from, tooltip_count};
use lini::resolve::AttrMap;
use lini::wrap_html;
use lini::render::values::escape_xml;

#[test]
fn style_attribute_joins_declarations() {
    assert_eq!(style_attr_from(&[]), "");
    assert_eq!(style_attr_from(&[("fill", "red".to_string())]), " style=\"fill: red\"");
    assert_eq!(
        style_attr_from(&[("fill", "red".to_string()), ("stroke-width", "2".to_string())]),
        " style=\"fill: red; stroke-width: 2\""
    );
}

#[test]
fn attribute_lookup_is_anchored_by_a_space() {
    let frag = "<rect rx=\"3\" x=\"1.5\" width=\"10\"/>";
    assert_eq!(attr(frag, "x"), Some("1.5".to_string()));
    assert_eq!(attr(frag, "rx"), Some("3".to_string()));
    assert_eq!(attr(frag, "r"), None);
    assert_eq!(attr(frag, "width"), Some("10".to_string()));
    assert_eq!(attr("<circle r=\"4", "r"), None);
}

#[test]
fn html_wrapper_holds_the_svg_in_its_body() {
    let page = wrap_html("<svg/>\n");
    assert!(page.starts_with("<!doctype html>\n<html>\n"));
    assert!(page.contains("<body>\n<svg/>\n</body>\n</html>\n"));
    assert!(page.contains("<title>lini</title>"));
}

fn node(types: &[&str], children: Vec<PlacedNode>) -> PlacedNode {
    PlacedNode { attrs: AttrMap::new(), type_chain: types.iter().map(|s| s.to_string()).collect(), children }
}

#[test]
fn tooltip_cards_count_to_the_largest_tip_index() {
    assert_eq!(tooltip_count(&[]), 0);
    assert_eq!(tooltip_count(&[node(&["box"], vec![])]), 0);
    let tree = vec![
        node(&["tip-0", "box"], vec![node(&["tip-4"], vec![])]),
        node(&["tip-2", "tip-x", "tip-", "tip--1", "tip-+3"], vec![]),
    ];
    assert_eq!(tooltip_count(&tree), 5);
    assert_eq!(tooltip_count(&[node(&["tip-+7"], vec![])]), 8);
    assert_eq!(tooltip_count(&[node(&["tip-99999999999999999999999"], vec![])]), 0);
}

fn decode_entities(t: &str) -> String {
    t.replace("&lt;", "<")
        .replace("&gt;", ">")
        .replace("&quot;", "\"")
        .replace("&apos;", "'")
        .replace("&amp;", "&")
}

#[test]
fn escaped_text_decodes_back_to_the_original() {

    let s = "a < b && c > \"d\" 'e' &amp; plain";
    let e = escape_xml(s);
    assert_eq!(e, "a &lt; b &amp;&amp; c &gt; &quot;d&quot; &apos;e&apos; &amp;amp; plain");
    assert_eq!(decode_entities(&e), s);
    assert_eq!(escape_xml(""), "");
}
