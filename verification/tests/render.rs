use xmlem::config::{Config, EntityMode};
use xmlem::document::{Declaration, Document, XmlError};

fn compact() -> Config {
    Config::default()
}

fn pretty() -> Config {
    Config::default_pretty()
}

#[test]
fn text_is_trimmed_in_compact_mode() {
    let mut d = Document::new();
    let t = d.push_text("  hello  ");
    let r = d.push_element("r", vec![], vec![t]).unwrap();
    d.set_root(r);
    assert_eq!(d.render_to_string(&compact()).unwrap(), "<r>hello</r>");
}

#[test]
fn text_is_trimmed_in_pretty_mode() {
    let mut d = Document::new();
    let t = d.push_text("  hello  ");
    let r = d.push_element("r", vec![], vec![t]).unwrap();
    d.set_root(r);
    assert_eq!(d.render_to_string(&pretty()).unwrap(), "<r>\n  hello\n</r>\n");
}

#[test]
fn compact_mode_emits_single_line() {
    let mut d = Document::new();
    let t = d.push_text("x");
    let b = d.push_element("b", vec![], vec![t]).unwrap();
    let a = d.push_element("a", vec![], vec![b]).unwrap();
    d.set_root(a);
    assert_eq!(d.render_to_string(&compact()).unwrap(), "<a><b>x</b></a>");
}

#[test]
fn pretty_mode_indents_nested_elements() {
    let mut d = Document::new();
    let t = d.push_text("x");
    let b = d.push_element("b", vec![], vec![t]).unwrap();
    let a = d.push_element("a", vec![], vec![b]).unwrap();
    d.set_root(a);
    assert_eq!(
        d.render_to_string(&pretty()).unwrap(),
        "<a>\n  <b>\n    x\n  </b>\n</a>\n"
    );
}

#[test]
fn childless_element_self_closes_without_attributes() {
    let mut d = Document::new();
    let r = d.push_element("e", vec![], vec![]).unwrap();
    d.set_root(r);
    assert_eq!(d.render_to_string(&compact()).unwrap(), "<e />");
}

#[test]
fn childless_element_self_closes_with_attributes() {
    let mut d = Document::new();
    let r = d
        .push_element("e", vec![("a".to_string(), "1".to_string())], vec![])
        .unwrap();
    d.set_root(r);
    assert_eq!(d.render_to_string(&compact()).unwrap(), "<e a=\"1\" />");
}

#[test]
fn attributes_wrap_when_estimate_exceeds_max_line_length() {
    let mut d = Document::new();
    let t = d.push_text("x");
    let r = d
        .push_element(
            "row",
            vec![
                ("a".to_string(), "1".to_string()),
                ("bb".to_string(), "22".to_string()),
            ],
            vec![t],
        )
        .unwrap();
    d.set_root(r);
    let mut config = pretty();
    config.max_line_length = 5;
    assert_eq!(
        d.render_to_string(&config).unwrap(),
        "<row \n  a=\"1\"\n  bb=\"22\">\n  x\n</row>\n"
    );
}

#[test]
fn attributes_stay_inline_when_estimate_fits() {
    let mut d = Document::new();
    let t = d.push_text("x");
    let r = d
        .push_element(
            "row",
            vec![
                ("a".to_string(), "1".to_string()),
                ("bb".to_string(), "22".to_string()),
            ],
            vec![t],
        )
        .unwrap();
    d.set_root(r);
    let mut config = pretty();
    config.max_line_length = 100;
    assert_eq!(
        d.render_to_string(&config).unwrap(),
        "<row a=\"1\" bb=\"22\">\n  x\n</row>\n"
    );
}

#[test]
fn repeated_attribute_keeps_position_and_takes_last_value() {
    let mut d = Document::new();
    let r = d
        .push_element(
            "e",
            vec![
                ("a".to_string(), "1".to_string()),
                ("b".to_string(), "2".to_string()),
                ("a".to_string(), "3".to_string()),
            ],
            vec![],
        )
        .unwrap();
    d.set_root(r);
    assert_eq!(
        d.render_to_string(&compact()).unwrap(),
        "<e a=\"3\" b=\"2\" />"
    );
}

#[test]
fn attribute_values_are_escaped_names_are_not() {
    let mut d = Document::new();
    let r = d
        .push_element("e", vec![("k".to_string(), "a&b".to_string())], vec![])
        .unwrap();
    d.set_root(r);
    assert_eq!(
        d.render_to_string(&compact()).unwrap(),
        "<e k=\"a&amp;b\" />"
    );
}

#[test]
fn hex_mode_applies_to_attribute_values() {
    let mut d = Document::new();
    let r = d
        .push_element("e", vec![("k".to_string(), "<".to_string())], vec![])
        .unwrap();
    d.set_root(r);
    let mut config = compact();
    config.entity_mode = EntityMode::Hex;
    assert_eq!(
        d.render_to_string(&config).unwrap(),
        "<e k=\"&#x003C;\" />"
    );
}

#[test]
fn declaration_with_no_fields_renders_bare() {
    let mut d = Document::new();
    let r = d.push_element("r", vec![], vec![]).unwrap();
    d.set_root(r);
    d.set_declaration(Some(Declaration { version: None, encoding: None, standalone: None }));
    assert_eq!(d.render_to_string(&compact()).unwrap(), "<?xml ?><r />");
    assert_eq!(d.render_to_string(&pretty()).unwrap(), "<?xml ?>\n<r />\n");
}

#[test]
fn declaration_fields_each_carry_a_trailing_space() {
    let mut d = Document::new();
    let r = d.push_element("r", vec![], vec![]).unwrap();
    d.set_root(r);
    d.set_declaration(Some(Declaration {
        version: Some("1.0".to_string()),
        encoding: Some("UTF-8".to_string()),
        standalone: Some("yes".to_string()),
    }));
    assert_eq!(
        d.render_to_string(&compact()).unwrap(),
        "<?xml version=\"1.0\" encoding=\"UTF-8\" standalone=\"yes\" ?><r />"
    );
}

#[test]
fn cdata_and_comments_are_emitted_verbatim() {
    let mut d = Document::new();
    let c = d.push_cdata("x<y&");
    let m = d.push_comment(" hi ");
    let r = d.push_element("r", vec![], vec![c, m]).unwrap();
    d.set_root(r);
    assert_eq!(
        d.render_to_string(&compact()).unwrap(),
        "<r><![CDATA[x<y&]]><!-- hi --></r>"
    );
}

#[test]
fn leading_and_trailing_siblings_render_around_the_root() {
    let mut d = Document::new();
    let doctype = d.push_document_type(" html");
    let r = d.push_element("r", vec![], vec![]).unwrap();
    let end = d.push_comment("end");
    d.set_root(r);
    d.push_before(doctype);
    d.push_after(end);
    assert_eq!(
        d.render_to_string(&compact()).unwrap(),
        "<!DOCTYPE html><r /><!--end-->"
    );
}

#[test]
fn leading_siblings_are_not_indented_in_pretty_mode() {
    let mut d = Document::new();
    let c = d.push_comment("c");
    let r = d.push_element("r", vec![], vec![]).unwrap();
    d.set_root(r);
    d.push_before(c);
    assert_eq!(d.render_to_string(&pretty()).unwrap(), "<!--c-->\n<r />\n");
}

#[test]
fn text_root_yields_invalid_root_and_no_output() {
    let mut d = Document::new();
    let t = d.push_text("x");
    d.set_root(t);
    assert_eq!(d.render_to_string(&compact()), Err(XmlError::InvalidRoot));
}

#[test]
fn dangling_root_yields_broken_reference() {
    let d = Document::new();
    assert_eq!(
        d.render_to_string(&compact()),
        Err(XmlError::BrokenReference)
    );
}

#[test]
fn dangling_leading_key_yields_broken_reference() {
    let mut other = Document::new();
    other.push_text("a");
    other.push_text("b");
    let foreign = other.push_text("c");

    let mut d = Document::new();
    let r = d.push_element("r", vec![], vec![]).unwrap();
    d.set_root(r);
    d.push_before(foreign);
    assert_eq!(
        d.render_to_string(&compact()),
        Err(XmlError::BrokenReference)
    );
}

#[test]
fn pushing_an_element_with_a_dangling_child_fails() {
    let mut other = Document::new();
    other.push_text("a");
    let foreign = other.push_text("b");

    let mut d = Document::new();
    assert_eq!(
        d.push_element("r", vec![], vec![foreign]),
        Err(XmlError::BrokenReference)
    );
}

#[test]
fn node_lookup_reports_broken_references() {
    let mut other = Document::new();
    other.push_text("a");
    let foreign = other.push_text("b");

    let mut d = Document::new();
    let t = d.push_text("x");
    assert!(d.node(t).is_ok());
    assert_eq!(d.node(foreign).unwrap_err(), XmlError::BrokenReference);
    assert!(d.attributes(t).is_some());
    assert!(d.attributes(foreign).is_none());
}

#[test]
fn default_config_is_compact_standard() {
    let c = Config::default();
    assert!(!c.is_pretty);
    assert_eq!(c.indent, 0);
    assert_eq!(c.max_line_length, 0);
    assert_eq!(c.entity_mode, EntityMode::Standard);
}

#[test]
fn default_pretty_config_values() {
    let c = Config::default_pretty();
    assert!(c.is_pretty);
    assert_eq!(c.indent, 2);
    assert_eq!(c.max_line_length, 120);
    assert_eq!(c.entity_mode, EntityMode::Standard);
}

#[test]
fn format_directives_map_onto_config() {
    let c = Config::from_format(false, None, None);
    assert!(!c.is_pretty);
    assert_eq!(c.indent, 0);
    assert_eq!(c.max_line_length, 0);

    let c = Config::from_format(true, None, None);
    assert!(c.is_pretty);
    assert_eq!(c.indent, 2);
    assert_eq!(c.max_line_length, 120);

    let c = Config::from_format(false, Some(4), None);
    assert!(c.is_pretty);
    assert_eq!(c.indent, 4);
    assert_eq!(c.max_line_length, 0);

    let c = Config::from_format(false, None, Some(10));
    assert!(c.is_pretty);
    assert_eq!(c.indent, 0);
    assert_eq!(c.max_line_length, 10);
}

#[test]
fn zero_max_line_length_always_wraps_with_attributes() {
    let mut d = Document::new();
    let r = d
        .push_element("e", vec![("a".to_string(), "1".to_string())], vec![])
        .unwrap();
    d.set_root(r);
    let config = Config::from_format(false, Some(2), None);
    assert_eq!(
        d.render_to_string(&config).unwrap(),
        "<e \n  a=\"1\" />\n"
    );
}

#[test]
fn text_with_control_characters_is_escaped_in_place() {
    let mut d = Document::new();
    let t = d.push_text("a\u{1}b");
    let r = d.push_element("r", vec![], vec![t]).unwrap();
    d.set_root(r);
    assert_eq!(
        d.render_to_string(&compact()).unwrap(),
        "<r>a&#x0001;b</r>"
    );
}
