use xmlem::config::EntityMode;
use xmlem::entities::{process_entities, trim_str};

#[test]
fn standard_mode_maps_reserved_characters() {
    let out = process_entities("a<b>&'\"", EntityMode::Standard);
    assert_eq!(out, "a&lt;b&gt;&amp;&apos;&quot;");
}

#[test]
fn standard_mode_maps_control_characters_to_hex() {
    assert_eq!(process_entities("\t", EntityMode::Standard), "&#x0009;");
    assert_eq!(process_entities("a\u{1}b", EntityMode::Standard), "a&#x0001;b");
    assert_eq!(process_entities("\u{7f}", EntityMode::Standard), "&#x007F;");
}

#[test]
fn hex_mode_maps_reserved_and_control_characters_to_hex() {
    assert_eq!(process_entities("&", EntityMode::Hex), "&#x0026;");
    assert_eq!(process_entities("'", EntityMode::Hex), "&#x0027;");
    assert_eq!(process_entities("\"", EntityMode::Hex), "&#x0022;");
    assert_eq!(process_entities("<", EntityMode::Hex), "&#x003C;");
    assert_eq!(process_entities(">", EntityMode::Hex), "&#x003E;");
    assert_eq!(process_entities("\n", EntityMode::Hex), "&#x000A;");
}

#[test]
fn clean_strings_pass_through_unchanged_in_both_modes() {
    let input = "hello world, caf\u{e9} 123!";
    assert_eq!(process_entities(input, EntityMode::Standard), input);
    assert_eq!(process_entities(input, EntityMode::Hex), input);
}

#[test]
fn escaping_twice_double_escapes_the_ampersand() {
    let once = process_entities("&", EntityMode::Standard);
    assert_eq!(once, "&amp;");
    let twice = process_entities(&once, EntityMode::Standard);
    assert_eq!(twice, "&amp;amp;");
}

#[test]
fn trim_removes_whitespace_from_both_ends() {
    assert_eq!(trim_str("  hello  "), "hello");
    assert_eq!(trim_str("hello"), "hello");
    assert_eq!(trim_str("   "), "");
    assert_eq!(trim_str(""), "");
}

#[test]
fn trim_covers_unicode_whitespace() {
    assert_eq!(trim_str("\u{a0}x\u{3000}"), "x");
    assert_eq!(trim_str("\u{2028}x\u{2028}"), "x");
    assert_eq!(trim_str("\t\r\nx y\n"), "x y");
}
