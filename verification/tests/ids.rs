use stead::ids::{fnv1a, named_entity_id, positional_entity_id};

/// The id of a positional entity at (`x`, `y`) metres, the coordinates
/// rendered as `{:.1}` renders them.
fn positional(kind: &str, source: &str, x: f64, y: f64) -> String {
    positional_entity_id(kind, source, &format!("{x:.1}"), &format!("{y:.1}"))
}

#[test]
fn positional_ids_are_deterministic_and_jitter_stable() {
    let a = positional("feature", "walkthrough-1", 12.34, -5.67);
    let b = positional("feature", "walkthrough-1", 12.31, -5.72);
    let c = positional("feature", "walkthrough-1", 13.00, -5.67);
    assert_eq!(a, b, "sub-0.05m jitter keeps identity");
    assert_ne!(a, c, "a real move is a new identity");
    assert!(a.starts_with("feature:"));
}

#[test]
fn named_ids_slugify() {
    assert_eq!(named_entity_id("zone", "Back Porch"), "zone:back_porch");
    assert_eq!(named_entity_id("zone", "  Fire—Pit! "), "zone:fire_pit");
}

#[test]
fn fnv1a_matches_reference_vectors() {
    assert_eq!(fnv1a(b""), 0xcbf2_9ce4_8422_2325);
    assert_eq!(fnv1a(b"a"), 0xaf63_dc4c_8601_ec8c);
    assert_eq!(fnv1a(b"foobar"), 0x8594_4171_f739_67e8);
}

#[test]
fn positional_id_is_kind_and_twelve_hex_digits_of_the_key_hash() {
    let id = positional_entity_id("feature", "walkthrough-1", "12.3", "-5.7");
    let expected = fnv1a("walkthrough-1|12.3|-5.7".as_bytes()) & 0xffff_ffff_ffff;
    assert_eq!(id, format!("feature:{:012x}", expected));
    assert_eq!(id.len(), "feature:".len() + 12);
    assert!(id["feature:".len()..].chars().all(|c| c.is_ascii_digit() || ('a'..='f').contains(&c)));
}

#[test]
fn positional_key_uses_the_float_rendering() {
    // -0.04 m renders as "-0.0"
    let expected = fnv1a("s|-0.0|0.0".as_bytes()) & 0xffff_ffff_ffff;
    assert_eq!(positional("f", "s", -0.04, 0.0), format!("f:{:012x}", expected));
    // 0.15 and 0.25 are not exact in binary: they render as "0.1" and "0.2"
    let expected = fnv1a("s|0.1|0.2".as_bytes()) & 0xffff_ffff_ffff;
    assert_eq!(positional("f", "s", 0.15, 0.25), format!("f:{:012x}", expected));
    assert_eq!(positional("f", "s", 0.15, 0.25), positional_entity_id("f", "s", "0.1", "0.2"));
}

#[test]
fn slug_edge_cases() {
    assert_eq!(named_entity_id("device", "soil-probe-1"), "device:soil_probe_1");
    assert_eq!(named_entity_id("zone", ""), "zone:");
    assert_eq!(named_entity_id("zone", "---"), "zone:");
    assert_eq!(named_entity_id("zone", "Café Ünïcode"), "zone:caf_n_code");
    assert_eq!(named_entity_id("feature", "light.kitchen_pendant"), "feature:light_kitchen_pendant");
}

#[test]
fn named_ids_ignore_ascii_case_and_separator_runs() {
    let n = "Back Porch";
    let id = named_entity_id("zone", n);
    assert_eq!(id, named_entity_id("zone", &n.to_ascii_uppercase()));
    assert_eq!(id, named_entity_id("zone", &n.replace(' ', "--")));
    assert_eq!(id, named_entity_id("zone", &format!("  {n} !")));
    assert_eq!(id, named_entity_id("zone", "back\u{2014}\u{2014}porch"));
}
