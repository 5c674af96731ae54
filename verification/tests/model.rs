use svd_model::dim::compact_registers;
use svd_model::encode::encode_enumerated_value;
use svd_model::enumeratedvalue::{EnumeratedValue, Error, ValueRange};
use svd_model::num::{parse_bool, parse_u32, parse_u64, parse_u64_dont_care};
use svd_model::parse::{parse_enumerated_value, parse_enumerated_values};
use svd_model::register::{
    expand_register, merge_derived, resolve_derived, Access, DimElement, Register, RegisterInfo,
};
use svd_model::tree::{Comments, Element, NodeKind, ParseError};
use svd_model::{SvdError, ValidateLevel};

fn leaf(tag: &str, text: &str, id: u64) -> Element {
    Element {
        kind: NodeKind::Element,
        name: tag.to_string(),
        attributes: Vec::new(),
        text: Some(text.to_string()),
        children: Vec::new(),
        id,
    }
}

fn elem(tag: &str, children: Vec<Element>, id: u64) -> Element {
    Element {
        kind: NodeKind::Element,
        name: tag.to_string(),
        attributes: Vec::new(),
        text: None,
        children,
        id,
    }
}

fn comment(text: &str) -> Element {
    Element {
        kind: NodeKind::Comment,
        name: String::new(),
        attributes: Vec::new(),
        text: Some(text.to_string()),
        children: Vec::new(),
        id: 0,
    }
}

fn reg(name: &str, offset: u64) -> RegisterInfo {
    RegisterInfo {
        name: name.to_string(),
        description: None,
        address_offset: offset,
        size: Some(32),
        access: Some(Access::ReadWrite),
        reset_value: None,
        reset_mask: None,
        derived_from: None,
    }
}

#[test]
fn build_strict_absent_value_fails() {
    let r = EnumeratedValue::builder()
        .name("foo".to_string())
        .build(ValidateLevel::Strict);
    match r {
        Err(SvdError::EnumeratedValue(Error::AbsentValue)) => {}
        other => panic!("expected AbsentValue, got {:?}", other),
    }
}

#[test]
fn build_strict_value_and_default_fails_weak_succeeds() {
    let r = EnumeratedValue::builder()
        .name("foo".to_string())
        .value(Some(3))
        .is_default(Some(true))
        .build(ValidateLevel::Strict);
    match r {
        Err(SvdError::EnumeratedValue(Error::ValueAndDefault(Some(3)))) => {}
        other => panic!("expected ValueAndDefault(Some(3)), got {:?}", other),
    }
    let ok = EnumeratedValue::builder()
        .name("foo".to_string())
        .value(Some(3))
        .is_default(Some(true))
        .build(ValidateLevel::Weak)
        .unwrap();
    assert_eq!(ok.value, Some(3));
    assert_eq!(ok.is_default, Some(true));
}

#[test]
fn build_strict_rejects_illegal_name() {
    let r = EnumeratedValue::builder()
        .name("a b".to_string())
        .value(Some(1))
        .build(ValidateLevel::Strict);
    assert!(matches!(r, Err(SvdError::Name(_))));
}

#[test]
fn build_without_name_is_uninitialized() {
    let r = EnumeratedValue::builder()
        .value(Some(1))
        .build(ValidateLevel::Disabled);
    match r {
        Err(SvdError::Build(svd_model::BuildError::Uninitialized(f))) => {
            assert_eq!(f, "name");
        }
        other => panic!("expected Uninitialized(name), got {:?}", other),
    }
}

#[test]
fn build_normalizes_empty_description() {
    let ev = EnumeratedValue::builder()
        .name("foo".to_string())
        .description(Some(String::new()))
        .value(Some(1))
        .build(ValidateLevel::Strict)
        .unwrap();
    assert_eq!(ev.description, None);
}

#[test]
fn modify_from_overlays_only_set_fields() {
    let mut ev = EnumeratedValue::builder()
        .name("foo".to_string())
        .value(Some(1))
        .build(ValidateLevel::Strict)
        .unwrap();
    let b = EnumeratedValue::builder().value(Some(7));
    ev.modify_from(b, ValidateLevel::Strict).unwrap();
    assert_eq!(ev.name, "foo");
    assert_eq!(ev.value, Some(7));
}

#[test]
fn check_range_enforces_bounds() {
    let ev = EnumeratedValue::builder()
        .name("foo".to_string())
        .value(Some(5))
        .build(ValidateLevel::Strict)
        .unwrap();
    assert!(ev.check_range(&ValueRange { start: 0, end: 8 }).is_ok());
    let r = ev.check_range(&ValueRange { start: 0, end: 4 });
    match r {
        Err(SvdError::EnumeratedValue(Error::OutOfRange(5, range))) => {
            assert_eq!(range, ValueRange { start: 0, end: 4 });
        }
        other => panic!("expected OutOfRange, got {:?}", other),
    }
}

#[test]
fn validate_monotonic_on_strict_entity() {
    let ev = EnumeratedValue::builder()
        .name("foo".to_string())
        .value(Some(1))
        .build(ValidateLevel::Strict)
        .unwrap();
    assert!(ev.validate(ValidateLevel::Strict).is_ok());
    assert!(ev.validate(ValidateLevel::Weak).is_ok());
    assert!(ev.validate(ValidateLevel::Disabled).is_ok());
}

#[test]
fn parse_u64_accepts_all_bases() {
    assert_eq!(parse_u64("123"), Some(123));
    assert_eq!(parse_u64("0x1F"), Some(31));
    assert_eq!(parse_u64("0X1f"), Some(31));
    assert_eq!(parse_u64("0b101"), Some(5));
    assert_eq!(parse_u64("0"), Some(0));
    assert_eq!(parse_u64("18446744073709551615"), Some(u64::MAX));
}

#[test]
fn parse_u64_rejects_malformed_and_overflow() {
    assert_eq!(parse_u64(""), None);
    assert_eq!(parse_u64("0x"), None);
    assert_eq!(parse_u64("12z"), None);
    assert_eq!(parse_u64("0b102"), None);
    assert_eq!(parse_u64("18446744073709551616"), None);
}

#[test]
fn parse_u32_bounds() {
    assert_eq!(parse_u32("0xFFFFFFFF"), Some(u32::MAX));
    assert_eq!(parse_u32("0x100000000"), None);
}

#[test]
fn parse_dont_care_expands_wildcards() {
    assert_eq!(parse_u64_dont_care("0b1x0x"), Some((0b1000, 0b1101)));
    assert_eq!(parse_u64_dont_care("0bxX"), Some((0, 3)));
    assert_eq!(parse_u64_dont_care("0b101"), Some((5, 5)));
    assert_eq!(parse_u64_dont_care("0b"), None);
    assert_eq!(parse_u64_dont_care("0b12"), None);
    assert_eq!(parse_u64_dont_care("101"), None);
}

#[test]
fn parse_bool_spellings() {
    assert_eq!(parse_bool("true"), Some(true));
    assert_eq!(parse_bool("TRUE"), Some(true));
    assert_eq!(parse_bool("1"), Some(true));
    assert_eq!(parse_bool("Enabled"), Some(true));
    assert_eq!(parse_bool("false"), Some(false));
    assert_eq!(parse_bool("0"), Some(false));
    assert_eq!(parse_bool("DISABLED"), Some(false));
    assert_eq!(parse_bool("maybe"), None);
}

#[test]
fn get_text_trims() {
    let e = leaf("name", "  hi\t", 1);
    assert_eq!(e.get_text().unwrap(), "hi");
}

#[test]
fn comments_walk_preceding_siblings_nearest_first() {
    let parent = elem(
        "peripheral",
        vec![comment("first"), comment("second"), leaf("name", "X", 2)],
        1,
    );
    assert_eq!(parent.comments(2), vec!["second".to_string(), "first".to_string()]);
    assert_eq!(parent.comments(0), Vec::<String>::new());
}

#[test]
fn parse_enumerated_value_reads_all_fields() {
    let e = elem(
        "enumeratedValue",
        vec![
            leaf("name", "FOO", 2),
            leaf("description", " a foo ", 3),
            leaf("value", "0x2A", 4),
            leaf("isDefault", "false", 5),
        ],
        1,
    );
    let ev = parse_enumerated_value(&e, ValidateLevel::Strict).unwrap();
    assert_eq!(ev.name, "FOO");
    assert_eq!(ev.description, Some("a foo".to_string()));
    assert_eq!(ev.value, Some(42));
    assert_eq!(ev.is_default, Some(false));
}

#[test]
fn parse_enumerated_value_missing_name_is_tagged() {
    let e = elem("enumeratedValue", vec![leaf("value", "1", 2)], 9);
    let err = parse_enumerated_value(&e, ValidateLevel::Weak).unwrap_err();
    assert_eq!(err.id, 9);
    assert!(matches!(err.error, ParseError::MissingTag(_)));
}

#[test]
fn parse_enumerated_value_bad_numeral_is_tagged_at_child() {
    let e = elem(
        "enumeratedValue",
        vec![leaf("name", "A", 2), leaf("value", "xyz", 3)],
        1,
    );
    let err = parse_enumerated_value(&e, ValidateLevel::Weak).unwrap_err();
    assert_eq!(err.id, 3);
    assert!(matches!(err.error, ParseError::InvalidNumeral(_)));
}

#[test]
fn reading_number_from_textless_child_is_empty_tag() {
    let e = elem(
        "enumeratedValue",
        vec![leaf("name", "A", 2), elem("value", Vec::new(), 3)],
        1,
    );
    let err = parse_enumerated_value(&e, ValidateLevel::Weak).unwrap_err();
    assert_eq!(err.id, 3);
    assert!(matches!(err.error, ParseError::EmptyTag(_)));
}

#[test]
fn parse_enumerated_value_bad_boolean_is_tagged_at_child() {
    let e = elem(
        "enumeratedValue",
        vec![leaf("name", "A", 2), leaf("isDefault", "maybe", 3)],
        1,
    );
    let err = parse_enumerated_value(&e, ValidateLevel::Weak).unwrap_err();
    assert_eq!(err.id, 3);
    assert!(matches!(err.error, ParseError::InvalidBooleanValue(_)));
}

#[test]
fn list_parse_records_bad_entry_and_keeps_siblings() {
    let list = elem(
        "enumeratedValues",
        vec![
            elem("enumeratedValue", vec![leaf("name", "A", 2), leaf("value", "1", 3)], 1),
            elem("enumeratedValue", vec![leaf("value", "2", 5)], 4),
            elem("enumeratedValue", vec![leaf("name", "C", 7), leaf("value", "3", 8)], 6),
        ],
        0,
    );
    let (vals, errs) = parse_enumerated_values(&list, ValidateLevel::Weak);
    assert_eq!(vals.len(), 2);
    assert_eq!(vals[0].name, "A");
    assert_eq!(vals[1].name, "C");
    assert_eq!(errs.len(), 1);
    assert_eq!(errs[0].id, 4);
    assert!(matches!(errs[0].error, ParseError::MissingTag(_)));
}

#[test]
fn name_only_round_trips_at_disabled_fails_at_strict() {
    let e = elem("enumeratedValue", vec![leaf("name", "A", 2)], 1);
    let ev = parse_enumerated_value(&e, ValidateLevel::Disabled).unwrap();
    let encoded = encode_enumerated_value(&ev);
    let again = parse_enumerated_value(&encoded, ValidateLevel::Disabled).unwrap();
    assert_eq!(again.name, ev.name);
    assert_eq!(again.description, ev.description);
    assert_eq!(again.value, ev.value);
    assert_eq!(again.is_default, ev.is_default);
    let strict = parse_enumerated_value(&e, ValidateLevel::Strict);
    assert!(matches!(
        strict,
        Err(svd_model::tree::SvdErrorAt { error: ParseError::Svd(SvdError::EnumeratedValue(Error::AbsentValue)), .. })
    ));
}

#[test]
fn full_enumerated_value_round_trips() {
    let ev = EnumeratedValue::builder()
        .name("FOO".to_string())
        .description(Some("a foo".to_string()))
        .value(Some(42))
        .is_default(None)
        .build(ValidateLevel::Strict)
        .unwrap();
    let encoded = encode_enumerated_value(&ev);
    let again = parse_enumerated_value(&encoded, ValidateLevel::Strict).unwrap();
    assert_eq!(again, ev);
}

#[test]
fn array_expansion_names_and_offsets() {
    let template = reg("R%s", 0x10);
    let dim = DimElement { dim: 4, dim_increment: 4, dim_index: None };
    let out = expand_register(&template, &dim);
    assert_eq!(out.len(), 4);
    let names: Vec<&str> = out.iter().map(|r| r.name.as_str()).collect();
    assert_eq!(names, vec!["R0", "R1", "R2", "R3"]);
    let offsets: Vec<u64> = out.iter().map(|r| r.address_offset).collect();
    assert_eq!(offsets, vec![0x10, 0x14, 0x18, 0x1C]);
    // The template is a pure input: expansion never rewrites it.
    assert_eq!(template.name, "R%s");
    assert_eq!(template.address_offset, 0x10);
}

#[test]
fn array_expansion_with_index_list() {
    let template = reg("CH_%s", 0);
    let dim = DimElement {
        dim: 2,
        dim_increment: 8,
        dim_index: Some(vec!["A".to_string(), "B".to_string()]),
    };
    let out = expand_register(&template, &dim);
    assert_eq!(out[0].name, "A");
    assert_eq!(out[1].name, "B");
}

#[test]
fn compaction_inverts_numeric_expansion() {
    let template = reg("R%s", 0x10);
    let dim = DimElement { dim: 4, dim_increment: 4, dim_index: None };
    let out = expand_register(&template, &dim);
    let (t, d) = compact_registers(&out).unwrap();
    assert_eq!(d.dim, 4);
    assert_eq!(d.dim_increment, 4);
    assert_eq!(d.dim_index, None);
    assert_eq!(t.name, "R%s");
    assert_eq!(t.address_offset, 0x10);
}

#[test]
fn compaction_inverts_index_list_expansion() {
    let template = reg("CH%s", 0);
    let dim = DimElement {
        dim: 2,
        dim_increment: 8,
        dim_index: Some(vec!["LEFT".to_string(), "RIGHT".to_string()]),
    };
    let out = expand_register(&template, &dim);
    let (_, d) = compact_registers(&out).unwrap();
    assert_eq!(d.dim, 2);
    assert_eq!(d.dim_increment, 8);
    assert_eq!(d.dim_index, Some(vec!["LEFT".to_string(), "RIGHT".to_string()]));
}

#[test]
fn compaction_refuses_ragged_offsets() {
    let rs = vec![reg("R0", 0), reg("R1", 4), reg("R2", 12)];
    assert!(compact_registers(&rs).is_none());
}

#[test]
fn derivation_merges_unset_fields_only() {
    let base = RegisterInfo {
        name: "B".to_string(),
        description: None,
        address_offset: 0,
        size: Some(32),
        access: Some(Access::ReadWrite),
        reset_value: None,
        reset_mask: None,
        derived_from: None,
    };
    let derived = RegisterInfo {
        name: "D".to_string(),
        description: None,
        address_offset: 4,
        size: None,
        access: Some(Access::ReadOnly),
        reset_value: None,
        reset_mask: None,
        derived_from: Some("B".to_string()),
    };
    let merged = merge_derived(&derived, &base);
    assert_eq!(merged.size, Some(32));
    assert_eq!(merged.access, Some(Access::ReadOnly));
    assert_eq!(merged.name, "D");
    assert_eq!(merged.address_offset, 4);
}

#[test]
fn derivation_resolves_among_siblings() {
    let siblings = vec![reg("B", 0)];
    let mut derived = reg("D", 4);
    derived.size = None;
    derived.derived_from = Some("B".to_string());
    let out = resolve_derived(&derived, &siblings, ValidateLevel::Strict).unwrap();
    assert_eq!(out.size, Some(32));
}

#[test]
fn derivation_unresolved_fails_only_at_strict() {
    let siblings = vec![reg("B", 0)];
    let mut derived = reg("D", 4);
    derived.derived_from = Some("MISSING".to_string());
    let strict = resolve_derived(&derived, &siblings, ValidateLevel::Strict);
    assert!(matches!(strict, Err(SvdError::UnresolvedDerivedFrom(_))));
    let weak = resolve_derived(&derived, &siblings, ValidateLevel::Weak).unwrap();
    assert_eq!(weak.name, "D");
    assert_eq!(weak.size, Some(32));
}

#[test]
fn register_encode_single_and_array() {
    let single = Register::Single(reg("CTRL", 0x20));
    let e = single.encode();
    assert_eq!(e.name, "register");
    assert_eq!(e.get_child_text("name").unwrap(), "CTRL");
    assert_eq!(e.get_child_u64("addressOffset").unwrap(), 0x20);
    assert_eq!(e.get_child_u32("size").unwrap(), 32);
    assert_eq!(e.get_child_text("access").unwrap(), "read-write");

    let arr = Register::Array(
        reg("R%s", 0x10),
        DimElement { dim: 4, dim_increment: 4, dim_index: None },
    );
    let e = arr.encode();
    assert_eq!(e.get_child_u32("dim").unwrap(), 4);
    assert_eq!(e.get_child_u32("dimIncrement").unwrap(), 4);
    assert_eq!(e.get_child_text("name").unwrap(), "R%s");
}

#[test]
fn register_encode_array_index_list_joined() {
    let arr = Register::Array(
        reg("CH%s", 0),
        DimElement {
            dim: 2,
            dim_increment: 8,
            dim_index: Some(vec!["A".to_string(), "B".to_string()]),
        },
    );
    let e = arr.encode();
    assert_eq!(e.get_child_text("dimIndex").unwrap(), "A,B");
}

#[test]
fn register_encode_carries_derived_from_attribute() {
    let mut info = reg("D", 4);
    info.derived_from = Some("B".to_string());
    let e = Register::Single(info).encode();
    assert_eq!(
        e.attributes,
        vec![("derivedFrom".to_string(), "B".to_string())]
    );
}

#[test]
fn get_attribute_finds_first_matching_key() {
    let mut e = Element::new("register");
    e.set_attribute("derivedFrom".to_string(), "B".to_string());
    assert_eq!(e.get_attribute("derivedFrom"), Some("B"));
    assert_eq!(e.get_attribute("missing"), None);
}

#[test]
fn merge_attributes_incoming_wins_children_append() {
    let mut a = Element::new("x");
    a.set_attribute("k".to_string(), "old".to_string());
    a.set_attribute("other".to_string(), "keep".to_string());
    a.append_child(leaf("c1", "1", 1));
    let mut b = Element::new("y");
    b.set_attribute("k".to_string(), "new".to_string());
    b.append_child(leaf("c1", "2", 2));
    a.merge(b);
    assert_eq!(
        a.attributes,
        vec![
            ("k".to_string(), "new".to_string()),
            ("other".to_string(), "keep".to_string())
        ]
    );
    assert_eq!(a.children.len(), 2);
    assert_eq!(a.children[1].id, 2);
}
