use cursed_mav::catalog::{BitFlag, Catalog, FieldType, Parameter, Value};
use cursed_mav::info::{get_all_parameters, get_parameter_info, ParameterFieldInfo};
use cursed_mav::numeric::{decimal_le, parse_decimal, parse_u32, Decimal};
use cursed_mav::parse::{catalog_from_tokens, parse_parameters, CatalogError, XmlToken};
use cursed_mav::state::MavConnState;
use cursed_mav::text::{split_at_colon, split_words, trim_text};

fn dec(negative: bool, mantissa: u64, scale: u32) -> Decimal {
    Decimal { negative, mantissa, scale }
}

fn param(field_type: FieldType) -> Parameter {
    Parameter {
        human_name: "Human".to_string(),
        documentation: "Docs".to_string(),
        user: "Standard".to_string(),
        field_type,
    }
}

fn range(min: i64, max: i64) -> FieldType {
    FieldType::Range {
        min: dec(min < 0, min.unsigned_abs(), 0),
        max: dec(max < 0, max.unsigned_abs(), 0),
        increment: None,
        units: None,
    }
}

#[test]
fn range_accepts_inside_and_rejects_outside() {
    let p = param(range(0, 10));
    assert!(p.validate_value("5"));
    assert!(!p.validate_value("11"));
    assert!(!p.validate_value("abc"));
}

#[test]
fn range_bounds_are_inclusive() {
    let p = param(range(0, 10));
    assert!(p.validate_value("0"));
    assert!(p.validate_value("10"));
    assert!(p.validate_value("10.0"));
    assert!(!p.validate_value("10.001"));
    assert!(!p.validate_value("-0.5"));
    assert!(p.validate_value("+2.5"));
    assert!(!p.validate_value(""));
}

#[test]
fn range_with_negative_and_fractional_bounds() {
    let p = param(FieldType::Range {
        min: dec(true, 15, 1),
        max: dec(false, 25, 2),
        increment: None,
        units: None,
    });
    assert!(p.validate_value("-1.5"));
    assert!(p.validate_value("0.25"));
    assert!(!p.validate_value("0.26"));
    assert!(!p.validate_value("-1.51"));
}

#[test]
fn enumerated_accepts_declared_codes_only() {
    let p = param(FieldType::Values(vec![
        Value { code: 1, name: "A".to_string() },
        Value { code: 2, name: "B".to_string() },
    ]));
    assert!(p.validate_value("2"));
    assert!(!p.validate_value("3"));
    assert!(!p.validate_value("x"));
}

#[test]
fn bitmask_bound_is_two_to_the_highest_position() {
    let p = param(FieldType::Bitmask(vec![
        BitFlag { code: 0, name: "Low".to_string() },
        BitFlag { code: 3, name: "High".to_string() },
    ]));
    assert!(p.validate_value("8"));
    assert!(!p.validate_value("9"));
    assert!(!p.validate_value("-1"));
    let wide = param(FieldType::Bitmask(vec![BitFlag { code: 40, name: "Far".to_string() }]));
    assert!(wide.validate_value("4294967295"));
}

#[test]
fn unconstrained_accepts_anything() {
    let p = param(FieldType::Unconstrained);
    assert!(p.validate_value("whatever"));
}

#[test]
fn unsigned_parser_follows_std() {
    assert_eq!(parse_u32("42"), Some(42));
    assert_eq!(parse_u32("+7"), Some(7));
    assert_eq!(parse_u32("4294967295"), Some(u32::MAX));
    assert_eq!(parse_u32("4294967296"), None);
    assert_eq!(parse_u32(""), None);
    assert_eq!(parse_u32("+"), None);
    assert_eq!(parse_u32("1 2"), None);
}

#[test]
fn decimal_parser_and_order() {
    assert_eq!(parse_decimal("-12.50"), Some(dec(true, 1250, 2)));
    assert_eq!(parse_decimal(".5"), Some(dec(false, 5, 1)));
    assert_eq!(parse_decimal("3."), Some(dec(false, 3, 0)));
    assert_eq!(parse_decimal("."), None);
    assert_eq!(parse_decimal("1.2.3"), None);
    assert!(decimal_le(dec(false, 5, 1), dec(false, 50, 2)));
    assert!(decimal_le(dec(true, 0, 0), dec(false, 0, 3)));
    assert!(!decimal_le(dec(false, 1, 0), dec(true, 1, 0)));
}

#[test]
fn text_helpers() {
    assert_eq!(split_words("  0   100 "), vec!["0".to_string(), "100".to_string()]);
    assert_eq!(trim_text(" \t a b \n"), "a b".to_string());
    assert_eq!(split_at_colon("1: One:x"), Some(("1".to_string(), " One:x".to_string())));
    assert_eq!(split_at_colon("none"), None);
}

const DOC: &str = r#"<?xml version="1.0"?>
<paramfile>
  <parameters name="ArduCopter">
    <param name="ArduCopter:FOO" humanName="Foo &amp; co" documentation="Sets foo" user="Advanced">
      <field name="Range" Range="0 100" Increment="0.5" Units="m"></field>
    </param>
    <param name="Rover:BAR" humanName="Bar"></param>
    <param name="ArduCopter:MODE" humanName="Mode">
      <values a="0: Stabilize" b="1:Acro" c="bad" d="x:Skip"></values>
    </param>
    <param name="ArduCopter:MASK" humanName="Mask">
      <bitmask a="0:Roll" b="2:Yaw"></bitmask>
    </param>
    <param name="ArduCopter:PLAIN" humanName="Plain"></param>
  </parameters>
</paramfile>
"#;

#[test]
fn parse_keeps_namespace_and_strips_prefix() {
    let cat = parse_parameters(DOC).ok().unwrap();
    assert_eq!(cat.len(), 4);
    assert!(cat.get("FOO").is_some());
    assert!(cat.get("BAR").is_none());
    assert!(cat.get("Rover:BAR").is_none());
    assert!(cat.get("ArduCopter:FOO").is_none());
}

#[test]
fn parse_reads_range_field() {
    let cat = parse_parameters(DOC).ok().unwrap();
    let foo = cat.get("FOO").unwrap();
    assert_eq!(foo.human_name, "Foo & co");
    assert_eq!(foo.documentation, "Sets foo");
    assert_eq!(foo.user, "Advanced");
    match &foo.field_type {
        FieldType::Range { min, max, increment, units } => {
            assert_eq!(*min, dec(false, 0, 0));
            assert_eq!(*max, dec(false, 100, 0));
            assert_eq!(*increment, Some(dec(false, 5, 1)));
            assert_eq!(units.as_deref(), Some("m"));
        }
        _ => panic!("expected a range"),
    }
    assert!(foo.validate_value("100"));
    assert!(!foo.validate_value("101"));
}

#[test]
fn parse_reads_values_and_bitmask() {
    let cat = parse_parameters(DOC).ok().unwrap();
    match &cat.get("MODE").unwrap().field_type {
        FieldType::Values(v) => {
            assert_eq!(v.len(), 2);
            assert_eq!((v[0].code, v[0].name.as_str()), (0, "Stabilize"));
            assert_eq!((v[1].code, v[1].name.as_str()), (1, "Acro"));
        }
        _ => panic!("expected values"),
    }
    match &cat.get("MASK").unwrap().field_type {
        FieldType::Bitmask(f) => {
            assert_eq!(f.len(), 2);
            assert_eq!((f[1].code, f[1].name.as_str()), (2, "Yaw"));
        }
        _ => panic!("expected a bitmask"),
    }
    assert!(matches!(cat.get("PLAIN").unwrap().field_type, FieldType::Unconstrained));
}

#[test]
fn parse_fails_on_malformed_markup() {
    let r = parse_parameters("<param name=\"ArduCopter:X\"></wrong>");
    assert!(matches!(r, Err(CatalogError::Malformed { .. })));
}

#[test]
fn parse_fails_on_bad_escape_in_param() {
    let r = parse_parameters("<param name=\"ArduCopter:X\" humanName=\"a &bogus; b\"></param>");
    assert!(matches!(r, Err(CatalogError::Malformed { .. })));
}

#[test]
fn tokens_after_eof_are_ignored_and_later_duplicates_replace() {
    let start = |n: &str| XmlToken::Start {
        name: "param".to_string(),
        attrs: format!(" name=\"ArduCopter:{}\" user=\"{}\"", n, n.to_lowercase()),
    };
    let end = || XmlToken::End { name: "param".to_string() };
    let toks = vec![start("A"), end(), start("B"), end(), XmlToken::Other, XmlToken::Eof, start("C"), end()];
    let cat = catalog_from_tokens(&toks).ok().unwrap();
    assert_eq!(cat.len(), 2);
    assert!(cat.get("C").is_none());
    assert_eq!(cat.get("B").unwrap().user, "b");
}

#[test]
fn info_views_match_catalog() {
    let cat = parse_parameters(DOC).ok().unwrap();
    let state = MavConnState::new(cat);
    let info = get_parameter_info(&state, "FOO".to_string()).unwrap();
    assert_eq!(info.name, "FOO");
    assert_eq!(info.human_name, "Foo & co");
    assert!(matches!(info.field_type, ParameterFieldInfo::Range { .. }));
    assert!(get_parameter_info(&state, "foo".to_string()).is_none());
    let all = get_all_parameters(&state);
    let names: Vec<&str> = all.iter().map(|i| i.name.as_str()).collect();
    assert_eq!(names, vec!["FOO", "MASK", "MODE", "PLAIN"]);
}

#[test]
fn get_all_parameters_twice_is_identical() {
    let state = MavConnState::new(parse_parameters(DOC).ok().unwrap());
    let a = get_all_parameters(&state);
    let b = get_all_parameters(&state);
    assert_eq!(a.len(), b.len());
    for (x, y) in a.iter().zip(b.iter()) {
        assert_eq!(x.name, y.name);
        assert_eq!(x.human_name, y.human_name);
        assert_eq!(x.documentation, y.documentation);
        assert_eq!(x.user, y.user);
    }
}

#[test]
fn catalog_insert_replaces_in_place() {
    let mut cat = Catalog::new();
    cat.insert("A".to_string(), param(FieldType::Unconstrained));
    cat.insert("B".to_string(), param(FieldType::Unconstrained));
    cat.insert("A".to_string(), param(range(0, 1)));
    assert_eq!(cat.len(), 2);
    assert_eq!(cat.entry(0).name, "A");
    assert!(matches!(cat.entry(0).parameter.field_type, FieldType::Range { .. }));
}

#[test]
fn decimal_parser_reads_exponents() {
    assert_eq!(parse_decimal("1e1"), Some(dec(false, 10, 0)));
    assert_eq!(parse_decimal("2.5E-3"), Some(dec(false, 25, 4)));
    assert_eq!(parse_decimal("-1e+2"), Some(dec(true, 100, 0)));
    assert_eq!(parse_decimal("0e999"), Some(dec(false, 0, 0)));
    assert_eq!(parse_decimal("1e"), None);
    assert_eq!(parse_decimal("1e+-2"), None);
    assert_eq!(parse_decimal("1e19"), None);
    assert_eq!(parse_decimal("inf"), None);
    assert_eq!(parse_decimal("NaN"), None);
}

#[test]
fn range_accepts_exponent_form() {
    let p = param(range(0, 100));
    assert!(p.validate_value("1e1"));
    assert!(p.validate_value("1E2"));
    assert!(!p.validate_value("1.01e2"));
    assert!(!p.validate_value("NaN"));
}

#[test]
fn dropped_entry_does_not_pass_its_field_type_on() {
    let doc = "<params><param name='Rover:BAR'><values a='1:A'></values></param><param name='ArduCopter:FOO'></param></params>";
    let cat = parse_parameters(doc).ok().unwrap();
    assert_eq!(cat.len(), 1);
    assert!(matches!(cat.get("FOO").unwrap().field_type, FieldType::Unconstrained));
}

#[test]
fn malformed_markup_error_carries_reader_message() {
    match parse_parameters("<param name=\"ArduCopter:X\"></wrong>") {
        Err(CatalogError::Malformed { message }) => {
            assert!(!message.is_empty());
            assert_ne!(message, "attribute value could not be read");
        }
        Ok(_) => panic!("expected an error"),
    }
}

#[test]
fn catalog_keeps_names_sorted() {
    let mut cat = Catalog::new();
    for n in ["b", "B", "a", "ab", "", "a"] {
        cat.insert(n.to_string(), param(FieldType::Unconstrained));
    }
    let names: Vec<String> = (0..cat.len()).map(|i| cat.entry(i).name.clone()).collect();
    assert_eq!(names, vec!["", "B", "a", "ab", "b"]);
    let state = MavConnState::new(cat);
    let all: Vec<String> = get_all_parameters(&state).into_iter().map(|i| i.name).collect();
    assert_eq!(all, names);
}
