use ooxmlsdk_build::models::{
    OpenXmlSchemaTypeAttribute, OpenXmlSchemaTypeAttributeValidator,
    OpenXmlSchemaTypeAttributeValidatorArgument,
};
use ooxmlsdk_build::common::SdkError;
use ooxmlsdk_build::document::{read_number, Scalar};
use ooxmlsdk_build::numbers::{check_decimal, read_integer, write_integer};
use ooxmlsdk_build::open_xml_schema::NumberKind;
use ooxmlsdk_build::utils::BuildError;
use ooxmlsdk_build::validator::{
    do_rules_pass, does_check_pass, gen_attr_validator_stmt_list, read_signed, read_unsigned,
    validate_attribute, Check, Value,
};

fn argument(name: &str, value: &str) -> OpenXmlSchemaTypeAttributeValidatorArgument {
    OpenXmlSchemaTypeAttributeValidatorArgument {
        name: name.to_string(),
        value: value.to_string(),
        ..Default::default()
    }
}

fn validator(name: &str, arguments: Vec<OpenXmlSchemaTypeAttributeValidatorArgument>) -> OpenXmlSchemaTypeAttributeValidator {
    OpenXmlSchemaTypeAttributeValidator { name: name.to_string(), arguments, ..Default::default() }
}

fn ranged() -> OpenXmlSchemaTypeAttribute {
    OpenXmlSchemaTypeAttribute {
        q_name: "w:val".to_string(),
        value_type: "Int32Value".to_string(),
        validators: vec![
            validator("NumberValidator", vec![argument("MinInclusive", "0")]),
            validator("NumberValidator", vec![argument("MaxInclusive", "10")]),
        ],
        ..Default::default()
    }
}

#[test]
fn integers_are_read() {
    assert_eq!(read_integer("0", true, -10, 10), Some(0));
    assert_eq!(read_integer("-7", true, -10, 10), Some(-7));
    assert_eq!(read_integer("+7", false, 0, 10), Some(7));
    assert_eq!(read_integer("007", false, 0, 10), Some(7));
    assert_eq!(read_integer("11", true, -10, 10), None);
    assert_eq!(read_integer("-11", true, -10, 10), None);
    assert_eq!(read_integer("-0", false, 0, 10), None);
    assert_eq!(read_integer("", true, -10, 10), None);
    assert_eq!(read_integer("-", true, -10, 10), None);
    assert_eq!(read_integer("+", true, -10, 10), None);
    assert_eq!(read_integer("1 ", true, -10, 10), None);
    assert_eq!(read_integer("1.0", true, -10, 10), None);
    assert_eq!(read_integer("٣", true, -10, 10), None);
    assert_eq!(read_signed("-9223372036854775808"), Some(i64::MIN));
    assert_eq!(read_signed("9223372036854775807"), Some(i64::MAX));
    assert_eq!(read_signed("9223372036854775808"), None);
    assert_eq!(read_unsigned("18446744073709551615"), Some(u64::MAX));
    assert_eq!(read_unsigned("18446744073709551616"), None);
    assert_eq!(read_unsigned("99999999999999999999999999999999999999999999"), None);
    assert_eq!(read_unsigned("-1"), None);
}

#[test]
fn integers_are_written() {
    assert_eq!(write_integer(0), "0");
    assert_eq!(write_integer(7), "7");
    assert_eq!(write_integer(-120), "-120");
    assert_eq!(write_integer(18446744073709551615), "18446744073709551615");
    assert_eq!(write_integer(-9223372036854775808), "-9223372036854775808");
}

#[test]
fn two_range_rules_are_alternatives() {
    let v = gen_attr_validator_stmt_list(&ranged()).unwrap();
    assert!(!v.required);
    assert_eq!(v.rules, vec![vec![Check::MinInclusive(0)], vec![Check::MaxInclusive(10)]]);
    assert!(validate_attribute(&v, &Some(Value::Number(-5))));
    assert!(validate_attribute(&v, &Some(Value::Number(5))));
    assert!(validate_attribute(&v, &Some(Value::Number(50))));
    assert!(validate_attribute(&v, &None));
}

#[test]
fn the_bounds_of_one_rule_hold_together() {
    let mut a = ranged();
    a.validators = vec![validator(
        "NumberValidator",
        vec![argument("MinInclusive", "0"), argument("MaxInclusive", "10"), argument("Other", "x")],
    )];
    let v = gen_attr_validator_stmt_list(&a).unwrap();
    assert_eq!(v.rules, vec![vec![Check::MinInclusive(0), Check::MaxInclusive(10)]]);
    assert!(!validate_attribute(&v, &Some(Value::Number(-5))));
    assert!(validate_attribute(&v, &Some(Value::Number(0))));
    assert!(validate_attribute(&v, &Some(Value::Number(10))));
    assert!(!validate_attribute(&v, &Some(Value::Number(11))));
    assert!(validate_attribute(&v, &Some(Value::Text("7".to_string()))));
    assert!(!validate_attribute(&v, &Some(Value::Text("seven".to_string()))));
    assert!(validate_attribute(&v, &Some(Value::Other)));
}

#[test]
fn a_required_attribute_must_be_there() {
    let mut a = ranged();
    a.validators.push(validator("RequiredValidator", vec![]));
    let v = gen_attr_validator_stmt_list(&a).unwrap();
    assert!(v.required);
    assert_eq!(v.rules.len(), 2);
    assert!(!validate_attribute(&v, &None));
    assert!(validate_attribute(&v, &Some(Value::Number(3))));
}

#[test]
fn lengths_of_texts() {
    let a = OpenXmlSchemaTypeAttribute {
        value_type: "StringValue".to_string(),
        validators: vec![validator(
            "StringValidator",
            vec![argument("MinLength", "2"), argument("MaxLength", "4")],
        )],
        ..Default::default()
    };
    let v = gen_attr_validator_stmt_list(&a).unwrap();
    assert_eq!(v.rules, vec![vec![Check::MinLength(2), Check::MaxLength(4)]]);
    assert!(!validate_attribute(&v, &Some(Value::Text("a".to_string()))));
    assert!(validate_attribute(&v, &Some(Value::Text("ab".to_string()))));
    assert!(validate_attribute(&v, &Some(Value::Text("abcd".to_string()))));
    assert!(!validate_attribute(&v, &Some(Value::Text("abcde".to_string()))));
    assert!(!validate_attribute(&v, &Some(Value::Text("ééé".to_string()))));
}

#[test]
fn a_minimal_length_of_nothing_always_passes_and_one_asks_for_a_text() {
    assert!(does_check_pass(&Check::MinLength(0), &Value::Text("".to_string())));
    assert!(!does_check_pass(&Check::MinLength(1), &Value::Text("".to_string())));
    assert!(does_check_pass(&Check::MinLength(1), &Value::Text("x".to_string())));
    assert!(does_check_pass(&Check::MinLength(5), &Value::Number(1)));
    assert!(do_rules_pass(&vec![], &Value::Text("".to_string())));
    assert!(!do_rules_pass(&vec![vec![Check::MinLength(1)]], &Value::Text("".to_string())));
}

#[test]
fn lists_and_enumerations_have_no_rules() {
    let mut a = ranged();
    a.value_type = "ListValue<Int32Value>".to_string();
    assert!(gen_attr_validator_stmt_list(&a).unwrap().rules.is_empty());
    a.value_type = "EnumValue<A.B>".to_string();
    assert!(gen_attr_validator_stmt_list(&a).unwrap().rules.is_empty());
}

#[test]
fn a_bound_that_is_no_number_is_an_error() {
    let mut a = ranged();
    a.validators[1].arguments[0].value = "ten".to_string();
    match gen_attr_validator_stmt_list(&a) {
        Err(BuildError::SynError(text)) => assert_eq!(text, "ten"),
        other => panic!("{other:?}"),
    }
}

#[test]
fn validators_of_other_names_give_no_rule() {
    let mut a = ranged();
    a.validators = vec![
        validator("PatternValidator", vec![argument("MinInclusive", "x")]),
        validator("NumberValidator", vec![argument("Step", "x")]),
    ];
    assert!(gen_attr_validator_stmt_list(&a).unwrap().rules.is_empty());
}

#[test]
fn a_number_with_a_fraction_is_one_that_the_language_reads() {
    for text in [
        "0", "1", "-1", "+1", "1.5", "-1.5", "1.", ".5", "-.5", "1e5", "1E5", "1e+5", "1.5e-3",
        ".5e1", "5.e1", "inf", "-inf", "+INF", "Infinity", "-infinity", "nan", "NaN", "", ".",
        "+", "-", "e5", "1e", "1e+", "1.5.2", "1 ", " 1", "1,5", "0x10", "infin", "na", "--1",
        "1e5.5", "١",
    ] {
        assert_eq!(check_decimal(text), text.parse::<f64>().is_ok(), "{text:?}");
    }
}

#[test]
fn an_unreadable_number_with_a_fraction_is_an_error() {
    assert!(matches!(
        read_number(NumberKind::Double, "2.5e3".to_string()),
        Ok(Scalar::Decimal(t)) if t == "2.5e3"
    ));
    match read_number(NumberKind::Single, "two".to_string()) {
        Err(SdkError::ParseFloatError(t)) => assert_eq!(t, "two"),
        other => panic!("{other:?}"),
    }
}
