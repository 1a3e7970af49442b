use sleigh_preprocessor::boolean_expression::parse_boolean_expression;
use sleigh_preprocessor::errors::Error;
use sleigh_preprocessor::Definitions;

fn bool_defs(pairs: &[(&str, &str)]) -> Definitions {
    let mut d = Definitions::new();
    for (k, v) in pairs {
        d.insert(k.as_bytes().to_vec(), v.as_bytes().to_vec());
    }
    d
}

#[test]
fn eq_or() {
    let input = br#"SH_VERSION == "2" || SH_VERSION == "2A""#.to_vec();
    let definitions = bool_defs(&[("SH_VERSION", "2")]);
    assert!(parse_boolean_expression(&input, &definitions).unwrap());
}

#[test]
fn paren() {
    let input = b"(defined(dsPIC24F) || defined(dsPIC33E)) && defined(dsPIC33C)".to_vec();
    let definitions = bool_defs(&[("dsPIC24F", "")]);
    assert!(!parse_boolean_expression(&input, &definitions).unwrap());
}

#[test]
fn not_defined() {
    let input = br#"(defined(test) || defined(ti)) && PROCESSOR == "PIC_16""#.to_vec();
    let definitions = bool_defs(&[]);
    assert_eq!(
        parse_boolean_expression(&input, &definitions).err().unwrap(),
        Error::NotDefined(b"PROCESSOR".to_vec())
    );
}

#[test]
fn definitions_eq() {
    let input = br#"DATA_ENDIAN == "little""#.to_vec();
    let definitions = bool_defs(&[("DATA_ENDIAN", "little")]);
    assert!(parse_boolean_expression(&input, &definitions).unwrap());
}

#[test]
fn equals() {
    let input = br#""FOO" == "FOO""#.to_vec();
    let definitions = bool_defs(&[]);
    assert!(parse_boolean_expression(&input, &definitions).unwrap());
}

#[test]
fn no_equals() {
    let input = br#""BOO" == "FOO""#.to_vec();
    let definitions = bool_defs(&[]);
    assert!(!parse_boolean_expression(&input, &definitions).unwrap());
}

#[test]
fn definitions_no_eq() {
    let input = br#""BOO" == "FOO""#.to_vec();
    let definitions = bool_defs(&[("BOO", "TEST")]);
    assert!(!parse_boolean_expression(&input, &definitions).unwrap());
}

#[test]
fn more_parens() {
    let input = b"((((FOO == FOO))))".to_vec();
    let definitions = bool_defs(&[("FOO", "FOO")]);
    assert!(parse_boolean_expression(&input, &definitions).unwrap());
}

#[test]
fn not_inv() {
    let input = b"!(FOO != FOO)".to_vec();
    let definitions = bool_defs(&[("FOO", "FOO")]);
    assert!(parse_boolean_expression(&input, &definitions).unwrap());
}

#[test]
fn more_nots() {
    let input = b"!(!(!(FOO == FOO)))".to_vec();
    let definitions = bool_defs(&[("FOO", "FOO")]);
    assert!(!parse_boolean_expression(&input, &definitions).unwrap());
}

#[test]
fn even_more_nots() {
    let input = b"!(!(!(!(FOO == FOO))))".to_vec();
    let definitions = bool_defs(&[("FOO", "FOO")]);
    assert!(parse_boolean_expression(&input, &definitions).unwrap());
}

#[test]
fn complicated() {
    let input = br#"!(A!="A" || B=="B" ^^ (C!="C" || D=="D") && E!="E")"#.to_vec();
    let definitions = bool_defs(&[("A", "A"), ("B", "B"), ("C", "C"), ("D", "D"), ("E", "E")]);
    assert!(!parse_boolean_expression(&input, &definitions).unwrap());
}
