use sleigh_preprocessor::boolean_expression::parse_boolean_expression;
use sleigh_preprocessor::errors::Error;
use sleigh_preprocessor::{Definitions, FileTable, SleighPreprocessor, SourceLines};

fn prop_defs(pairs: &[(&str, &str)]) -> Definitions {
    let mut d = Definitions::new();
    for (k, v) in pairs {
        d.insert(k.as_bytes().to_vec(), v.as_bytes().to_vec());
    }
    d
}

fn prop_table(files: &[(&str, &str)]) -> FileTable {
    let mut t = FileTable::new();
    for (p, c) in files {
        t.insert(
            p.as_bytes().to_vec(),
            SourceLines::from_text(&c.as_bytes().to_vec()),
        );
    }
    t
}

fn prop_run(
    files: &[(&str, &str)],
    defs: &[(&str, &str)],
    root: &str,
    compatible: bool,
) -> Result<Vec<u8>, Error> {
    let table = prop_table(files);
    let mut preprocessor =
        SleighPreprocessor::new(prop_defs(defs), root.as_bytes().to_vec(), compatible);
    let mut writer = Vec::new();
    preprocessor.process(&table, &mut writer)?;
    Ok(writer)
}

fn preprocessor_message(r: Result<Vec<u8>, Error>) -> Vec<u8> {
    match r {
        Err(Error::Preprocessor(e)) => e.message().clone(),
        other => panic!("expected a preprocessor error, got {:?}", other),
    }
}

#[test]
fn stack_returns_to_root_and_extra_endif_fails() {
    // balanced nesting processes cleanly...
    let balanced = "@ifdef A\n@ifdef B\n@endif\n@endif\n";
    assert!(prop_run(&[("b.input", balanced)], &[], "b.input", true).is_ok());
    // ...while one more @endif meets the root frame and always fails
    let extra = "@ifdef A\n@endif\n@endif\n";
    let msg = preprocessor_message(prop_run(&[("e.input", extra)], &[], "e.input", true));
    assert_eq!(msg, b"not in IF* directive".to_vec());
}

#[test]
fn output_line_count_matches_input() {
    let input = "# comment\n@define A \"1\"\n@ifdef A\nbody $(A)\n@else\nother\n@endif\nlast\n";
    let writer = prop_run(&[("p.input", input)], &[], "p.input", true).unwrap();
    let input_lines = input.as_bytes().iter().filter(|b| **b == b'\n').count();
    let output_lines = writer.iter().filter(|b| **b == b'\n').count();
    assert_eq!(output_lines, input_lines);
    assert_eq!(input_lines, 8);
}

#[test]
fn unreached_elif_expression_is_not_evaluated() {
    // Y is undefined; evaluating the @elif expression would fail, but the
    // level is already handled, so the run must succeed.
    let input = "@define X \"1\"\n@if X == \"1\"\na\n@elif Y == \"1\"\nb\n@endif\n";
    let writer = prop_run(&[("p3.input", input)], &[], "p3.input", true).unwrap();
    assert_eq!(
        writer,
        b"#@define X \"1\"\n#@if X == \"1\"\na\n#@elif Y == \"1\"\n#b\n#@endif\n".to_vec()
    );
}

#[test]
fn and_binds_tighter_than_or() {
    let expr = b"defined(a) && defined(b) || defined(c)".to_vec();
    // (a && b) || c: with only c defined the whole is true...
    assert!(parse_boolean_expression(&expr, &prop_defs(&[("c", "")])).unwrap());
    // ...and with only a defined it is false.
    assert!(!parse_boolean_expression(&expr, &prop_defs(&[("a", "")])).unwrap());
}

#[test]
fn or_binds_looser_than_and() {
    let expr = b"defined(a) || defined(b) && defined(c)".to_vec();
    // a || (b && c): with only a defined the whole is true...
    assert!(parse_boolean_expression(&expr, &prop_defs(&[("a", "")])).unwrap());
    // ...and with only b defined it is false.
    assert!(!parse_boolean_expression(&expr, &prop_defs(&[("b", "")])).unwrap());
}

#[test]
fn xor_sits_between_or_and_and() {
    // a ^^ b && c parses as a ^^ (b && c)
    let expr = b"defined(a) ^^ defined(b) && defined(c)".to_vec();
    assert!(parse_boolean_expression(&expr, &prop_defs(&[("a", ""), ("b", "")])).unwrap());
    assert!(
        !parse_boolean_expression(&expr, &prop_defs(&[("a", ""), ("b", ""), ("c", "")])).unwrap()
    );
}

#[test]
fn compatible_substitution_is_idempotent_without_patterns() {
    // first run substitutes; its output holds no $(...) pattern left, so a
    // second pass over that text leaves it unchanged
    let defs = &[("A", "va1")];
    let first = prop_run(&[("s.input", "x$(A)y\n")], defs, "s.input", true).unwrap();
    assert_eq!(first, b"xva1y\n".to_vec());
    let first_text = String::from_utf8(first.clone()).unwrap();
    let second = prop_run(&[("s.input", first_text.as_str())], defs, "s.input", true).unwrap();
    assert_eq!(second, first);
}

#[test]
fn scenario_eq_or_evaluates_true() {
    let expr = br#"SH_VERSION == "2" || SH_VERSION == "2A""#.to_vec();
    let defs = prop_defs(&[("SH_VERSION", "2")]);
    assert_eq!(parse_boolean_expression(&expr, &defs), Ok(true));
}

#[test]
fn scenario_undefined_term_names_the_identifier() {
    let expr = br#"(defined(test) || defined(ti)) && PROCESSOR == "PIC_16""#.to_vec();
    let defs = prop_defs(&[]);
    assert_eq!(
        parse_boolean_expression(&expr, &defs),
        Err(Error::NotDefined(b"PROCESSOR".to_vec()))
    );
}

#[test]
fn scenario_else_branch_of_undefined_name() {
    let input = "@ifdef FOO\nbody $(X)\n@else\nbody2 $(Y)\n@endif\n";
    let writer = prop_run(&[("p8.input", input)], &[("Y", "yv")], "p8.input", true).unwrap();
    assert_eq!(
        writer,
        b"#@ifdef FOO\n#body $(X)\n#@else\nbody2 yv\n#@endif\n".to_vec()
    );
}

#[test]
fn scenario_missing_include_names_resolved_path() {
    let input = "@include \"missing.sinc\"\n";
    let r = prop_run(&[("dir/main.input", input)], &[], "dir/main.input", true);
    match r {
        Err(Error::Preprocessor(e)) => {
            assert_eq!(
                e.message(),
                &b"included file \"dir/missing.sinc\" does not exist".to_vec()
            );
            assert_eq!(e.line(), &b"@include \"missing.sinc\"".to_vec());
            assert_eq!(e.line_no(), 1);
        }
        other => panic!("expected a preprocessor error, got {:?}", other),
    }
}
