use sleigh_preprocessor::boolean_expression::parse_boolean_expression;
use sleigh_preprocessor::conditional_helper::ConditionalHelper;
use sleigh_preprocessor::errors::{Error, PreprocessorError};
use sleigh_preprocessor::location::Location;
use sleigh_preprocessor::{Definitions, FileTable, SleighPreprocessor, SourceLines};

fn unit_defs(pairs: &[(&str, &str)]) -> Definitions {
    let mut d = Definitions::new();
    for (k, v) in pairs {
        d.insert(k.as_bytes().to_vec(), v.as_bytes().to_vec());
    }
    d
}

fn unit_run(
    files: &[(&str, &str)],
    defs: &[(&str, &str)],
    root: &str,
    compatible: bool,
) -> Result<Vec<u8>, Error> {
    let mut table = FileTable::new();
    for (p, c) in files {
        table.insert(
            p.as_bytes().to_vec(),
            SourceLines::from_text(&c.as_bytes().to_vec()),
        );
    }
    let mut preprocessor =
        SleighPreprocessor::new(unit_defs(defs), root.as_bytes().to_vec(), compatible);
    let mut writer = Vec::new();
    preprocessor.process(&table, &mut writer)?;
    Ok(writer)
}

#[test]
fn split_lines_strips_line_endings() {
    let s = SourceLines::from_text(&b"a\r\nb\nc".to_vec());
    assert_eq!(s.lines, vec![b"a".to_vec(), b"b".to_vec(), b"c".to_vec()]);
    let t = SourceLines::from_text(&b"a\n".to_vec());
    assert_eq!(t.lines, vec![b"a".to_vec()]);
    let e = SourceLines::from_text(&b"".to_vec());
    assert_eq!(e.lines, Vec::<Vec<u8>>::new());
}

#[test]
fn definition_table_inserts_overwrites_and_removes() {
    let mut d = Definitions::new();
    assert!(!d.contains_key(&b"K".to_vec()));
    d.insert(b"K".to_vec(), b"1".to_vec());
    assert!(d.contains_key(&b"K".to_vec()));
    assert_eq!(d.get(&b"K".to_vec()), Some(&b"1".to_vec()));
    d.insert(b"K".to_vec(), b"2".to_vec());
    assert_eq!(d.get(&b"K".to_vec()), Some(&b"2".to_vec()));
    d.remove(&b"K".to_vec());
    assert_eq!(d.get(&b"K".to_vec()), None);
    // removing an absent key is not an error
    d.remove(&b"K".to_vec());
}

#[test]
fn location_reports_its_fields() {
    let l = Location::new(b"dir/file.sinc".to_vec(), 3, 7);
    assert_eq!(l.filepath(), &b"dir/file.sinc".to_vec());
    assert_eq!(l.local_line_num(), 3);
    assert_eq!(l.global_line_num(), 7);
}

#[test]
fn conditional_helper_tracks_its_flags() {
    let mut c = ConditionalHelper::new(true, false, false, true);
    assert!(c.in_if());
    assert!(!c.saw_else());
    c.set_saw_else(true);
    assert!(c.saw_else());
    assert!(!c.handled());
    c.set_handled(true);
    assert!(c.handled());
    assert!(c.copy());
    c.set_copy(false);
    assert!(!c.copy());
}

#[test]
fn error_display_renders_each_kind() {
    let e = Error::NotDefined(b"X".to_vec());
    assert_eq!(e.display_bytes(), b"Identifier \"X\" not defined".to_vec());
    let p = PreprocessorError::new(b"boom".to_vec(), b"f.input".to_vec(), 1, 2, b"@oops".to_vec());
    assert_eq!(p.display_bytes(), b"boom at f.input:1(2): @oops".to_vec());
    let w = Error::Preprocessor(p);
    assert_eq!(
        w.display_bytes(),
        b"Preprocessor error: boom at f.input:1(2): @oops".to_vec()
    );
    assert_eq!(
        Error::Parsing(b"m".to_vec()).display_bytes(),
        b"Parsing error: m".to_vec()
    );
    assert_eq!(
        Error::Io(b"p.input".to_vec()).display_bytes(),
        b"IO error: p.input".to_vec()
    );
    let wide = PreprocessorError::new(b"m".to_vec(), b"f".to_vec(), 12, 30457, b"l".to_vec());
    assert_eq!(wide.display_bytes(), b"m at f:12(30457): l".to_vec());
}

#[test]
fn io_errors_compare_equal_regardless_of_payload() {
    assert_eq!(Error::Io(b"a".to_vec()), Error::Io(b"b".to_vec()));
    assert_ne!(Error::Io(b"a".to_vec()), Error::Parsing(b"a".to_vec()));
    assert_ne!(
        Error::NotDefined(b"a".to_vec()),
        Error::NotDefined(b"b".to_vec())
    );
}

#[test]
fn missing_root_file_is_an_io_error() {
    let r = unit_run(&[], &[], "nope.input", true);
    match r {
        Err(Error::Io(p)) => assert_eq!(p, b"nope.input".to_vec()),
        other => panic!("expected an I/O error, got {:?}", other),
    }
}

#[test]
fn unrecognized_directive_is_fatal() {
    let r = unit_run(&[("u.input", "@bogus\n")], &[], "u.input", true);
    match r {
        Err(Error::Preprocessor(e)) => {
            assert_eq!(e.message(), &b"unrecognized preprocessor directive".to_vec());
            assert_eq!(e.line(), &b"@bogus".to_vec());
        }
        other => panic!("expected a preprocessor error, got {:?}", other),
    }
}

#[test]
fn elif_outside_if_is_fatal() {
    let r = unit_run(&[("u.input", "@elif defined(x)\n")], &[], "u.input", true);
    match r {
        Err(Error::Preprocessor(e)) => {
            assert_eq!(e.message(), &b"elif outside of IF* directive".to_vec());
        }
        other => panic!("expected a preprocessor error, got {:?}", other),
    }
}

#[test]
fn duplicate_else_is_fatal() {
    let input = "@ifdef F\n@else\n@else\n@endif\n";
    let r = unit_run(&[("u.input", input)], &[], "u.input", true);
    match r {
        Err(Error::Preprocessor(e)) => {
            assert_eq!(e.message(), &b"duplicate else directive".to_vec());
            assert_eq!(e.line_no(), 3);
        }
        other => panic!("expected a preprocessor error, got {:?}", other),
    }
}

#[test]
fn unknown_variable_is_fatal() {
    let r = unit_run(&[("u.input", "$(NOPE)\n")], &[], "u.input", true);
    match r {
        Err(Error::Preprocessor(e)) => {
            assert_eq!(e.message(), &b"unknown variable: NOPE".to_vec());
            assert_eq!(e.line(), &b"$(NOPE)".to_vec());
        }
        other => panic!("expected a preprocessor error, got {:?}", other),
    }
}

#[test]
fn malformed_expression_is_a_parser_error() {
    let defs = unit_defs(&[]);
    match parse_boolean_expression(&b"&&&".to_vec(), &defs) {
        Err(Error::Parsing(_)) => {}
        other => panic!("expected a parsing error, got {:?}", other),
    }
    let r = unit_run(&[("u.input", "@if &&&\n")], &[], "u.input", true);
    match r {
        Err(Error::Preprocessor(e)) => {
            assert!(e.message().starts_with(b"parser error: Parsing error: "));
        }
        other => panic!("expected a preprocessor error, got {:?}", other),
    }
}

#[test]
fn annotated_mode_brackets_expansions() {
    let writer = unit_run(&[("m.in", "$(A)b\n")], &[("A", "XY")], "m.in", false).unwrap();
    assert_eq!(writer, b"\x08m.in###1\x08\x08$(A)\x08XYb\n".to_vec());
}

#[test]
fn commented_directive_is_never_recognized() {
    // a commented-out @endif raises no error and keeps line parity
    let writer = unit_run(&[("c.input", "  #@endif\nx\n")], &[], "c.input", true).unwrap();
    assert_eq!(writer, b"\nx\n".to_vec());
}

#[test]
fn trailing_comment_is_stripped_from_directives() {
    let input = "@define A \"v\" #note\n$(A)\n";
    let writer = unit_run(&[("t.input", input)], &[], "t.input", true).unwrap();
    assert_eq!(writer, b"#@define A \"v\" #note\nv\n".to_vec());
}

#[test]
fn define_without_value_defines_empty_string() {
    let input = "@ifdef A\npre\n@endif\n@define A\n@ifdef A\npost[$(A)]\n@endif\n";
    let writer = unit_run(&[("d.input", input)], &[], "d.input", true).unwrap();
    assert_eq!(
        writer,
        b"#@ifdef A\n#pre\n#@endif\n#@define A\n#@ifdef A\npost[]\n#@endif\n".to_vec()
    );
}

#[test]
fn include_cycle_hits_the_depth_limit() {
    let r = unit_run(
        &[("a.input", "@include \"a.input\"\n")],
        &[],
        "a.input",
        true,
    );
    match r {
        Err(Error::Preprocessor(e)) => {
            assert_eq!(e.message(), &b"include depth limit exceeded".to_vec());
        }
        other => panic!("expected a preprocessor error, got {:?}", other),
    }
}

#[test]
fn definitions_thread_through_includes() {
    // a definition made inside an included file is visible to the includer
    let files = [
        ("main.input", "@include \"inc.sinc\"\n$(FROM_INC)\n"),
        ("inc.sinc", "@define FROM_INC \"it works\"\n"),
    ];
    let writer = unit_run(&files, &[], "main.input", true).unwrap();
    assert_eq!(writer, b"#@define FROM_INC \"it works\"\nit works\n".to_vec());
}

#[test]
fn current_position_renders_file_line_and_overall() {
    let preprocessor =
        SleighPreprocessor::new(Definitions::new(), b"dir/f.slaspec".to_vec(), true);
    assert_eq!(preprocessor.current_position(), b"f.slaspec:0(0)".to_vec());
}
