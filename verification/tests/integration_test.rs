use sleigh_preprocessor::{Definitions, FileTable, SleighPreprocessor, SourceLines};

fn run_defs(pairs: &[(&str, &str)]) -> Definitions {
    let mut d = Definitions::new();
    for (k, v) in pairs {
        d.insert(k.as_bytes().to_vec(), v.as_bytes().to_vec());
    }
    d
}

fn run_table(files: &[(&str, &str)]) -> FileTable {
    let mut t = FileTable::new();
    for (p, c) in files {
        t.insert(
            p.as_bytes().to_vec(),
            SourceLines::from_text(&c.as_bytes().to_vec()),
        );
    }
    t
}

fn common(
    files: &[(&str, &str)],
    defs: &[(&str, &str)],
    root: &str,
    compatible: bool,
) -> (Vec<u8>, SleighPreprocessor) {
    let table = run_table(files);
    let mut preprocessor =
        SleighPreprocessor::new(run_defs(defs), root.as_bytes().to_vec(), compatible);
    let mut writer = Vec::new();
    preprocessor.process(&table, &mut writer).unwrap();
    (writer, preprocessor)
}

#[test]
fn simple() {
    let (writer, _) = common(
        &[("simple.input", "hello\nworld\n")],
        &[("REPLACE", "includes")],
        "simple.input",
        true,
    );
    assert_eq!(writer, b"hello\nworld\n".to_vec());
}

#[test]
fn empty() {
    let (writer, _) = common(
        &[("empty.input", "")],
        &[("REPLACE", "includes")],
        "empty.input",
        true,
    );
    assert_eq!(writer, b"".to_vec());
}

#[test]
fn a_simpledefine() {
    let (writer, _) = common(
        &[("a_simpledefine.input", "@define FOO \"bar\"\n$(FOO)baz\n")],
        &[],
        "a_simpledefine.input",
        true,
    );
    assert_eq!(writer, b"#@define FOO \"bar\"\nbarbaz\n".to_vec());
}

#[test]
fn regression_oneline_define() {
    let (writer, mut preprocessor) = common(
        &[("oneline_define.input", "@define A 1\n")],
        &[],
        "oneline_define.input",
        true,
    );
    assert_eq!(writer, b"#@define A 1\n".to_vec());
    let defs = preprocessor.take_definitions();
    assert_eq!(defs.get(&b"A".to_vec()), Some(&b"1".to_vec()));
}

#[test]
fn nestedif() {
    let input = "@ifdef FOO\na\n@ifdef BAR\nb\n@endif\nc\n@endif\nd\n";
    let (writer, _) = common(
        &[("nestedif.input", input)],
        &[("FOO", "")],
        "nestedif.input",
        true,
    );
    assert_eq!(
        writer,
        b"#@ifdef FOO\na\n#@ifdef BAR\n#b\n#@endif\nc\n#@endif\nd\n".to_vec()
    );
}

#[test]
fn a_nestedif2() {
    let input = "@ifdef FOO\na\n@else\nb\n@endif\n";
    let (writer, _) = common(&[("a_nestedif2.input", input)], &[], "a_nestedif2.input", true);
    assert_eq!(writer, b"#@ifdef FOO\n#a\n#@else\nb\n#@endif\n".to_vec());
}

#[test]
fn expression() {
    let input = "@if defined(A) || defined(B)\nyes\n@else\nno\n@endif\n";
    let (writer, _) = common(
        &[("expression.input", input)],
        &[("A", "")],
        "expression.input",
        true,
    );
    assert_eq!(
        writer,
        b"#@if defined(A) || defined(B)\nyes\n#@else\n#no\n#@endif\n".to_vec()
    );
}

#[test]
fn include_test() {
    let (writer, mut preprocessor) = common(
        &[
            ("dir/main.input", "line1\n@include \"$(REPLACE).sinc\"\nline3\n"),
            ("dir/inc.sinc", "first\nsecond\n"),
        ],
        &[("REPLACE", "inc")],
        "dir/main.input",
        true,
    );
    assert_eq!(writer, b"line1\nfirst\nsecond\nline3\n".to_vec());
    let locations = preprocessor.take_locations();
    assert_eq!(locations.len(), 3);
    assert_eq!(locations[0].filepath(), &b"dir/main.input".to_vec());
    assert_eq!(locations[0].local_line_num(), 1);
    assert_eq!(locations[0].global_line_num(), 1);
    assert_eq!(locations[1].filepath(), &b"dir/inc.sinc".to_vec());
    assert_eq!(locations[1].local_line_num(), 1);
    assert_eq!(locations[1].global_line_num(), 2);
    assert_eq!(locations[2].filepath(), &b"dir/main.input".to_vec());
    assert_eq!(locations[2].local_line_num(), 3);
    assert_eq!(locations[2].global_line_num(), 4);
}

#[test]
fn longertest() {
    let input = "@define X \"1\"\n@ifndef X\nhidden\n@endif\n@undef X\n@ifndef X\nshown\n@endif\n";
    let (writer, _) = common(&[("longertest.input", input)], &[], "longertest.input", true);
    assert_eq!(
        writer,
        b"#@define X \"1\"\n#@ifndef X\n#hidden\n#@endif\n#@undef X\n#@ifndef X\nshown\n#@endif\n"
            .to_vec()
    );
}

#[test]
fn z_complex() {
    let input = "@define V \"2\"\n@if V == \"1\"\none\n@elif V == \"2\"\ntwo\n@else\nthree\n@endif\n";
    let (writer, _) = common(&[("z.slaspec", input)], &[], "z.slaspec", false);
    assert_eq!(
        writer,
        b"\x08z.slaspec###1\x08#@define V \"2\"\n#@if V == \"1\"\n#one\n#@elif V == \"2\"\ntwo\n#@else\n#three\n#@endif\n"
            .to_vec()
    );
}
