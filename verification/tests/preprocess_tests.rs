use reaper_theme_packer::color::{Color, RGB};
use reaper_theme_packer::parser::{parse, parse_reapertheme, RtconfigContent};
use reaper_theme_packer::preprocess::{
    inclusion_kind, serialize_value, splice_config_value, FeedOutcome, GlobEntry, InclusionKind,
    PreprocessError, ScriptValue, SerializeError, ThemeBuilder, Warning,
};

fn feed_done(builder: &mut ThemeBuilder, content: RtconfigContent) {
    match builder.feed(&content, b".") {
        FeedOutcome::Done => {}
        other => panic!("expected the item to be handled in place, got {:?}", outcome_name(&other)),
    }
}

fn outcome_name(o: &FeedOutcome) -> &'static str {
    match o {
        FeedOutcome::Done => "done",
        FeedOutcome::Eval { .. } => "eval",
        FeedOutcome::Import { .. } => "import",
    }
}

fn eval_expr(builder: &mut ThemeBuilder, content: RtconfigContent, value: ScriptValue) {
    match builder.feed(&content, b".") {
        FeedOutcome::Eval { .. } => builder.apply_eval_rtconfig(&value).unwrap(),
        other => panic!("expected an evaluation request, got {:?}", outcome_name(&other)),
    }
}

fn expr(code: &[u8]) -> RtconfigContent {
    RtconfigContent::Expression { code: code.to_vec(), offset: 0, line: 1, column: 3 }
}

#[test]
fn preprocess_test_01() {
    let mut builder = ThemeBuilder::new();

    feed_done(&mut builder, RtconfigContent::Code(b"set test [1 2 3 4]".to_vec()));
    feed_done(&mut builder, RtconfigContent::Newline);
    feed_done(&mut builder, RtconfigContent::Code(b"set test [1 2 3 4]".to_vec()));

    feed_done(&mut builder, RtconfigContent::Newline);
    eval_expr(&mut builder, expr(b"1 + 5"), ScriptValue::Int(6));
    feed_done(&mut builder, RtconfigContent::Newline);
    eval_expr(
        &mut builder,
        expr(b"rgb(1, 2, 3)"),
        ScriptValue::ColorValue(Color::RGB(RGB(1, 2, 3))),
    );
    feed_done(&mut builder, RtconfigContent::Newline);

    assert_eq!(
        builder.rtconfig(),
        b"set test [1 2 3 4]\nset test [1 2 3 4]\n6\n66051\n"
    );
}

#[test]
fn expression_arr_expands_to_literal() {
    // #{ rgb(1,2,3):arr() } embedded in descriptor code expands to "1 2 3":
    // the engine evaluates the span to the string the arr() method renders
    let items = parse(b"x#{ rgb(1,2,3):arr() }y\n").unwrap();
    let mut builder = ThemeBuilder::new();
    for item in items {
        match builder.feed(&item, b".") {
            FeedOutcome::Done => {}
            FeedOutcome::Eval { code, .. } => {
                assert_eq!(code, b" rgb(1,2,3):arr() ".to_vec());
                let rendered = RGB(1, 2, 3).arr();
                builder.apply_eval_rtconfig(&ScriptValue::Str(rendered)).unwrap();
            }
            FeedOutcome::Import { .. } => panic!("no inclusion in this descriptor"),
        }
    }
    assert_eq!(builder.rtconfig(), b"x1 2 3y\n");
}

#[test]
fn directive_line_leaves_no_trace() {
    // a directive and its line terminator are invisible in the output
    let items = parse(b"a\n#resource \"./no_such_dir_here/*.png\"\nb\n").unwrap();
    let mut builder = ThemeBuilder::new();
    for item in items {
        match builder.feed(&item, b".") {
            FeedOutcome::Done => {}
            other => panic!("unexpected outcome {:?}", outcome_name(&other)),
        }
    }
    assert_eq!(builder.rtconfig(), b"a\nb\n");
}

#[test]
fn unknown_directive_becomes_comment() {
    let items = parse(b"#layout two 0.5\ncode\n").unwrap();
    let mut builder = ThemeBuilder::new();
    for item in items {
        feed_done(&mut builder, item);
    }
    assert_eq!(builder.rtconfig(), b"; #layout two 0.5\ncode\n");
}

#[test]
fn inclusion_outcome_carries_kind() {
    let items = parse(b"#include \"colors.reapertheme\"\n").unwrap();
    let mut builder = ThemeBuilder::new();
    let mut seen = false;
    for item in items {
        match builder.feed(&item, b".") {
            FeedOutcome::Import { path, kind } => {
                assert_eq!(path, b"colors.reapertheme".to_vec());
                assert_eq!(kind, InclusionKind::ReaperTheme);
                seen = true;
            }
            FeedOutcome::Done => {}
            other => panic!("unexpected outcome {:?}", outcome_name(&other)),
        }
    }
    assert!(seen);
    // a configuration inclusion's line leaves no trace, terminator included
    assert_eq!(builder.rtconfig(), b"");
}

#[test]
fn nested_descriptor_inclusion_keeps_newlines() {
    // the driver protocol: on a descriptor inclusion, the included file's
    // items are fed into the same builder before the rest of the including
    // file; the included content and the include line's terminator stay
    // byte-intact
    let parent = parse(b"a\n#include \"inner.rtconfig.txt\"\nb\n").unwrap();
    let inner = parse(b"abc\ndef\n").unwrap();
    let mut builder = ThemeBuilder::new();
    for item in parent {
        match builder.feed(&item, b".") {
            FeedOutcome::Done => {}
            FeedOutcome::Import { kind, .. } => {
                assert_eq!(kind, InclusionKind::Rtconfig);
                for inner_item in &inner {
                    match builder.feed(inner_item, b".") {
                        FeedOutcome::Done => {}
                        other => panic!("unexpected outcome {:?}", outcome_name(&other)),
                    }
                }
            }
            other => panic!("unexpected outcome {:?}", outcome_name(&other)),
        }
    }
    assert_eq!(builder.rtconfig(), b"a\nabc\ndef\n\nb\n");
}

#[test]
fn inclusion_kinds_by_extension() {
    assert_eq!(inclusion_kind(b"a/b/theme.ReaperTheme"), InclusionKind::ReaperTheme);
    assert_eq!(inclusion_kind(b"x.INI"), InclusionKind::ReaperTheme);
    assert_eq!(inclusion_kind(b"scripts/setup.lua"), InclusionKind::Lua);
    assert_eq!(inclusion_kind(b"scripts/setup.LUA"), InclusionKind::Lua);
    assert_eq!(inclusion_kind(b"tcp.rtconfig.txt"), InclusionKind::Rtconfig);
    assert_eq!(inclusion_kind(b"noext"), InclusionKind::Rtconfig);
    assert_eq!(inclusion_kind(b".hidden"), InclusionKind::Rtconfig);
    assert_eq!(inclusion_kind(b"dir.lua/file"), InclusionKind::Rtconfig);
}

#[test]
fn resource_first_registration_wins() {
    // two globs mapping to the same destination: the manifest keeps the
    // first source, a warning records the second, and no error is raised
    let mut builder = ThemeBuilder::new();
    let first = vec![GlobEntry::Hit {
        path: b"skins/one/knob.png".to_vec(),
        name: Some(b"knob.png".to_vec()),
    }];
    let second = vec![GlobEntry::Hit {
        path: b"skins/two/knob.png".to_vec(),
        name: Some(b"knob.png".to_vec()),
    }];
    builder.apply_resource_matches(b"img", &first);
    builder.apply_resource_matches(b"img", &second);

    let entries = builder.resources().entries();
    assert_eq!(entries.len(), 1);
    assert_eq!(entries[0].dest, b"img/knob.png".to_vec());
    assert_eq!(entries[0].source, b"skins/one/knob.png".to_vec());

    let warnings = builder.warnings();
    assert_eq!(warnings.len(), 1);
    match &warnings[0] {
        Warning::ResourceCollision { source, dest } => {
            assert_eq!(source, b"skins/two/knob.png");
            assert_eq!(dest, b"img/knob.png");
        }
        other => panic!("expected a collision warning, got {:?}", warning_name(other)),
    }
}

fn warning_name(w: &Warning) -> &'static str {
    match w {
        Warning::ResourceCollision { .. } => "collision",
        Warning::GlobFault { .. } => "fault",
        Warning::UnnamedMatch { .. } => "unnamed",
    }
}

#[test]
fn resource_faults_are_warnings() {
    let mut builder = ThemeBuilder::new();
    let entries = vec![
        GlobEntry::Fault { message: b"permission denied".to_vec() },
        GlobEntry::Hit { path: b"somewhere".to_vec(), name: None },
        GlobEntry::Hit { path: b"a/x.png".to_vec(), name: Some(b"x.png".to_vec()) },
    ];
    builder.apply_resource_matches(b".", &entries);
    assert_eq!(builder.warnings().len(), 2);
    let stored = builder.resources().entries();
    assert_eq!(stored.len(), 1);
    assert_eq!(stored[0].dest, b"./x.png".to_vec());
    assert_eq!(stored[0].source, b"a/x.png".to_vec());
}

#[test]
fn serialize_values_for_descriptor() {
    let s = |v: &ScriptValue| serialize_value(v, false, 3).unwrap();
    assert_eq!(s(&ScriptValue::Nil), b"".to_vec());
    assert_eq!(s(&ScriptValue::Bool(true)), b"true".to_vec());
    assert_eq!(s(&ScriptValue::Bool(false)), b"false".to_vec());
    assert_eq!(s(&ScriptValue::Int(-12)), b"-12".to_vec());
    assert_eq!(s(&ScriptValue::Int(i64::MIN)), b"-9223372036854775808".to_vec());
    assert_eq!(s(&ScriptValue::Num(b"1.5".to_vec())), b"1.5".to_vec());
    assert_eq!(s(&ScriptValue::Str(b"as is".to_vec())), b"as is".to_vec());
    // a color substitutes its construction byte order into descriptor code
    assert_eq!(
        s(&ScriptValue::ColorValue(Color::RGB(RGB(1, 2, 3)))),
        b"66051".to_vec()
    );
    assert!(matches!(
        serialize_value(&ScriptValue::Other(b"table".to_vec()), false, 3),
        Err(SerializeError::Unsupported { .. })
    ));
}

#[test]
fn serialize_values_for_config() {
    // a color uses the reversed byte order in a configuration value
    assert_eq!(
        serialize_value(&ScriptValue::ColorValue(Color::RGB(RGB(1, 2, 3))), true, 3).unwrap(),
        RGB(1, 2, 3).value_rev().to_string().into_bytes()
    );
    // a multi-line string is re-indented to the expression's column
    assert_eq!(
        serialize_value(&ScriptValue::Str(b"a\nb\n\nc".to_vec()), true, 5).unwrap(),
        b"a\n  b\n\n  c".to_vec()
    );
}

#[test]
fn serialize_string_line_endings() {
    // re-indentation normalizes a carriage-return line ending, as the
    // host's line splitting does, and keeps one trailing newline
    assert_eq!(
        serialize_value(&ScriptValue::Str(b"a\r\nb".to_vec()), true, 5).unwrap(),
        b"a\n  b".to_vec()
    );
    assert_eq!(
        serialize_value(&ScriptValue::Str(b"x\n".to_vec()), true, 7).unwrap(),
        b"x\n".to_vec()
    );
    // a carriage return not followed by a newline is kept
    assert_eq!(
        serialize_value(&ScriptValue::Str(b"a\r".to_vec()), true, 5).unwrap(),
        b"a\r".to_vec()
    );
    assert_eq!(
        serialize_value(&ScriptValue::Str(b"a\r\nb\r".to_vec()), true, 5).unwrap(),
        b"a\n  b\r".to_vec()
    );
}

#[test]
fn splice_config_value_pieces() {
    let pieces = parse_reapertheme(b"lead #{ c } tail");
    let evals = vec![ScriptValue::ColorValue(Color::RGB(RGB(1, 2, 3)))];
    let spliced = splice_config_value(&pieces, &evals).unwrap();
    assert_eq!(spliced, b"lead 197121 tail".to_vec());

    // too few evaluated values is an error
    assert!(matches!(
        splice_config_value(&pieces, &Vec::new()),
        Err(SerializeError::MissingValue)
    ));
}

#[test]
fn config_merge_later_import_overwrites() {
    let mut builder = ThemeBuilder::new();
    builder.set_config(Some(b"color theme".to_vec()), b"bg".to_vec(), b"1".to_vec());
    builder.set_config(Some(b"color theme".to_vec()), b"fg".to_vec(), b"2".to_vec());
    builder.set_config(Some(b"color theme".to_vec()), b"bg".to_vec(), b"3".to_vec());
    builder.set_config(None, b"top".to_vec(), b"4".to_vec());

    let sections = builder.reapertheme().sections();
    assert_eq!(sections.len(), 2);
    assert_eq!(sections[0].name, Some(b"color theme".to_vec()));
    assert_eq!(sections[0].entries.len(), 2);
    assert_eq!(sections[0].entries[0].key, b"bg".to_vec());
    assert_eq!(sections[0].entries[0].value, b"3".to_vec());
    assert_eq!(sections[0].entries[1].key, b"fg".to_vec());
    assert_eq!(sections[0].entries[1].value, b"2".to_vec());
    assert_eq!(sections[1].name, None);
    assert_eq!(sections[1].entries[0].key, b"top".to_vec());
}

#[test]
fn expansion_round_trip() {
    // a descriptor with no directives and no expressions expands to
    // byte-identical text
    let text = b"; header\nset a [1]\n\n  code ## more ; tail\n".to_vec();
    let items = parse(&text).unwrap();
    let mut builder = ThemeBuilder::new();
    assert!(builder.feed_plain(&items, b"."));
    assert_eq!(builder.rtconfig(), &text);
}

#[test]
fn preprocess_error_accessors() {
    let e = PreprocessError::ReadError { path: b"a/b.txt".to_vec() };
    assert_eq!(e.path(), &b"a/b.txt".to_vec());
    assert_eq!(e.message(), "failed to read file");
    let e = PreprocessError::EvaluateError {
        path: b"x".to_vec(),
        line: 3,
        column: 7,
        message: b"boom".to_vec(),
    };
    assert_eq!(e.message(), "failed to evaluate lua code");
    let e = PreprocessError::InclusionDepthExceeded { path: b"deep.rtconfig.txt".to_vec() };
    assert_eq!(e.path(), &b"deep.rtconfig.txt".to_vec());
    assert_eq!(e.message(), "inclusion depth limit exceeded");
}
