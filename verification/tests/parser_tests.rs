use reaper_theme_packer::parser::{
    parse, parse_reapertheme, p_brace, p_comment, p_expression, p_inclusion_dir, p_resource_dir,
    p_string, p_unknown_dir, p_walter, Directive, ParseErrorKind, ReaperThemeContent,
    RtconfigContent, Step,
};

/// The parse step consumed the whole input.
fn consumed_all<T>(input: &[u8], r: &Step<T>) -> bool {
    matches!(r, Step::Found { next, .. } if *next == input.len())
}

/// The parse step failed, or left part of the input unconsumed.
fn did_not_consume_all<T>(input: &[u8], r: &Step<T>) -> bool {
    !consumed_all(input, r)
}

/// The parse step failed hard.
fn is_hard<T>(r: &Step<T>) -> bool {
    matches!(r, Step::Failed { hard: true, .. })
}

#[test]
fn unit_tests() {
    // string literals
    let s = br#""this is a string!""#;
    assert!(consumed_all(s, &p_string(s, 0)));
    let s = br#""""#;
    assert!(consumed_all(s, &p_string(s, 0)));
    let s = br#""I will say \"Hello, world!\", ok?""#;
    assert!(consumed_all(s, &p_string(s, 0)));
    let s = br#""I'm gonna asd\a\sd\a\\asdasad\\as\d\as\d\a""#;
    assert!(did_not_consume_all(s, &p_string(s, 0)));
    let s = br#""I'm gonna \\n fake new line""#;
    assert!(consumed_all(s, &p_string(s, 0)));
    let s = br#""I'm gonna \""#;
    assert!(did_not_consume_all(s, &p_string(s, 0)));

    // comments
    let s = b"; this is a comment, ashuidasj";
    assert!(consumed_all(s, &p_comment(s, 0)));
    let s = b"; this is a comment, ashuidasj  ";
    assert!(consumed_all(s, &p_comment(s, 0)));

    // file-inclusion directives
    let s = br#"#include "./test/tcp.rtconfig.txt""#;
    assert!(consumed_all(s, &p_inclusion_dir(s, 0)));
    // the directive itself does not consume trailing spaces
    let s = br#"#include    "./test/tcp.rtconfig.txt"  "#;
    assert!(matches!(p_inclusion_dir(s, 0), Step::Found { next, .. } if next == s.len() - 2));
    // an absolute path is a hard failure
    let s = br#"#include    "C:/test/tcp.rtconfig.txt"  "#;
    assert!(is_hard(&p_inclusion_dir(s, 0)));

    // unknown directives take any alphabetic name up to the end of line
    let s = br#"#include "./test/tcp.rtconfig.txt""#;
    assert!(consumed_all(s, &p_unknown_dir(s, 0)));
    let s = br#"#include    "./test/tcp.rtconfig.txt"  "#;
    assert!(consumed_all(s, &p_unknown_dir(s, 0)));
    let s = br#"#include    "C:/test/tcp.rtconfig.txt"  "#;
    assert!(consumed_all(s, &p_unknown_dir(s, 0)));

    // resource directives
    let s = br#"#resource "./*.png""#;
    assert!(consumed_all(s, &p_resource_dir(s, 0)));
    let s = br#"#resource    "./*.png"  "#;
    assert!(matches!(p_resource_dir(s, 0), Step::Found { next, .. } if next == s.len() - 2));
    let s = br#"#resource "./knob.png""#;
    assert!(consumed_all(s, &p_resource_dir(s, 0)));
    let s = br#"#resource "150": "./*.png""#;
    assert!(consumed_all(s, &p_resource_dir(s, 0)));
    let s = br#"#resource    "150" : "./*.png"    "#;
    assert!(matches!(p_resource_dir(s, 0), Step::Found { next, .. } if next == s.len() - 4));
    // a missing colon leaves the second string unconsumed
    let s = br#"#resource "150" "./*.png""#;
    assert!(did_not_consume_all(s, &p_resource_dir(s, 0)));
    // an absolute pattern path is a hard failure
    let s = br#"#resource "C:/knob.png""#;
    assert!(is_hard(&p_resource_dir(s, 0)));

    // brace pairs
    let s = b"{}";
    assert!(consumed_all(s, &p_brace(s, 0)));
    let s = b"{ 1 + 1 }";
    assert!(consumed_all(s, &p_brace(s, 0)));
    let s = b"{ apple }";
    assert!(consumed_all(s, &p_brace(s, 0)));
    let s = b"{ {a: 1, b: 2} }";
    assert!(consumed_all(s, &p_brace(s, 0)));
    let s = b"{ {a: 1, b: {c: 2, d: 3}} }";
    assert!(consumed_all(s, &p_brace(s, 0)));
    let s = b"{ {a: 1,\n b: \n{c: \n2,\n \nd: 3}} }";
    assert!(consumed_all(s, &p_brace(s, 0)));
    let s = b"{ } }";
    assert!(did_not_consume_all(s, &p_brace(s, 0)));
    let s = b"{ }{ }";
    assert!(did_not_consume_all(s, &p_brace(s, 0)));
    let s = b"{ { }";
    assert!(did_not_consume_all(s, &p_brace(s, 0)));
    let s = b"";
    assert!(did_not_consume_all(s, &p_brace(s, 0)));

    // expressions
    let s = b"#{ {a: 1, b: {c: 2, d: 3}} }";
    assert!(consumed_all(s, &p_expression(s, 0)));
    let s = b"# { {a: 1, b: {c: 2, d: 3}} }";
    assert!(did_not_consume_all(s, &p_expression(s, 0)));
    let s = b"";
    assert!(did_not_consume_all(s, &p_expression(s, 0)));

    // plain code
    let s = b"hello world";
    assert!(consumed_all(s, &p_walter(s, 0)));
    let s = b"hello world # ibhsdkasj";
    assert!(consumed_all(s, &p_walter(s, 0)));
    let s = b"hello world #{ 1+1 } ibhsdkasj";
    assert!(did_not_consume_all(s, &p_walter(s, 0)));
    // code, expression, code in sequence consume the same line
    let s = b"hello world #{ 1+1 } ibhsdkasj";
    assert!(seq_walter_expr_walter(s));
    let s = b"hello world #{ 1\n+\n1 } ibhsdkasj";
    assert!(seq_walter_expr_walter(s));
    let s = b"hello \nworld #{ 1\n+\n1 } ibhsdkasj";
    assert!(!seq_walter_expr_walter(s));
    let s = b"";
    assert!(did_not_consume_all(s, &p_walter(s, 0)));
}

/// Run code, expression, code in sequence; whole input must be consumed.
fn seq_walter_expr_walter(s: &[u8]) -> bool {
    let Step::Found { next: a, .. } = p_walter(s, 0) else {
        return false;
    };
    let Step::Found { next: b, .. } = p_expression(s, a) else {
        return false;
    };
    let Step::Found { next: c, .. } = p_walter(s, b) else {
        return false;
    };
    c == s.len()
}

#[test]
fn parse_simple_document() {
    let text = b"set test [1 2 3 4]\n; note\n";
    let items = parse(text).unwrap();
    assert_eq!(items.len(), 4);
    assert!(matches!(&items[0], RtconfigContent::Code(c) if c == b"set test [1 2 3 4]"));
    assert!(matches!(&items[1], RtconfigContent::Newline));
    assert!(matches!(&items[2], RtconfigContent::Comment(c) if c == b"; note"));
    assert!(matches!(&items[3], RtconfigContent::Newline));
}

#[test]
fn parse_expression_location() {
    let text = b"abc#{ 1+1 }tail";
    let items = parse(text).unwrap();
    assert_eq!(items.len(), 3);
    match &items[1] {
        RtconfigContent::Expression { code, offset, line, column } => {
            assert_eq!(code, b" 1+1 ");
            assert_eq!(*offset, 5);
            assert_eq!(*line, 1);
            assert_eq!(*column, 6);
        }
        other => panic!("expected an expression, got {:?}", other),
    }
    assert!(matches!(&items[2], RtconfigContent::Code(c) if c == b"tail"));
}

#[test]
fn parse_directives() {
    let text = b"#resource \"img\": \"./*.png\"\ncode\n";
    let items = parse(text).unwrap();
    match &items[0] {
        RtconfigContent::Directive(Directive::Resource { pattern, dest }) => {
            assert_eq!(pattern, b"./*.png");
            assert_eq!(dest, b"img");
        }
        other => panic!("expected a resource directive, got {:?}", other),
    }

    let text = b"#resource \"./*.png\"\n";
    let items = parse(text).unwrap();
    match &items[0] {
        RtconfigContent::Directive(Directive::Resource { pattern, dest }) => {
            assert_eq!(pattern, b"./*.png");
            assert_eq!(dest, b".");
        }
        other => panic!("expected a resource directive, got {:?}", other),
    }

    let text = b"#layout two  \nrest\n";
    let items = parse(text).unwrap();
    match &items[0] {
        RtconfigContent::Directive(Directive::Unknown { name, contents }) => {
            assert_eq!(name, b"layout");
            assert_eq!(contents, b" two  ");
        }
        other => panic!("expected an unknown directive, got {:?}", other),
    }
}

#[test]
fn parse_hard_failures() {
    // an absolute resource destination is a hard parse failure
    let text = b"#resource \"C:/abs\" \"x.png\"\n";
    let err = parse(text).unwrap_err();
    assert_eq!(err.kind, ParseErrorKind::NotRelativePath);

    // a resource directive missing its colon fails the document parse
    let text = b"#resource \"150\" \"./*.png\"\n";
    let err = parse(text).unwrap_err();
    assert_eq!(err.kind, ParseErrorKind::Syntax);

    // an invalid glob pattern is a hard parse failure
    let text = b"#resource \"[\"\n";
    let err = parse(text).unwrap_err();
    assert_eq!(err.kind, ParseErrorKind::InvalidGlobPattern);

    // a malformed string literal is a hard parse failure
    let text = b"#include \"bad\\qescape\"\n";
    let err = parse(text).unwrap_err();
    assert_eq!(err.kind, ParseErrorKind::MalformedString);

    // a bare inclusion keyword is a malformed inclusion directive
    let text = b"#include\n";
    let err = parse(text).unwrap_err();
    assert_eq!(err.kind, ParseErrorKind::MalformedInclusionDirective);

    // empty input matches no line
    assert!(parse(b"").is_err());
}

#[test]
fn parse_error_location() {
    let text = b"good line\n#resource \"C:/abs\" \"x.png\"\n";
    let err = parse(text).unwrap_err();
    assert_eq!(err.kind, ParseErrorKind::NotRelativePath);
    assert_eq!(err.location.offset, 20);
    assert_eq!(err.location.line, 2);
    assert_eq!(err.location.column_utf8, 11);
    assert_eq!(err.location.fragment, b"\"C:/abs\"".to_vec());
}

#[test]
fn string_escapes_decode() {
    // the decoded text comes from the JSON escape rules
    let s = br#""a\nb\u0041""#;
    match p_string(s, 0) {
        Step::Found { next, val } => {
            assert_eq!(next, s.len());
            assert_eq!(val.decoded, b"a\nbA".to_vec());
            assert_eq!(val.raw_from, 0);
            assert_eq!(val.raw_to, s.len());
        }
        other => panic!("expected a parsed string, got {:?}", other),
    }
}

#[test]
fn config_value_pieces() {
    let v = b"12 #{ rgb(1,2,3) } 34";
    let pieces = parse_reapertheme(v);
    assert_eq!(pieces.len(), 3);
    assert!(matches!(&pieces[0], ReaperThemeContent::Text(t) if t == b"12 "));
    match &pieces[1] {
        ReaperThemeContent::Expression { code, column, .. } => {
            assert_eq!(code, b" rgb(1,2,3) ");
            assert_eq!(*column, 6);
        }
        other => panic!("expected an expression piece, got {:?}", other),
    }
    assert!(matches!(&pieces[2], ReaperThemeContent::Text(t) if t == b" 34"));

    // a lone hash that opens no span is plain text
    let v = b"a # b";
    let pieces = parse_reapertheme(v);
    assert_eq!(pieces.len(), 1);
    assert!(matches!(&pieces[0], ReaperThemeContent::Text(t) if t == b"a # b"));
}
