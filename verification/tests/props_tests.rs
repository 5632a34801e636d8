use rulefront::cst::{Cst, CstChild};
use rulefront::token::Token;
use rulefront::{Parser, report_string, tokenize};

/// Tokenizer totality on a concrete input: the spans partition the whole
/// input with no gaps or overlaps.
#[test]
fn tokens_partition_input() {
    let data = b"rule test : a { strings: $a = { 00 [1-2] 11 } condition: $a }";
    let toks = tokenize(data);
    assert!(!toks.is_empty());
    let mut expected_start = 0usize;
    for t in &toks {
        let sp = t.span();
        assert_eq!(sp.0, expected_start);
        assert!(sp.0 < sp.1);
        expected_start = sp.1;
    }
    assert_eq!(expected_start, data.len());
}

fn collect_leaf_bytes(cst: &Cst, child: CstChild, out: &mut Vec<u8>) {
    match child {
        CstChild::Tok(t) => {
            let sp = cst.tokens[t].span();
            out.extend_from_slice(&cst.source[sp.0..sp.1]);
        }
        CstChild::Tree(j) => {
            for c in &cst.nodes[j].children {
                collect_leaf_bytes(cst, *c, out);
            }
        }
    }
}

/// CST losslessness on a concrete input: concatenating the text under every
/// leaf, in order, reproduces the source exactly.
#[test]
fn cst_reproduces_source() {
    let src = "rule test {\n  // a comment\n  strings:\n    $a = \"x\"\t\n  condition:\n    $a and true\n}";
    let cst = Parser::new().build_cst(src, None).unwrap();
    let mut out: Vec<u8> = Vec::new();
    for c in &cst.nodes[cst.root].children {
        collect_leaf_bytes(&cst, *c, &mut out);
    }
    assert_eq!(out, src.as_bytes());
}

/// Duplicate detection idempotence on a concrete rule set: one duplicate
/// pair among other valid rules yields exactly one diagnostic.
#[test]
fn duplicate_rule_reported_once() {
    let src = "rule a { condition: true }\n\
               rule test { condition: true }\n\
               rule b { condition: false }\n\
               rule test { condition: false }\n\
               rule c { condition: true }\n";
    let errs = Parser::new().build_ast(src, None).expect_err("expected a diagnostic");
    assert_eq!(errs.len(), 1);
    assert_eq!(errs[0].message, b"duplicate rule `test`".to_vec());
    assert_eq!(errs[0].labels.len(), 2);
}

/// The location header uses the origin label when one is given.
#[test]
fn origin_label_in_header() {
    let src = "rule 1x { condition: true }";
    let errs = Parser::new().build_ast(src, None).expect_err("expected a diagnostic");
    let report = report_string(&errs[0], src, Some("rules.txt"));
    assert!(report.contains("[rules.txt:1:6]"));
    let report2 = report_string(&errs[0], src, None);
    assert!(report2.contains("[line:1:6]"));
}

/// Meta values decode per their base, with underscore separators ignored.
#[test]
fn meta_integer_decoding() {
    let src = "rule t { meta: a = 0x10 b = 0o17 c = 1_000 d = -5 condition: true }";
    let sf = Parser::new().build_ast(src, None).unwrap();
    assert_eq!(sf.rules.len(), 1);
    let meta = &sf.rules[0].meta;
    assert!(matches!(meta[0].value, rulefront::ast::MetaValue::Int(16)));
    assert!(matches!(meta[1].value, rulefront::ast::MetaValue::Int(15)));
    assert!(matches!(meta[2].value, rulefront::ast::MetaValue::Int(1000)));
    assert!(matches!(meta[3].value, rulefront::ast::MetaValue::Int(-5)));
}

/// Boundary values of the signed 64-bit range are accepted; the first value
/// beyond each end is rejected.
#[test]
fn i64_boundaries() {
    let ok = "rule t { condition: 9223372036854775807 == -9223372036854775808 }";
    assert!(Parser::new().build_ast(ok, None).is_ok());
    let too_big = "rule t { condition: 9223372036854775808 == 0 }";
    let errs = Parser::new().build_ast(too_big, None).expect_err("out of range");
    assert_eq!(errs[0].message, b"invalid integer".to_vec());
    let too_small = "rule t { condition: -9223372036854775809 == 0 }";
    assert!(Parser::new().build_ast(too_small, None).is_err());
}

/// A jump bound of exactly 65535 is accepted.
#[test]
fn jump_bound_boundary() {
    let ok = "rule t { strings: $a = { 11 [0-65535] 22 } condition: $a }";
    assert!(Parser::new().build_ast(ok, None).is_ok());
}

/// An xor argument of exactly 255 is accepted.
#[test]
fn xor_bound_boundary() {
    let ok = "rule t { strings: $a = \"x\" xor(0-255) condition: $a }";
    assert!(Parser::new().build_ast(ok, None).is_ok());
    let bad = "rule t { strings: $a = \"x\" xor(0-256) condition: $a }";
    assert!(Parser::new().build_ast(bad, None).is_err());
}

/// An empty source parses to an empty rule set.
#[test]
fn empty_source() {
    let sf = Parser::new().build_ast("", None).unwrap();
    assert_eq!(sf.rules.len(), 0);
    let cst = Parser::new().build_cst("", None).unwrap();
    assert_eq!(cst.tokens.len(), 0);
}

/// Tokenization is total on arbitrary bytes, including invalid UTF-8.
#[test]
fn tokenize_arbitrary_bytes() {
    let data: Vec<u8> = (0u8..=255u8).collect();
    let toks = tokenize(&data);
    let mut expected_start = 0usize;
    for t in &toks {
        let sp = t.span();
        assert_eq!(sp.0, expected_start);
        expected_start = sp.1;
    }
    assert_eq!(expected_start, data.len());
}

/// Two independent errors in one file are both collected, in order.
#[test]
fn multiple_errors_collected() {
    let src = "foo\nrule test { strings: $a = \"x\" $b = \"y\" condition: $a }";
    let errs = Parser::new().build_ast(src, None).expect_err("expected diagnostics");
    assert_eq!(errs.len(), 1);
    assert_eq!(errs[0].message, b"syntax error".to_vec());

    let src2 = "rule a { strings: $x = \"q\" $y = \"r\" condition: true }";
    let errs2 = Parser::new().build_ast(src2, None).expect_err("expected diagnostics");
    assert_eq!(errs2.len(), 2);
    assert_eq!(errs2[0].message, b"unused string `$x`".to_vec());
    assert_eq!(errs2[1].message, b"unused string `$y`".to_vec());
}

/// A comment token is kept in the CST but filtered from a whitespace-free
/// rendering of trivia-only whitespace.
#[test]
fn tree_rendering_without_whitespace() {
    let cst = Parser::new()
        .build_cst("rule t { condition: true }", None)
        .unwrap()
        .whitespaces(false)
        .ascii_tree_string();
    assert!(cst.contains("k_RULE \"rule\""));
    assert!(!cst.contains("WHITESPACE"));
}

/// Syntax errors in two separate rules are both reported, in order.
#[test]
fn errors_in_sibling_rules() {
    let src = "rule 1a { condition: true }\nrule 2b { condition: true }";
    let errs = Parser::new().build_ast(src, None).expect_err("expected diagnostics");
    assert_eq!(errs.len(), 2);
    assert_eq!(errs[0].primary.0, 5);
    assert_eq!(errs[1].primary.0, 33);
}

/// A CRLF newline is a single token in the tokenize-only interface.
#[test]
fn tokenize_keeps_crlf_whole() {
    let toks = tokenize(b"a\r\nb");
    assert_eq!(toks.len(), 3);
    let sp = toks[1].span();
    assert_eq!((sp.0, sp.1), (1, 3));
}

/// Every report starts with `error: ` plus the message and ends with the
/// closing frame corner.
#[test]
fn report_shape() {
    let src = "rule 1x { condition: true }";
    let errs = Parser::new().build_ast(src, None).expect_err("expected a diagnostic");
    let report = report_string(&errs[0], src, None);
    assert!(report.starts_with("error: syntax error\n"));
    assert!(report.ends_with("\u{256f}\n"));
}
