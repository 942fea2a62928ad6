use blockir::parse::NodeOp;
use blockir::parse::ParseError;
use blockir::parse::Parser;
use blockir::reports::create;
use blockir::source::SourceFile;
use blockir::source::SourceTree;
use blockir::source::UnregisteredSourceFile;
use blockir::span::Span;
use blockir::tokenize::is_whitespace;
use blockir::tokenize::TokenType;
use blockir::tokenize::Tokenizer;

fn file_with(text: &str) -> (SourceTree, blockir::source::SourceId) {
    let mut tree = SourceTree::new();
    let id = tree.register(UnregisteredSourceFile {
        name: String::from("test.air"),
        text: String::from(text),
    });
    (tree, id)
}

fn the_file<'a>(tree: &'a SourceTree, id: blockir::source::SourceId) -> &'a SourceFile {
    tree.find(id).expect("registered id must resolve")
}

#[test]
fn span_accessors() {
    let s = Span::new(3..7);
    assert_eq!(s.begin(), 3);
    assert_eq!(s.end(), 7);
    let p = Span::point(5);
    assert_eq!(p.begin(), 5);
    assert_eq!(p.end(), 5);
    assert_eq!(p, Span::new(5..5));
}

#[test]
fn registry_register_and_find() {
    let mut tree = SourceTree::new();
    let a = tree.register(UnregisteredSourceFile {
        name: String::from("a.air"),
        text: String::from("block f(): unit { }"),
    });
    let b = tree.register(UnregisteredSourceFile {
        name: String::from("b.air"),
        text: String::from(""),
    });
    let fa = tree.find(a).expect("first id resolves");
    assert_eq!(fa.name(), "a.air");
    assert_eq!(fa.text(), "block f(): unit { }");
    assert_eq!(fa.id(), a);
    let fb = tree.find(b).expect("second id resolves");
    assert_eq!(fb.name(), "b.air");
    assert_ne!(a, b);
}

#[test]
fn registry_find_unknown_id_is_none() {
    let mut other = SourceTree::new();
    other.register(UnregisteredSourceFile {
        name: String::from("x.air"),
        text: String::from(""),
    });
    let unknown = other.register(UnregisteredSourceFile {
        name: String::from("y.air"),
        text: String::from(""),
    });
    let mut tree = SourceTree::new();
    tree.register(UnregisteredSourceFile {
        name: String::from("only.air"),
        text: String::from(""),
    });
    assert!(tree.find(unknown).is_none());
}

#[test]
fn whitespace_set_is_exact() {
    for c in ['\u{0009}', '\u{000A}', '\u{000B}', '\u{000C}', '\u{000D}', '\u{0020}',
        '\u{0085}', '\u{200E}', '\u{200F}', '\u{2028}', '\u{2029}'] {
        assert!(is_whitespace(c), "{:?} must be whitespace", c);
    }
    for c in ['a', '0', '_', '=', '\u{00A0}', '\u{200C}', '\u{200D}'] {
        assert!(!is_whitespace(c), "{:?} must not be whitespace", c);
    }
}

#[test]
fn whitespace_only_input_gives_zero_width_eof() {
    let (tree, id) = file_with(" \t\n\u{2028}");
    let mut tk = Tokenizer::new(the_file(&tree, id));
    assert!(tk.will_eof());
    let t = tk.token();
    assert_eq!(t.tok_type(), TokenType::Eof);
    // " \t\n" are one byte each; the line separator is three bytes.
    assert_eq!(*t.span(), Span::new(6..6));
    // A second call stays at the zero-width end-of-file point.
    let t2 = tk.token();
    assert_eq!(t2.tok_type(), TokenType::Eof);
    assert_eq!(*t2.span(), Span::new(6..6));
}

#[test]
fn empty_input_gives_eof_at_zero() {
    let (tree, id) = file_with("");
    let mut tk = Tokenizer::new(the_file(&tree, id));
    assert!(tk.will_eof());
    assert!(tk.is_eof());
    let t = tk.token();
    assert_eq!(t.tok_type(), TokenType::Eof);
    assert_eq!(*t.span(), Span::new(0..0));
}

#[test]
fn will_eof_false_before_a_token() {
    let (tree, id) = file_with("   x");
    let tk = Tokenizer::new(the_file(&tree, id));
    assert!(!tk.will_eof());
    assert!(!tk.is_eof());
}

#[test]
fn identifier_not_block_is_ident() {
    let (tree, id) = file_with("blocks");
    let mut tk = Tokenizer::new(the_file(&tree, id));
    let t = tk.token();
    assert_eq!(t.tok_type(), TokenType::Ident);
    assert_eq!(*t.span(), Span::new(0..6));
}

#[test]
fn keyword_block_is_case_sensitive() {
    let (tree, id) = file_with("block Block");
    let mut tk = Tokenizer::new(the_file(&tree, id));
    let t = tk.token();
    assert_eq!(t.tok_type(), TokenType::KWBlock);
    assert_eq!(*t.span(), Span::new(0..5));
    let t = tk.token();
    assert_eq!(t.tok_type(), TokenType::Ident);
    assert_eq!(*t.span(), Span::new(6..11));
}

#[test]
fn unicode_identifier_spans_full_byte_length() {
    // Scenario: a non-ASCII letter sequence is one Ident token whose
    // span covers its whole byte length.
    let (tree, id) = file_with("héllo\u{0394}");
    let mut tk = Tokenizer::new(the_file(&tree, id));
    let t = tk.token();
    assert_eq!(t.tok_type(), TokenType::Ident);
    // h(1) é(2) l(1) l(1) o(1) Δ(2) = 8 bytes.
    assert_eq!(*t.span(), Span::new(0..8));
    assert_eq!(tk.token().tok_type(), TokenType::Eof);
}

#[test]
fn punctuation_kinds() {
    let (tree, id) = file_with("= ( ) : , { } < > #");
    let mut tk = Tokenizer::new(the_file(&tree, id));
    let expected = [
        TokenType::Equal,
        TokenType::LParen,
        TokenType::RParen,
        TokenType::Colon,
        TokenType::Comma,
        TokenType::Open,
        TokenType::Close,
        TokenType::LAngle,
        TokenType::RAngle,
        TokenType::Invalid,
    ];
    for (i, want) in expected.iter().enumerate() {
        let t = tk.token();
        assert_eq!(t.tok_type(), *want);
        assert_eq!(*t.span(), Span::new(2 * i..2 * i + 1));
    }
    assert_eq!(tk.token().tok_type(), TokenType::Eof);
}

#[test]
fn invalid_is_a_single_character_not_a_run() {
    let (tree, id) = file_with("##");
    let mut tk = Tokenizer::new(the_file(&tree, id));
    let a = tk.token();
    assert_eq!(a.tok_type(), TokenType::Invalid);
    assert_eq!(*a.span(), Span::new(0..1));
    let b = tk.token();
    assert_eq!(b.tok_type(), TokenType::Invalid);
    assert_eq!(*b.span(), Span::new(1..2));
}

#[test]
fn token_stream_reconstructs_input() {
    // Concatenating the skipped whitespace runs and the token spans,
    // in order, up to and including the end-of-file token, yields the
    // input back exactly.
    let text = "\nblock add(v0: i32,\u{2028} v1: i32): i32 {\n  v3 = iadd<i32> v0, v1\u{200E} return v3\n}\n";
    let (tree, id) = file_with(text);
    let mut tk = Tokenizer::new(the_file(&tree, id));
    let mut rebuilt = String::new();
    let mut prev_end = 0usize;
    loop {
        let t = tk.token();
        let sp = *t.span();
        rebuilt.push_str(&text[prev_end..sp.begin()]);
        rebuilt.push_str(&text[sp.begin()..sp.end()]);
        prev_end = sp.end();
        if t.tok_type() == TokenType::Eof {
            break;
        }
    }
    assert_eq!(rebuilt, text);
}

#[test]
fn eat_while_consumes_maximal_run() {
    let (tree, id) = file_with("aaab");
    let mut tk = Tokenizer::new(the_file(&tree, id));
    tk.eat_while(|c| c == 'a');
    assert_eq!(tk.peek0(), Some('b'));
    let c = tk.advance();
    assert_eq!(c, Some('b'));
    assert_eq!(tk.advance(), None);
    assert!(tk.is_eof());
}

#[test]
fn describe_token_kinds() {
    assert_eq!(TokenType::Equal.describe(), "'='");
    assert_eq!(TokenType::Ident.describe(), "<identifier>");
    assert_eq!(TokenType::KWBlock.describe(), "'block'");
    assert_eq!(TokenType::Open.describe(), "'{'");
    assert_eq!(TokenType::Close.describe(), "'}'");
    assert_eq!(TokenType::Eof.describe(), "<eof>");
    assert_eq!(TokenType::Invalid.describe(), "<invalid>");
}

#[test]
fn try_consume_does_not_advance_on_mismatch() {
    // Repeated probes for a kind that is not next leave the stream
    // position untouched.
    let (tree, id) = file_with("abc def");
    let binding = tree;
    let file = the_file(&binding, id);
    let mut parser = Parser::new(file);
    assert!(!parser.consume(TokenType::Comma));
    assert!(!parser.consume(TokenType::Comma));
    assert!(!parser.consume(TokenType::Equal));
    let t = parser.expect(TokenType::Ident).expect("first identifier still there");
    assert_eq!(*t.span(), Span::new(0..3));
    assert!(parser.consume(TokenType::Ident));
    assert!(parser.consume(TokenType::Eof));
}

#[test]
fn expect_consumes_the_mismatching_token() {
    let (tree, id) = file_with(", x");
    let binding = tree;
    let file = the_file(&binding, id);
    let mut parser = Parser::new(file);
    let err = parser.expect(TokenType::Ident).expect_err("comma is not an identifier");
    let ParseError::UnexpectedToken { source_id, expected_any, found } = err;
    assert_eq!(source_id, id);
    assert_eq!(expected_any, vec![TokenType::Ident]);
    assert_eq!(found.tok_type(), TokenType::Comma);
    assert_eq!(*found.span(), Span::new(0..1));
    // The comma is consumed: the next token is the identifier.
    let t = parser.expect(TokenType::Ident).expect("x follows");
    assert_eq!(*t.span(), Span::new(2..3));
}

#[test]
fn sourced_returns_exact_substring() {
    let (tree, id) = file_with("block héllo(): i32 { }");
    let binding = tree;
    let file = the_file(&binding, id);
    let mut parser = Parser::new(file);
    let kw = parser.expect(TokenType::KWBlock).expect("keyword");
    let name = parser.expect(TokenType::Ident).expect("name");
    assert_eq!(parser.sourced(*kw.span()), "block");
    assert_eq!(parser.sourced(*name.span()), "héllo");
}

#[test]
fn complete_program_parses_to_expected_tree() {
    // Scenario: one assignment with a type argument, then a return.
    let (tree, id) = file_with(
        "block add(v0: i32, v1: i32): i32 { v3 = iadd<i32> v0, v1 return v3 }",
    );
    let binding = tree;
    let file = the_file(&binding, id);
    let mut parser = Parser::new(file);
    let block = parser.node_block().expect("program is syntactically complete");
    assert_eq!(block.name.0, "add");
    assert_eq!(block.parameters.len(), 2);
    assert_eq!(block.parameters[0].name.0, "v0");
    assert_eq!(block.parameters[0].param_ty.0, "i32");
    assert_eq!(block.parameters[1].name.0, "v1");
    assert_eq!(block.parameters[1].param_ty.0, "i32");
    assert_eq!(block.return_type.0, "i32");
    assert_eq!(block.ops.len(), 2);
    match &block.ops[0] {
        NodeOp::Assign { result, op_name, type_args, operands } => {
            assert_eq!(result.0, "v3");
            assert_eq!(op_name.0, "iadd");
            assert_eq!(type_args.len(), 1);
            assert_eq!(type_args[0].0, "i32");
            assert_eq!(operands.len(), 2);
            assert_eq!(operands[0].0, "v0");
            assert_eq!(operands[1].0, "v1");
        }
        other => panic!("first op must be an assignment, got {:?}", other),
    }
    match &block.ops[1] {
        NodeOp::Return { value } => assert_eq!(value.0, "v3"),
        other => panic!("second op must be a return, got {:?}", other),
    }
}

#[test]
fn parameter_order_matches_written_order() {
    let (tree, id) = file_with("block f(a: t1, b: t2, c: t3): r { }");
    let binding = tree;
    let file = the_file(&binding, id);
    let mut parser = Parser::new(file);
    let block = parser.node_block().expect("parses");
    let names: Vec<&str> = block.parameters.iter().map(|p| p.name.0.as_str()).collect();
    assert_eq!(names, vec!["a", "b", "c"]);
    let tys: Vec<&str> = block.parameters.iter().map(|p| p.param_ty.0.as_str()).collect();
    assert_eq!(tys, vec!["t1", "t2", "t3"]);
}

#[test]
fn empty_parameters_and_body() {
    // Scenario: `block f(): unit { }` parses to zero parameters and
    // zero operations.
    let (tree, id) = file_with("block f(): unit { }");
    let binding = tree;
    let file = the_file(&binding, id);
    let mut parser = Parser::new(file);
    let block = parser.node_block().expect("parses");
    assert_eq!(block.name.0, "f");
    assert_eq!(block.parameters.len(), 0);
    assert_eq!(block.return_type.0, "unit");
    assert_eq!(block.ops.len(), 0);
}

#[test]
fn missing_parameter_type_is_an_error() {
    // Scenario: a parameter whose type is missing fails expecting an
    // identifier and finding the comma right after the colon.
    let text = "\nblock add(v0: , v1: i32): i32 {\n  v3 = iadd<i32> v0, v1\n  return v3\n}\n";
    let (tree, id) = file_with(text);
    let binding = tree;
    let file = the_file(&binding, id);
    let mut parser = Parser::new(file);
    let err = parser.node_block().expect_err("first parameter has no type");
    let ParseError::UnexpectedToken { source_id, expected_any, found } = err;
    assert_eq!(source_id, id);
    assert_eq!(expected_any, vec![TokenType::Ident]);
    assert_eq!(found.tok_type(), TokenType::Comma);
    let comma_at = text.find(',').unwrap();
    assert_eq!(*found.span(), Span::new(comma_at..comma_at + 1));
}

#[test]
fn truncated_input_reports_eof_as_found() {
    // Scenario: truncated input fails reporting the zero-width
    // end-of-file token as what was found.
    let (tree, id) = file_with("block f(");
    let binding = tree;
    let file = the_file(&binding, id);
    let mut parser = Parser::new(file);
    let err = parser.node_block().expect_err("input is truncated");
    let ParseError::UnexpectedToken { source_id, expected_any, found } = err;
    assert_eq!(source_id, id);
    assert_eq!(expected_any, vec![TokenType::RParen, TokenType::Ident]);
    assert_eq!(found.tok_type(), TokenType::Eof);
    assert_eq!(*found.span(), Span::new(8..8));
}

#[test]
fn separator_errors_name_both_possibilities() {
    let (tree, id) = file_with("block f(a: t1 b: t2): r { }");
    let binding = tree;
    let file = the_file(&binding, id);
    let mut parser = Parser::new(file);
    let err = parser.node_block().expect_err("missing separator");
    let ParseError::UnexpectedToken { expected_any, found, .. } = err;
    assert_eq!(expected_any, vec![TokenType::RParen, TokenType::Comma]);
    assert_eq!(found.tok_type(), TokenType::Ident);
}

#[test]
fn keyword_must_open_the_block() {
    let (tree, id) = file_with("bloc f(): r { }");
    let binding = tree;
    let file = the_file(&binding, id);
    let mut parser = Parser::new(file);
    let err = parser.node_block().expect_err("not the keyword");
    let ParseError::UnexpectedToken { expected_any, found, .. } = err;
    assert_eq!(expected_any, vec![TokenType::KWBlock]);
    assert_eq!(found.tok_type(), TokenType::Ident);
}

#[test]
fn report_for_missing_type_error() {
    let text = "block add(v0: , v1: i32): i32 { return v0 }";
    let (tree, id) = file_with(text);
    let err = {
        let file = tree.find(id).expect("registered");
        let mut parser = Parser::new(file);
        parser.node_block().expect_err("first parameter has no type")
    };
    let report = create(err, tree);
    assert_eq!(report.code, 0);
    assert_eq!(report.message, "Unexpected token");
    assert_eq!(report.labels.len(), 1);
    assert_eq!(report.labels[0].file, "test.air");
    let comma_at = text.find(',').unwrap();
    assert_eq!(report.labels[0].span, Span::new(comma_at..comma_at + 1));
    assert_eq!(
        report.labels[0].message,
        "found ',' but expected any of <identifier>"
    );
}

#[test]
fn report_lists_expected_kinds_in_order() {
    let (tree, id) = file_with("block f(=): r { }");
    let err = {
        let file = tree.find(id).expect("registered");
        let mut parser = Parser::new(file);
        parser.node_block().expect_err("equals cannot start a parameter list entry")
    };
    let report = create(err, tree);
    assert_eq!(
        report.labels[0].message,
        "found '=' but expected any of ')', <identifier>"
    );
}

#[test]
fn body_op_boundary_error_names_close_and_ident() {
    let (tree, id) = file_with("block f(): r { = }");
    let binding = tree;
    let file = the_file(&binding, id);
    let mut parser = Parser::new(file);
    let err = parser.node_block().expect_err("an op cannot start with equals");
    let ParseError::UnexpectedToken { expected_any, found, .. } = err;
    assert_eq!(expected_any, vec![TokenType::Close, TokenType::Ident]);
    assert_eq!(found.tok_type(), TokenType::Equal);
}

#[test]
fn assignment_without_type_args() {
    let (tree, id) = file_with("block f(a: t): t { b = copy a return b }");
    let binding = tree;
    let file = the_file(&binding, id);
    let mut parser = Parser::new(file);
    let block = parser.node_block().expect("parses");
    match &block.ops[0] {
        NodeOp::Assign { result, op_name, type_args, operands } => {
            assert_eq!(result.0, "b");
            assert_eq!(op_name.0, "copy");
            assert!(type_args.is_empty());
            assert_eq!(operands.len(), 1);
            assert_eq!(operands[0].0, "a");
        }
        other => panic!("expected an assignment, got {:?}", other),
    }
}

#[test]
fn multiple_type_args_and_operands() {
    let (tree, id) = file_with("block f(a: t, b: u): t { c = mix<t, u, v> a, b, a return c }");
    let binding = tree;
    let file = the_file(&binding, id);
    let mut parser = Parser::new(file);
    let block = parser.node_block().expect("parses");
    match &block.ops[0] {
        NodeOp::Assign { type_args, operands, .. } => {
            let ts: Vec<&str> = type_args.iter().map(|t| t.0.as_str()).collect();
            assert_eq!(ts, vec!["t", "u", "v"]);
            let os: Vec<&str> = operands.iter().map(|t| t.0.as_str()).collect();
            assert_eq!(os, vec!["a", "b", "a"]);
        }
        other => panic!("expected an assignment, got {:?}", other),
    }
}

#[test]
fn type_args_separator_error_names_close_and_comma() {
    let (tree, id) = file_with("block f(): t { c = mix<t u> a return c }");
    let binding = tree;
    let file = the_file(&binding, id);
    let mut parser = Parser::new(file);
    let err = parser.node_block().expect_err("missing separator in type args");
    let ParseError::UnexpectedToken { expected_any, found, .. } = err;
    assert_eq!(expected_any, vec![TokenType::RAngle, TokenType::Comma]);
    assert_eq!(found.tok_type(), TokenType::Ident);
}

#[test]
fn return_needs_a_value() {
    let (tree, id) = file_with("block f(): t { return }");
    let binding = tree;
    let file = the_file(&binding, id);
    let mut parser = Parser::new(file);
    let err = parser.node_block().expect_err("return without a value");
    let ParseError::UnexpectedToken { expected_any, found, .. } = err;
    assert_eq!(expected_any, vec![TokenType::Ident]);
    assert_eq!(found.tok_type(), TokenType::Close);
}
