//! Tests for the surface language: tokenizer, parser, interpreter, and
//! the diagnostics data they produce.

use leuchtkraft::atom::Ident;
use leuchtkraft::cli::Options;
use leuchtkraft::context::Context as SourceContext;
use leuchtkraft::repl::Context as ReplContext;
use leuchtkraft::diagnostic::{AnnotationType, Diagnostic};
use leuchtkraft::interpreter::Interpreter;
use leuchtkraft::logic_engine::UnknownValue;
use leuchtkraft::parse_error::TokenNotFound;
use leuchtkraft::parser::Parser;
use leuchtkraft::render::annotation_name;
use leuchtkraft::span::Span;
use leuchtkraft::symbol::{Atom, Line};
use leuchtkraft::token::Token;
use leuchtkraft::tokenizer::Tokenizer;
use leuchtkraft::util::calculate_hash;
use leuchtkraft::warning::Warning;

#[test]
fn tokenizer_reads_idents_and_punctuation() {
    let tokenizer = Tokenizer::new("foo(bar)?");
    let mut pos = 0;
    let ident = tokenizer.try_read(&mut pos, Token::Ident).unwrap();
    assert_eq!(ident.span, Span(0, 3));
    assert_eq!(pos, 3);
    assert!(tokenizer.try_read(&mut pos, Token::OpeningParen).is_some());
    let arg = tokenizer.try_read(&mut pos, Token::Ident).unwrap();
    assert_eq!(arg.span, Span(4, 7));
    assert!(tokenizer.try_read(&mut pos, Token::ClosingParen).is_some());
    assert!(tokenizer.try_read(&mut pos, Token::Questionmark).is_some());
    assert!(tokenizer.try_read(&mut pos, Token::End).is_some());
    assert_eq!(pos, 9);
}

#[test]
fn tokenizer_fails_without_consuming() {
    let tokenizer = Tokenizer::new("=> x");
    let mut pos = 0;
    assert!(tokenizer.try_read(&mut pos, Token::Ident).is_none());
    assert_eq!(pos, 0);
    let arrow = tokenizer.try_read(&mut pos, Token::Implication).unwrap();
    assert_eq!(arrow.span, Span(0, 2));
    assert_eq!(pos, 2);
}

#[test]
fn tokenizer_reads_keywords_and_whitespace() {
    let tokenizer = Tokenizer::new("forall and true false // note");
    let mut pos = 0;
    assert!(tokenizer.try_read(&mut pos, Token::Forall).is_some());
    assert!(tokenizer.try_read(&mut pos, Token::Space).is_some());
    assert!(tokenizer.try_read(&mut pos, Token::And).is_some());
    assert!(tokenizer.try_read(&mut pos, Token::Space).is_some());
    assert!(tokenizer.try_read(&mut pos, Token::True).is_some());
    assert!(tokenizer.try_read(&mut pos, Token::Space).is_some());
    assert!(tokenizer.try_read(&mut pos, Token::False).is_some());
    assert!(tokenizer.try_read(&mut pos, Token::Indent).is_some());
    assert!(tokenizer.try_read(&mut pos, Token::Comment).is_some());
}

#[test]
fn parser_reads_a_question_rule() {
    let parser = Parser::new("mortal(socrates) => q?");
    let mut warnings: Vec<Warning> = Vec::new();
    let line = parser.line(&mut warnings).unwrap().unwrap();
    match line.content {
        Line::Rule(indented, is_question, chains) => {
            assert!(!indented);
            assert!(is_question);
            assert_eq!(chains.len(), 2);
            assert_eq!(chains[0].len(), 1);
            assert_eq!(chains[1].len(), 1);
            match &chains[0][0].content {
                Atom::Predicate(name, args) => {
                    assert_eq!(*name, Ident(calculate_hash("mortal")));
                    assert_eq!(args.len(), 1);
                    assert_eq!(args[0].content, Ident(calculate_hash("socrates")));
                },
                other => panic!("expected a predicate, got {:?}", other),
            }
            match &chains[1][0].content {
                Atom::Unknown(name) => {
                    assert_eq!(*name, Ident(calculate_hash("q")));
                },
                other => panic!("expected an unknown, got {:?}", other),
            }
        },
        other => panic!("expected a rule, got {:?}", other),
    }
    assert!(warnings.is_empty());
}

#[test]
fn parser_reads_conjunctions_and_literals() {
    let parser = Parser::new("p(a) and true => q(b)");
    let mut warnings: Vec<Warning> = Vec::new();
    let line = parser.line(&mut warnings).unwrap().unwrap();
    match line.content {
        Line::Rule(_, is_question, chains) => {
            assert!(!is_question);
            assert_eq!(chains.len(), 2);
            assert_eq!(chains[0].len(), 2);
            assert!(matches!(chains[0][1].content, Atom::True));
        },
        other => panic!("expected a rule, got {:?}", other),
    }
}

#[test]
fn parser_reads_a_forall_header() {
    let parser = Parser::new("forall x, y");
    let mut warnings: Vec<Warning> = Vec::new();
    let line = parser.line(&mut warnings).unwrap().unwrap();
    match line.content {
        Line::Forall(idents) => {
            assert_eq!(idents.len(), 2);
            assert_eq!(idents[0].content, Ident(calculate_hash("x")));
            assert_eq!(idents[1].content, Ident(calculate_hash("y")));
        },
        other => panic!("expected a forall header, got {:?}", other),
    }
    assert!(warnings.is_empty());
}

#[test]
fn parser_warns_about_duplicate_freed_variables() {
    let parser = Parser::new("forall x, x");
    let mut warnings: Vec<Warning> = Vec::new();
    parser.line(&mut warnings).unwrap().unwrap();
    assert_eq!(warnings.len(), 1);
    assert!(matches!(
        warnings[0],
        Warning::DuplicateScopedVariable { .. }
    ));
}

#[test]
fn parser_accepts_empty_and_comment_lines() {
    let mut warnings: Vec<Warning> = Vec::new();
    assert!(Parser::new("").line(&mut warnings).unwrap().is_none());
    assert!(Parser::new("   ").line(&mut warnings).unwrap().is_none());
    assert!(Parser::new("// only a comment").line(&mut warnings).unwrap().is_none());
}

#[test]
fn parser_rejects_a_bare_fact_line() {
    // a rule can only end after an implication
    let mut warnings: Vec<Warning> = Vec::new();
    let err = Parser::new("mortal(socrates)").line(&mut warnings).unwrap_err();
    assert_eq!(err.position, 16);
}

#[test]
fn parse_error_join_keeps_the_farthest_position() {
    let mut err = TokenNotFound::new(3, Token::Ident);
    err.join(TokenNotFound::new(7, Token::Implication));
    assert_eq!(err.position, 7);
    assert_eq!(err.expected, vec![Token::Implication]);

    err.join_raw((7, Token::And));
    assert_eq!(err.expected, vec![Token::Implication, Token::And]);

    err.join_raw((2, Token::Comma));
    assert_eq!(err.position, 7);
    assert_eq!(err.expected, vec![Token::Implication, Token::And]);
}

#[test]
fn interpreter_asserts_and_resolves() {
    let mut interpreter = Interpreter::new();
    let mut warnings: Vec<Warning> = Vec::new();
    assert!(matches!(
        interpreter.execute("true => human(socrates)", &mut warnings),
        Ok(None)
    ));
    let values = interpreter
        .execute("human(socrates) => q?", &mut warnings)
        .unwrap()
        .unwrap();
    assert_eq!(values, vec![UnknownValue::True]);
    assert!(warnings.is_empty());
}

#[test]
fn interpreter_applies_free_variable_scopes() {
    let mut interpreter = Interpreter::new();
    let mut warnings: Vec<Warning> = Vec::new();
    interpreter.execute("forall x", &mut warnings).unwrap();
    interpreter
        .execute("  human(x) => mortal(x)", &mut warnings)
        .unwrap();
    interpreter
        .execute("true => human(socrates)", &mut warnings)
        .unwrap();
    let values = interpreter
        .execute("mortal(socrates) => q?", &mut warnings)
        .unwrap()
        .unwrap();
    assert_eq!(values, vec![UnknownValue::True]);
}

#[test]
fn interpreter_rejects_unexpected_indentation() {
    let mut interpreter = Interpreter::new();
    let mut warnings: Vec<Warning> = Vec::new();
    let diagnostic = interpreter
        .execute("  true => a()", &mut warnings)
        .unwrap_err();
    assert_eq!(diagnostic.annotation_type, AnnotationType::Error);
    assert_eq!(diagnostic.msg, "unexpected indentation level");
}

#[test]
fn interpreter_rejects_freed_variables_in_questions() {
    let mut interpreter = Interpreter::new();
    let mut warnings: Vec<Warning> = Vec::new();
    interpreter.execute("forall x", &mut warnings).unwrap();
    let diagnostic = interpreter
        .execute("  human(x) => q?", &mut warnings)
        .unwrap_err();
    assert_eq!(diagnostic.msg, "a free variable may not be used in a question");
}

#[test]
fn interpreter_reports_parse_errors() {
    let mut interpreter = Interpreter::new();
    let mut warnings: Vec<Warning> = Vec::new();
    let diagnostic = interpreter.execute("=>", &mut warnings).unwrap_err();
    assert_eq!(diagnostic.annotation_type, AnnotationType::Error);
    assert_eq!(diagnostic.msg, "expected token was not found");
    assert_eq!(diagnostic.annotations.len(), 1);
}

#[test]
fn interpreter_scope_ends_with_the_first_unindented_rule() {
    let mut interpreter = Interpreter::new();
    let mut warnings: Vec<Warning> = Vec::new();
    interpreter.execute("forall x", &mut warnings).unwrap();
    interpreter
        .execute("  human(x) => mortal(x)", &mut warnings)
        .unwrap();
    // unindented: the scope is over, so x here is a plain constant again
    interpreter
        .execute("true => human(x)", &mut warnings)
        .unwrap();
    let values = interpreter
        .execute("mortal(x) => q?", &mut warnings)
        .unwrap()
        .unwrap();
    assert_eq!(values, vec![UnknownValue::True]);
}

#[test]
fn sanity_warnings_flag_redundant_literals() {
    let mut interpreter = Interpreter::new();
    let mut warnings: Vec<Warning> = Vec::new();
    interpreter
        .execute("p(a) and true => q(b)", &mut warnings)
        .unwrap();
    assert!(warnings
        .iter()
        .any(|w| matches!(w, Warning::RedundantTrue { .. })));
}

#[test]
fn sanity_warnings_flag_purely_literal_clauses() {
    let mut interpreter = Interpreter::new();
    let mut warnings: Vec<Warning> = Vec::new();
    interpreter.execute("true => false", &mut warnings).unwrap();
    assert!(warnings
        .iter()
        .any(|w| matches!(w, Warning::PurelyLiteralClause { .. })));
}

#[test]
fn diagnostics_carry_annotation_structure() {
    let warning = Warning::RedundantTrue { span: Span(4, 8) };
    let diagnostic = Diagnostic::from_warning(&warning);
    assert_eq!(diagnostic.annotation_type, AnnotationType::Warning);
    assert_eq!(diagnostic.msg, "redundant 'true'");
    assert_eq!(diagnostic.annotations.len(), 1);
    assert_eq!(diagnostic.annotations[0].span, Span(4, 8));
}

#[test]
fn annotation_names() {
    assert_eq!(annotation_name(&AnnotationType::Error), "error");
    assert_eq!(annotation_name(&AnnotationType::Warning), "warning");
    assert_eq!(annotation_name(&AnnotationType::Info), "info");
    assert_eq!(annotation_name(&AnnotationType::Note), "note");
    assert_eq!(annotation_name(&AnnotationType::Help), "help");
}

#[test]
fn default_options_are_plain() {
    let options = Options::default();
    assert!(options.file_name.is_none());
    assert!(!options.interactive);
    assert!(!options.no_color);
}

#[test]
fn repl_context_exits_on_file_errors_only() {
    assert!(!ReplContext::Repl.exit_on_error());
    assert!(ReplContext::File(String::from("script")).exit_on_error());
}

#[test]
fn source_context_quotes_the_line() {
    let context = SourceContext::new("script", 3, "a() => b()");
    assert_eq!(context.source(), "script");
    assert_eq!(context.line_no(), 3);
    assert_eq!(context.line(), "a() => b()");
}
