//! User-facing diagnostics: structured messages with span annotations.
//! The core only builds the structure; rendering belongs to the driver.

use vstd::prelude::*;
use crate::error::Error;
use crate::parse_error::TokenNotFound;
use crate::span::Span;
use crate::warning::Warning;

verus! {

/// The severity or role of a diagnostic or one of its annotations.
#[derive(Debug, Clone, Copy, PartialEq, Eq, Structural)]
pub enum AnnotationType {
    Error,
    Warning,
    Info,
    Note,
    Help,
}

/// One annotated span inside the quoted line.
#[derive(Debug)]
pub struct Annotation {
    pub annotation_type: AnnotationType,
    pub span: Span,
    pub msg: String,
}

/// A structured, renderable message about one line of input.
#[derive(Debug)]
pub struct Diagnostic {
    pub code: Option<usize>,
    pub annotation_type: AnnotationType,
    pub annotations: Vec<Annotation>,
    pub msg: String,
    pub note: Option<String>,
}

impl Diagnostic {
    /// The diagnostic for a failed parse: an error pointing at the
    /// position where an expected token was not found.
    pub fn from_parse_error(err: &TokenNotFound) -> (r: Diagnostic)
        ensures
            r.annotation_type == AnnotationType::Error,
            r.msg@ == "expected token was not found"@,
            r.annotations@.len() == 1,
            r.annotations@[0].annotation_type == AnnotationType::Info,
            r.annotations@[0].span.0 == err.position,
            r.code is None,
            r.note is None,
    {
        let end = if err.position < usize::MAX - 1 {
            err.position + 1
        } else {
            err.position
        };
        let mut annotations: Vec<Annotation> = Vec::new();
        annotations.push(
            Annotation {
                annotation_type: AnnotationType::Info,
                span: Span(err.position, end),
                msg: String::from_str("expected a different token here"),
            },
        );
        Diagnostic {
            code: None,
            annotation_type: AnnotationType::Error,
            annotations,
            msg: String::from_str("expected token was not found"),
            note: None,
        }
    }

    /// The diagnostic for a semantic error.
    pub fn from_error(err: &Error) -> (r: Diagnostic)
        ensures
            r.annotation_type == AnnotationType::Error,
            r.annotations@.len() == 1,
            r.annotations@[0].annotation_type == AnnotationType::Info,
            err matches Error::UnexpectedIndent ==> r.msg@ == "unexpected indentation level"@
                && r.annotations@[0].span == Span(0, 0),
            err matches Error::FreedVarInQuestion { span } ==> r.msg@
                == "a free variable may not be used in a question"@ && r.annotations@[0].span
                == span,
            r.code is None,
    {
        let mut annotations: Vec<Annotation> = Vec::new();
        match err {
            Error::UnexpectedIndent => {
                annotations.push(
                    Annotation {
                        annotation_type: AnnotationType::Info,
                        span: Span(0, 0),
                        msg: String::from_str("expected no indentation"),
                    },
                );
                Diagnostic {
                    code: None,
                    annotation_type: AnnotationType::Error,
                    annotations,
                    msg: String::from_str("unexpected indentation level"),
                    note: Some(
                        String::from_str(
                            "any number of spaces or tabs at the beginning of a line counts as indentation",
                        ),
                    ),
                }
            },
            Error::FreedVarInQuestion { span } => {
                annotations.push(
                    Annotation {
                        annotation_type: AnnotationType::Info,
                        span: *span,
                        msg: String::from_str("this variable was previously freed"),
                    },
                );
                Diagnostic {
                    code: None,
                    annotation_type: AnnotationType::Error,
                    annotations,
                    msg: String::from_str("a free variable may not be used in a question"),
                    note: Some(
                        String::from_str(
                            "free variables in questions are intended for a future release",
                        ),
                    ),
                }
            },
        }
    }

    /// The diagnostic for a warning.
    pub fn from_warning(warning: &Warning) -> (r: Diagnostic)
        ensures
            r.annotation_type == AnnotationType::Warning,
            r.annotations@.len() >= 1,
            r.code is None,
    {
        let mut annotations: Vec<Annotation> = Vec::new();
        match warning {
            Warning::DuplicateScopedVariable { first_declaration, second_declaration } => {
                annotations.push(
                    Annotation {
                        annotation_type: AnnotationType::Info,
                        span: *first_declaration,
                        msg: String::from_str("the variable is first declared here"),
                    },
                );
                annotations.push(
                    Annotation {
                        annotation_type: AnnotationType::Info,
                        span: *second_declaration,
                        msg: String::from_str("then declared a second time here"),
                    },
                );
                Diagnostic {
                    code: None,
                    annotation_type: AnnotationType::Warning,
                    annotations,
                    msg: String::from_str("a free variable was declared multiple times"),
                    note: None,
                }
            },
            Warning::RedundantTrue { span } => {
                annotations.push(
                    Annotation {
                        annotation_type: AnnotationType::Info,
                        span: *span,
                        msg: String::from_str("'true' in this position does nothing"),
                    },
                );
                Diagnostic {
                    code: None,
                    annotation_type: AnnotationType::Warning,
                    annotations,
                    msg: String::from_str("redundant 'true'"),
                    note: Some(
                        String::from_str("the expression 'true and x' always evaluates to 'x'"),
                    ),
                }
            },
            Warning::NullifyingFalse { span } => {
                annotations.push(
                    Annotation {
                        annotation_type: AnnotationType::Info,
                        span: *span,
                        msg: String::from_str(
                            "this 'false' makes the entire and-chain false, preventing any conclusions about the other atoms",
                        ),
                    },
                );
                Diagnostic {
                    code: None,
                    annotation_type: AnnotationType::Warning,
                    annotations,
                    msg: String::from_str("nullifying 'false'"),
                    note: None,
                }
            },
            Warning::RedundantFalse { span } => {
                annotations.push(
                    Annotation {
                        annotation_type: AnnotationType::Info,
                        span: *span,
                        msg: String::from_str("this 'false' can imply anything"),
                    },
                );
                Diagnostic {
                    code: None,
                    annotation_type: AnnotationType::Warning,
                    annotations,
                    msg: String::from_str("meaningless implication"),
                    note: Some(String::from_str("'false' implies both 'true' and 'false'")),
                }
            },
            Warning::PurelyLiteralClause { span } => {
                annotations.push(
                    Annotation {
                        annotation_type: AnnotationType::Info,
                        span: *span,
                        msg: String::from_str(
                            "this clause does not contain any variables, and is therefore useless",
                        ),
                    },
                );
                Diagnostic {
                    code: None,
                    annotation_type: AnnotationType::Warning,
                    annotations,
                    msg: String::from_str("purely literal clause"),
                    note: None,
                }
            },
        }
    }
}

} // verus!
