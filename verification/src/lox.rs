//! Top level of the front end: running one source buffer through the
//! scanner, the parser and the printer, and the highest error the
//! application reports. Reading files, the interactive prompt, and printing
//! are the shell's responsibility, outside this library.

use vstd::prelude::*;
use crate::parser::{parse, spec_expression, SpecParsed};
use crate::scanner::{error_views, lemma_scan_shape, scan_tokens, spec_scan, token_views};
use crate::syntax::{spec_render, AstPrinter};

verus! {

/// Relies on std::io::Error as an opaque type only: it is carried through
/// `LoxError` for the shell, and nothing in the library reads it.
#[verifier::external_type_specification]
#[verifier::external_body]
pub struct ExIoError(std::io::Error);

/// Highest error that is returned by the application: an input/output
/// failure of the shell, a source with lexical diagnostics, or a source that
/// failed to parse.
#[derive(Debug)]
pub enum LoxError {
    IoError(std::io::Error),
    Scanning,
    Parsing,
}

impl From<std::io::Error> for LoxError {
    /// Wraps a shell input/output failure.
    fn from(value: std::io::Error) -> (r: Self) {
        LoxError::IoError(value)
    }
}

impl vstd::std_specs::convert::FromSpecImpl<std::io::Error> for LoxError {
    open spec fn obeys_from_spec() -> bool {
        true
    }

    open spec fn from_spec(v: std::io::Error) -> Self {
        LoxError::IoError(v)
    }
}

/// Runs one source buffer through the front end: scans it, and, only when no
/// lexical diagnostic was found, parses it and renders the expression in
/// parenthesized prefix form. A source with lexical diagnostics fails with
/// `Scanning` without being parsed; a source that does not parse fails with
/// `Parsing`.
pub fn run(source: &str) -> (r: Result<String, LoxError>)
    requires
        source@.len() < usize::MAX as nat,
    ensures
        ({
            let sc = spec_scan(source@);
            if sc.errors.len() > 0 {
                r matches Err(e) && e is Scanning
            } else {
                match spec_expression(sc.tokens, 0) {
                    SpecParsed::Parsed { expr, next } => r matches Ok(text) && text@
                        == spec_render(expr),
                    SpecParsed::Failed { token, message } => r matches Err(e) && e is Parsing,
                }
            }
        }),
{
    let (tokens, errors) = scan_tokens(source);
    if errors.len() > 0 {
        proof {
            assert(error_views(errors@).len() > 0);
        }
        return Err(LoxError::Scanning);
    }
    proof {
        assert(error_views(errors@).len() == 0);
        lemma_scan_shape(source@);
        assert(token_views(tokens@) == spec_scan(source@).tokens);
    }
    let expr = match parse(tokens) {
        Ok(e) => e,
        Err(_) => {
            return Err(LoxError::Parsing);
        },
    };
    let printer = AstPrinter;
    Ok(printer.render(&expr))
}

} // verus!
