//! The interpreter front end's state: it owns the diagnostic collector
//! that a run mutates, so a caller can inspect the error flag after each
//! run and reset it between prompt lines.

use vstd::prelude::*;

use crate::error_handling::ErrorReporter;
use crate::scanner::rendered;
use crate::scanner::scan_spec;
use crate::scanner::token_views;
use crate::scanner::Scanner;
use crate::scanner::Token;

verus! {

pub struct Lox {
    pub error_reporter: ErrorReporter,
}

impl Lox {
    pub fn new() -> (l: Lox)
        ensures
            !l.error_reporter.had_error,
            l.error_reporter.messages_views() == Seq::<Seq<char>>::empty(),
    {
        Lox { error_reporter: ErrorReporter::new() }
    }

    /// Runs one source buffer: scans it with this interpreter's
    /// diagnostic collector and hands back the token sequence.  The
    /// collector keeps what earlier runs recorded, appends this run's
    /// diagnostics, and its flag stays raised once any run reported one.
    pub fn run(&mut self, src: &str) -> (tokens: Vec<Token>)
        requires
            src@.len() < usize::MAX,
        ensures
            token_views(tokens@) == scan_spec(src@).tokens,
            final(self).error_reporter.messages_views() == old(
                self,
            ).error_reporter.messages_views() + rendered(scan_spec(src@).diags),
            final(self).error_reporter.had_error == (old(self).error_reporter.had_error
                || scan_spec(src@).diags.len() > 0),
    {
        let mut reporter = ErrorReporter::new();
        core::mem::swap(&mut self.error_reporter, &mut reporter);
        let scanner = Scanner::new(reporter, src);
        self.error_reporter = scanner.error_reporter;
        scanner.tokens
    }
}

} // verus!
