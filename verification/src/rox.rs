//! The interpreter's front door: runs the scanner over a source text and
//! keeps track of whether anything was reported.

use vstd::prelude::*;
use crate::errors::{error_views, Error, ErrorView};
use crate::grammar::{scan_errors_of, scan_tokens_of};
use crate::laws::{invalid_count, law_errors_match_invalid_tokens};
use crate::scanner::Scanner;
use crate::token::{token_views, Token, TokenView};
use crate::token_type::TokenType;

verus! {

/// The reports that a run makes of `tokens`: one for each `Invalid` token, in
/// order, on that token's line.
pub open spec fn invalid_reports(tokens: Seq<TokenView>) -> Seq<ErrorView>
    decreases tokens.len(),
{
    if tokens.len() == 0 {
        Seq::empty()
    } else if tokens.last().token_type == TokenType::Invalid {
        invalid_reports(tokens.drop_last()).push(
            ErrorView { line: tokens.last().line, message: "Unexpected Token"@ },
        )
    } else {
        invalid_reports(tokens.drop_last())
    }
}

/// The interpreter's state between runs: whether any run has reported
/// anything yet.
#[derive(Debug)]
pub struct Rox {
    pub had_error: bool,
}

impl Rox {
    pub fn new() -> (rox: Self)
        ensures
            !rox.had_error,
    {
        Rox { had_error: false }
    }

    /// Records that something went wrong on `line` and hands back the report
    /// to show.
    pub fn error(&mut self, line: usize, message: &str) -> (report: Error)
        ensures
            final(self).had_error,
            report@ == (ErrorView { line: line as nat, message: message@ }),
    {
        self.had_error = true;
        Error::new(line, message)
    }

    /// Scans `source` and reports each `Invalid` token. Hands back the tokens
    /// of the scan and the reports to show.
    pub fn run(&mut self, source: &str) -> (outcome: (Vec<Token>, Vec<Error>))
        requires
            source.is_ascii(),
        ensures
            token_views(outcome.0@) == scan_tokens_of(source@),
            error_views(outcome.1@) == invalid_reports(scan_tokens_of(source@)),
            final(self).had_error == (old(self).had_error || invalid_count(
                scan_tokens_of(source@),
            ) > 0),
            final(self).had_error == (old(self).had_error || scan_errors_of(source@).len() > 0),
    {
        proof {
            law_errors_match_invalid_tokens(source@);
        }
        let mut scanner = Scanner::new(source);
        scanner.scan_tokens();
        let (tokens, _) = scanner.into_output();
        let ghost views = token_views(tokens@);
        proof {
            assert(views =~= scan_tokens_of(source@));
        }
        let mut reports: Vec<Error> = Vec::new();
        let mut i: usize = 0;
        proof {
            assert(views.take(0) =~= Seq::<TokenView>::empty());
            assert(error_views(reports@) =~= Seq::<ErrorView>::empty());
        }
        while i < tokens.len()
            invariant
                i <= tokens@.len(),
                views == token_views(tokens@),
                error_views(reports@) == invalid_reports(views.take(i as int)),
                self.had_error == (old(self).had_error || invalid_count(views.take(i as int)) > 0),
            decreases tokens@.len() - i,
        {
            proof {
                assert(views.take(i + 1).drop_last() =~= views.take(i as int));
                assert(views.take(i + 1).last() == tokens@[i as int]@);
            }
            if tokens[i].token_type == TokenType::Invalid {
                let ghost before = reports@;
                let report = self.error(tokens[i].line, "Unexpected Token");
                reports.push(report);
                proof {
                    assert(error_views(reports@) =~= error_views(before).push(report@));
                }
            }
            i += 1;
        }
        proof {
            assert(views.take(i as int) =~= views);
        }
        (tokens, reports)
    }
}

} // verus!
