use vstd::prelude::*;

use crate::span::{Span, Spanned};
use crate::text::{append_spaces, spaces};
use vstd::string::{StrSliceExecFns, StringExecFns};

verus! {

/// An error that the reporter can format uniformly: it has a span, and it
/// renders its own message line against the source text.
pub trait Report: Spanned {
    /// The message line, as a function of the source text.
    spec fn spec_message(&self, source: Seq<char>) -> Seq<char>;

    /// True when the error can be reported against `source`: its span is
    /// either the end-of-input sentinel or a region inside the text.
    open spec fn valid_for(&self, source: Seq<char>) -> bool {
        self.spec_span().is_eof() || self.spec_span().valid_for(source.len())
    }

    fn message(&self, source: &str) -> (m: String)
        requires
            self.valid_for(source@),
        ensures
            m@ == self.spec_message(source@),
    ;
}

/// Where the caret line points: the span's start, except that end-of-input
/// errors carry the sentinel span and are anchored at the final character.
pub open spec fn caret_col(source: Seq<char>, span: Span) -> nat {
    if span.is_eof() {
        if source.len() > 0 {
            (source.len() - 1) as nat
        } else {
            0
        }
    } else {
        span.start as nat
    }
}

/// The uniform diagnostic format: one message line, a verbatim copy of the
/// source text, and a caret line pointing at the offending position.
pub open spec fn render(source: Seq<char>, msg: Seq<char>, span: Span) -> Seq<char> {
    "[error]: "@ + msg + "\n"@ + source + "\n"@ + spaces(caret_col(source, span)) + "^ \n"@
}

/// Formats any stage's error against the source text it arose from.
pub struct Reporter<'a> {
    pub source: &'a str,
}

impl<'a> Reporter<'a> {
    pub fn new(source: &'a str) -> (r: Reporter<'a>)
        ensures
            r.source@ == source@,
    {
        Reporter { source }
    }

    /// Formats `err`. The output is a pure function of the error and the
    /// source text, so reporting the same error twice produces
    /// byte-identical output.
    pub fn report<E: Report>(&self, err: &E) -> (out: String)
        requires
            err.valid_for(self.source@),
        ensures
            out@ == render(self.source@, err.spec_message(self.source@), err.spec_span()),
    {
        let mut out = String::new();
        out.append("[error]: ");
        let msg = err.message(self.source);
        out.append(msg.as_str());
        out.append("\n");
        out.append(self.source);
        out.append("\n");
        let span = err.span();
        let len = self.source.unicode_len();
        let col: usize = if span.start == 0 && span.end == 0 {
            if len > 0 {
                len - 1
            } else {
                0
            }
        } else {
            span.start
        };
        append_spaces(&mut out, col);
        out.append("^ \n");
        proof {
            assert(out@ =~= render(
                self.source@,
                err.spec_message(self.source@),
                err.spec_span(),
            ));
        }
        out
    }
}

/// Idempotence of diagnostics: the rendered output is determined by the
/// source, the message, and the span alone, so two reports of the same
/// error object are byte-identical.
pub proof fn lemma_report_deterministic(
    source: Seq<char>,
    msg: Seq<char>,
    span: Span,
    r1: Seq<char>,
    r2: Seq<char>,
)
    requires
        r1 == render(source, msg, span),
        r2 == render(source, msg, span),
    ensures
        r1 == r2,
{
}

} // verus!
