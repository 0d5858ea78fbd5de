//! Parse errors: a message, the place it refers to, and the constructs being read.
use vstd::prelude::*;
use vstd::string::StringExecFns;
use crate::domain::Span;
use crate::text::{decimal, decimal_digits};

verus! {

/// An error found while reading tokens.
#[derive(Debug)]
pub struct ParseError {
    pub message: String,
    pub span: Span,
    pub context: Vec<String>,
}

/// The lines naming the contexts `ctx[0..n]`, innermost (last pushed) first.
pub open spec fn context_lines(ctx: Seq<String>, n: int) -> Seq<char>
    decreases n,
{
    if n <= 0 {
        Seq::<char>::empty()
    } else {
        "\n  in "@ + ctx[n - 1]@ + context_lines(ctx, n - 1)
    }
}

/// Adding contexts after the first `n` leaves the lines of those `n` unchanged.
proof fn lemma_context_lines_prefix(ctx: Seq<String>, c: String, n: int)
    requires
        0 <= n <= ctx.len(),
    ensures
        context_lines(ctx.push(c), n) == context_lines(ctx, n),
    decreases n,
{
    if n > 0 {
        lemma_context_lines_prefix(ctx, c, n - 1);
    }
}

/// An error renders its newest context first: adding the context `c` puts its line right
/// after the message, ahead of every line that was there before.
pub proof fn law_newest_context_first(ctx: Seq<String>, c: String)
    ensures
        context_lines(ctx.push(c), ctx.len() as int + 1) == "\n  in "@ + c@ + context_lines(
            ctx,
            ctx.len() as int,
        ),
{
    lemma_context_lines_prefix(ctx, c, ctx.len() as int);
    assert(ctx.push(c)[ctx.len() as int] == c);
}

impl ParseError {
    /// An error with no context.
    pub fn new(message: String, span: Span) -> (e: ParseError)
        ensures
            e.message == message,
            e.span == span,
            e.context@.len() == 0,
    {
        ParseError { message, span, context: Vec::new() }
    }

    /// The same error, read inside one more construct `ctx`.
    pub fn with_context(self, ctx: String) -> (e: ParseError)
        ensures
            e.message == self.message,
            e.span == self.span,
            e.context@ == self.context@.push(ctx),
    {
        let mut e = self;
        e.context.push(ctx);
        e
    }

    /// The text of the error: its place, its message, then one line per context,
    /// innermost first.
    pub open spec fn rendered(&self) -> Seq<char> {
        "error at "@ + decimal_digits(self.span.start as nat) + ".."@ + decimal_digits(
            self.span.end as nat,
        ) + ": "@ + self.message@ + context_lines(self.context@, self.context@.len() as int)
    }

    /// The text of the error, as `rendered` states it.
    pub fn render(&self) -> (r: String)
        ensures
            r@ == self.rendered(),
    {
        let mut tail = String::new();
        let mut i: usize = 0;
        while i < self.context.len()
            invariant
                i <= self.context@.len(),
                tail@ == context_lines(self.context@, i as int),
            decreases self.context@.len() - i,
        {
            let mut line = String::from_str("\n  in ");
            line.append(self.context[i].as_str());
            line.append(tail.as_str());
            proof {
                reveal_strlit("\n  in ");
            }
            tail = line;
            i = i + 1;
        }
        let mut out = String::from_str("error at ");
        let a = decimal(self.span.start as u64);
        out.append(a.as_str());
        out.append("..");
        let b = decimal(self.span.end as u64);
        out.append(b.as_str());
        out.append(": ");
        out.append(self.message.as_str());
        out.append(tail.as_str());
        out
    }
}

} // verus!
