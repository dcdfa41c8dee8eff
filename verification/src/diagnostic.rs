//! What the parser reports about its input while it recovers from it.

use vstd::prelude::*;
use crate::ast::Span;
use crate::text::{chars_of, decimal, decimal_of, push_all, string_of};
use crate::token::FenceChar;

verus! {

/// A problem found in the input.
#[derive(Debug, Clone)]
pub enum ParseIssue {
    /// A fenced code block, opened by a fence of this character and
    /// length, never closed: the rest of the input became code.
    UnterminatedFence(FenceChar, usize),
    /// An end tag with this name opened a raw HTML block: nothing in the
    /// block opened it. It is kept as raw HTML.
    OrphanCloseTag(String),
    /// An inline link's destination did not close before the end of the
    /// line: the link is kept as literal text.
    UnterminatedLink,
}

/// One report: what, and where.
#[derive(Debug, Clone)]
pub struct Diagnostic {
    pub issue: ParseIssue,
    pub span: Span,
}

/// The stable code of an issue.
pub open spec fn issue_code(i: ParseIssue) -> Seq<char> {
    match i {
        ParseIssue::UnterminatedFence(_, _) => "P004"@,
        ParseIssue::OrphanCloseTag(_) => "P010"@,
        ParseIssue::UnterminatedLink => "P001"@,
    }
}

/// The one-line message of an issue.
pub open spec fn issue_message(i: ParseIssue) -> Seq<char> {
    match i {
        ParseIssue::UnterminatedFence(_, _) => "fenced code block never found a matching closing fence; treating the rest of the file as code"@,
        ParseIssue::OrphanCloseTag(name) => "orphan close tag `</"@ + name@
            + ">` has no matching opener in this block; preserving it as raw HTML"@,
        ParseIssue::UnterminatedLink => "inline link destination did not close before the end of the line; treating it as literal text"@,
    }
}

/// The fence character as text.
pub open spec fn fence_text(c: FenceChar) -> Seq<char> {
    match c {
        FenceChar::Backtick => "`"@,
        FenceChar::Tilde => "~"@,
    }
}

/// What the author can do about an issue.
pub open spec fn issue_help(i: ParseIssue) -> Seq<char> {
    match i {
        ParseIssue::UnterminatedFence(c, n) => "add a closing fence with at least "@ + decimal(n as nat) + " `"@
            + fence_text(c) + "` characters"@,
        ParseIssue::OrphanCloseTag(_) => "add the matching opening tag earlier in the block, or escape the leading `<` if this should render as text"@,
        ParseIssue::UnterminatedLink => "add a closing `)` to finish `[text](...)`, or escape the `[` if this should stay literal"@,
    }
}

impl Diagnostic {
    pub fn code(&self) -> (r: String)
        ensures
            r@ == issue_code(self.issue),
    {
        match &self.issue {
            ParseIssue::UnterminatedFence(_, _) => string_of(&chars_of("P004")),
            ParseIssue::OrphanCloseTag(_) => string_of(&chars_of("P010")),
            ParseIssue::UnterminatedLink => string_of(&chars_of("P001")),
        }
    }

    pub fn message(&self) -> (r: String)
        ensures
            r@ == issue_message(self.issue),
    {
        match &self.issue {
            ParseIssue::UnterminatedFence(_, _) => string_of(
                &chars_of(
                    "fenced code block never found a matching closing fence; treating the rest of the file as code",
                ),
            ),
            ParseIssue::UnterminatedLink => string_of(
                &chars_of(
                    "inline link destination did not close before the end of the line; treating it as literal text",
                ),
            ),
            ParseIssue::OrphanCloseTag(name) => {
                let mut v = chars_of("orphan close tag `</");
                push_all(&mut v, &chars_of(name.as_str()));
                push_all(&mut v, &chars_of(">` has no matching opener in this block; preserving it as raw HTML"));
                string_of(&v)
            },
        }
    }

    pub fn help(&self) -> (r: String)
        ensures
            r@ == issue_help(self.issue),
    {
        match &self.issue {
            ParseIssue::UnterminatedLink => string_of(
                &chars_of("add a closing `)` to finish `[text](...)`, or escape the `[` if this should stay literal"),
            ),
            ParseIssue::OrphanCloseTag(_) => string_of(
                &chars_of(
                    "add the matching opening tag earlier in the block, or escape the leading `<` if this should render as text",
                ),
            ),
            ParseIssue::UnterminatedFence(c, n) => {
                let mut v = chars_of("add a closing fence with at least ");
                push_all(&mut v, &decimal_of(*n as u64));
                push_all(&mut v, &chars_of(" `"));
                let f = match c {
                    FenceChar::Backtick => chars_of("`"),
                    FenceChar::Tilde => chars_of("~"),
                };
                push_all(&mut v, &f);
                push_all(&mut v, &chars_of("` characters"));
                string_of(&v)
            },
        }
    }
}

} // verus!
