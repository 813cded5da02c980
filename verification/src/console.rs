//! What is said on the host's command line.

use vstd::prelude::*;

verus! {

/// A line for the command line.
#[derive(Debug, Clone, PartialEq, Eq)]
pub enum Reply {
    /// Advice, such as how a command is used.
    Info(String),
    /// A result.
    Output(String),
    /// Why a command was refused.
    Error(String),
}

/// A reply as a text.
pub enum Said {
    Info(Seq<char>),
    Output(Seq<char>),
    Error(Seq<char>),
}

impl View for Reply {
    type V = Said;

    open spec fn view(&self) -> Said {
        match self {
            Reply::Info(s) => Said::Info(s@),
            Reply::Output(s) => Said::Output(s@),
            Reply::Error(s) => Said::Error(s@),
        }
    }
}

/// Replies as texts.
pub open spec fn replies(list: Seq<Reply>) -> Seq<Said> {
    list.map_values(|r: Reply| r@)
}

/// Adding a reply adds its text.
pub proof fn lemma_replies_push(list: Seq<Reply>, r: Reply)
    ensures
        replies(list.push(r)) == replies(list).push(r@),
{
    assert(replies(list.push(r)) =~= replies(list).push(r@));
}

/// A file that cannot be read.
pub open spec fn unreadable(command: Seq<char>, path: Seq<char>, why: Seq<char>) -> Said {
    Said::Error(command + ": cannot read \""@ + path + "\": "@ + why)
}

/// Says that a file cannot be read, and why.
pub fn cannot_read(command: &str, path: &str, why: &str) -> (r: Reply)
    ensures
        r@ == unreadable(command@, path@, why@),
{
    Reply::Error(
        command.to_string().concat(": cannot read \"").concat(path).concat("\": ").concat(why),
    )
}

/// Gives advice.
pub fn info(s: &str) -> (r: Reply)
    ensures
        r@ == Said::Info(s@),
{
    Reply::Info(s.to_string())
}

} // verus!
