//! The interactive session's decisions, one input line at a time.
//!
//! The session starts by asking whether to open a new conversation
//! (`prompt_for_conv`), possibly selects an old one (`store::select_step`),
//! then chats turn by turn until the user asks to leave (`chat_step`).
//! The surrounding program reads the lines and performs the answers; every
//! decision about a line is made — and proved — here.

use vstd::prelude::*;

use crate::strutil::{str_chars, trim, trim_spec};

verus! {

/// The answer to the new-conversation question.
#[derive(Clone, Copy, PartialEq, Eq, Structural, Debug)]
pub enum Answer {
    /// Start a new conversation: an empty line, `y` or `Y`.
    Yes,
    /// Resume an old conversation: `n` or `N`.
    No,
    /// Anything else: ask again.
    AskAgain,
}

/// How a trimmed answer line is read: empty or `y`/`Y` is yes, `n`/`N` is
/// no, anything else must be asked again.
pub open spec fn answer_of(t: Seq<char>) -> Answer {
    if t.len() == 0 {
        Answer::Yes
    } else if t.len() == 1 && (t[0] == 'y' || t[0] == 'Y') {
        Answer::Yes
    } else if t.len() == 1 && (t[0] == 'n' || t[0] == 'N') {
        Answer::No
    } else {
        Answer::AskAgain
    }
}

/// The new-conversation prompt's reading of one input line.
pub fn prompt_for_conv(input: &str) -> (r: Answer)
    ensures
        r == answer_of(trim_spec(input@)),
{
    let t = trim(input);
    let v = str_chars(t.as_str());
    if v.len() == 0 {
        Answer::Yes
    } else if v.len() == 1 && (v[0] == 'y' || v[0] == 'Y') {
        Answer::Yes
    } else if v.len() == 1 && (v[0] == 'n' || v[0] == 'N') {
        Answer::No
    } else {
        Answer::AskAgain
    }
}

/// A trimmed line that ends the chat: `exit` in any mix of case.
pub open spec fn is_exit_command(t: Seq<char>) -> bool {
    t.len() == 4 && (t[0] == 'e' || t[0] == 'E') && (t[1] == 'x' || t[1] == 'X') && (t[2] == 'i'
        || t[2] == 'I') && (t[3] == 't' || t[3] == 'T')
}

/// One chat turn's reading of an input line.
pub enum ChatStep {
    /// The line asked to leave: close the session and save.
    Exit,
    /// An ordinary turn: the trimmed message to render and forward.
    Say(String),
}

/// Reads one chat input line: the exit sentinel closes the session, any
/// other line is the next message, trimmed.
pub fn chat_step(input: &str) -> (r: ChatStep)
    ensures
        match r {
            ChatStep::Exit => is_exit_command(trim_spec(input@)),
            ChatStep::Say(m) => m@ == trim_spec(input@) && !is_exit_command(trim_spec(input@)),
        },
{
    let t = trim(input);
    let v = str_chars(t.as_str());
    if v.len() == 4 && (v[0] == 'e' || v[0] == 'E') && (v[1] == 'x' || v[1] == 'X') && (v[2] == 'i'
        || v[2] == 'I') && (v[3] == 't' || v[3] == 'T') {
        ChatStep::Exit
    } else {
        ChatStep::Say(t)
    }
}

} // verus!
