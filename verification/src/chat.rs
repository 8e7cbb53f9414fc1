//! Chat rules: choosing a nickname, what is published for a typed line, and
//! how a received message is rendered.

use vstd::prelude::*;
use vstd::utf8::*;
use crate::text::{
    trim, trimmed, trim_start, trim_end, is_white_space, from_utf8_lossy, lossy_utf8,
    lemma_trimmed_idempotent,
};

verus! {

/// Separator between the nickname and the text of a published line.
pub const SEPARATOR: &'static str = "> ";

/// A lowercase ASCII letter.
pub open spec fn is_lower_letter(c: char) -> bool {
    'a' <= c <= 'z'
}

/// The shape of every generated name: lowercase ASCII letters and '-', with a
/// letter at each end and at least one '-' (between the adjective and the
/// noun).
pub open spec fn is_generated_name(name: Seq<char>) -> bool {
    &&& name.len() > 0
    &&& forall|i: int| 0 <= i < name.len() ==> is_lower_letter(#[trigger] name[i]) || name[i] == '-'
    &&& is_lower_letter(name[0])
    &&& is_lower_letter(name.last())
    &&& exists|i: int| 0 <= i < name.len() && name[i] == '-'
}

/// Calls `names::Generator::default().next()`. The default generator joins a
/// random adjective and a random noun with '-' and always yields `Some`; every
/// word of its lists is made of lowercase ASCII letters and '-' and begins and
/// ends with a letter. Which words it picks depends on chance and is not
/// stated.
#[verifier::external_body]
fn generated_name() -> (name: String)
    ensures
        is_generated_name(name@),
{
    names::Generator::default().next().unwrap()
}

/// The nickname a user gets: the text they entered without surrounding white
/// space, or a generated name when that is empty. The flag tells whether the
/// name was generated.
pub fn choose_nickname(entered: &str) -> (res: (String, bool))
    ensures
        trimmed(entered@).len() > 0 ==> res.0@ == trimmed(entered@) && !res.1,
        trimmed(entered@).len() == 0 ==> res.1 && is_generated_name(res.0@),
        res.0@.len() > 0,
{
    let nickname = trim(entered);
    if !nickname.is_empty() {
        (nickname.to_owned(), false)
    } else {
        (generated_name(), true)
    }
}

/// A generated nickname, entered again, is kept as it is: it has no
/// surrounding white space, so `choose_nickname` finds it non-blank and
/// returns it unchanged.
pub proof fn lemma_generated_nickname_is_stable(name: Seq<char>)
    requires
        is_generated_name(name),
    ensures
        trimmed(name) == name,
        trimmed(name).len() > 0,
{
    assert(!is_white_space(name[0]));
    assert(trim_start(name) == name);
    assert(!is_white_space(name.last()));
    assert(trim_end(name) == name);
}

/// A nickname taken from entered text is kept as it is when it is entered
/// again: `choose_nickname` then finds it non-blank and returns it unchanged.
pub proof fn lemma_entered_nickname_is_stable(entered: Seq<char>)
    requires
        trimmed(entered).len() > 0,
    ensures
        trimmed(trimmed(entered)).len() > 0,
        trimmed(trimmed(entered)) == trimmed(entered),
{
    lemma_trimmed_idempotent(entered);
}

/// The line published for `line` typed by `nickname`: "nickname> line".
pub open spec fn outgoing_line(nickname: Seq<char>, line: Seq<char>) -> Seq<char> {
    nickname + SEPARATOR@ + line
}

/// A published line is the whole nickname, then '>' and a space, then the
/// whole typed line, and nothing else.
pub proof fn lemma_outgoing_line_parts(nickname: Seq<char>, line: Seq<char>)
    ensures
        outgoing_line(nickname, line).len() == nickname.len() + 2 + line.len(),
        outgoing_line(nickname, line).subrange(0, nickname.len() as int) == nickname,
        outgoing_line(nickname, line)[nickname.len() as int] == '>',
        outgoing_line(nickname, line)[nickname.len() + 1int] == ' ',
        outgoing_line(nickname, line).subrange(
            nickname.len() + 2int,
            outgoing_line(nickname, line).len() as int,
        ) == line,
{
    reveal_strlit("> ");
    let m = outgoing_line(nickname, line);
    assert(SEPARATOR@ =~= seq!['>', ' ']);
    assert(m.subrange(0, nickname.len() as int) =~= nickname);
    assert(m.subrange(nickname.len() + 2int, m.len() as int) =~= line);
}

/// The text published when `nickname` types `line`.
pub fn format_outgoing(nickname: &str, line: &str) -> (msg: String)
    ensures
        msg@ == outgoing_line(nickname@, line@),
        msg@.len() == nickname@.len() + 2 + line@.len(),
        msg@.subrange(0, nickname@.len() as int) == nickname@,
        msg@.subrange(nickname@.len() + 2int, msg@.len() as int) == line@,
{
    proof {
        lemma_outgoing_line_parts(nickname@, line@);
    }
    let mut msg = nickname.to_owned();
    msg.append(SEPARATOR);
    msg.append(line);
    msg
}

/// What polling the console produced.
pub enum StdinEvent {
    /// A complete line was typed.
    Line(String),
    /// The console was closed.
    Closed,
    /// No complete line is available yet.
    Pending,
}

/// What to do after polling the console.
pub enum StdinAction {
    /// Publish this text on the chat topic and poll again.
    Publish(String),
    /// Stop reading the console for now.
    Stop,
}

/// The chat's reaction to one console event.
pub fn on_stdin(nickname: &str, event: StdinEvent) -> (action: StdinAction)
    ensures
        match event {
            StdinEvent::Line(line) => action matches StdinAction::Publish(msg)
                && msg@ == outgoing_line(nickname@, line@),
            _ => action is Stop,
        },
{
    match event {
        StdinEvent::Line(line) => StdinAction::Publish(format_outgoing(nickname, line.as_str())),
        _ => StdinAction::Stop,
    }
}

/// The text shown for a received message: its bytes decoded as UTF-8, with
/// invalid sequences replaced.
pub fn incoming_text(data: &[u8]) -> (text: String)
    ensures
        text@ == lossy_utf8(data@),
        valid_utf8(data@) ==> text@ == decode_utf8(data@),
{
    from_utf8_lossy(data)
}

} // verus!
