//! What the chat asks of the exam engine: commands to start and to stop an
//! exam, and answers to the open question.

use crate::answer::{Answer, AnswerView};
use crate::registry::{State, StateView};
use crate::text::{same_text, text_begins_with};
use vstd::prelude::*;

verus! {

/// A command to the exam engine.
#[derive(Debug)]
pub enum ExamCommand {
    /// Start an exam for the user in the channel: the named one, or the
    /// next one for the user's level where none is named.
    Start { user_id: u64, channel_id: u64, exam: Option<String> },
    /// Stop the user's exam.
    Quit { user_id: u64 },
}

/// The mathematical value of an [`ExamCommand`].
pub enum ExamCommandView {
    Start { user_id: u64, channel_id: u64, exam: Option<Seq<char>> },
    Quit { user_id: u64 },
}

/// The text of an optional string.
pub open spec fn optional_text(s: Option<String>) -> Option<Seq<char>> {
    match s {
        Some(s) => Some(s@),
        None => None,
    }
}

impl View for ExamCommand {
    type V = ExamCommandView;

    open spec fn view(&self) -> ExamCommandView {
        match self {
            ExamCommand::Start { user_id, channel_id, exam } => ExamCommandView::Start {
                user_id: *user_id,
                channel_id: *channel_id,
                exam: optional_text(*exam),
            },
            ExamCommand::Quit { user_id } => ExamCommandView::Quit { user_id: *user_id },
        }
    }
}

/// Something that the exam engine has to act on.
#[derive(Debug)]
pub enum ExamEvent {
    Command(ExamCommand),
    /// The user's answer to the open question of the user's exam.
    Answer(u64, String),
}

/// The mathematical value of an [`ExamEvent`].
pub enum ExamEventView {
    Command(ExamCommandView),
    Answer(u64, Seq<char>),
}

impl View for ExamEvent {
    type V = ExamEventView;

    open spec fn view(&self) -> ExamEventView {
        match self {
            ExamEvent::Command(command) => ExamEventView::Command(command@),
            ExamEvent::Answer(user_id, text) => ExamEventView::Answer(*user_id, text@),
        }
    }
}

/// The value of an optional command.
pub open spec fn optional_command(c: Option<ExamCommand>) -> Option<ExamCommandView> {
    match c {
        Some(c) => Some(c@),
        None => None,
    }
}

/// The value of an optional event.
pub open spec fn optional_event(e: Option<ExamEvent>) -> Option<ExamEventView> {
    match e {
        Some(e) => Some(e@),
        None => None,
    }
}

/// The text of an optional string slice.
pub open spec fn optional_str(s: Option<&str>) -> Option<Seq<char>> {
    match s {
        Some(s) => Some(s@),
        None => None,
    }
}

/// The exam that comes after the level that a user holds: the first for a
/// user without a level, none after the sixth.
pub open spec fn next_exam_name(hsk: Option<u32>) -> Option<Seq<char>> {
    match hsk {
        None => Some("hsk1"@),
        Some(level) => if level == 1 {
            Some("hsk2"@)
        } else if level == 2 {
            Some("hsk3"@)
        } else if level == 3 {
            Some("hsk4"@)
        } else if level == 4 {
            Some("hsk5"@)
        } else if level == 5 {
            Some("hsk6"@)
        } else {
            None
        },
    }
}

/// The name of the exam that comes after the level that a user holds.
pub fn next_exam(hsk: Option<u32>) -> (r: Option<&'static str>)
    ensures
        optional_str(r) == next_exam_name(hsk),
{
    match hsk {
        None => Some("hsk1"),
        Some(1) => Some("hsk2"),
        Some(2) => Some("hsk3"),
        Some(3) => Some("hsk4"),
        Some(4) => Some("hsk5"),
        Some(5) => Some("hsk6"),
        Some(6) => None,
        Some(_) => None,
    }
}

/// The exam that a user takes who names none: the one after the user's
/// level, and the sixth again for a user who holds the sixth.
pub fn default_exam(hsk: Option<u32>) -> (r: &'static str)
    ensures
        r@ == match next_exam_name(hsk) {
            Some(name) => name,
            None => "hsk6"@,
        },
{
    match next_exam(hsk) {
        Some(name) => name,
        None => "hsk6",
    }
}

/// How an answer is shown: the text that was given, or a mark for a
/// timeout and for a quit.
pub open spec fn answer_text(answer: AnswerView) -> Seq<char> {
    match answer {
        AnswerView::Correct(s) => s,
        AnswerView::Incorrect(s) => s,
        AnswerView::Timeout => "\\*timeout\\*"@,
        AnswerView::Quit => "\\*quit\\*"@,
    }
}

/// How an answer is shown.
pub fn answer_to_str(answer: &Answer) -> (r: &str)
    ensures
        r@ == answer_text(answer@),
{
    match answer {
        Answer::Correct(s) => s.as_str(),
        Answer::Incorrect(s) => s.as_str(),
        Answer::Timeout => "\\*timeout\\*",
        Answer::Quit => "\\*quit\\*",
    }
}

/// The command that a chat message writes out: `!exam start` and
/// `!exam quit`, to the letter, and nothing else.
pub open spec fn message_command(user_id: u64, channel_id: u64, content: Seq<char>) -> Option<
    ExamCommandView,
> {
    if content == "!exam start"@ {
        Some(ExamCommandView::Start { user_id, channel_id, exam: None })
    } else if content == "!exam quit"@ {
        Some(ExamCommandView::Quit { user_id })
    } else {
        None
    }
}

/// Reads a chat message as a command.
pub fn message_to_exam_command(user_id: u64, channel_id: u64, content: &str) -> (r: Option<
    ExamCommand,
>)
    ensures
        optional_command(r) == message_command(user_id, channel_id, content@),
{
    if same_text(content, "!exam start") {
        Some(ExamCommand::Start { exam: None, user_id, channel_id })
    } else if same_text(content, "!exam quit") {
        Some(ExamCommand::Quit { user_id })
    } else {
        None
    }
}

/// What a chat message means to the exam engine. Messages outside the
/// allowed channels and messages of bots mean nothing; a message that
/// begins with `!exam ` is a command or nothing; any other message is an
/// answer if its author has a running exam.
pub open spec fn message_event(
    state: StateView,
    channel_id: u64,
    author_id: u64,
    author_is_bot: bool,
    content: Seq<char>,
) -> Option<ExamEventView> {
    if !state.is_channel_allowed(channel_id) {
        None
    } else if author_is_bot {
        None
    } else if "!exam "@.is_prefix_of(content) {
        match message_command(author_id, channel_id, content) {
            Some(command) => Some(ExamEventView::Command(command)),
            None => None,
        }
    } else if state.is_user_busy(author_id) {
        Some(ExamEventView::Answer(author_id, content))
    } else {
        None
    }
}

/// Reads a chat message as an event for the exam engine.
pub fn message_to_exam_event(
    state: &State,
    channel_id: u64,
    author_id: u64,
    author_is_bot: bool,
    content: &str,
) -> (r: Option<ExamEvent>)
    ensures
        optional_event(r) == message_event(state@, channel_id, author_id, author_is_bot, content@),
{
    if !state.is_channel_allowed(channel_id) {
        None
    } else if author_is_bot {
        None
    } else if text_begins_with(content, "!exam ") {
        match message_to_exam_command(author_id, channel_id, content) {
            Some(exam_command) => Some(ExamEvent::Command(exam_command)),
            None => None,
        }
    } else if state.is_user_busy(author_id) {
        Some(ExamEvent::Answer(author_id, content.to_owned()))
    } else {
        None
    }
}

/// The command that an `exam` slash command gives: `start`, with the exam
/// that it names if it names one, or `quit`. A command of another name
/// gives nothing.
pub open spec fn slash_command(
    command_name: Seq<char>,
    subcommand_name: Seq<char>,
    user_id: u64,
    channel_id: u64,
    exam: Option<Seq<char>>,
) -> Option<ExamCommandView> {
    if command_name != "exam"@ {
        None
    } else if subcommand_name == "start"@ {
        Some(ExamCommandView::Start { user_id, channel_id, exam })
    } else if subcommand_name == "quit"@ {
        Some(ExamCommandView::Quit { user_id })
    } else {
        None
    }
}

/// Reads a slash command. An `exam` command has one of the subcommands
/// `start` and `quit`.
pub fn parse_exam_command(
    command_name: &str,
    subcommand_name: &str,
    user_id: u64,
    channel_id: u64,
    exam: Option<String>,
) -> (r: Option<ExamCommand>)
    requires
        command_name@ == "exam"@ ==> subcommand_name@ == "start"@ || subcommand_name@ == "quit"@,
    ensures
        optional_command(r) == slash_command(
            command_name@,
            subcommand_name@,
            user_id,
            channel_id,
            optional_text(exam),
        ),
{
    if !same_text(command_name, "exam") {
        None
    } else if same_text(subcommand_name, "start") {
        Some(ExamCommand::Start { user_id, channel_id, exam })
    } else {
        Some(ExamCommand::Quit { user_id })
    }
}

} // verus!
