//! The local command surface: what a line from the user asks for, what to
//! ask of the store and of the replicator for it, and what to answer.

use crate::control_plane::ControlCommand;
use crate::db::{ClipboardEntry, DBCommand, EntryView, Response};
use crate::key::{fresh_key, key_text, ulid_text, ulid_value};
use crate::text::{
    decimal, decimal_round_trip, decimal_text, decimal_usize, is_space, join, joined,
    lemma_decimal_text_plain, lemma_split_joined, lemma_trimmed_plain, parse_decimal, pieces,
    split, split_at_space, split_once, starts_with, strip_prefix, texts, trim, trimmed,
};
use vstd::prelude::*;

verus! {

/// How many entries the history lists.
pub const HISTORY_LIMIT: u64 = 20;

/// A command of the user as mathematics.
pub enum CommandView {
    Upload { file_name: Seq<char>, file_path: Seq<char> },
    Download { file_name: Seq<char>, file_path: Seq<char> },
    Files,
    Copy,
    Paste { offset: usize },
    History,
    Other { text: Seq<char> },
}

/// A command of the user.
#[derive(Debug, PartialEq, Eq)]
pub enum Command {
    /// Store the file at the path under the name.
    Upload { file_name: String, file_path: String },
    /// Write the file of the name to the path.
    Download { file_name: String, file_path: String },
    /// List the stored files.
    Files,
    /// Take what the clipboard holds into the log.
    Copy,
    /// Put the entry that is `offset` places behind the newest on the
    /// clipboard.
    Paste { offset: usize },
    /// List the newest entries.
    History,
    /// Anything else; the line as it came, without the white space around it.
    Other { text: String },
}

impl View for Command {
    type V = CommandView;

    open spec fn view(&self) -> CommandView {
        match self {
            Command::Upload { file_name, file_path } => CommandView::Upload {
                file_name: file_name@,
                file_path: file_path@,
            },
            Command::Download { file_name, file_path } => CommandView::Download {
                file_name: file_name@,
                file_path: file_path@,
            },
            Command::Files => CommandView::Files,
            Command::Copy => CommandView::Copy,
            Command::Paste { offset } => CommandView::Paste { offset: *offset },
            Command::History => CommandView::History,
            Command::Other { text } => CommandView::Other { text: text@ },
        }
    }
}

/// The name and the path that follow the word of an upload or a download:
/// the name ends at the first space.
pub open spec fn name_and_path(args: Seq<char>) -> Option<(Seq<char>, Seq<char>)> {
    split_at_space(args)
}

/// What a line asks for. White space around the line does not count. The
/// words are tried in this order: `upload` and `download`, each with a name
/// and a path; `files`; `copy`; `paste` with an offset in decimal digits;
/// `history`. A line that fits none of them is `Other`.
pub open spec fn understood(line: Seq<char>) -> CommandView {
    let command = trimmed(line);
    if starts_with(command, "upload "@) {
        match name_and_path(command.skip("upload "@.len() as int)) {
            Some((file_name, file_path)) => CommandView::Upload { file_name, file_path },
            None => CommandView::Other { text: command },
        }
    } else if starts_with(command, "download "@) {
        match name_and_path(command.skip("download "@.len() as int)) {
            Some((file_name, file_path)) => CommandView::Download { file_name, file_path },
            None => CommandView::Other { text: command },
        }
    } else if command == "files"@ {
        CommandView::Files
    } else if command == "copy"@ {
        CommandView::Copy
    } else if starts_with(command, "paste "@) {
        match decimal_usize(command.skip("paste "@.len() as int)) {
            Some(offset) => CommandView::Paste { offset },
            None => CommandView::Other { text: command },
        }
    } else if command == "history"@ {
        CommandView::History
    } else {
        CommandView::Other { text: command }
    }
}

/// Reads a line from the user.
pub fn parse_command(line: &str) -> (command: Command)
    ensures
        command@ == understood(line@),
{
    let command = trim(line);
    if let Some(args) = strip_prefix(command, "upload ") {
        return match split_once(args) {
            Some((file_name, file_path)) => Command::Upload {
                file_name: file_name.to_owned(),
                file_path: file_path.to_owned(),
            },
            None => Command::Other { text: command.to_owned() },
        };
    }
    if let Some(args) = strip_prefix(command, "download ") {
        return match split_once(args) {
            Some((file_name, file_path)) => Command::Download {
                file_name: file_name.to_owned(),
                file_path: file_path.to_owned(),
            },
            None => Command::Other { text: command.to_owned() },
        };
    }
    if command.eq("files") {
        return Command::Files;
    }
    if command.eq("copy") {
        return Command::Copy;
    }
    if let Some(digits) = strip_prefix(command, "paste ") {
        return match parse_decimal(digits) {
            Some(offset) => Command::Paste { offset },
            None => Command::Other { text: command.to_owned() },
        };
    }
    if command.eq("history") {
        return Command::History;
    }
    Command::Other { text: command.to_owned() }
}

/// What to ask of the store for a command that only reads it: a paste reads
/// at its offset, the history lists `HISTORY_LIMIT` names. The other
/// commands ask nothing of the store by themselves.
pub fn request(command: &Command) -> (cmd: Option<DBCommand>)
    ensures
        match command@ {
            CommandView::Paste { offset } => cmd matches Some(DBCommand::Paste { offset: asked })
                && asked == offset,
            CommandView::History => cmd matches Some(DBCommand::History { limit }) && limit
                == HISTORY_LIMIT,
            _ => cmd is None,
        },
{
    match command {
        Command::Paste { offset } => Some(DBCommand::Paste { offset: *offset }),
        Command::History => Some(DBCommand::History { limit: HISTORY_LIMIT }),
        _ => None,
    }
}

/// The local write of `entry` with `timestamp` as the candidate key.
pub open spec fn copies(cmd: DBCommand, entry: EntryView, timestamp: u128) -> bool {
    match entry {
        EntryView::Image(picture) => cmd matches DBCommand::CopyImage { image, timestamp: given, local }
            && image@ == picture && given == timestamp && local,
        EntryView::Text(words) => cmd matches DBCommand::CopyText { text, timestamp: given, local }
            && text@ == words && given == timestamp && local,
    }
}

/// What to ask of the store for a copy of `entry`, with the candidate key
/// given: a local write.
pub fn copy_request(entry: ClipboardEntry, timestamp: u128) -> (cmd: DBCommand)
    ensures
        copies(cmd, entry@, timestamp),
{
    match entry {
        ClipboardEntry::Image(image) => DBCommand::CopyImage { image, timestamp, local: true },
        ClipboardEntry::Text(text) => DBCommand::CopyText { text, timestamp, local: true },
    }
}

/// What to ask of the store for a copy of `entry`: a local write, the
/// candidate key made now.
pub fn copy_command(entry: ClipboardEntry) -> (cmd: DBCommand)
    ensures
        exists|timestamp: u128| copies(cmd, entry@, timestamp),
{
    let timestamp: u128 = fresh_key();
    let cmd = copy_request(entry, timestamp);
    assert(copies(cmd, entry@, timestamp));
    cmd
}

/// What to ask of the replicator once the store has answered a copy: where
/// the store reports the key of the write, gossip the entry under that key,
/// as a first sending. Any other answer asks for nothing.
pub fn transmit_request(entry: ClipboardEntry, response: &Response) -> (cmd: Option<ControlCommand>)
    ensures
        match *response {
            Response::Written { key, inserted } => cmd matches Some(
                ControlCommand::Transmit { data, key: text, ttl, clock },
            ) && data@ == entry@ && text@ == ulid_text(key) && ulid_value(text@) == Some(key)
                && ttl is None && clock is None,
            _ => cmd is None,
        },
{
    match response {
        Response::Written { key, .. } => Some(
            ControlCommand::Transmit { data: entry, key: key_text(*key), ttl: None, clock: None },
        ),
        _ => None,
    }
}

/// The answer to the user, given the command and what the store made of it.
pub open spec fn reply_text(command: CommandView, outcome: Result<Response, String>) -> Seq<char> {
    match command {
        CommandView::Upload { file_name, file_path } => match outcome {
            Ok(_) => "uploading file "@ + file_name + " from "@ + file_path + "\n"@,
            Err(error) => "uploading file "@ + file_name + " from "@ + file_path + " got error "@
                + error@ + "\n"@,
        },
        CommandView::Download { file_name, file_path } => match outcome {
            Ok(_) => "downloading file "@ + file_name + " at "@ + file_path + "\n"@,
            Err(error) => "downloading file "@ + file_name + " at "@ + file_path + " got error "@
                + error@ + "\n"@,
        },
        CommandView::Files => match outcome {
            Ok(Response::Files { names }) => if names@.len() == 0 {
                "NO FILES"@
            } else {
                "slate_files "@ + joined(texts(names@), " "@) + "\n"@
            },
            Ok(_) => "SHOULD NEVER PRINT?!\n"@,
            Err(error) => "listing files got error "@ + error@ + "\n"@,
        },
        CommandView::Copy => match outcome {
            Ok(_) => "successfully copied to db"@,
            Err(error) => "error copying to db: "@ + error@,
        },
        CommandView::Paste { offset } => match outcome {
            Ok(_) => "successfully pasted to clipboard"@,
            Err(error) => "error pasting to clipboard: "@ + error@,
        },
        CommandView::History => match outcome {
            Ok(Response::History { names }) => "history "@ + joined(texts(names@), " "@),
            Ok(_) => "SHOULD NEVER PRINT?!\n"@,
            Err(error) => "error getting history "@ + error@,
        },
        CommandView::Other { text } => "hey "@ + text + "\n"@,
    }
}

/// The answer to a copy when the clipboard holds nothing that can be read.
pub fn nothing_copied() -> (text: String)
    ensures
        text@ == "failed to copy"@,
{
    "failed to copy".to_owned()
}

/// The answer when the request could not be handed to the store.
pub fn unsent(error: &str) -> (text: String)
    ensures
        text@ == "unable to send message to db "@ + error@,
{
    let mut text: String = "unable to send message to db ".to_owned();
    text.append(error);
    text
}

/// Writes three texts one after the other.
fn concat3(a: &str, b: &str, c: &str) -> (text: String)
    ensures
        text@ == a@ + b@ + c@,
{
    let mut text: String = a.to_owned();
    text.append(b);
    text.append(c);
    text
}

/// The answer about a file that was moved, with the error if there was one.
fn file_reply(verb: &str, file_name: &str, link: &str, file_path: &str, error: Option<&String>) -> (text:
    String)
    ensures
        text@ == match error {
            None => verb@ + file_name@ + link@ + file_path@ + "\n"@,
            Some(error) => verb@ + file_name@ + link@ + file_path@ + " got error "@ + error@
                + "\n"@,
        },
{
    let mut text: String = verb.to_owned();
    text.append(file_name);
    text.append(link);
    text.append(file_path);
    match error {
        Some(error) => {
            text.append(" got error ");
            text.append(error.as_str());
        },
        None => {},
    }
    text.append("\n");
    text
}

/// The error of an outcome, if it is one.
fn error_of(outcome: &Result<Response, String>) -> (error: Option<&String>)
    ensures
        match *outcome {
            Ok(_) => error is None,
            Err(given) => error == Some(&given),
        },
{
    match outcome {
        Ok(_) => None,
        Err(error) => Some(error),
    }
}

/// Writes the answer to the user.
pub fn reply(command: &Command, outcome: &Result<Response, String>) -> (text: String)
    ensures
        text@ == reply_text(command@, *outcome),
{
    match command {
        Command::Upload { file_name, file_path } => file_reply(
            "uploading file ",
            file_name.as_str(),
            " from ",
            file_path.as_str(),
            error_of(outcome),
        ),
        Command::Download { file_name, file_path } => file_reply(
            "downloading file ",
            file_name.as_str(),
            " at ",
            file_path.as_str(),
            error_of(outcome),
        ),
        Command::Files => match outcome {
            Ok(Response::Files { names }) => {
                if names.len() == 0 {
                    "NO FILES".to_owned()
                } else {
                    concat3("slate_files ", join(names, " ").as_str(), "\n")
                }
            },
            Ok(_) => "SHOULD NEVER PRINT?!\n".to_owned(),
            Err(error) => concat3("listing files got error ", error.as_str(), "\n"),
        },
        Command::Copy => match outcome {
            Ok(_) => "successfully copied to db".to_owned(),
            Err(error) => {
                let mut text: String = "error copying to db: ".to_owned();
                text.append(error.as_str());
                text
            },
        },
        Command::Paste { .. } => match outcome {
            Ok(_) => "successfully pasted to clipboard".to_owned(),
            Err(error) => {
                let mut text: String = "error pasting to clipboard: ".to_owned();
                text.append(error.as_str());
                text
            },
        },
        Command::History => match outcome {
            Ok(Response::History { names }) => {
                let mut text: String = "history ".to_owned();
                text.append(join(names, " ").as_str());
                text
            },
            Ok(_) => "SHOULD NEVER PRINT?!\n".to_owned(),
            Err(error) => {
                let mut text: String = "error getting history ".to_owned();
                text.append(error.as_str());
                text
            },
        },
        Command::Other { text } => concat3("hey ", text.as_str(), "\n"),
    }
}

/// The line that asks the daemon for a command.
pub open spec fn command_text(command: CommandView) -> Seq<char> {
    match command {
        CommandView::Upload { file_name, file_path } => "upload "@ + file_name + " "@ + file_path,
        CommandView::Download { file_name, file_path } => "download "@ + file_name + " "@
            + file_path,
        CommandView::Files => "files"@,
        CommandView::Copy => "copy"@,
        CommandView::Paste { offset } => "paste "@ + decimal_text(offset as nat),
        CommandView::History => "history"@,
        CommandView::Other { text } => text,
    }
}

/// Writes the line that asks the daemon for a command.
pub fn command_line(command: &Command) -> (line: String)
    ensures
        line@ == command_text(command@),
{
    match command {
        Command::Upload { file_name, file_path } => {
            let mut line: String = concat3("upload ", file_name.as_str(), " ");
            line.append(file_path.as_str());
            line
        },
        Command::Download { file_name, file_path } => {
            let mut line: String = concat3("download ", file_name.as_str(), " ");
            line.append(file_path.as_str());
            line
        },
        Command::Files => "files".to_owned(),
        Command::Copy => "copy".to_owned(),
        Command::Paste { offset } => {
            let mut line: String = "paste ".to_owned();
            line.append(decimal(*offset as u64).as_str());
            line
        },
        Command::History => "history".to_owned(),
        Command::Other { text } => text.clone(),
    }
}

/// What the user is shown for an answer of the daemon. A list of files is
/// shown with its length, one file to a line; any other answer as it came,
/// without the white space around it.
pub open spec fn shown(response: Seq<char>) -> Seq<char> {
    if starts_with(response, "slate_files "@) {
        let files = pieces(response.skip("slate_files "@.len() as int));
        "response ("@ + decimal_text(files.len()) + " files): "@ + joined(files, "\n"@)
    } else {
        "response: "@ + trimmed(response)
    }
}

/// Writes what the user is shown for an answer of the daemon.
pub fn render_response(response: &str) -> (text: String)
    ensures
        text@ == shown(response@),
{
    match strip_prefix(response, "slate_files ") {
        Some(listing) => {
            let files = split(listing);
            let mut text: String = concat3(
                "response (",
                decimal(files.len() as u64).as_str(),
                " files): ",
            );
            text.append(join(&files, "\n").as_str());
            text
        },
        None => {
            let mut text: String = "response: ".to_owned();
            text.append(trim(response));
            text
        },
    }
}

/// The command can be put into a line and read back: the name of a file has
/// no space, its path is not empty and does not end with white space; and a
/// text that is no command says so itself.
pub open spec fn sendable(command: CommandView) -> bool {
    match command {
        CommandView::Upload { file_name, file_path } => !file_name.contains(' ') && file_path.len()
            > 0 && !is_space(file_path.last()),
        CommandView::Download { file_name, file_path } => !file_name.contains(' ')
            && file_path.len() > 0 && !is_space(file_path.last()),
        CommandView::Other { text } => understood(text) == command,
        _ => true,
    }
}

/// The line written for a command asks for that command.
pub proof fn command_round_trip(command: CommandView)
    requires
        sendable(command),
    ensures
        understood(command_text(command)) == command,
{
    reveal_strlit("upload ");
    reveal_strlit("download ");
    reveal_strlit("files");
    reveal_strlit("copy");
    reveal_strlit("paste ");
    reveal_strlit("history");
    reveal_strlit(" ");
    let line = command_text(command);
    match command {
        CommandView::Upload { file_name, file_path } => {
            let word = "upload "@;
            assert(" "@ =~= seq![' ']);
            assert(line[0] == 'u');
            assert(line.last() == file_path.last());
            lemma_trimmed_plain(line);
            assert(line.take(word.len() as int) =~= word);
            assert(line.skip(word.len() as int) =~= file_name + seq![' '] + file_path);
            lemma_split_joined(file_name, file_path);
        },
        CommandView::Download { file_name, file_path } => {
            let word = "download "@;
            assert(line[0] == 'd');
            assert(line.last() == file_path.last());
            lemma_trimmed_plain(line);
            assert(line.take("upload "@.len() as int)[0] == 'd');
            assert(line.take(word.len() as int) =~= word);
            assert(line.skip(word.len() as int) =~= file_name + seq![' '] + file_path);
            assert(" "@ =~= seq![' ']);
            lemma_split_joined(file_name, file_path);
        },
        CommandView::Files => {
            lemma_trimmed_plain(line);
        },
        CommandView::Copy => {
            lemma_trimmed_plain(line);
            assert(line[0] == 'c');
        },
        CommandView::Paste { offset } => {
            let word = "paste "@;
            let digits = decimal_text(offset as nat);
            lemma_decimal_text_plain(offset as nat);
            decimal_round_trip(offset as nat);
            assert(line[0] == 'p');
            assert(line.last() == digits.last());
            lemma_trimmed_plain(line);
            assert(line.take("upload "@.len() as int)[0] == 'p');
            if line.len() >= "download "@.len() {
                assert(line.take("download "@.len() as int)[0] == 'p');
            }
            assert(line.take(word.len() as int) =~= word);
            assert(line.skip(word.len() as int) =~= digits);
        },
        CommandView::History => {
            lemma_trimmed_plain(line);
            assert(line.take("upload "@.len() as int)[0] == 'h');
            assert(line.take("paste "@.len() as int)[0] == 'h');
        },
        CommandView::Other { text } => {},
    }
}

} // verus!
