use slate::control_plane::ControlCommand;
use slate::daemon::{
    command_line, copy_command, copy_request, nothing_copied, parse_command, render_response,
    reply, request, transmit_request, unsent, Command, HISTORY_LIMIT,
};
use slate::db::{ClipboardEntry, DBCommand, Response, SerializableImage};
use slate::text::{decimal, join, parse_decimal, split, split_once, strip_prefix, trim};

fn other(text: &str) -> Command {
    Command::Other { text: text.to_string() }
}

#[test]
fn parses_the_plain_words() {
    assert_eq!(parse_command("copy"), Command::Copy);
    assert_eq!(parse_command("files"), Command::Files);
    assert_eq!(parse_command("history"), Command::History);
    assert_eq!(parse_command("  copy \r\n"), Command::Copy);
    assert_eq!(parse_command("\tfiles\n"), Command::Files);
    assert_eq!(parse_command("\u{3000}history\u{a0}"), Command::History);
}

#[test]
fn parses_paste_with_an_offset() {
    assert_eq!(parse_command("paste 0"), Command::Paste { offset: 0 });
    assert_eq!(parse_command("paste 17\n"), Command::Paste { offset: 17 });
    assert_eq!(parse_command("paste 007"), Command::Paste { offset: 7 });
    assert_eq!(
        parse_command(&format!("paste {}", usize::MAX)),
        Command::Paste { offset: usize::MAX }
    );
}

#[test]
fn paste_without_a_number_is_no_command() {
    assert_eq!(parse_command("paste"), other("paste"));
    assert_eq!(parse_command("paste "), other("paste"));
    assert_eq!(parse_command("paste x"), other("paste x"));
    assert_eq!(parse_command("paste -1"), other("paste -1"));
    assert_eq!(parse_command("paste +1"), other("paste +1"));
    assert_eq!(parse_command("paste 1 2"), other("paste 1 2"));
    assert_eq!(parse_command("paste  1"), other("paste  1"));
    let huge = format!("paste {}0", usize::MAX);
    assert_eq!(parse_command(&huge), other(&huge));
}

#[test]
fn parses_upload_and_download() {
    assert_eq!(
        parse_command("upload notes /home/me/notes.txt\n"),
        Command::Upload { file_name: "notes".to_string(), file_path: "/home/me/notes.txt".to_string() }
    );
    assert_eq!(
        parse_command("download notes /tmp/my notes"),
        Command::Download { file_name: "notes".to_string(), file_path: "/tmp/my notes".to_string() }
    );
    assert_eq!(
        parse_command("upload  x"),
        Command::Upload { file_name: "".to_string(), file_path: "x".to_string() }
    );
    assert_eq!(parse_command("upload notes"), other("upload notes"));
    assert_eq!(parse_command("download"), other("download"));
}

#[test]
fn anything_else_is_other() {
    assert_eq!(parse_command(""), other(""));
    assert_eq!(parse_command("   "), other(""));
    assert_eq!(parse_command("Copy"), other("Copy"));
    assert_eq!(parse_command("copy now"), other("copy now"));
    assert_eq!(parse_command(" hello  world \n"), other("hello  world"));
}

#[test]
fn requests_for_reading_commands() {
    assert!(matches!(
        request(&Command::Paste { offset: 3 }),
        Some(DBCommand::Paste { offset: 3 })
    ));
    assert!(matches!(request(&Command::History), Some(DBCommand::History { limit: 20 })));
    assert_eq!(HISTORY_LIMIT, 20);
    assert!(request(&Command::Copy).is_none());
    assert!(request(&Command::Files).is_none());
    assert!(request(&other("x")).is_none());
}

#[test]
fn copy_requests_are_local_writes() {
    let text = ClipboardEntry::Text("hi".to_string());
    match copy_request(text.clone(), 9) {
        DBCommand::CopyText { text, timestamp, local } => {
            assert_eq!(text, "hi");
            assert_eq!(timestamp, 9);
            assert!(local);
        }
        cmd => panic!("unexpected request {:?}", cmd),
    }
    let image = SerializableImage::new(1, 1, vec![0, 0, 0, 0]).unwrap();
    match copy_request(ClipboardEntry::Image(image.clone()), 10) {
        DBCommand::CopyImage { image: carried, timestamp, local } => {
            assert_eq!(carried, image);
            assert_eq!(timestamp, 10);
            assert!(local);
        }
        cmd => panic!("unexpected request {:?}", cmd),
    }
    assert!(matches!(copy_command(text), DBCommand::CopyText { local: true, .. }));
}

#[test]
fn transmit_request_carries_the_key_as_text() {
    let entry = ClipboardEntry::Text("hi".to_string());
    let answer = Response::Written { key: 77, inserted: true };
    match transmit_request(entry.clone(), &answer) {
        Some(ControlCommand::Transmit { data, key, ttl, clock }) => {
            assert_eq!(data, entry);
            assert_eq!(key, "0000000000000000000000002D");
            assert_eq!(ttl, None);
            assert!(clock.is_none());
        }
        cmd => panic!("unexpected request {:?}", cmd),
    }
    assert!(transmit_request(entry, &Response::Success).is_none());
}

#[test]
fn replies_for_files() {
    let upload = Command::Upload { file_name: "n".to_string(), file_path: "/p".to_string() };
    assert_eq!(reply(&upload, &Ok(Response::Success)), "uploading file n from /p\n");
    assert_eq!(
        reply(&upload, &Err("disk full".to_string())),
        "uploading file n from /p got error disk full\n"
    );
    let download = Command::Download { file_name: "n".to_string(), file_path: "/p".to_string() };
    assert_eq!(reply(&download, &Ok(Response::Success)), "downloading file n at /p\n");
    assert_eq!(
        reply(&download, &Err("gone".to_string())),
        "downloading file n at /p got error gone\n"
    );
    assert_eq!(reply(&Command::Files, &Ok(Response::Files { names: vec![] })), "NO FILES");
    assert_eq!(
        reply(
            &Command::Files,
            &Ok(Response::Files { names: vec!["a".to_string(), "b".to_string()] })
        ),
        "slate_files a b\n"
    );
    assert_eq!(reply(&Command::Files, &Err("e".to_string())), "listing files got error e\n");
    assert_eq!(reply(&Command::Files, &Ok(Response::Success)), "SHOULD NEVER PRINT?!\n");
}

#[test]
fn replies_for_the_clipboard() {
    assert_eq!(
        reply(&Command::Copy, &Ok(Response::Written { key: 1, inserted: true })),
        "successfully copied to db"
    );
    assert_eq!(reply(&Command::Copy, &Err("e".to_string())), "error copying to db: e");
    let paste = Command::Paste { offset: 2 };
    assert_eq!(reply(&paste, &Ok(Response::Success)), "successfully pasted to clipboard");
    assert_eq!(
        reply(&paste, &Err("no entry at that offset".to_string())),
        "error pasting to clipboard: no entry at that offset"
    );
    assert_eq!(
        reply(
            &Command::History,
            &Ok(Response::History { names: vec!["x".to_string(), "image".to_string()] })
        ),
        "history x image"
    );
    assert_eq!(reply(&Command::History, &Ok(Response::History { names: vec![] })), "history ");
    assert_eq!(reply(&Command::History, &Err("e".to_string())), "error getting history e");
    assert_eq!(reply(&Command::History, &Ok(Response::Success)), "SHOULD NEVER PRINT?!\n");
    assert_eq!(reply(&other("yo"), &Ok(Response::Success)), "hey yo\n");
    assert_eq!(nothing_copied(), "failed to copy");
    assert_eq!(unsent("closed"), "unable to send message to db closed");
}

#[test]
fn decimal_writes_and_reads_numbers() {
    assert_eq!(decimal(0), "0");
    assert_eq!(decimal(7), "7");
    assert_eq!(decimal(10), "10");
    assert_eq!(decimal(3000), "3000");
    assert_eq!(decimal(u64::MAX), "18446744073709551615");
    assert_eq!(parse_decimal("0"), Some(0));
    assert_eq!(parse_decimal("3000"), Some(3000));
    assert_eq!(parse_decimal(&decimal(u64::MAX)), Some(usize::MAX));
    assert_eq!(parse_decimal("18446744073709551616"), None);
    assert_eq!(parse_decimal(""), None);
    assert_eq!(parse_decimal("1a"), None);
    assert_eq!(parse_decimal(" 1"), None);
    assert_eq!(parse_decimal("١"), None);
    for n in [1u64, 9, 11, 99, 100, 12345, 1 << 40] {
        assert_eq!(parse_decimal(&decimal(n)), Some(n as usize));
    }
}

#[test]
fn text_helpers() {
    assert_eq!(trim("  a b \n"), "a b");
    assert_eq!(trim("\n\t "), "");
    assert_eq!(trim("ä "), "ä");
    assert_eq!(trim("x"), "  x\u{2003}".trim());
    assert_eq!(strip_prefix("paste 1", "paste "), Some("1"));
    assert_eq!(strip_prefix("paste", "paste "), None);
    assert_eq!(strip_prefix("pasta 1", "paste "), None);
    assert_eq!(strip_prefix("é and more", "é "), Some("and more"));
    assert_eq!(split_once("a b c"), Some(("a", "b c")));
    assert_eq!(split_once(" x"), Some(("", "x")));
    assert_eq!(split_once("abc"), None);
    assert_eq!(join(&vec![], ", "), "");
    assert_eq!(join(&vec!["a".to_string()], ", "), "a");
    assert_eq!(join(&vec!["a".to_string(), "".to_string(), "c".to_string()], ", "), "a, , c");
}

#[test]
fn command_lines_read_back() {
    let commands = vec![
        Command::Copy,
        Command::Files,
        Command::History,
        Command::Paste { offset: 0 },
        Command::Paste { offset: 12345 },
        Command::Paste { offset: usize::MAX },
        Command::Upload { file_name: "notes".to_string(), file_path: "/home/me/my notes.txt".to_string() },
        Command::Download { file_name: "".to_string(), file_path: "/tmp/x".to_string() },
        other("status"),
        other("paste now"),
    ];
    for command in commands {
        assert_eq!(parse_command(&command_line(&command)), command);
    }
    assert_eq!(command_line(&Command::Paste { offset: 7 }), "paste 7");
    assert_eq!(
        command_line(&Command::Upload {
            file_name: "n".to_string(),
            file_path: "/p q".to_string()
        }),
        "upload n /p q"
    );
    assert_eq!(
        command_line(&Command::Download {
            file_name: "n".to_string(),
            file_path: "/p".to_string()
        }),
        "download n /p"
    );
}

#[test]
fn command_line_of_a_name_with_a_space_reads_back_otherwise() {
    let command = Command::Upload { file_name: "my notes".to_string(), file_path: "/p".to_string() };
    assert_eq!(
        parse_command(&command_line(&command)),
        Command::Upload { file_name: "my".to_string(), file_path: "notes /p".to_string() }
    );
}

#[test]
fn responses_are_shown_to_the_user() {
    assert_eq!(render_response("slate_files a b c\n"), "response (3 files): a\nb\nc\n");
    assert_eq!(render_response("slate_files one"), "response (1 files): one");
    assert_eq!(render_response("slate_files "), "response (1 files): ");
    assert_eq!(render_response("  successfully copied to db \n"), "response: successfully copied to db");
    assert_eq!(render_response("NO FILES"), "response: NO FILES");
    assert_eq!(render_response(""), "response: ");
}

#[test]
fn split_cuts_at_every_space() {
    assert_eq!(split("a b c"), vec!["a", "b", "c"]);
    assert_eq!(split(""), vec![""]);
    assert_eq!(split(" "), vec!["", ""]);
    assert_eq!(split("a  b "), vec!["a", "", "b", ""]);
    assert_eq!(split("a\tb"), vec!["a\tb"]);
}
