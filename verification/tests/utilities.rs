use myshell::error::ExecError;
use myshell::text_processing::{parse_input, ParseError};
use myshell::utils::{
    bin_dir_contents, config_dir, history_file, history_listing, home_dir, home_from, open_file,
    read_history, write_history, BinEntry, FileOptions,
};

#[test]
fn home_is_handed_on_or_reported_missing() {
    assert_eq!(home_from(Some("/home/user".to_string())), Ok("/home/user".to_string()));
    assert_eq!(home_from(None), Err("Failed to retrieve home directory.".to_string()));
    match home_dir() {
        Ok(_) => {}
        Err(message) => assert_eq!(message, "Failed to retrieve home directory."),
    }
}

#[test]
fn tilde_stands_for_the_home_that_was_found() {
    match (home_dir(), parse_input("echo ~/x")) {
        (Ok(home), Ok(stages)) => {
            assert_eq!(stages[0].command, vec!["echo".to_string(), format!("{}/x", home)]);
        }
        (Err(_), Err(e)) => {
            assert_eq!(e, ParseError::HomeUnavailable);
            assert_eq!(e.message(), "Failed to retrieve home directory.");
        }
        (home, parsed) => panic!("{:?} and {:?} disagree", home, parsed),
    }
}

#[test]
fn config_directory_lies_below_home() {
    assert_eq!(config_dir("/home/user"), "/home/user/.config/myshell");
    assert_eq!(config_dir("/home/user/"), "/home/user/.config/myshell");
    assert_eq!(config_dir("/"), "/.config/myshell");
    assert_eq!(config_dir(""), ".config/myshell");
    assert_eq!(history_file("/home/user"), "/home/user/.config/myshell/history");
}

#[test]
fn file_is_opened_by_its_mode() {
    assert_eq!(
        open_file("out", 'o', false),
        Ok(FileOptions { create: true, append: false, truncate: true, write: true })
    );
    assert_eq!(
        open_file("out", 'a', false),
        Ok(FileOptions { create: true, append: true, truncate: false, write: false })
    );
    assert_eq!(
        open_file("out", 'x', false),
        Ok(FileOptions { create: true, append: false, truncate: true, write: true })
    );
}

#[test]
fn directory_receives_no_output() {
    for mode in ['o', 'a'] {
        let refused = open_file("/tmp", mode, true).unwrap_err();
        assert_eq!(refused, ExecError::IsDirectory("/tmp".to_string()));
        assert_eq!(refused.message(), "'/tmp' is a directory.");
    }
}

#[test]
fn history_takes_lines_in_order() {
    let mut log = String::new();
    write_history(&mut log, "ls -l");
    write_history(&mut log, "");
    write_history(&mut log, "cd /tmp");
    write_history(&mut log, "  ");
    assert_eq!(log, "ls -l\ncd /tmp\n  \n");
    assert_eq!(history_listing(&log), "0 ls -l\n1 cd /tmp\n2   ");
}

#[test]
fn history_numbers_count_up_from_zero() {
    let mut log = String::new();
    for k in 0..12 {
        write_history(&mut log, &format!("line{}", k));
    }
    let listing = history_listing(&log);
    let listed: Vec<&str> = listing.split('\n').collect();
    assert_eq!(listed.len(), 12);
    for (k, line) in listed.iter().enumerate() {
        assert_eq!(*line, format!("{} line{}", k, k));
    }
}

#[test]
fn empty_history_has_an_empty_listing() {
    assert_eq!(history_listing(""), "");
    assert_eq!(history_listing("only"), "0 only");
    assert_eq!(history_listing("\n"), "0 ");
}

fn entry(name: &str, mode: Option<u32>) -> BinEntry {
    BinEntry { name: name.to_string(), mode }
}

#[test]
fn programs_are_the_entries_that_can_be_run() {
    let entries = vec![
        entry("ls", Some(0o100755)),
        entry("notes", Some(0o100644)),
        entry("owner", Some(0o100)),
        entry("gone", None),
        entry("group", Some(0o010)),
        entry("", Some(0o777)),
        entry("other", Some(0o001)),
        entry("none", Some(0)),
    ];
    assert_eq!(bin_dir_contents(&entries), vec!["ls", "owner", "group", "", "other"]);
    assert!(bin_dir_contents(&Vec::new()).is_empty());
}

#[test]
fn missing_history_is_an_empty_log() {
    assert_eq!(read_history(None), "");
    assert_eq!(read_history(Some("ls\n".to_string())), "ls\n");
    assert_eq!(history_listing(&read_history(None)), "");
}

#[test]
fn every_error_has_its_message() {
    assert_eq!(
        ExecError::Parse(ParseError::HomeUnavailable).message(),
        "Failed to retrieve home directory."
    );
    assert_eq!(ExecError::HomeUnavailable.message(), "Failed to retrieve home directory.");
    assert_eq!(ExecError::MissingDirectory.message(), "please specify a directory");
    assert_eq!(ExecError::EmptyDirectoryStack.message(), "directory stack empty");
    assert_eq!(
        ExecError::MissingOutputFile("sort".to_string()).message(),
        "please specify target file for output of 'sort'"
    );
    assert_eq!(ExecError::CommandNotFound("x y".to_string()).message(), "Command 'x y' not found.");
    assert_eq!(ExecError::IsDirectory("d".to_string()).message(), "'d' is a directory.");
    assert_eq!(ExecError::Io("disk full".to_string()).message(), "disk full");
    assert_eq!(ExecError::Unexpected.message(), "unexpected report");
}
