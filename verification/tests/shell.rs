//! The command line, what it shows, and the programs that are started.

use papr::model::App;
use papr::terminal::{
    append_terminal_output, change_terminal_directory, finish_shell_command, format_shell_result,
    run_terminal_command, DirectoryResult, ShellResult, TerminalRequest, MAX_SCROLLBACK_BYTES,
};
use papr::terminal_input::{
    parse_command, parse_viewer_command, plan_completion, sanitize_terminal_output,
    sort_terminal_candidates, terminal_path_candidates, terminal_path_parent_and_prefix,
    CommandError,
};
use papr::viewer::{
    browser_command, default_pdf_viewer, get_pdf_page_count, open_browser, open_pdf, page_command,
    plain_path, plan_viewer, show_document, Opened, Platform,
};
use papr::model::AppMode;

#[test]
fn commands_are_taken_from_the_input() {
    let mut app = App::default();
    app.terminal.command = "  ".into();
    assert!(matches!(run_terminal_command(&mut app.terminal), TerminalRequest::Nothing));
    app.terminal.command = " ls -l ".into();
    app.terminal.cursor = 3;
    assert!(matches!(run_terminal_command(&mut app.terminal), TerminalRequest::Shell(c) if c == "ls -l"));
    app.terminal.command = "cd  /tmp ".into();
    let request = run_terminal_command(&mut app.terminal);
    assert!(matches!(request, TerminalRequest::ChangeDirectory(path) if path == "/tmp"));
    assert_eq!((app.terminal.command.as_str(), app.terminal.cursor), ("", 0));
    app.terminal.output = "old".into();
    app.terminal.command = "clear".into();
    assert!(matches!(run_terminal_command(&mut app.terminal), TerminalRequest::Nothing));
    assert_eq!(app.terminal.output, "");
}

#[test]
fn results_of_commands_are_put_into_words() {
    let finished = |stdout: &str, stderr: &str, code| ShellResult::Finished {
        stdout: stdout.into(),
        stderr: stderr.into(),
        code,
    };
    assert_eq!(format_shell_result(&finished("a", "b", Some(-1))), "[exit -1]\na\nb");
    assert_eq!(format_shell_result(&finished("a\n", "b", Some(0))), "[exit 0]\na\nb");
    assert_eq!(
        format_shell_result(&finished("", "", None)),
        "[exit signal]\nCommand completed with no output."
    );
    assert_eq!(
        format_shell_result(&ShellResult::Failed("no shell".into())),
        "Could not run command: no shell"
    );
    let mut app = App::default();
    app.terminal.command = "ls".into();
    finish_shell_command(&mut app.terminal, "ls", &finished("a\u{7}", "", Some(0)));
    assert_eq!(app.terminal.output, "$ ls\n[exit 0]\na");
    assert_eq!(app.terminal.command, "");
    change_terminal_directory(&mut app.terminal, "x", DirectoryResult::NotDirectory);
    assert!(app.terminal.output.ends_with("\n$ cd x\nNot a directory."));
    change_terminal_directory(&mut app.terminal, "x", DirectoryResult::Failed("gone".into()));
    assert!(app.terminal.output.ends_with("\n$ cd x\ncd: gone"));
    change_terminal_directory(&mut app.terminal, "/t", DirectoryResult::Entered("/tmp".into()));
    assert_eq!(app.terminal.directory.as_deref(), Some("/tmp"));
}

#[test]
fn old_output_goes_at_a_character() {
    let mut app = App::default();
    append_terminal_output(&mut app.terminal, "a", &"é".repeat(MAX_SCROLLBACK_BYTES));
    assert!(app.terminal.output.len() <= MAX_SCROLLBACK_BYTES);
    assert!(app.terminal.output.len() >= MAX_SCROLLBACK_BYTES - 2);
    assert!(app.terminal.output.chars().all(|c| c == 'é'));
}

#[test]
fn clean_output_stays_as_it_is() {
    let clean = sanitize_terminal_output("a\u{1b}[1mb\r\n\tc\u{9b}");
    assert_eq!(clean, "a[1mb\n\tc");
    assert_eq!(sanitize_terminal_output(&clean), clean);
}

#[test]
fn control_characters_are_taken_out() {
    let all: String = (0..=0x10_ffff_u32).filter_map(char::from_u32).collect();
    let clean = sanitize_terminal_output(&all);
    assert_eq!(all.chars().count() - clean.chars().count(), 63);
    assert!(clean.starts_with("\t\n !") && clean.contains("~\u{a0}"));
}

#[test]
fn command_lines_are_split() {
    assert_eq!(parse_command("a 'b c' \"d\"e  f\\ g").unwrap(), ["a", "b c", "de", "f g"]);
    assert_eq!(parse_command("open 'x").unwrap_err(), CommandError::UnterminatedQuote('\''));
    assert_eq!(
        parse_viewer_command("v \"x").unwrap_err().message(),
        "unterminated \" quote in pdf_viewer"
    );
    assert_eq!(parse_command("a '' b").unwrap(), ["a", "b"]);
    assert_eq!(parse_command(" one\ttwo\u{3000}three \n").unwrap(), ["one", "two", "three"]);
}

#[test]
fn paths_are_completed() {
    assert_eq!(terminal_path_parent_and_prefix("/usr/lo"), (Some("/usr".into()), "lo".into()));
    assert_eq!(terminal_path_parent_and_prefix("src//"), (Some("src".into()), String::new()));
    assert_eq!(terminal_path_parent_and_prefix("/"), (Some("/".into()), String::new()));
    assert_eq!(terminal_path_parent_and_prefix("lo"), (None, "lo".into()));
    assert_eq!(terminal_path_parent_and_prefix(".lo"), (None, ".lo".into()));
    assert_eq!(terminal_path_parent_and_prefix("src/lo"), (Some("src".into()), "lo".into()));
    assert_eq!(terminal_path_parent_and_prefix("a/./b/lo"), (Some("a/./b".into()), "lo".into()));
    assert_eq!(terminal_path_parent_and_prefix("a b/"), (Some("a b".into()), String::new()));
    assert_eq!(terminal_path_parent_and_prefix("/lo"), (Some("/".into()), "lo".into()));
    assert_eq!(terminal_path_parent_and_prefix("./lo"), (Some(".".into()), "lo".into()));
    assert_eq!(terminal_path_parent_and_prefix("../lo"), (Some("..".into()), "lo".into()));
    assert_eq!(terminal_path_parent_and_prefix("a/../lo"), (Some("a/..".into()), "lo".into()));
    for nameless in ["", ".", ".."] {
        assert_eq!(terminal_path_parent_and_prefix(nameless), (None, String::new()));
    }
    assert_eq!(terminal_path_parent_and_prefix("a/.."), (Some("a".into()), String::new()));
    let plan = plan_completion("~/doc/pa", &Some("/work".into()), &Some("/home/u".into())).unwrap();
    assert_eq!(plan.directory, "/home/u/doc");
    assert_eq!(plan.name_prefix, "pa");
    assert_eq!(plan.shown_parent, Some(format!("~{}doc", plan.separator)));
    assert!(plan.separator == '/' || plan.separator == '\\');
    let plan = plan_completion("pa", &Some("/work".into()), &None).unwrap();
    assert_eq!(plan.directory, "/work");
    let entries = vec![
        ("paper.tex".to_owned(), false),
        ("Papers".to_owned(), true),
        ("parts".to_owned(), true),
        ("other".to_owned(), false),
    ];
    let found = terminal_path_candidates(&plan, &entries);
    assert!(found.contains(&"paper.tex".to_owned()) && found.contains(&"parts/".to_owned()));
    assert!(!found.contains(&"other".to_owned()));
    let mut words = vec!["b".to_owned(), "A".to_owned(), "a".to_owned()];
    sort_terminal_candidates(&mut words);
    assert_eq!(words, ["A", "a", "b"]);
}

#[test]
fn viewers_get_the_path_of_the_document() {
    let command = plan_viewer("zathura --page {path}", "/a b.pdf", Platform::Other).unwrap();
    assert_eq!((command.program.as_str(), command.args), ("zathura", vec!["--page".to_owned(), "/a b.pdf".into()]));
    let command = plan_viewer("zathura", "/a.pdf", Platform::Other).unwrap();
    assert_eq!(command.args, ["/a.pdf"]);
    let command = plan_viewer(" ", "/a.pdf", Platform::MacOs).unwrap();
    assert_eq!(command.program, "open");
    assert!(plan_viewer("'x", "/a.pdf", Platform::Other).is_err());
    assert_eq!(default_pdf_viewer(Platform::Other), "xdg-open");
    assert_eq!(plain_path("\\\\?\\C:\\a", Platform::Windows), "C:\\a");
    assert_eq!(plain_path("/a", Platform::Other), "/a");
    let browser = browser_command("https://x", Platform::Windows);
    assert_eq!((browser.program.as_str(), browser.args.len()), ("cmd", 4));
}

#[test]
fn pages_are_drawn_by_poppler() {
    let command = page_command("/a.pdf", 3, 640, "/tmp/p");
    assert_eq!(command.program, "pdftoppm");
    assert_eq!(
        command.args,
        ["-singlefile", "-scale-to-x", "640", "-scale-to-y", "-1", "-f", "3", "/a.pdf", "/tmp/p"]
    );
    assert_eq!(get_pdf_page_count("Title: x\nPages:          12\n"), 12);
    assert_eq!(get_pdf_page_count("Pages: many\n"), 1);
    assert_eq!(get_pdf_page_count(""), 1);
}

#[test]
fn opening_a_document_is_told() {
    let mut app = App::default();
    open_pdf(&mut app, "/a.pdf", Opened::Missing);
    assert_eq!(app.toast.as_deref(), Some("PDF not found: /a.pdf"));
    show_document(&mut app, "/x/a.pdf".into(), 5, Some(1), 10);
    assert_eq!((app.mode, app.pdf.total_pages, app.pdf.page), (AppMode::PdfView, 5, 1));
    assert_eq!(app.toast.as_deref(), Some("Viewing PDF: a.pdf"));
    open_browser(&mut app, Err("no".into()));
    assert_eq!(app.toast.as_deref(), Some("Could not open browser: no"));
}
