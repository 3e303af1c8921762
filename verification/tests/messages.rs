use cargo_release::ops::shell::{
    confirm, confirm_prompt, error, justify, log, note, print, status, warn, Level, Style,
};

#[test]
fn status_title_is_right_aligned() {
    let line = status("Publishing", "foo");
    assert_eq!(line.style, Style::Header);
    assert_eq!(line.title, "  Publishing");
    assert_eq!(line.rest, " foo\n");
    assert_eq!(line.plain(), format!("{:>12} {}\n", "Publishing", "foo"));
    assert_eq!(status("A very long action", "m").title, "A very long action");
    assert_eq!(status("Exactly12chr", "m").title, "Exactly12chr");
    assert_eq!(status("", "m").plain(), "             m\n");
}

#[test]
fn justify_counts_characters() {
    assert_eq!(justify("é", 3), "  é");
    assert_eq!(justify("abc", 0), "abc");
    assert_eq!(justify("", 2), "  ");
}

#[test]
fn plain_messages_carry_their_kind() {
    let line = error("broken");
    assert_eq!((line.style, line.title.as_str(), line.rest.as_str()), (Style::Error, "error", ": broken\n"));
    let line = warn("careful");
    assert_eq!((line.style, line.title.as_str(), line.rest.as_str()), (Style::Warn, "warning", ": careful\n"));
    let line = note("fyi");
    assert_eq!((line.style, line.plain()), (Style::Note, "note: fyi\n".to_owned()));
    let line = print("custom", "text", Style::Note, false);
    assert_eq!(line.plain(), "custom: text\n");
    let line = print("custom", "text", Style::Warn, true);
    assert_eq!(line.plain(), "      custom text\n");
}

#[test]
fn log_shows_what_matters() {
    assert_eq!(log(Level::Error, "m").unwrap().plain(), "error: m\n");
    assert_eq!(log(Level::Warn, "m").unwrap().plain(), "warning: m\n");
    assert_eq!(log(Level::Info, "m").unwrap().plain(), "note: m\n");
    assert!(log(Level::Debug, "m").is_none());
    assert!(log(Level::Trace, "m").is_none());
}

#[test]
fn confirmation_takes_a_yes() {
    assert!(confirm("y"));
    assert!(confirm("Y\n"));
    assert!(confirm("  y \r\n"));
    assert!(!confirm("yes"));
    assert!(!confirm("n"));
    assert!(!confirm(""));
    let prompt = confirm_prompt("Release foo?");
    assert_eq!(prompt.plain(), "Release foo? [y/N] \n");
    assert_eq!(prompt.style, Style::Plain);
}
