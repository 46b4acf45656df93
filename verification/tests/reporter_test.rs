use git_account_switcher::ui::Reporter;

#[test]
fn test_reporter_formatting() {
    let mut reporter = Reporter::buffer();

    reporter.success("Completed successfully").unwrap();
    reporter.warn("Potential issue detected").unwrap();
    reporter.error("Critical failure").unwrap();
    reporter.info("Informational notice").unwrap();
    reporter.section("Setup steps").unwrap();
    reporter.item("Configured path").unwrap();

    let output = reporter.into_string();
    assert!(output.contains("Completed successfully"));
    assert!(output.contains("Potential issue detected"));
    assert!(output.contains("Critical failure"));
    assert!(output.contains("Informational notice"));
    assert!(output.contains("Setup steps"));
    assert!(output.contains("Configured path"));
}

#[test]
fn test_reporter_formatting_in_memory() {
    let mut reporter = Reporter::buffer();

    reporter.success("Account configured").unwrap();
    reporter.warn("Key missing").unwrap();
    reporter.error("Syntax error").unwrap();
    reporter.section("Summary").unwrap();
    reporter.item("Includes file created").unwrap();

    let output = reporter.into_string();
    assert!(output.contains("Account configured"));
    assert!(output.contains("Key missing"));
    assert!(output.contains("Syntax error"));
    assert!(output.contains("Summary"));
    assert!(output.contains("Includes file created"));
}

#[test]
fn test_reporter_color_suppression_with_buffer() {
    // A buffer is not a tty, anstream/anstyle writes standard text cleanly
    let mut reporter = Reporter::buffer();
    reporter.success("Clean message").unwrap();
    let output = reporter.into_string();
    assert!(output.contains("Clean message"));
}

#[test]
fn buffer_output_holds_no_escape_codes() {
    let mut reporter = Reporter::buffer();
    reporter.success("Clean message").unwrap();
    let output = reporter.into_string();
    assert_eq!(output, "✔ Clean message\n");
    assert!(!output.contains('\u{1b}'));
}

#[test]
fn buffer_reporter_writes_plain_text() {
    let mut reporter = Reporter::buffer();
    reporter.success("ok").unwrap();
    reporter.warn("careful").unwrap();
    reporter.error("bad").unwrap();
    reporter.info("note").unwrap();
    reporter.section("Title").unwrap();
    reporter.item("thing").unwrap();
    reporter.key_value("k", "v").unwrap();
    let out = reporter.into_string();
    assert!(!out.contains('\u{1b}'));
    assert_eq!(out, "✔ ok\n⚠ careful\n✖ bad\nℹ note\n\nTitle\n  - thing\n  k: v\n");
}

#[test]
fn reporter_writes_exact_styled_lines() {
    let mut reporter = Reporter::terminal();
    reporter.success("ok").unwrap();
    reporter.warn("careful").unwrap();
    reporter.error("bad").unwrap();
    reporter.info("note").unwrap();
    assert_eq!(
        reporter.into_string(),
        "\u{1b}[1m\u{1b}[32m✔\u{1b}[0m ok\n\
         \u{1b}[1m\u{1b}[33m⚠\u{1b}[0m careful\n\
         \u{1b}[1m\u{1b}[31m✖\u{1b}[0m bad\n\
         \u{1b}[1m\u{1b}[36mℹ\u{1b}[0m note\n"
    );
}

#[test]
fn reporter_section_item_key_value_and_raw_lines() {
    let mut reporter = Reporter::terminal();
    reporter.section("Generated files:").unwrap();
    reporter.item("/tmp/a").unwrap();
    reporter.key_value("1. Git include", "Add to ~/.gitconfig:").unwrap();
    reporter.raw_line("plain").unwrap();
    assert_eq!(
        reporter.into_string(),
        "\n\u{1b}[1mGenerated files:\u{1b}[0m\n\
         \x20\x20\u{1b}[2m-\u{1b}[0m /tmp/a\n\
         \x20\x20\u{1b}[1m1. Git include:\u{1b}[0m Add to ~/.gitconfig:\n\
         plain\n"
    );
}

#[test]
fn reporter_new_continues_after_existing_text() {
    let mut reporter = Reporter::new(String::from("earlier\n"));
    reporter.raw_line("later").unwrap();
    assert_eq!(reporter.into_string(), "earlier\nlater\n");
}

#[test]
fn reporter_keeps_every_message_written() {
    let mut reporter = Reporter::buffer();
    reporter.success("first").unwrap();
    reporter.item("second").unwrap();
    reporter.raw_line("third").unwrap();
    let out = reporter.into_string();
    assert!(out.contains("first") && out.contains("second") && out.contains("third"));
    assert!(out.find("first").unwrap() < out.find("second").unwrap());
    assert!(out.find("second").unwrap() < out.find("third").unwrap());
}
