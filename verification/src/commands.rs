//! What the `init` command decides and reports.

use crate::ui::{badge_line, bold_in, AnsiColor, Reporter};
use vstd::prelude::*;

verus! {

/// Whether `init` writes the manifest template: when no manifest exists
/// yet, or when `--force` asks to overwrite it.
pub fn init_writes_template(manifest_exists: bool, force: bool) -> (w: bool)
    ensures
        w == (!manifest_exists || force),
{
    !manifest_exists || force
}

/// What `init` did.
pub enum InitOutcome {
    /// A manifest already existed and was left alone.
    AlreadyExists,
    /// The template was written.
    Initialized,
}

/// The output of `init` for the manifest at `path`.
pub open spec fn init_run_text(path: Seq<char>, outcome: InitOutcome, styled: bool) -> Seq<char> {
    match outcome {
        InitOutcome::AlreadyExists => badge_line(
            bold_in(AnsiColor::Yellow),
            "⚠"@,
            "Manifest already exists at: "@ + path,
            styled,
        ) + badge_line(
            bold_in(AnsiColor::Cyan),
            "ℹ"@,
            "Use --force to overwrite with a fresh template."@,
            styled,
        ),
        InitOutcome::Initialized => badge_line(
            bold_in(AnsiColor::Green),
            "✔"@,
            "Initialized manifest at: "@ + path,
            styled,
        ) + badge_line(
            bold_in(AnsiColor::Cyan),
            "ℹ"@,
            "Edit this file to declare your accounts, then run: git-account-switcher apply"@,
            styled,
        ),
    }
}

/// Writes the output of `init`: a warning and a hint when the manifest
/// already existed, or a confirmation and the next step when it was written.
pub fn report_init_run(reporter: &mut Reporter, config_path: &str, outcome: &InitOutcome) -> (r:
    std::io::Result<()>)
    ensures
        r is Ok,
        final(reporter).is_styled() == old(reporter).is_styled(),
        final(reporter)@ == old(reporter)@ + init_run_text(
            config_path@,
            *outcome,
            old(reporter).is_styled(),
        ),
{
    let ghost start = reporter@;
    let ghost st = reporter.is_styled();
    match outcome {
        InitOutcome::AlreadyExists => {
            let msg = String::from_str("Manifest already exists at: ").concat(config_path);
            let _ = reporter.warn(msg.as_str());
            let _ = reporter.info("Use --force to overwrite with a fresh template.");
        },
        InitOutcome::Initialized => {
            let msg = String::from_str("Initialized manifest at: ").concat(config_path);
            let _ = reporter.success(msg.as_str());
            let _ = reporter.info(
                "Edit this file to declare your accounts, then run: git-account-switcher apply",
            );
        },
    }
    assert(reporter@ =~= start + init_run_text(config_path@, *outcome, st));
    Ok(())
}

} // verus!
