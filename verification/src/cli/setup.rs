//! `jjn init` and `jjn trust`: what a workspace needs once.

use vstd::prelude::*;

use super::end_with;
use super::error;
use super::error_line;
use super::line_views;
use super::no_lines;
use super::put_line;
use super::said;
use super::Ending;
use super::LineView;
use crate::config::trust::trust_error_text;
use crate::config::trust::TrustError;
use crate::config::trust::TrustOutcome;
use crate::hooks::hooks_error_text;
use crate::hooks::wire_text;
use crate::hooks::HooksError;
use crate::hooks::InitReport;
use crate::hooks::WireStatus;
use crate::path::FsPath;
use crate::text;

verus! {

/// What is said of a workspace's wiring.
pub open spec fn init_lines(report: InitReport) -> Seq<LineView> {
    let wired = seq![
        (false, ".jjunction/config.toml: "@ + wire_text(report.config)),
        (false, ".envrc: "@ + wire_text(report.envrc)),
        (false, "devenv.local.nix: "@ + wire_text(report.devenv_local)),
    ];
    if report.devenv_local == WireStatus::Skipped {
        wired.push((false, "  (no devenv.yaml/devenv.nix: not a devenv project)"@))
    } else {
        wired
    }
}

/// Ends `init`.
pub fn init_ending(result: &Result<InitReport, HooksError>) -> (ending: Ending)
    ensures
        match *result {
            Ok(report) => ending@ == (init_lines(report), false),
            Err(err) => ending@ == (seq![error_line(hooks_error_text(err@))], true),
        },
{
    match result {
        Ok(report) => {
            let mut lines = no_lines();
            put_line(
                &mut lines,
                said(
                    ".jjunction/config.toml: ".to_owned().concat(
                        report.config.message().as_str(),
                    ),
                ),
            );
            put_line(
                &mut lines,
                said(".envrc: ".to_owned().concat(report.envrc.message().as_str())),
            );
            put_line(
                &mut lines,
                said(
                    "devenv.local.nix: ".to_owned().concat(
                        report.devenv_local.message().as_str(),
                    ),
                ),
            );
            if let WireStatus::Skipped = report.devenv_local {
                put_line(
                    &mut lines,
                    said("  (no devenv.yaml/devenv.nix: not a devenv project)".to_owned()),
                );
            }
            assert(line_views(lines@) =~= init_lines(*report));
            Ending { lines, failed: false }
        },
        Err(err) => end_with(error(err.message().as_str()), true),
    }
}

/// What is said of a workspace that was to be trusted.
pub open spec fn trust_line(
    result: Result<TrustOutcome, TrustError>,
    root: Seq<u8>,
    global_path: Seq<u8>,
) -> LineView {
    match result {
        Ok(TrustOutcome::Added) => (
            false,
            "trusted "@ + text::lossy_text(root) + " in "@ + text::lossy_text(global_path),
        ),
        Ok(TrustOutcome::AlreadyTrusted) => (
            false,
            text::lossy_text(root) + " is already trusted"@,
        ),
        Err(err) => error_line(trust_error_text(err)),
    }
}

/// Ends `trust`.
pub fn trust_ending(
    result: &Result<TrustOutcome, TrustError>,
    root: &FsPath,
    global_path: &FsPath,
) -> (ending: Ending)
    ensures
        ending@ == (seq![trust_line(*result, root@, global_path@)], result is Err),
{
    match result {
        Ok(TrustOutcome::Added) => end_with(
            said(
                "trusted ".to_owned().concat(root.display().as_str()).concat(" in ").concat(
                    global_path.display().as_str(),
                ),
            ),
            false,
        ),
        Ok(TrustOutcome::AlreadyTrusted) => end_with(
            said(root.display().concat(" is already trusted")),
            false,
        ),
        Err(err) => end_with(error(err.message().as_str()), true),
    }
}

/// **A setup says what came of each of its files**, and why a project without devenv
/// gets no hook.
pub proof fn setups_say_what_came_of_each_file(report: InitReport)
    ensures
        ({
            let lines = init_lines(report);
            &&& lines.len() == (if report.devenv_local == WireStatus::Skipped {
                4int
            } else {
                3int
            })
            &&& lines[0] == (false, ".jjunction/config.toml: "@ + wire_text(report.config))
            &&& lines[1] == (false, ".envrc: "@ + wire_text(report.envrc))
            &&& lines[2] == (false, "devenv.local.nix: "@ + wire_text(report.devenv_local))
        }),
{
}

/// **Trusting says what is trusted, and where that is written**; a failure is a
/// complaint.
pub proof fn trusting_says_what_is_trusted(
    result: Result<TrustOutcome, TrustError>,
    root: Seq<u8>,
    global_path: Seq<u8>,
)
    ensures
        trust_line(result, root, global_path).0 == result is Err,
        result matches Ok(TrustOutcome::Added) ==> trust_line(result, root, global_path).1
            == "trusted "@ + text::lossy_text(root) + " in "@ + text::lossy_text(global_path),
        result matches Ok(TrustOutcome::AlreadyTrusted) ==> trust_line(result, root, global_path).1
            == text::lossy_text(root) + " is already trusted"@,
        result is Err ==> trust_line(result, root, global_path).1 == "error: "@ + trust_error_text(
            result->Err_0,
        ),
{
}

} // verus!
