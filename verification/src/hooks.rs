//! One-time workspace wiring: `jjn init`.
//!
//! The reaction loop that keeps workspaces in sync needs two hooks that are
//! awkward to hand-write:
//!
//! - `.envrc`: `watch_file` on the jj workspace index and the jjunction
//!   config, so direnv re-evaluates (and the enterShell hook re-applies) when
//!   either changes;
//! - `devenv.local.nix`: a background `jjn apply --quiet` in `enterShell`.
//!   devenv loads this file automatically and it is gitignored by default,
//!   so jjunction can own it wholesale instead of performing text surgery
//!   on the user's `devenv.nix` module.
//!
//! All edits are idempotent and marker-scoped: `.envrc` gets a managed
//! comment block appended once, `devenv.local.nix` is only written when
//! absent (a foreign file is never touched).

use vstd::prelude::*;

use crate::config::LOCAL_CONFIG_DIR;
use crate::config::LOCAL_CONFIG_FILE;
use crate::files;
use crate::files::Deed;
use crate::files::FileRead;
use crate::files::Step;
use crate::files::StepView;
use crate::path;
use crate::path::FsPath;
use crate::text;

verus! {

/// The line that begins the managed block.
pub const MARK_BEGIN: &'static str = "# jjunction:begin (managed by `jjn init`; edits inside are lost)";

/// The line that ends the managed block.
pub const MARK_END: &'static str = "# jjunction:end";

/// What stands between the two.
pub const ENVRC_BLOCK: &'static str = "# Re-sync jj workspaces and jjunction state at the next prompt.\n# (only the default workspace has a .jj/repo directory)\n[ -d .jj/repo ] && watch_file .jj/repo/workspace_store/index\nwatch_file .jjunction/config.toml\n";

/// What `devenv.local.nix` is written as.
pub const DEVENV_LOCAL: &'static str = "# Managed by `jjn init` (jjunction). devenv loads this file automatically\n# and it is meant to stay out of version control.\n{ pkgs, ... }:\n{\n  enterShell = ''\n    if command -v jjn >/dev/null 2>&1; then\n      (jjn apply --quiet >/dev/null 2>&1 &)\n    fi\n  '';\n}\n";

/// What marks a `devenv.local.nix` as a managed one.
pub const DEVENV_MARK: &'static str = "jjn init";

/// Outcome for one wiring step.
#[derive(Debug, Clone, Copy, PartialEq, Eq, Structural)]
pub enum WireStatus {
    /// The hook was written.
    Created,
    /// The managed block was already present.
    AlreadyWired,
    /// The step does not apply (e.g. no devenv project).
    Skipped,
}

/// How a status describes itself.
pub open spec fn wire_text(status: WireStatus) -> Seq<char> {
    match status {
        WireStatus::Created => "wired"@,
        WireStatus::AlreadyWired => "already wired"@,
        WireStatus::Skipped => "skipped"@,
    }
}

impl WireStatus {
    /// The status as text.
    pub fn message(&self) -> (message: String)
        ensures
            message@ == wire_text(*self),
    {
        match self {
            WireStatus::Created => "wired".to_owned(),
            WireStatus::AlreadyWired => "already wired".to_owned(),
            WireStatus::Skipped => "skipped".to_owned(),
        }
    }
}

/// Errors while wiring hooks.
#[derive(Debug, PartialEq, Eq)]
pub enum HooksError {
    /// The file exists, contains content, but not our managed marker, so we
    /// refuse to touch it.
    ForeignFile(FsPath),
    /// Filesystem error; the message describes it.
    Io(String),
}

/// A [`HooksError`] by value.
pub enum HooksErrorView {
    /// See [`HooksError::ForeignFile`].
    ForeignFile(Seq<u8>),
    /// See [`HooksError::Io`].
    Io(Seq<char>),
}

impl View for HooksError {
    type V = HooksErrorView;

    open spec fn view(&self) -> HooksErrorView {
        match *self {
            HooksError::ForeignFile(path) => HooksErrorView::ForeignFile(path@),
            HooksError::Io(message) => HooksErrorView::Io(message@),
        }
    }
}

/// How an error describes itself.
pub open spec fn hooks_error_text(err: HooksErrorView) -> Seq<char> {
    match err {
        HooksErrorView::ForeignFile(path) => text::lossy_text(path)
            + " exists without a jjunction marker; add the hook manually (see README) or move the file aside"@,
        HooksErrorView::Io(message) => message,
    }
}

impl HooksError {
    /// The error as text.
    pub fn message(&self) -> (message: String)
        ensures
            message@ == hooks_error_text(self@),
    {
        match self {
            HooksError::ForeignFile(path) => path.display().concat(
                " exists without a jjunction marker; add the hook manually (see README) or move the file aside",
            ),
            HooksError::Io(message) => message.clone(),
        }
    }
}

/// Report of one `jjn init` run.
#[derive(Debug, Clone, Copy, PartialEq, Eq, Structural)]
pub struct InitReport {
    /// `.jjunction/config.toml` creation status.
    pub config: WireStatus,
    /// `.envrc` managed block status.
    pub envrc: WireStatus,
    /// `devenv.local.nix` hook status.
    pub devenv_local: WireStatus,
}

/// What was seen of a workspace's wiring.
#[derive(Debug)]
pub struct WiringSight {
    /// Whether `.jjunction/config.toml` exists.
    pub config: bool,
    /// The `.envrc`.
    pub envrc: FileRead,
    /// Whether `devenv.yaml` is a file.
    pub devenv_yaml: bool,
    /// Whether `devenv.nix` is a file.
    pub devenv_nix: bool,
    /// The `devenv.local.nix`.
    pub devenv_local: FileRead,
}

/// One step by value: the changes to make and the status, or the error.
pub type WireView = Result<(Seq<(StepView, bool)>, WireStatus), HooksErrorView>;

/// Creating the configuration file when it is absent.
pub open spec fn config_wiring(root: Seq<u8>, exists_: bool) -> (
    Seq<(StepView, bool)>,
    WireStatus,
) {
    let dir = path::child(root, LOCAL_CONFIG_DIR@);
    if exists_ {
        (Seq::empty(), WireStatus::AlreadyWired)
    } else {
        (
            seq![
                (StepView::MakeDirs(dir), true),
                (StepView::Write(path::child(dir, LOCAL_CONFIG_FILE@), ""@), true),
            ],
            WireStatus::Created,
        )
    }
}

/// The managed block, with a line end before it where the text lacks one.
pub open spec fn block_after(text: Seq<char>) -> Seq<char> {
    (if text.len() > 0 && text.last() != '\n' {
        "\n"@
    } else {
        ""@
    }) + "\n"@ + MARK_BEGIN@ + "\n"@ + ENVRC_BLOCK@ + MARK_END@ + "\n"@
}

/// An `.envrc` with the managed block behind what it held.
pub open spec fn wired_envrc(text: Seq<char>) -> Seq<char> {
    text + block_after(text)
}

/// Whether an `.envrc` has the managed block.
pub open spec fn has_block(file: FileRead) -> bool {
    match file {
        FileRead::Text(content) => text::holds(content@, MARK_BEGIN@),
        _ => false,
    }
}

/// Appending the managed block to `.envrc`.
pub open spec fn envrc_wiring(root: Seq<u8>, file: FileRead) -> WireView {
    let at = path::child(root, ".envrc"@);
    match file {
        FileRead::Unreadable(message) => Err(HooksErrorView::Io(message@)),
        FileRead::Absent => Ok(
            (seq![(StepView::Write(at, wired_envrc(""@)), true)], WireStatus::Created),
        ),
        FileRead::Text(content) => if text::holds(content@, MARK_BEGIN@) {
            Ok((Seq::empty(), WireStatus::AlreadyWired))
        } else {
            Ok((seq![(StepView::Write(at, wired_envrc(content@)), true)], WireStatus::Created))
        },
    }
}

/// Whether a workspace is a devenv project.
pub open spec fn is_devenv(sight: WiringSight) -> bool {
    sight.devenv_yaml || sight.devenv_nix
}

/// Writing the enterShell hook to `devenv.local.nix`.
pub open spec fn devenv_wiring(root: Seq<u8>, sight: WiringSight) -> WireView {
    let at = path::child(root, "devenv.local.nix"@);
    let write = seq![(StepView::Write(at, DEVENV_LOCAL@), true)];
    if !is_devenv(sight) {
        Ok((Seq::empty(), WireStatus::Skipped))
    } else {
        match sight.devenv_local {
            FileRead::Text(content) => if text::holds(content@, DEVENV_MARK@) {
                Ok((Seq::empty(), WireStatus::AlreadyWired))
            } else if text::trim(content@).len() == 0 {
                Ok((write, WireStatus::Created))
            } else {
                Err(HooksErrorView::ForeignFile(at))
            },
            FileRead::Absent => Ok((write, WireStatus::Created)),
            FileRead::Unreadable(message) => Err(HooksErrorView::Io(message@)),
        }
    }
}

/// What wiring a workspace comes to: the changes of the steps in order, up to
/// the first step that cannot be made, and the verdict.
pub open spec fn wiring(root: Seq<u8>, sight: WiringSight) -> (
    Seq<(StepView, bool)>,
    Result<InitReport, HooksErrorView>,
) {
    let config = config_wiring(root, sight.config);
    match envrc_wiring(root, sight.envrc) {
        Err(err) => (config.0, Err(err)),
        Ok(envrc) => match devenv_wiring(root, sight) {
            Err(err) => (config.0 + envrc.0, Err(err)),
            Ok(devenv) => (
                config.0 + envrc.0 + devenv.0,
                Ok(
                    InitReport { config: config.1, envrc: envrc.1, devenv_local: devenv.1 },
                ),
            ),
        },
    }
}

/// What is to be done for one workspace.
#[derive(Debug)]
pub struct InitPlan {
    /// The changes to make; all of them have to succeed.
    pub deeds: Vec<Deed>,
    /// The verdict once they are made.
    pub verdict: Result<InitReport, HooksError>,
}

/// A verdict by value.
pub open spec fn verdict_view(verdict: Result<InitReport, HooksError>) -> Result<
    InitReport,
    HooksErrorView,
> {
    match verdict {
        Ok(report) => Ok(report),
        Err(err) => Err(err@),
    }
}

fn ensure_config(root: &FsPath, exists_: bool, deeds: &mut Vec<Deed>) -> (status: WireStatus)
    ensures
        files::deed_views(final(deeds)@) == files::deed_views(old(deeds)@) + config_wiring(
            root@,
            exists_,
        ).0,
        status == config_wiring(root@, exists_).1,
{
    let ghost before = files::deed_views(deeds@);
    if exists_ {
        assert(before + Seq::<(StepView, bool)>::empty() =~= before);
        return WireStatus::AlreadyWired;
    }
    let dir = root.join(LOCAL_CONFIG_DIR);
    let file = dir.join(LOCAL_CONFIG_FILE);
    files::then_do(deeds, Step::MakeDirs(dir), true);
    files::then_do(deeds, Step::Write { path: file, content: "".to_owned() }, true);
    assert(files::deed_views(deeds@) =~= before + config_wiring(root@, exists_).0);
    WireStatus::Created
}

/// Appends the managed block to `text`.
pub fn wire_text_of_envrc(text: &str) -> (wired: String)
    ensures
        wired@ == wired_envrc(text@),
{
    let chars = text::chars_of(text);
    let gap = if chars.len() > 0 && chars[chars.len() - 1] != '\n' {
        "\n".to_owned()
    } else {
        "".to_owned()
    };
    let block = gap.concat("\n").concat(MARK_BEGIN).concat("\n").concat(ENVRC_BLOCK).concat(
        MARK_END,
    ).concat("\n");
    text.to_owned().concat(block.as_str())
}

fn wire_envrc(root: &FsPath, file: &FileRead, deeds: &mut Vec<Deed>) -> (status: Result<
    WireStatus,
    HooksError,
>)
    ensures
        match (envrc_wiring(root@, *file), status) {
            (Ok(wiring), Ok(status)) => status == wiring.1 && files::deed_views(final(deeds)@)
                == files::deed_views(old(deeds)@) + wiring.0,
            (Err(err), Err(found)) => found@ == err && *final(deeds) == *old(deeds),
            _ => false,
        },
{
    let ghost before = files::deed_views(deeds@);
    let wired = match file {
        FileRead::Unreadable(message) => return Err(HooksError::Io(message.clone())),
        FileRead::Absent => wire_text_of_envrc(""),
        FileRead::Text(content) => {
            if text::contains(content.as_str(), MARK_BEGIN) {
                assert(before + Seq::<(StepView, bool)>::empty() =~= before);
                return Ok(WireStatus::AlreadyWired);
            }
            wire_text_of_envrc(content.as_str())
        },
    };
    files::then_do(deeds, Step::Write { path: root.join(".envrc"), content: wired }, true);
    assert(files::deed_views(deeds@) =~= before + envrc_wiring(root@, *file)->Ok_0.0);
    Ok(WireStatus::Created)
}

fn wire_devenv_local(root: &FsPath, sight: &WiringSight, deeds: &mut Vec<Deed>) -> (status: Result<
    WireStatus,
    HooksError,
>)
    ensures
        match (devenv_wiring(root@, *sight), status) {
            (Ok(wiring), Ok(status)) => status == wiring.1 && files::deed_views(final(deeds)@)
                == files::deed_views(old(deeds)@) + wiring.0,
            (Err(err), Err(found)) => found@ == err && *final(deeds) == *old(deeds),
            _ => false,
        },
{
    let ghost before = files::deed_views(deeds@);
    assert(before + Seq::<(StepView, bool)>::empty() =~= before);
    if !(sight.devenv_yaml || sight.devenv_nix) {
        return Ok(WireStatus::Skipped);
    }
    let file = root.join("devenv.local.nix");
    match &sight.devenv_local {
        FileRead::Text(content) => {
            if text::contains(content.as_str(), DEVENV_MARK) {
                return Ok(WireStatus::AlreadyWired);
            }
            let rest = text::trimmed(content.as_str());
            if text::chars_of(rest.as_str()).len() > 0 {
                return Err(HooksError::ForeignFile(file));
            }
        },
        FileRead::Absent => {},
        FileRead::Unreadable(message) => return Err(HooksError::Io(message.clone())),
    }
    files::then_do(deeds, Step::Write { path: file, content: DEVENV_LOCAL.to_owned() }, true);
    assert(files::deed_views(deeds@) =~= before + devenv_wiring(root@, *sight)->Ok_0.0);
    Ok(WireStatus::Created)
}

/// Wires the workspace reaction loop (idempotent, marker-scoped): creates
/// `.jjunction/config.toml` when absent, appends the managed `watch_file` block
/// to `.envrc` (creating a minimal file when absent, and never editing outside
/// the markers), and writes the enterShell hook into `devenv.local.nix` when
/// this is a devenv project and the file is absent or empty; a foreign file is
/// refused.
pub fn init(root: &FsPath, sight: &WiringSight) -> (plan: InitPlan)
    ensures
        files::deed_views(plan.deeds@) == wiring(root@, *sight).0,
        verdict_view(plan.verdict) == wiring(root@, *sight).1,
{
    let mut deeds: Vec<Deed> = Vec::new();
    let ghost none = files::deed_views(deeds@);
    assert(none =~= Seq::<(StepView, bool)>::empty());
    let config = ensure_config(root, sight.config, &mut deeds);
    assert(none + config_wiring(root@, sight.config).0 =~= config_wiring(root@, sight.config).0);
    let envrc = match wire_envrc(root, &sight.envrc, &mut deeds) {
        Ok(status) => status,
        Err(err) => return InitPlan { deeds, verdict: Err(err) },
    };
    let devenv_local = match wire_devenv_local(root, sight, &mut deeds) {
        Ok(status) => status,
        Err(err) => return InitPlan { deeds, verdict: Err(err) },
    };
    InitPlan { deeds, verdict: Ok(InitReport { config, envrc, devenv_local }) }
}

/// What became of a plan: its verdict, or the message of the change that
/// failed.
pub fn conclude(plan: InitPlan, failure: Option<String>) -> (result: Result<
    InitReport,
    HooksError,
>)
    ensures
        match failure {
            None => result == plan.verdict,
            Some(message) => result == Err::<InitReport, HooksError>(HooksError::Io(message)),
        },
{
    match failure {
        None => plan.verdict,
        Some(message) => Err(HooksError::Io(message)),
    }
}

/// Doctor-side wiring check.
#[derive(Debug, Clone, Copy, PartialEq, Eq, Structural)]
pub enum HooksHealth {
    /// Both applicable hooks are in place.
    Healthy,
    /// `.envrc` lacks the managed watch block.
    EnvrcMissing,
    /// This is a devenv project but `devenv.local.nix` lacks the hook.
    DevenvLocalMissing,
}

/// How a health describes itself.
pub open spec fn hooks_health_text(health: HooksHealth) -> Seq<char> {
    match health {
        HooksHealth::Healthy => "ok"@,
        HooksHealth::EnvrcMissing => ".envrc lacks the jjunction watch block (jjn init)"@,
        HooksHealth::DevenvLocalMissing => "devenv.local.nix lacks the jjn apply hook (jjn init)"@,
    }
}

impl HooksHealth {
    /// Returns `true` when no action is needed.
    pub fn is_ok(&self) -> (ok: bool)
        ensures
            ok == (*self == HooksHealth::Healthy),
    {
        match self {
            HooksHealth::Healthy => true,
            _ => false,
        }
    }

    /// The health as text.
    pub fn message(&self) -> (message: String)
        ensures
            message@ == hooks_health_text(*self),
    {
        match self {
            HooksHealth::Healthy => "ok".to_owned(),
            HooksHealth::EnvrcMissing => ".envrc lacks the jjunction watch block (jjn init)".to_owned(),
            HooksHealth::DevenvLocalMissing => "devenv.local.nix lacks the jjn apply hook (jjn init)".to_owned(),
        }
    }
}

/// Whether `devenv.local.nix` has the hook.
pub open spec fn has_hook(file: FileRead) -> bool {
    match file {
        FileRead::Text(content) => text::holds(content@, DEVENV_MARK@),
        _ => false,
    }
}

/// The health of a workspace's wiring.
pub open spec fn hooks_health_of(sight: WiringSight) -> HooksHealth {
    if !has_block(sight.envrc) {
        HooksHealth::EnvrcMissing
    } else if is_devenv(sight) && !has_hook(sight.devenv_local) {
        HooksHealth::DevenvLocalMissing
    } else {
        HooksHealth::Healthy
    }
}

/// Checks the wiring, going by what was seen of it.
pub fn doctor(sight: &WiringSight) -> (health: HooksHealth)
    ensures
        health == hooks_health_of(*sight),
{
    let envrc_ok = match &sight.envrc {
        FileRead::Text(content) => text::contains(content.as_str(), MARK_BEGIN),
        _ => false,
    };
    let hook_ok = match &sight.devenv_local {
        FileRead::Text(content) => text::contains(content.as_str(), DEVENV_MARK),
        _ => false,
    };
    if !envrc_ok {
        HooksHealth::EnvrcMissing
    } else if (sight.devenv_yaml || sight.devenv_nix) && !hook_ok {
        HooksHealth::DevenvLocalMissing
    } else {
        HooksHealth::Healthy
    }
}

// ---------------------------------------------------------------------------
// Laws
// ---------------------------------------------------------------------------

/// **Wiring `.envrc` keeps what the user wrote and adds the block behind it.**
pub proof fn user_content_is_kept(text: Seq<char>)
    ensures
        text::starts(wired_envrc(text), text),
        text::holds(wired_envrc(text), MARK_BEGIN@),
        text::ends(wired_envrc(text), MARK_END@ + "\n"@),
{
    let wired = wired_envrc(text);
    assert(wired.take(text.len() as int) =~= text);
    let gap = if text.len() > 0 && text.last() != '\n' {
        "\n"@
    } else {
        ""@
    };
    let before = text + gap + "\n"@;
    let after = "\n"@ + ENVRC_BLOCK@ + MARK_END@ + "\n"@;
    assert(wired =~= before + MARK_BEGIN@ + after);
    text::lemma_holds_middle(before, MARK_BEGIN@, after);
    let tail = MARK_END@ + "\n"@;
    assert(wired.skip(wired.len() - tail.len()) =~= tail);
}

/// The written hook is recognized as a managed one.
proof fn lemma_hook_is_marked()
    ensures
        text::holds(DEVENV_LOCAL@, DEVENV_MARK@),
{
    reveal_strlit("# Managed by `jjn init` (jjunction). devenv loads this file automatically\n# and it is meant to stay out of version control.\n{ pkgs, ... }:\n{\n  enterShell = ''\n    if command -v jjn >/dev/null 2>&1; then\n      (jjn apply --quiet >/dev/null 2>&1 &)\n    fi\n  '';\n}\n");
    reveal_strlit("jjn init");
    assert(DEVENV_LOCAL@.subrange(14, 22) =~= DEVENV_MARK@);
    assert(text::occurs_at(DEVENV_LOCAL@, DEVENV_MARK@, 14));
}

/// Whether `after` is what is seen of a workspace once the changes that wiring
/// asked for, going by `before`, were made.
pub open spec fn settled(root: Seq<u8>, before: WiringSight, after: WiringSight) -> bool {
    &&& after.config
    &&& after.devenv_yaml == before.devenv_yaml
    &&& after.devenv_nix == before.devenv_nix
    &&& match envrc_wiring(root, before.envrc) {
        Ok((deeds, WireStatus::Created)) => after.envrc matches FileRead::Text(content) && deeds
            == seq![(StepView::Write(path::child(root, ".envrc"@), content@), true)],
        _ => after.envrc == before.envrc,
    }
    &&& match devenv_wiring(root, before) {
        Ok((deeds, WireStatus::Created)) => after.devenv_local matches FileRead::Text(content)
            && deeds == seq![
            (StepView::Write(path::child(root, "devenv.local.nix"@), content@), true),
        ],
        _ => after.devenv_local == before.devenv_local,
    }
}

/// After the write the block is in `.envrc`, so that the next run finds nothing
/// to do there.
proof fn lemma_envrc_settles(root: Seq<u8>, before: WiringSight, after: WiringSight)
    requires
        settled(root, before, after),
        envrc_wiring(root, before.envrc) is Ok,
    ensures
        envrc_wiring(root, after.envrc) == Ok::<
            (Seq<(StepView, bool)>, WireStatus),
            HooksErrorView,
        >((Seq::empty(), WireStatus::AlreadyWired)),
        has_block(after.envrc),
{
    let text = match before.envrc {
        FileRead::Text(content) => content@,
        _ => ""@,
    };
    user_content_is_kept(text);
    if envrc_wiring(root, before.envrc)->Ok_0.1 == WireStatus::Created {
        let at = path::child(root, ".envrc"@);
        let content = after.envrc->Text_0@;
        let a = seq![(StepView::Write(at, wired_envrc(text)), true)];
        let b = seq![(StepView::Write(at, content), true)];
        assert(a[0] == b[0]);
    }
}

/// The same for `devenv.local.nix`.
proof fn lemma_hook_settles(root: Seq<u8>, before: WiringSight, after: WiringSight)
    requires
        settled(root, before, after),
        devenv_wiring(root, before) is Ok,
    ensures
        devenv_wiring(root, after) matches Ok((deeds, status)) && deeds.len() == 0 && status == (
        if is_devenv(before) {
            WireStatus::AlreadyWired
        } else {
            WireStatus::Skipped
        }),
        is_devenv(after) ==> has_hook(after.devenv_local),
{
    lemma_hook_is_marked();
    if devenv_wiring(root, before)->Ok_0.1 == WireStatus::Created {
        let at = path::child(root, "devenv.local.nix"@);
        let content = after.devenv_local->Text_0@;
        let a = seq![(StepView::Write(at, DEVENV_LOCAL@), true)];
        let b = seq![(StepView::Write(at, content), true)];
        assert(a[0] == b[0]);
    }
}

/// **Wiring a workspace again does nothing, and the doctor has no complaint
/// about it.**
pub proof fn wiring_again_does_nothing(root: Seq<u8>, before: WiringSight, after: WiringSight)
    requires
        wiring(root, before).1 is Ok,
        settled(root, before, after),
    ensures
        wiring(root, after).0.len() == 0,
        wiring(root, after).1 == Ok::<InitReport, HooksErrorView>(
            InitReport {
                config: WireStatus::AlreadyWired,
                envrc: WireStatus::AlreadyWired,
                devenv_local: if is_devenv(before) {
                    WireStatus::AlreadyWired
                } else {
                    WireStatus::Skipped
                },
            },
        ),
        hooks_health_of(after) == HooksHealth::Healthy,
{
    lemma_envrc_settles(root, before, after);
    lemma_hook_settles(root, before, after);
}

/// **A foreign file is never touched**: where `devenv.local.nix` cannot be
/// wired, the verdict is an error and no change writes to it.
pub proof fn foreign_files_are_never_touched(
    root: Seq<u8>,
    sight: WiringSight,
    i: int,
    content: Seq<char>,
)
    requires
        devenv_wiring(root, sight) is Err,
        0 <= i < wiring(root, sight).0.len(),
    ensures
        wiring(root, sight).1 is Err,
        wiring(root, sight).0[i].0 != StepView::Write(
            path::child(root, "devenv.local.nix"@),
            content,
        ),
{
    reveal_strlit(".jjunction");
    reveal_strlit("config.toml");
    reveal_strlit(".envrc");
    reveal_strlit("devenv.local.nix");
    path::lemma_children_differ(root, "devenv.local.nix"@, ".envrc"@);
    path::lemma_below_differs(root, "devenv.local.nix"@, LOCAL_CONFIG_DIR@, LOCAL_CONFIG_FILE@);
}

/// **The managed block is appended to an `.envrc` exactly where it is not there
/// yet**: what the user has stays in front, and the rest is the block between its
/// two marks, on lines of its own.
pub proof fn envrc_is_wired_once(root: Seq<u8>, content: String)
    ensures
        ({
            let plan = envrc_wiring(root, FileRead::Text(content));
            let there = exists|p: int|
                0 <= p && p + MARK_BEGIN@.len() <= content@.len() && #[trigger] content@.subrange(
                    p,
                    p + MARK_BEGIN@.len(),
                ) == MARK_BEGIN@;
            let broken = content@.len() == 0 || content@.last() == '\n';
            &&& plan is Ok
            &&& there ==> plan->Ok_0.0.len() == 0 && plan->Ok_0.1 == WireStatus::AlreadyWired
            &&& !there ==> plan->Ok_0.1 == WireStatus::Created && plan->Ok_0.0.len() == 1
            &&& !there ==> plan->Ok_0.0[0].1 && plan->Ok_0.0[0].0 == StepView::Write(
                path::child(root, ".envrc"@),
                content@ + (if broken {
                    "\n"@
                } else {
                    "\n\n"@
                }) + MARK_BEGIN@ + "\n"@ + ENVRC_BLOCK@ + MARK_END@ + "\n"@,
            )
        }),
{
    let text = content@;
    reveal_strlit("");
    reveal_strlit("\n");
    reveal_strlit("\n\n");
    assert(text + ""@ =~= text);
    assert(wired_envrc(text) =~= text + (if text.len() == 0 || text.last() == '\n' {
        "\n"@
    } else {
        "\n\n"@
    }) + MARK_BEGIN@ + "\n"@ + ENVRC_BLOCK@ + MARK_END@ + "\n"@);
    text::holding_is_occurring(text, MARK_BEGIN@);
}

/// **Where there is no `.envrc`, one with the block alone is made; one that cannot
/// be read is reported.**
pub proof fn missing_envrc_is_made(root: Seq<u8>, message: String)
    ensures
        envrc_wiring(root, FileRead::Unreadable(message)) is Err,
        envrc_wiring(root, FileRead::Unreadable(message))->Err_0 == HooksErrorView::Io(message@),
        envrc_wiring(root, FileRead::Absent) is Ok,
        envrc_wiring(root, FileRead::Absent)->Ok_0.1 == WireStatus::Created,
        envrc_wiring(root, FileRead::Absent)->Ok_0.0.len() == 1,
        envrc_wiring(root, FileRead::Absent)->Ok_0.0[0].0 == StepView::Write(
            path::child(root, ".envrc"@),
            "\n"@ + MARK_BEGIN@ + "\n"@ + ENVRC_BLOCK@ + MARK_END@ + "\n"@,
        ),
{
    reveal_strlit("");
    assert(wired_envrc(""@) =~= "\n"@ + MARK_BEGIN@ + "\n"@ + ENVRC_BLOCK@ + MARK_END@ + "\n"@);
}

/// **A `devenv.local.nix` is written only where there is none, or one with nothing
/// but white space, and only in a devenv project**; one with the hook is left
/// alone, and any other one is refused.
pub proof fn hooks_never_overwrite(root: Seq<u8>, sight: WiringSight)
    ensures
        ({
            let plan = devenv_wiring(root, sight);
            let at = path::child(root, "devenv.local.nix"@);
            let project = sight.devenv_yaml || sight.devenv_nix;
            let hooked = sight.devenv_local matches FileRead::Text(content) && exists|p: int|
                0 <= p && p + DEVENV_MARK@.len() <= content@.len() && #[trigger] content@.subrange(
                    p,
                    p + DEVENV_MARK@.len(),
                ) == DEVENV_MARK@;
            let empty = sight.devenv_local is Absent || (sight.devenv_local matches FileRead::Text(
                content,
            ) && forall|i: int|
                0 <= i < content@.len() ==> text::white(#[trigger] content@[i]));
            &&& !project ==> plan == Ok::<(Seq<(StepView, bool)>, WireStatus), HooksErrorView>(
                (Seq::empty(), WireStatus::Skipped),
            )
            &&& project && hooked ==> plan == Ok::<
                (Seq<(StepView, bool)>, WireStatus),
                HooksErrorView,
            >((Seq::empty(), WireStatus::AlreadyWired))
            &&& project && !hooked && empty ==> (plan matches Ok((deeds, status)) && status
                == WireStatus::Created && deeds == seq![
                (StepView::Write(at, DEVENV_LOCAL@), true),
            ])
            &&& project && !hooked && !empty && sight.devenv_local is Text ==> plan == Err::<
                (Seq<(StepView, bool)>, WireStatus),
                HooksErrorView,
            >(HooksErrorView::ForeignFile(at))
            &&& project && sight.devenv_local is Unreadable ==> plan is Err && plan->Err_0 is Io
        }),
{
    if let FileRead::Text(content) = sight.devenv_local {
        let text = content@;
        text::trimming_takes_white_space_off(text);
        if text::holds(text, DEVENV_MARK@) {
            let p = choose|p: int| #[trigger] text::occurs_at(text, DEVENV_MARK@, p);
            assert(text.subrange(p, p + DEVENV_MARK@.len()) == DEVENV_MARK@);
        }
        if exists|p: int|
            0 <= p && p + DEVENV_MARK@.len() <= text.len() && #[trigger] text.subrange(
                p,
                p + DEVENV_MARK@.len(),
            ) == DEVENV_MARK@ {
            let p = choose|p: int|
                0 <= p && p + DEVENV_MARK@.len() <= text.len() && #[trigger] text.subrange(
                    p,
                    p + DEVENV_MARK@.len(),
                ) == DEVENV_MARK@;
            assert(text::occurs_at(text, DEVENV_MARK@, p));
        }
    }
}

/// **The wiring is healthy exactly where `.envrc` has the block and a devenv
/// project has the hook**; a configuration file is made exactly where there is
/// none.
pub proof fn healthy_wiring_has_both(root: Seq<u8>, sight: WiringSight)
    ensures
        ({
            let block = sight.envrc matches FileRead::Text(content) && text::holds(
                content@,
                MARK_BEGIN@,
            );
            let hook = sight.devenv_local matches FileRead::Text(content) && text::holds(
                content@,
                DEVENV_MARK@,
            );
            let project = sight.devenv_yaml || sight.devenv_nix;
            &&& hooks_health_of(sight) == HooksHealth::EnvrcMissing <==> !block
            &&& hooks_health_of(sight) == HooksHealth::DevenvLocalMissing <==> block && project
                && !hook
            &&& hooks_health_of(sight) == HooksHealth::Healthy <==> block && (project ==> hook)
        }),
        sight.config <==> config_wiring(root, sight.config).0.len() == 0,
        sight.config <==> config_wiring(root, sight.config).1 == WireStatus::AlreadyWired,
        !sight.config ==> config_wiring(root, sight.config) == (
            seq![
                (StepView::MakeDirs(path::child(root, ".jjunction"@)), true),
                (
                    StepView::Write(
                        path::child(path::child(root, ".jjunction"@), "config.toml"@),
                        Seq::empty(),
                    ),
                    true,
                ),
            ],
            WireStatus::Created,
        ),
{
    reveal_strlit("");
    assert(""@ =~= Seq::<char>::empty());
}

/// **Wiring does its three parts in order**, stops at the first that is refused, and
/// reports each as what it came to.
pub proof fn wiring_does_its_parts_in_order(root: Seq<u8>, sight: WiringSight)
    ensures
        ({
            let (deeds, verdict) = wiring(root, sight);
            let config = config_wiring(root, sight.config);
            let envrc = envrc_wiring(root, sight.envrc);
            let devenv = devenv_wiring(root, sight);
            &&& verdict is Ok <==> envrc is Ok && devenv is Ok
            &&& verdict is Ok ==> deeds == config.0 + envrc->Ok_0.0 + devenv->Ok_0.0
            &&& verdict matches Ok(report) ==> report.config == config.1 && report.envrc
                == envrc->Ok_0.1 && report.devenv_local == devenv->Ok_0.1
            &&& envrc is Err ==> deeds == config.0 && verdict->Err_0 == envrc->Err_0
            &&& envrc is Ok && devenv is Err ==> deeds == config.0 + envrc->Ok_0.0
                && verdict->Err_0 == devenv->Err_0
        }),
{
}

/// **What is refused is named, and what is missing is said with the command that
/// mends it.**
pub proof fn wiring_problems_are_named(path: Seq<u8>, message: Seq<char>)
    ensures
        text::starts(hooks_error_text(HooksErrorView::ForeignFile(path)), text::lossy_text(path)),
        hooks_error_text(HooksErrorView::Io(message)) == message,
        wire_text(WireStatus::Created) == "wired"@,
        wire_text(WireStatus::AlreadyWired) == "already wired"@,
        wire_text(WireStatus::Skipped) == "skipped"@,
        hooks_health_text(HooksHealth::EnvrcMissing)
            == ".envrc lacks the jjunction watch block (jjn init)"@,
        hooks_health_text(HooksHealth::DevenvLocalMissing)
            == "devenv.local.nix lacks the jjn apply hook (jjn init)"@,
{
    let said = hooks_error_text(HooksErrorView::ForeignFile(path));
    assert(said.take(text::lossy_text(path).len() as int) =~= text::lossy_text(path));
}

} // verus!
