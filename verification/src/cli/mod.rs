//! What the commands say and do: the rules behind `jjn`.
//!
//! A command is told what was seen and what came of what it asked for; it
//! answers with lines to print, things to do in order, and whether it failed.

pub mod apply;
pub mod doctor;
pub mod manage;
pub mod setup;

use jj_lib::config::StackedConfig;
use vstd::prelude::*;
use vstd::utf8::encode_utf8;

use crate::config::global::GlobalConfigReader;
use crate::config::layers_of;
use crate::config::load_single;
use crate::config::loads;
use crate::config::local::LocalConfigReader;
use crate::config::stack::stack_layers;
use crate::config::stack::LayerSource;
use crate::config::LOCAL_CONFIG_DIR;
use crate::config::LOCAL_CONFIG_FILE;
use crate::config::LOCAL_LOCK_FILE;
use crate::files::FileRead;
use crate::find_workspace_root;
use crate::path;
use crate::path::FsPath;
use crate::text;
use crate::toml;
use crate::upward;
use crate::workspace_root;
use crate::MarkSight;

verus! {

/// One line of output.
#[derive(Debug, PartialEq, Eq)]
pub struct Line {
    /// Whether it goes to the error output.
    pub complaint: bool,
    /// What it says.
    pub text: String,
}

/// A [`Line`] by value.
pub type LineView = (bool, Seq<char>);

impl View for Line {
    type V = LineView;

    open spec fn view(&self) -> LineView {
        (self.complaint, self.text@)
    }
}

/// Lines by value.
pub open spec fn line_views(lines: Seq<Line>) -> Seq<LineView> {
    lines.map_values(|line: Line| line@)
}

/// A line for the normal output.
pub fn said(text: String) -> (line: Line)
    ensures
        line@ == (false, text@),
{
    Line { complaint: false, text }
}

/// A line for the error output.
pub fn complained(text: String) -> (line: Line)
    ensures
        line@ == (true, text@),
{
    Line { complaint: true, text }
}

/// Appends a line.
pub(crate) fn put_line(lines: &mut Vec<Line>, line: Line)
    ensures
        line_views(final(lines)@) == line_views(old(lines)@).push(line@),
{
    let ghost before = line_views(lines@);
    lines.push(line);
    assert(line_views(lines@) =~= before.push(line@));
}

/// No lines.
pub(crate) fn no_lines() -> (lines: Vec<Line>)
    ensures
        line_views(lines@) == Seq::<LineView>::empty(),
        lines@.len() == 0,
{
    let lines: Vec<Line> = Vec::new();
    assert(line_views(lines@) =~= Seq::<LineView>::empty());
    lines
}

/// An error, as every command reports it.
pub open spec fn error_line(message: Seq<char>) -> LineView {
    (true, "error: "@ + message)
}

/// An error, as every command reports it.
pub(crate) fn error(message: &str) -> (line: Line)
    ensures
        line@ == error_line(message@),
{
    complained("error: ".to_owned().concat(message))
}

/// How a command ends: what it says, and whether it failed.
#[derive(Debug)]
pub struct Ending {
    /// The lines to print.
    pub lines: Vec<Line>,
    /// Whether the command failed.
    pub failed: bool,
}

impl View for Ending {
    type V = (Seq<LineView>, bool);

    open spec fn view(&self) -> (Seq<LineView>, bool) {
        (line_views(self.lines@), self.failed)
    }
}

/// An ending with one line.
pub(crate) fn end_with(line: Line, failed: bool) -> (ending: Ending)
    ensures
        ending@ == (seq![line@], failed),
{
    let mut lines = no_lines();
    put_line(&mut lines, line);
    assert(line_views(lines@) =~= seq![line@]);
    Ending { lines, failed }
}

// ---------------------------------------------------------------------------
// Finding and loading the configuration
// ---------------------------------------------------------------------------

/// A workspace and the global configuration that goes with it.
#[derive(Debug)]
pub struct Located {
    /// The workspace root.
    pub root: FsPath,
    /// The global configuration file.
    pub global_path: FsPath,
}

/// The global configuration file: the one that was named, or the default one
/// of the platform.
pub open spec fn global_path_of(named: Option<FsPath>, default: Option<FsPath>) -> Option<Seq<u8>> {
    match named {
        Some(named) => Some(named@),
        None => match default {
            Some(default) => Some(default@),
            None => None,
        },
    }
}

/// What is said where no workspace is found.
pub open spec fn no_root_line(start: Seq<u8>) -> LineView {
    error_line("no workspace root found at or above "@ + text::lossy_text(start))
}

/// Finds the workspace that `start` belongs to.
pub fn find_root(start: &FsPath, sights: &[MarkSight]) -> (root: Result<FsPath, Line>)
    requires
        sights@.len() == upward(start@).len(),
    ensures
        match workspace_root(start@, sights@) {
            None => root matches Err(line) && line@ == no_root_line(start@),
            Some(found) => root matches Ok(root) && root@ == found,
        },
{
    match find_workspace_root(start, sights) {
        Some(root) => Ok(root),
        None => Err(
            error(
                "no workspace root found at or above ".to_owned().concat(
                    start.display().as_str(),
                ).as_str(),
            ),
        ),
    }
}

/// Finds the workspace that `start` belongs to, and the global configuration
/// file; `default` is [`GlobalConfigReader::default_path`].
pub fn locate(
    start: &FsPath,
    sights: &[MarkSight],
    named: Option<FsPath>,
    default: Option<FsPath>,
) -> (located: Result<Located, Line>)
    requires
        sights@.len() == upward(start@).len(),
    ensures
        match workspace_root(start@, sights@) {
            None => located matches Err(line) && line@ == no_root_line(start@),
            Some(root) => match global_path_of(named, default) {
                None => located matches Err(line) && line@ == error_line(
                    "no platform config directory on this system"@,
                ),
                Some(global) => located matches Ok(located) && located.root@ == root
                    && located.global_path@ == global,
            },
        },
{
    let root = match find_root(start, sights) {
        Ok(root) => root,
        Err(line) => return Err(line),
    };
    let global_path = match named {
        Some(named) => named,
        None => match default {
            Some(path) => path,
            None => return Err(error("no platform config directory on this system")),
        },
    };
    Ok(Located { root, global_path })
}

/// The directory with the local configuration.
pub open spec fn local_dir(root: Seq<u8>) -> Seq<u8> {
    path::child(root, LOCAL_CONFIG_DIR@)
}

impl Located {
    /// The lock file of the workspace.
    pub fn lock_path(&self) -> (path: FsPath)
        ensures
            path@ == path::child(local_dir(self.root@), LOCAL_LOCK_FILE@),
    {
        self.root.join(LOCAL_CONFIG_DIR).join(LOCAL_LOCK_FILE)
    }

    /// The local configuration file of the workspace.
    pub fn manifest_path(&self) -> (path: FsPath)
        ensures
            path@ == path::child(local_dir(self.root@), LOCAL_CONFIG_FILE@),
    {
        self.root.join(LOCAL_CONFIG_DIR).join(LOCAL_CONFIG_FILE)
    }
}

/// The configuration of a workspace.
#[derive(Debug)]
pub struct Loaded {
    /// The global configuration.
    pub global: StackedConfig,
    /// The local configuration.
    pub local: StackedConfig,
}

/// Why a configuration file could not be loaded, if so.
pub open spec fn load_problem(file: FileRead) -> Option<Seq<char>> {
    match file {
        FileRead::Unreadable(_) => Some("Failed to read configuration file"@),
        _ => if loads(file) {
            None
        } else {
            Some("Configuration cannot be parsed as TOML document"@)
        },
    }
}

/// Loads the configuration of a workspace from what was read of the two files.
pub fn load(located: &Located, global_file: FileRead, local_file: FileRead) -> (loaded: Result<
    Loaded,
    Line,
>)
    ensures
        match load_problem(global_file) {
            Some(problem) => loaded matches Err(line) && line@ == error_line(
                "global config: "@ + problem,
            ),
            None => match load_problem(local_file) {
                Some(problem) => loaded matches Err(line) && line@ == error_line(
                    "local config: "@ + problem,
                ),
                None => loaded matches Ok(loaded) && stack_layers(loaded.global) == layers_of(
                    LayerSource::User,
                    global_file,
                ) && stack_layers(loaded.local) == layers_of(LayerSource::User, local_file),
            },
        },
{
    let global = GlobalConfigReader::from_path(located.global_path.clone()).with_file(global_file);
    let global = match global.layer() {
        Ok(layer) => load_single(layer),
        Err(err) => return Err(
            error("global config: ".to_owned().concat(err.message().as_str()).as_str()),
        ),
    };
    let local = LocalConfigReader::new(located.root.clone()).with_file(local_file);
    let local = match local.layer() {
        Ok(layer) => load_single(layer),
        Err(err) => return Err(
            error("local config: ".to_owned().concat(err.message().as_str()).as_str()),
        ),
    };
    assert(stack_layers(global) =~= layers_of(LayerSource::User, global_file));
    assert(stack_layers(local) =~= layers_of(LayerSource::User, local_file));
    Ok(Loaded { global, local })
}

/// **The global configuration is where the user says, and at its usual place
/// otherwise.**
pub proof fn named_configurations_come_first(named: Option<FsPath>, default: Option<FsPath>)
    ensures
        named matches Some(named) ==> global_path_of(Some(named), default) == Some(named@),
        named is None && default is Some ==> global_path_of(named, default) == Some(default->0@),
        named is None && default is None ==> global_path_of(named, default) is None,
{
}

/// **A file that is not there is no problem; one that cannot be read or parsed is.**
pub proof fn only_bad_files_are_problems(content: String)
    ensures
        load_problem(FileRead::Absent) is None,
        load_problem(FileRead::Unreadable(content)) is Some,
        load_problem(FileRead::Text(content)) is None <==> toml::parsed_toml(content@) is Ok,
{
}

/// **The files of a workspace are in its `.jjunction`.**
pub proof fn workspace_files_are_in_one_place(root: Seq<u8>)
    ensures
        local_dir(root) == path::joined(root, encode_utf8(".jjunction"@)),
        path::child(local_dir(root), LOCAL_LOCK_FILE@) == path::joined(
            path::joined(root, encode_utf8(".jjunction"@)),
            encode_utf8("lock.toml"@),
        ),
        path::child(local_dir(root), LOCAL_CONFIG_FILE@) == path::joined(
            path::joined(root, encode_utf8(".jjunction"@)),
            encode_utf8("config.toml"@),
        ),
{
}

} // verus!
