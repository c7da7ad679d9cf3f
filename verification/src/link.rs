//! Managed links: `[[link]]` entries declared in the local (untrusted)
//! configuration.
//!
//! Each entry creates one symlink at `target` (relative to the workspace
//! root) pointing at `source`. `source` accepts absolute paths, `~/`
//! prefixes, and paths relative to the workspace root. Entries only take
//! effect when the repo is trusted (see [`crate::config::trust`]).
//!
//! `type` is `link` today; future kinds (copy, hardlink, template, …) will
//! extend [`LinkType`].

use jj_lib::config::StackedConfig;
use toml_edit::Item;
use vstd::prelude::*;
use vstd::utf8::encode_utf8;

use crate::config::decode;
use crate::config::stack;
use crate::config::ConfigGetError;
use crate::files;
use crate::files::Deed;
use crate::files::Disk;
use crate::files::Site;
use crate::files::SiteView;
use crate::files::Step;
use crate::files::StepView;
use crate::path;
use crate::path::FsPath;
use crate::text;
use crate::toml;
use crate::toml::Node;

verus! {

/// How an entry materializes on disk. Only `link` for now.
#[derive(Debug, Clone, Copy, PartialEq, Eq, Structural)]
pub enum LinkType {
    /// A symbolic link.
    Link,
}

/// One `[[link]]` entry.
#[derive(Debug, PartialEq, Eq)]
pub struct LinkEntry {
    /// Real file or directory the link points to.
    pub source: String,
    /// Link location, relative to the workspace root.
    pub target: String,
    /// Entry kind; currently only `link`.
    pub link_type: LinkType,
}

impl Clone for LinkEntry {
    fn clone(&self) -> (copy: LinkEntry)
        ensures
            copy == *self,
    {
        LinkEntry {
            source: self.source.clone(),
            target: self.target.clone(),
            link_type: self.link_type,
        }
    }
}

/// Outcome of applying one entry.
#[derive(Debug, Clone, Copy, PartialEq, Eq, Structural)]
pub enum ApplyStatus {
    /// The link was created.
    Created,
    /// The link already existed with the right target.
    AlreadyLinked,
}

/// How a status describes itself.
pub open spec fn apply_text(status: ApplyStatus) -> Seq<char> {
    match status {
        ApplyStatus::Created => "created"@,
        ApplyStatus::AlreadyLinked => "already linked"@,
    }
}

impl ApplyStatus {
    /// The status as text.
    pub fn message(&self) -> (message: String)
        ensures
            message@ == apply_text(*self),
    {
        match self {
            ApplyStatus::Created => "created".to_owned(),
            ApplyStatus::AlreadyLinked => "already linked".to_owned(),
        }
    }
}

/// Errors while applying one entry.
#[derive(Debug)]
pub enum LinkError {
    /// The link path exists as a real file or directory.
    Occupied(FsPath),
    /// The link points somewhere else than configured.
    Mismatch {
        /// Configured source.
        expected: FsPath,
        /// Current link target.
        found: FsPath,
    },
    /// The target path escapes the workspace root.
    EscapedTarget(String),
    /// Filesystem error; the message describes it.
    Io(String),
}

/// A [`LinkError`] by value.
pub enum LinkErrorView {
    /// See [`LinkError::Occupied`].
    Occupied(Seq<u8>),
    /// See [`LinkError::Mismatch`].
    Mismatch(Seq<u8>, Seq<u8>),
    /// See [`LinkError::EscapedTarget`].
    EscapedTarget(Seq<char>),
    /// See [`LinkError::Io`].
    Io(Seq<char>),
}

impl View for LinkError {
    type V = LinkErrorView;

    open spec fn view(&self) -> LinkErrorView {
        match *self {
            LinkError::Occupied(path) => LinkErrorView::Occupied(path@),
            LinkError::Mismatch { expected, found } => LinkErrorView::Mismatch(expected@, found@),
            LinkError::EscapedTarget(target) => LinkErrorView::EscapedTarget(target@),
            LinkError::Io(message) => LinkErrorView::Io(message@),
        }
    }
}

/// How an error describes itself.
pub open spec fn link_error_text(err: LinkErrorView) -> Seq<char> {
    match err {
        LinkErrorView::Occupied(path) => "occupied by a real file: "@ + text::lossy_text(path),
        LinkErrorView::Mismatch(expected, found) => "points to "@ + text::lossy_text(found)
            + " instead of "@ + text::lossy_text(expected),
        LinkErrorView::EscapedTarget(target) => "target escapes workspace root: "@ + target,
        LinkErrorView::Io(message) => message,
    }
}

impl LinkError {
    /// The error as text.
    pub fn message(&self) -> (message: String)
        ensures
            message@ == link_error_text(self@),
    {
        match self {
            LinkError::Occupied(path) => "occupied by a real file: ".to_owned().concat(
                path.display().as_str(),
            ),
            LinkError::Mismatch { expected, found } => "points to ".to_owned().concat(
                found.display().as_str(),
            ).concat(" instead of ").concat(expected.display().as_str()),
            LinkError::EscapedTarget(target) => "target escapes workspace root: ".to_owned().concat(
                target.as_str(),
            ),
            LinkError::Io(message) => message.clone(),
        }
    }
}

/// Health of one entry as reported by [`doctor`].
#[derive(Debug, PartialEq, Eq)]
pub enum DoctorStatus {
    /// Link exists and points at the configured source.
    Healthy,
    /// The source does not exist.
    MissingSource,
    /// The link has not been created yet.
    MissingLink,
    /// Something other than a symlink occupies the target.
    NotALink,
    /// The link points somewhere else.
    WrongTarget {
        /// Configured source.
        expected: FsPath,
        /// Current link target.
        found: FsPath,
    },
    /// The target path escapes the workspace root.
    EscapedTarget,
}

/// A [`DoctorStatus`] by value.
pub enum Health {
    /// See [`DoctorStatus::Healthy`].
    Fine,
    /// See [`DoctorStatus::MissingSource`].
    MissingSource,
    /// See [`DoctorStatus::MissingLink`].
    MissingLink,
    /// See [`DoctorStatus::NotALink`].
    NotALink,
    /// See [`DoctorStatus::WrongTarget`].
    WrongTarget(Seq<u8>, Seq<u8>),
    /// See [`DoctorStatus::EscapedTarget`].
    EscapedTarget,
}

impl View for DoctorStatus {
    type V = Health;

    open spec fn view(&self) -> Health {
        match *self {
            DoctorStatus::Healthy => Health::Fine,
            DoctorStatus::MissingSource => Health::MissingSource,
            DoctorStatus::MissingLink => Health::MissingLink,
            DoctorStatus::NotALink => Health::NotALink,
            DoctorStatus::WrongTarget { expected, found } => Health::WrongTarget(
                expected@,
                found@,
            ),
            DoctorStatus::EscapedTarget => Health::EscapedTarget,
        }
    }
}

/// How a health describes itself.
pub open spec fn health_text(health: Health) -> Seq<char> {
    match health {
        Health::Fine => "ok"@,
        Health::MissingSource => "missing source"@,
        Health::MissingLink => "missing link"@,
        Health::NotALink => "not a link"@,
        Health::WrongTarget(expected, found) => "points to "@ + text::lossy_text(found)
            + " instead of "@ + text::lossy_text(expected),
        Health::EscapedTarget => "target escapes workspace root"@,
    }
}

impl DoctorStatus {
    /// Returns `true` when the entry needs no action.
    pub fn is_ok(&self) -> (ok: bool)
        ensures
            ok == (self@ is Fine),
    {
        match self {
            DoctorStatus::Healthy => true,
            _ => false,
        }
    }

    /// The status as text.
    pub fn message(&self) -> (message: String)
        ensures
            message@ == health_text(self@),
    {
        match self {
            DoctorStatus::Healthy => "ok".to_owned(),
            DoctorStatus::MissingSource => "missing source".to_owned(),
            DoctorStatus::MissingLink => "missing link".to_owned(),
            DoctorStatus::NotALink => "not a link".to_owned(),
            DoctorStatus::WrongTarget { expected, found } => "points to ".to_owned().concat(
                found.display().as_str(),
            ).concat(" instead of ").concat(expected.display().as_str()),
            DoctorStatus::EscapedTarget => "target escapes workspace root".to_owned(),
        }
    }
}

impl Clone for DoctorStatus {
    fn clone(&self) -> (copy: DoctorStatus)
        ensures
            copy@ == self@,
    {
        match self {
            DoctorStatus::Healthy => DoctorStatus::Healthy,
            DoctorStatus::MissingSource => DoctorStatus::MissingSource,
            DoctorStatus::MissingLink => DoctorStatus::MissingLink,
            DoctorStatus::NotALink => DoctorStatus::NotALink,
            DoctorStatus::WrongTarget { expected, found } => DoctorStatus::WrongTarget {
                expected: expected.clone(),
                found: found.clone(),
            },
            DoctorStatus::EscapedTarget => DoctorStatus::EscapedTarget,
        }
    }
}

/// One entry with its [`DoctorStatus`].
#[derive(Debug)]
pub struct Diagnosis {
    /// The checked entry.
    pub entry: LinkEntry,
    /// What was found.
    pub status: DoctorStatus,
}

// ---------------------------------------------------------------------------
// Loading
// ---------------------------------------------------------------------------

/// The fields of an entry.
pub open spec fn entry_fields() -> Seq<Seq<char>> {
    seq!["source"@, "target"@, "type"@]
}

/// The source and the target of the entry that a value writes.
pub open spec fn entry_of(node: Node) -> Option<(Seq<char>, Seq<char>)> {
    match decode::fields_of(node, entry_fields(), 3) {
        Some(fields) => match (
            decode::needed_text(fields[0]),
            decode::needed_text(fields[1]),
            fields[2],
        ) {
            (Some(source), Some(target), Some(kind)) => if decode::choice_of(
                kind,
                seq!["link"@],
            ) is Some {
                Some((source, target))
            } else {
                None
            },
            _ => None,
        },
        None => None,
    }
}

/// The entries that a value writes: a list, each of it an entry.
pub open spec fn entries_of(node: Node) -> Option<Seq<(Seq<char>, Seq<char>)>> {
    match node {
        Node::List(list) => if forall|i: int|
            0 <= i < list.len() ==> entry_of(#[trigger] list[i]) is Some {
            Some(list.map_values(|n: Node| entry_of(n)->0))
        } else {
            None
        },
        _ => None,
    }
}

/// The entries by value.
pub open spec fn entry_views(entries: Seq<LinkEntry>) -> Seq<(Seq<char>, Seq<char>)> {
    entries.map_values(|e: LinkEntry| (e.source@, e.target@))
}

fn read_entry(value: &Item) -> (entry: Option<LinkEntry>)
    ensures
        match entry {
            Some(entry) => entry_of(toml::item_node(*value)) == Some(
                (entry.source@, entry.target@),
            ),
            None => entry_of(toml::item_node(*value)) is None,
        },
{
    let names: Vec<&str> = vec!["source", "target", "type"];
    assert(decode::name_views(names@) =~= entry_fields());
    let fields = match decode::fields(value, &names, 3) {
        Some(fields) => fields,
        None => return None,
    };
    assert(decode::nodes_in(fields@)[0] == decode::node_in(fields@[0]));
    assert(decode::nodes_in(fields@)[1] == decode::node_in(fields@[1]));
    assert(decode::nodes_in(fields@)[2] == decode::node_in(fields@[2]));
    let source = match decode::read_text(fields[0]) {
        Some(source) => source,
        None => return None,
    };
    let target = match decode::read_text(fields[1]) {
        Some(target) => target,
        None => return None,
    };
    match fields[2] {
        Some(kind) => {
            let choices: Vec<&str> = vec!["link"];
            assert(decode::name_views(choices@) =~= seq!["link"@]);
            match decode::read_choice(kind, &choices) {
                Some(_) => Some(LinkEntry { source, target, link_type: LinkType::Link }),
                None => None,
            }
        },
        None => None,
    }
}

fn read_entries(value: &Item) -> (entries: Option<Vec<LinkEntry>>)
    ensures
        match entries {
            Some(entries) => entries_of(toml::item_node(*value)) == Some(entry_views(entries@)),
            None => entries_of(toml::item_node(*value)) is None,
        },
{
    let array = match toml::item_array(value) {
        Some(array) => array,
        None => return None,
    };
    let list = decode::elements(value);
    let ghost nodes = toml::array_nodes(*array);
    let mut entries: Vec<LinkEntry> = Vec::new();
    let mut i: usize = 0;
    while i < list.len()
        invariant
            i <= list.len(),
            nodes == toml::item_nodes(list@),
            toml::item_node(*value) == Node::List(nodes),
            entries.len() == i,
            forall|j: int|
                0 <= j < i ==> entry_of(#[trigger] nodes[j]) == Some(
                    (entries@[j].source@, entries@[j].target@),
                ),
        decreases list.len() - i,
    {
        assert(nodes[i as int] == toml::item_node(*list@[i as int]));
        match read_entry(list[i]) {
            Some(entry) => entries.push(entry),
            None => return None,
        }
        i = i + 1;
    }
    assert(entries_of(toml::item_node(*value))->0 =~= entry_views(entries@));
    Some(entries)
}

/// Loads `[[link]]` entries from the local configuration stack. Missing
/// entries yield an empty list.
pub fn load_entries(local: &StackedConfig) -> (entries: Result<Vec<LinkEntry>, ConfigGetError>)
    ensures
        match stack::stacked(stack::stack_layers(*local), "link"@) {
            None => entries matches Ok(entries) && entries@.len() == 0,
            Some(node) => match entries_of(node) {
                Some(read) => entries matches Ok(entries) && entry_views(entries@) == read,
                None => entries matches Err(err) && err.name@ == "link"@,
            },
        },
{
    match stack::get_value(local, "link") {
        None => Ok(Vec::new()),
        Some(value) => match read_entries(&value) {
            Some(entries) => Ok(entries),
            None => Err(ConfigGetError { name: "link".to_owned() }),
        },
    }
}

// ---------------------------------------------------------------------------
// Applying
// ---------------------------------------------------------------------------

/// Where an entry's source is: `~/` stands for the home directory (the root
/// directory without one), a relative path is taken from the workspace root.
pub open spec fn source_path(root: Seq<u8>, home: Option<Seq<u8>>, source: Seq<char>) -> Seq<u8> {
    if text::starts(source, "~/"@) {
        path::child(
            match home {
                Some(home) => home,
                None => encode_utf8("/"@),
            },
            source.skip("~/"@.len() as int),
        )
    } else {
        path::child(root, source)
    }
}

/// An optional path by value.
pub open spec fn maybe_path(path: Option<FsPath>) -> Option<Seq<u8>> {
    match path {
        Some(path) => Some(path@),
        None => None,
    }
}

/// Resolves an entry source: `~/` expands to the home directory, relative
/// paths resolve against the workspace root.
pub fn resolve_source(root: &FsPath, home: &Option<FsPath>, source: &str) -> (resolved: FsPath)
    ensures
        resolved@ == source_path(root@, maybe_path(*home), source@),
{
    match text::strip_prefix(source, "~/") {
        Some(rest) => match home {
            Some(home) => home.join(rest.as_str()),
            None => FsPath::new("/").join(rest.as_str()),
        },
        None => root.join(source),
    }
}

/// `dirs::home_dir` gives the user's home directory, going by the environment;
/// nothing is said of which one it is.
#[verifier::external_body]
fn platform_home() -> (home: Option<FsPath>) {
    match dirs::home_dir() {
        Some(home) => Some(FsPath::from_bytes(home.into_os_string().into_encoded_bytes())),
        None => None,
    }
}

/// Resolves an entry source in the environment of this process.
pub fn locate_source(root: &FsPath, source: &str) -> (resolved: FsPath)
    ensures
        exists|home: Option<Seq<u8>>| resolved@ == #[trigger] source_path(root@, home, source@),
        !text::starts(source@, "~/"@) ==> resolved@ == path::child(root@, source@),
{
    resolve_source(root, &platform_home(), source)
}

/// What is to be done for one entry.
#[derive(Debug)]
pub struct LinkPlan {
    /// The changes to make; all of them have to succeed.
    pub deeds: Vec<Deed>,
    /// The status once they are made.
    pub status: ApplyStatus,
}

/// The changes that make a link where nothing stands.
pub open spec fn linking(source: Seq<u8>, link: Seq<u8>) -> Seq<(StepView, bool)> {
    files::above(link, true).push((StepView::Symlink(source, link), true))
}

/// What applying an entry comes to when the link at `link` is to point at
/// `source`: the changes to make, or why none is made. A link to somewhere else
/// and a real file are only replaced with `force`, a real directory never is.
pub open spec fn link_plan(
    source: Seq<u8>,
    link: Seq<u8>,
    force: bool,
    site: SiteView,
) -> Result<(Seq<(StepView, bool)>, ApplyStatus), LinkErrorView> {
    match site {
        SiteView::Absent => Ok((linking(source, link), ApplyStatus::Created)),
        SiteView::Link(found) => if path::same_path(found, source) {
            Ok((Seq::empty(), ApplyStatus::AlreadyLinked))
        } else if force {
            Ok(
                (
                    seq![(StepView::RemoveFile(link), true)] + linking(source, link),
                    ApplyStatus::Created,
                ),
            )
        } else {
            Err(LinkErrorView::Mismatch(source, found))
        },
        SiteView::BadLink(message) => Err(LinkErrorView::Io(message)),
        SiteView::Directory => Err(LinkErrorView::Occupied(link)),
        SiteView::File => if force {
            Ok(
                (
                    seq![(StepView::RemoveFile(link), true)] + linking(source, link),
                    ApplyStatus::Created,
                ),
            )
        } else {
            Err(LinkErrorView::Occupied(link))
        },
        SiteView::Unreadable(message) => Err(LinkErrorView::Io(message)),
    }
}

/// What applying an entry comes to: an escaping target is refused.
pub open spec fn entry_plan(
    root: Seq<u8>,
    home: Option<Seq<u8>>,
    entry: LinkEntry,
    force: bool,
    site: SiteView,
) -> Result<(Seq<(StepView, bool)>, ApplyStatus), LinkErrorView> {
    if !path::within_root(encode_utf8(entry.target@)) {
        Err(LinkErrorView::EscapedTarget(entry.target@))
    } else {
        link_plan(
            source_path(root, home, entry.source@),
            path::child(root, entry.target@),
            force,
            site,
        )
    }
}

/// A plan by value.
pub open spec fn plan_view(plan: Result<LinkPlan, LinkError>) -> Result<
    (Seq<(StepView, bool)>, ApplyStatus),
    LinkErrorView,
> {
    match plan {
        Ok(plan) => Ok((files::deed_views(plan.deeds@), plan.status)),
        Err(err) => Err(err@),
    }
}

/// Where the link of an entry stands; an escaping target is not looked at.
pub fn link_to_check(root: &FsPath, entry: &LinkEntry) -> (link: Option<FsPath>)
    ensures
        link is Some == path::within_root(encode_utf8(entry.target@)),
        link is Some ==> link->0@ == path::child(root@, entry.target@),
{
    if path::target_within_root(entry.target.as_str()) {
        Some(root.join(entry.target.as_str()))
    } else {
        None
    }
}

fn make_link(source: FsPath, link: FsPath, replace: bool) -> (plan: LinkPlan)
    ensures
        plan.status == ApplyStatus::Created,
        files::deed_views(plan.deeds@) == (if replace {
            seq![(StepView::RemoveFile(link@), true)] + linking(source@, link@)
        } else {
            linking(source@, link@)
        }),
{
    let mut deeds: Vec<Deed> = Vec::new();
    assert(files::deed_views(deeds@) =~= Seq::<(StepView, bool)>::empty());
    if replace {
        files::then_do(&mut deeds, Step::RemoveFile(link.clone()), true);
    }
    if let Some(parent) = link.parent() {
        files::then_do(&mut deeds, Step::MakeDirs(parent), true);
    }
    files::then_do(&mut deeds, Step::Symlink { source, at: link }, true);
    assert(files::deed_views(deeds@) =~= if replace {
        seq![(StepView::RemoveFile(link@), true)] + linking(source@, link@)
    } else {
        linking(source@, link@)
    });
    LinkPlan { deeds, status: ApplyStatus::Created }
}

/// Applies one entry, going by what stands at its link: says which changes
/// create the symlink, or why it cannot be created.
pub fn apply_one(root: &FsPath, entry: &LinkEntry, force: bool, site: &Site) -> (plan: Result<
    LinkPlan,
    LinkError,
>)
    ensures
        exists|home: Option<Seq<u8>>|
            plan_view(plan) == #[trigger] entry_plan(root@, home, *entry, force, site@),
        !text::starts(entry.source@, "~/"@) ==> plan_view(plan) == entry_plan(
            root@,
            None,
            *entry,
            force,
            site@,
        ),
{
    apply_at_home(root, &platform_home(), entry, force, site)
}

/// Applies one entry for a user with this home directory, going by what stands
/// at its link.
pub fn apply_at_home(
    root: &FsPath,
    home: &Option<FsPath>,
    entry: &LinkEntry,
    force: bool,
    site: &Site,
) -> (plan: Result<LinkPlan, LinkError>)
    ensures
        plan_view(plan) == entry_plan(root@, maybe_path(*home), *entry, force, site@),
{
    if !path::target_within_root(entry.target.as_str()) {
        return Err(LinkError::EscapedTarget(entry.target.clone()));
    }
    let source = resolve_source(root, home, entry.source.as_str());
    let link = root.join(entry.target.as_str());
    match site {
        Site::Absent => Ok(make_link(source, link, false)),
        Site::Link(found) => {
            if found.same_as(&source) {
                let deeds: Vec<Deed> = Vec::new();
                assert(files::deed_views(deeds@) =~= Seq::<(StepView, bool)>::empty());
                Ok(LinkPlan { deeds, status: ApplyStatus::AlreadyLinked })
            } else if force {
                Ok(make_link(source, link, true))
            } else {
                Err(LinkError::Mismatch { expected: source, found: found.clone() })
            }
        },
        Site::BadLink(message) => Err(LinkError::Io(message.clone())),
        // Never remove a real directory, even with --force.
        Site::Directory => Err(LinkError::Occupied(link)),
        Site::File => {
            if force {
                Ok(make_link(source, link, true))
            } else {
                Err(LinkError::Occupied(link))
            }
        },
        Site::Unreadable(message) => Err(LinkError::Io(message.clone())),
    }
}

/// What became of a plan: its status, or the message of the change that
/// failed.
pub fn conclude(plan: &LinkPlan, failure: Option<String>) -> (result: Result<
    ApplyStatus,
    LinkError,
>)
    ensures
        match failure {
            None => result == Ok::<ApplyStatus, LinkError>(plan.status),
            Some(message) => result == Err::<ApplyStatus, LinkError>(LinkError::Io(message)),
        },
{
    match failure {
        None => Ok(plan.status),
        Some(message) => Err(LinkError::Io(message)),
    }
}

// ---------------------------------------------------------------------------
// Checking
// ---------------------------------------------------------------------------

/// What was seen of one entry.
#[derive(Debug)]
pub struct LinkSight {
    /// Whether the source exists.
    pub source: bool,
    /// What stands at the link.
    pub site: Site,
}

/// The health of a link.
pub open spec fn link_health(source: Seq<u8>, exists_: bool, site: SiteView) -> Health {
    if !exists_ {
        Health::MissingSource
    } else {
        match site {
            SiteView::Link(found) => if path::same_path(found, source) {
                Health::Fine
            } else {
                Health::WrongTarget(source, found)
            },
            SiteView::BadLink(_) => if path::same_path(Seq::empty(), source) {
                Health::Fine
            } else {
                Health::WrongTarget(source, Seq::empty())
            },
            SiteView::Directory | SiteView::File => Health::NotALink,
            SiteView::Absent | SiteView::Unreadable(_) => Health::MissingLink,
        }
    }
}

/// The health of an entry, going by what was seen.
pub open spec fn health_of(
    root: Seq<u8>,
    home: Option<Seq<u8>>,
    entry: LinkEntry,
    sight: LinkSight,
) -> Health {
    if !path::within_root(encode_utf8(entry.target@)) {
        Health::EscapedTarget
    } else {
        link_health(source_path(root, home, entry.source@), sight.source, sight.site@)
    }
}

/// Checks one entry, going by what was seen of it.
pub fn diagnose(
    root: &FsPath,
    home: &Option<FsPath>,
    entry: &LinkEntry,
    sight: &LinkSight,
) -> (status: DoctorStatus)
    ensures
        status@ == health_of(root@, maybe_path(*home), *entry, *sight),
        status is EscapedTarget <==> !path::within_root(encode_utf8(entry.target@)),
        status is MissingSource <==> path::within_root(encode_utf8(entry.target@)) && !sight.source,
        sight.site matches Site::Link(found) ==> (status is Healthy <==> path::within_root(
            encode_utf8(entry.target@),
        ) && sight.source && path::parts(found@) == path::parts(
            source_path(root@, maybe_path(*home), entry.source@),
        )),
{
    if !path::target_within_root(entry.target.as_str()) {
        return DoctorStatus::EscapedTarget;
    }
    let source = resolve_source(root, home, entry.source.as_str());
    if !sight.source {
        return DoctorStatus::MissingSource;
    }
    let found = match &sight.site {
        Site::Link(found) => found.clone(),
        Site::BadLink(_) => {
            let none: Vec<u8> = Vec::new();
            assert(none@ =~= Seq::<u8>::empty());
            FsPath::from_bytes(none)
        },
        Site::Directory | Site::File => return DoctorStatus::NotALink,
        Site::Absent | Site::Unreadable(_) => return DoctorStatus::MissingLink,
    };
    if found.same_as(&source) {
        DoctorStatus::Healthy
    } else {
        DoctorStatus::WrongTarget { expected: source, found }
    }
}

/// Checks all entries, each going by what was seen of it.
pub fn doctor(root: &FsPath, entries: &[LinkEntry], sights: &[LinkSight]) -> (report: Vec<
    Diagnosis,
>)
    requires
        sights@.len() == entries@.len(),
    ensures
        report@.len() == entries@.len(),
        exists|home: Option<Seq<u8>>| #[trigger] diagnosed(root@, home, entries@, sights@, report@),
        forall|i: int|
            0 <= i < entries@.len() && !text::starts(entries@[i].source@, "~/"@) ==> (
            #[trigger] report@[i]).status@ == health_of(root@, None, entries@[i], sights@[i]),
{
    let home = platform_home();
    let report = doctor_at_home(root, &home, entries, sights);
    assert(diagnosed(root@, maybe_path(home), entries@, sights@, report@));
    report
}

/// Whether a report has every entry with its health, for a user with this home
/// directory.
pub open spec fn diagnosed(
    root: Seq<u8>,
    home: Option<Seq<u8>>,
    entries: Seq<LinkEntry>,
    sights: Seq<LinkSight>,
    report: Seq<Diagnosis>,
) -> bool {
    report.len() == entries.len() && forall|i: int|
        0 <= i < entries.len() ==> (#[trigger] report[i]).entry == entries[i]
            && report[i].status@ == health_of(root, home, entries[i], sights[i])
}

/// Checks all entries for a user with this home directory, each going by what
/// was seen of it.
pub fn doctor_at_home(
    root: &FsPath,
    home: &Option<FsPath>,
    entries: &[LinkEntry],
    sights: &[LinkSight],
) -> (report: Vec<Diagnosis>)
    requires
        sights@.len() == entries@.len(),
    ensures
        diagnosed(root@, maybe_path(*home), entries@, sights@, report@),
{
    let mut report: Vec<Diagnosis> = Vec::new();
    let mut i: usize = 0;
    while i < entries.len()
        invariant
            i <= entries.len(),
            sights@.len() == entries@.len(),
            report.len() == i,
            forall|j: int|
                0 <= j < i ==> (#[trigger] report@[j]).entry == entries@[j]
                    && report@[j].status@ == health_of(
                    root@,
                    maybe_path(*home),
                    entries@[j],
                    sights@[j],
                ),
        decreases entries.len() - i,
    {
        let status = diagnose(root, home, &entries[i], &sights[i]);
        report.push(Diagnosis { entry: entries[i].clone(), status });
        i = i + 1;
    }
    report
}

// ---------------------------------------------------------------------------
// Laws
// ---------------------------------------------------------------------------

/// **Applying an entry makes it healthy, and applying it again does nothing.**
/// Once the plan was carried out, the link is found in place, with or without
/// force, and the doctor has no complaint about it.
pub proof fn applied_links_are_in_place(
    source: Seq<u8>,
    link: Seq<u8>,
    force: bool,
    again: bool,
    before: Disk,
    after: Disk,
)
    requires
        link_plan(source, link, force, files::seen(before, link)) is Ok,
        files::carried_out(
            before,
            link_plan(source, link, force, files::seen(before, link))->Ok_0.0,
            after,
        ),
    ensures
        link_plan(source, link, again, files::seen(after, link)) == Ok::<
            (Seq<(StepView, bool)>, ApplyStatus),
            LinkErrorView,
        >((Seq::empty(), ApplyStatus::AlreadyLinked)),
        link_health(source, true, files::seen(after, link)) is Fine,
{
    let deeds = link_plan(source, link, force, files::seen(before, link))->Ok_0.0;
    if deeds.len() > 0 {
        files::lemma_link_is_made(before, deeds, source, link, after);
    }
}

/// **A real directory is never removed, and without force nothing is**: a plan
/// only removes what is a link, or with force a plain file.
pub proof fn removals_are_rare(source: Seq<u8>, link: Seq<u8>, force: bool, site: SiteView)
    ensures
        site is Directory ==> link_plan(source, link, force, site) == Err::<
            (Seq<(StepView, bool)>, ApplyStatus),
            LinkErrorView,
        >(LinkErrorView::Occupied(link)),
        link_plan(source, link, force, site) matches Ok((deeds, _)) ==> forall|i: int|
            0 <= i < deeds.len() && (#[trigger] deeds[i]).0 is RemoveFile ==> force && i == 0
                && deeds[i].0 == StepView::RemoveFile(link) && (site is Link || site is File),
{
    if let Ok((deeds, _)) = link_plan(source, link, force, site) {
        assert forall|i: int| 0 <= i < deeds.len() && (#[trigger] deeds[i]).0 is RemoveFile implies force
            && i == 0 && deeds[i].0 == StepView::RemoveFile(link) && (site is Link
            || site is File) by {
            let made = linking(source, link);
            if deeds.len() == made.len() + 1 && i > 0 {
                assert(deeds[i] == made[i - 1]);
            }
        }
    }
}

/// **An escaping target is never acted on.**
pub proof fn escaping_targets_are_refused(
    root: Seq<u8>,
    home: Option<Seq<u8>>,
    entry: LinkEntry,
    force: bool,
    site: SiteView,
)
    requires
        !path::within_root(encode_utf8(entry.target@)),
    ensures
        entry_plan(root, home, entry, force, site) == Err::<
            (Seq<(StepView, bool)>, ApplyStatus),
            LinkErrorView,
        >(LinkErrorView::EscapedTarget(entry.target@)),
{
}

/// **A link entry is healthy exactly where its target stays within the root, its
/// source exists, and what stands at the target is a link to that source.** A
/// source that does not exist is reported whatever stands at the target; a link
/// that cannot be read leads nowhere.
pub proof fn healthy_links_lead_to_their_source(
    root: Seq<u8>,
    home: Option<Seq<u8>>,
    entry: LinkEntry,
    sight: LinkSight,
)
    ensures
        ({
            let health = health_of(root, home, entry, sight);
            let source = source_path(root, home, entry.source@);
            let kept = path::within_root(encode_utf8(entry.target@));
            &&& sight.site matches Site::Link(found) ==> (health is Fine <==> kept && sight.source
                && path::parts(found@) == path::parts(source))
            &&& !(sight.site is Link || sight.site is BadLink) ==> !(health is Fine)
            &&& health is Fine ==> kept && sight.source
            &&& !kept <==> health is EscapedTarget
            &&& kept && !sight.source <==> health is MissingSource
            &&& kept && sight.source && (sight.site is Absent || sight.site is Unreadable) <==> health
                is MissingLink
            &&& kept && sight.source && (sight.site is File || sight.site is Directory) <==> health
                is NotALink
            &&& kept && sight.source && (sight.site matches Site::Link(found) && path::parts(found@)
                != path::parts(source)) ==> health == Health::WrongTarget(
                source,
                sight.site->Link_0@,
            )
            &&& kept && sight.source && sight.site is BadLink ==> health is Fine || health
                == Health::WrongTarget(source, Seq::empty())
        }),
{
}

/// **What a link entry leads to** is taken from the workspace root, or from the
/// home directory where its source begins with `~/`, which is taken off; a user
/// without one is at home at the root of everything.
pub proof fn sources_begin_at_the_root_or_at_home(
    root: Seq<u8>,
    home: Option<Seq<u8>>,
    source: Seq<char>,
)
    ensures
        ({
            let tilde = source.len() >= 2 && source[0] == '~' && source[1] == '/';
            &&& !tilde ==> source_path(root, home, source) == path::joined(
                root,
                encode_utf8(source),
            )
            &&& tilde ==> (home matches Some(home) ==> source_path(root, Some(home), source)
                == path::joined(home, encode_utf8(source.skip(2))))
            &&& tilde && home is None ==> source_path(root, home, source) == path::joined(
                encode_utf8("/"@),
                encode_utf8(source.skip(2)),
            )
        }),
{
    reveal_strlit("~/");
    assert("~/"@.len() == 2);
    assert("~/"@[0] == '~' && "~/"@[1] == '/');
    if source.len() >= 2 {
        let head = source.take(2);
        if source[0] == '~' && source[1] == '/' {
            assert(head =~= "~/"@);
        } else {
            assert(head[0] == source[0] && head[1] == source[1]);
            assert(head != "~/"@);
        }
    }
}

/// **What applying a link comes to.** A free place gets the link, with the
/// directories above it; a link to the source is left alone; a link to somewhere
/// else and a plain file are replaced with force, and reported without; a
/// directory is always reported. Whatever is done ends with the link being made.
pub proof fn applying_makes_the_link(
    root: Seq<u8>,
    home: Option<Seq<u8>>,
    entry: LinkEntry,
    force: bool,
    site: Site,
)
    requires
        path::within_root(encode_utf8(entry.target@)),
    ensures
        ({
            let plan = entry_plan(root, home, entry, force, site@);
            let source = source_path(root, home, entry.source@);
            let link = path::joined(root, encode_utf8(entry.target@));
            let right = site matches Site::Link(found) && path::parts(found@) == path::parts(source);
            let free = site is Absent;
            let replaced = force && (site is File || site is Link && !right);
            &&& plan is Ok <==> free || right || replaced
            &&& plan matches Ok((deeds, status)) ==> {
                &&& right <==> status == ApplyStatus::AlreadyLinked
                &&& right <==> deeds.len() == 0
                &&& !right ==> deeds.last() == (StepView::Symlink(source, link), true)
                &&& replaced ==> deeds[0] == (StepView::RemoveFile(link), true)
                &&& forall|i: int|
                    0 <= i < deeds.len() - 1 ==> ((#[trigger] deeds[i]).0 == StepView::RemoveFile(
                        link,
                    ) && replaced && i == 0 || path::parent_of(link) is Some && deeds[i].0
                        == StepView::MakeDirs(path::parent_of(link)->0))
                &&& !right && path::parent_of(link) is Some ==> deeds.len() >= 2 && deeds[deeds.len()
                    - 2] == (StepView::MakeDirs(path::parent_of(link)->0), true)
            }
            &&& plan matches Err(err) ==> match site {
                Site::Directory | Site::File => err == LinkErrorView::Occupied(link),
                Site::Link(found) => err == LinkErrorView::Mismatch(source, found@),
                Site::BadLink(message) => err == LinkErrorView::Io(message@),
                Site::Unreadable(message) => err == LinkErrorView::Io(message@),
                Site::Absent => false,
            }
        }),
{
}

/// **A link entry is a source and a target of the type `link`**, all three of them;
/// anything else is refused.
pub proof fn link_entries_have_three_fields(entries: toml::Entries)
    ensures
        ({
            let read = entry_of(Node::Inline(entries));
            let source = toml::lookup(entries, "source"@);
            let target = toml::lookup(entries, "target"@);
            let kind = toml::lookup(entries, "type"@);
            let known = forall|i: int|
                0 <= i < toml::live_keys(entries).len() ==> #[trigger] toml::live_keys(entries)[i]
                    == "source"@ || toml::live_keys(entries)[i] == "target"@ || toml::live_keys(
                    entries,
                )[i] == "type"@;
            let texts = source is Some && source->0 is Text && target is Some && target->0 is Text;
            &&& !known ==> read is None
            &&& !texts ==> read is None
            &&& kind is None ==> read is None
            &&& known && texts && kind == Some(Node::Text("link"@)) ==> read == Some(
                (source->0->Text_0, target->0->Text_0),
            )
            &&& (kind matches Some(Node::Text(word)) && word != "link"@) ==> read is None
            &&& read is Some ==> Node::Text(read->Some_0.0) == source->0 && Node::Text(
                read->Some_0.1,
            ) == target->0
        }),
{
    let names = entry_fields();
    assert(names[0] == "source"@ && names[1] == "target"@ && names[2] == "type"@);
    let keys = toml::live_keys(entries);
    assert forall|i: int| 0 <= i < keys.len() implies (names.contains(#[trigger] keys[i]) <==> (keys[i]
        == "source"@ || keys[i] == "target"@ || keys[i] == "type"@)) by {
        if names.contains(keys[i]) {
            let k = choose|k: int| 0 <= k < names.len() && names[k] == keys[i];
            assert(k == 0 || k == 1 || k == 2);
        }
        if keys[i] == "source"@ {
            assert(names[0] == keys[i]);
        }
        if keys[i] == "target"@ {
            assert(names[1] == keys[i]);
        }
        if keys[i] == "type"@ {
            assert(names[2] == keys[i]);
        }
    }
    reveal_with_fuel(decode::index_of, 2);
    let one = seq!["link"@];
    assert(one.skip(1) =~= Seq::<Seq<char>>::empty());
}

/// **A list of entries is read one by one**, and one that cannot be read refuses
/// them all.
pub proof fn link_entries_are_read_one_by_one(list: Seq<Node>, i: int)
    requires
        0 <= i < list.len(),
    ensures
        entry_of(list[i]) is None ==> entries_of(Node::List(list)) is None,
        entries_of(Node::List(list)) is Some ==> entries_of(Node::List(list))->0.len() == list.len()
            && Some(entries_of(Node::List(list))->0[i]) == entry_of(list[i]),
        (forall|k: int| 0 <= k < list.len() ==> entry_of(#[trigger] list[k]) is Some)
            ==> entries_of(Node::List(list)) is Some,
{
}

/// **What is said of a link tells where it leads and where it should.**
pub proof fn wrong_links_are_told_apart(expected: Seq<u8>, found: Seq<u8>, message: Seq<char>)
    ensures
        health_text(Health::WrongTarget(expected, found)) == "points to "@ + text::lossy_text(found)
            + " instead of "@ + text::lossy_text(expected),
        link_error_text(LinkErrorView::Mismatch(expected, found)) == "points to "@
            + text::lossy_text(found) + " instead of "@ + text::lossy_text(expected),
        link_error_text(LinkErrorView::Occupied(found)) == "occupied by a real file: "@
            + text::lossy_text(found),
        link_error_text(LinkErrorView::EscapedTarget(message)) == "target escapes workspace root: "@
            + message,
        link_error_text(LinkErrorView::Io(message)) == message,
{
}

} // verus!
