//! Sub-repos in secondary workspaces: links to the default workspace's
//! checkouts.

use vstd::prelude::*;
use vstd::utf8::encode_utf8;

use super::entry::copied_entries;
use super::entry::name_of;
use super::entry::target_of;
use super::entry::RepoEntry;
use crate::files;
use crate::files::Deed;
use crate::files::Disk;
use crate::files::Site;
use crate::files::SiteView;
use crate::files::Step;
use crate::files::StepView;
use crate::path;
use crate::path::FsPath;
use crate::text;

verus! {

/// Health of one secondary-workspace link, as created by
/// [`link_secondary`] / reported by [`check_secondary`].
#[derive(Debug, PartialEq, Eq)]
pub enum SecondaryStatus {
    /// The link was created (only from [`link_secondary`]).
    Linked,
    /// The link exists and points at the default workspace's checkout.
    AlreadyLinked,
    /// The link has not been created yet.
    MissingLink,
    /// The default workspace has not materialized this repo yet.
    DefaultMissing,
    /// Something other than the expected symlink occupies the target.
    Occupied(FsPath),
    /// The link points somewhere else.
    WrongTarget {
        /// The default workspace's checkout.
        expected: FsPath,
        /// Where the link points.
        found: FsPath,
    },
}

/// A [`SecondaryStatus`] by value.
pub enum SecondaryView {
    /// See [`SecondaryStatus::Linked`].
    Linked,
    /// See [`SecondaryStatus::AlreadyLinked`].
    AlreadyLinked,
    /// See [`SecondaryStatus::MissingLink`].
    MissingLink,
    /// See [`SecondaryStatus::DefaultMissing`].
    DefaultMissing,
    /// See [`SecondaryStatus::Occupied`].
    Occupied(Seq<u8>),
    /// See [`SecondaryStatus::WrongTarget`].
    WrongTarget(Seq<u8>, Seq<u8>),
}

impl View for SecondaryStatus {
    type V = SecondaryView;

    open spec fn view(&self) -> SecondaryView {
        match *self {
            SecondaryStatus::Linked => SecondaryView::Linked,
            SecondaryStatus::AlreadyLinked => SecondaryView::AlreadyLinked,
            SecondaryStatus::MissingLink => SecondaryView::MissingLink,
            SecondaryStatus::DefaultMissing => SecondaryView::DefaultMissing,
            SecondaryStatus::Occupied(path) => SecondaryView::Occupied(path@),
            SecondaryStatus::WrongTarget { expected, found } => SecondaryView::WrongTarget(
                expected@,
                found@,
            ),
        }
    }
}

/// How a status describes itself.
pub open spec fn secondary_text(status: SecondaryView) -> Seq<char> {
    match status {
        SecondaryView::Linked => "linked"@,
        SecondaryView::AlreadyLinked => "already linked"@,
        SecondaryView::MissingLink => "missing link"@,
        SecondaryView::DefaultMissing => "default workspace has not materialized this repo"@,
        SecondaryView::Occupied(path) => "occupied by a real path: "@ + text::lossy_text(path),
        SecondaryView::WrongTarget(expected, found) => "points to "@ + text::lossy_text(found)
            + " instead of "@ + text::lossy_text(expected),
    }
}

impl SecondaryStatus {
    /// Returns `true` when the entry needs no action.
    pub fn is_ok(&self) -> (ok: bool)
        ensures
            ok == (self@ is AlreadyLinked),
    {
        match self {
            SecondaryStatus::AlreadyLinked => true,
            _ => false,
        }
    }

    /// The status as text.
    pub fn message(&self) -> (message: String)
        ensures
            message@ == secondary_text(self@),
    {
        match self {
            SecondaryStatus::Linked => "linked".to_owned(),
            SecondaryStatus::AlreadyLinked => "already linked".to_owned(),
            SecondaryStatus::MissingLink => "missing link".to_owned(),
            SecondaryStatus::DefaultMissing => "default workspace has not materialized this repo".to_owned(),
            SecondaryStatus::Occupied(path) => "occupied by a real path: ".to_owned().concat(
                path.display().as_str(),
            ),
            SecondaryStatus::WrongTarget { expected, found } => "points to ".to_owned().concat(
                found.display().as_str(),
            ).concat(" instead of ").concat(expected.display().as_str()),
        }
    }
}

impl Clone for SecondaryStatus {
    fn clone(&self) -> (copy: SecondaryStatus)
        ensures
            copy@ == self@,
    {
        match self {
            SecondaryStatus::Linked => SecondaryStatus::Linked,
            SecondaryStatus::AlreadyLinked => SecondaryStatus::AlreadyLinked,
            SecondaryStatus::MissingLink => SecondaryStatus::MissingLink,
            SecondaryStatus::DefaultMissing => SecondaryStatus::DefaultMissing,
            SecondaryStatus::Occupied(path) => SecondaryStatus::Occupied(path.clone()),
            SecondaryStatus::WrongTarget { expected, found } => SecondaryStatus::WrongTarget {
                expected: expected.clone(),
                found: found.clone(),
            },
        }
    }
}

/// What was seen of one target: whether the default workspace has a checkout
/// there, and what stands in the secondary workspace.
#[derive(Debug)]
pub struct SecondarySight {
    /// Whether there is a `.git` in the default workspace's target.
    pub source_git: bool,
    /// What stands at the secondary workspace's target.
    pub site: Site,
}

/// What is to be done for one target.
#[derive(Debug)]
pub struct SecondaryPlan {
    /// The changes to make.
    pub deeds: Vec<Deed>,
    /// The status once they are made.
    pub done: SecondaryStatus,
    /// The status when a required one fails.
    pub failed: SecondaryStatus,
}

/// A [`SecondaryPlan`] by value.
pub struct SecondaryPlanView {
    /// The changes.
    pub deeds: Seq<(StepView, bool)>,
    /// The status once they are made.
    pub done: SecondaryView,
    /// The status when a required one fails.
    pub failed: SecondaryView,
}

impl View for SecondaryPlan {
    type V = SecondaryPlanView;

    open spec fn view(&self) -> SecondaryPlanView {
        SecondaryPlanView {
            deeds: files::deed_views(self.deeds@),
            done: self.done@,
            failed: self.failed@,
        }
    }
}

/// A plan without changes.
pub open spec fn report_only(status: SecondaryView) -> SecondaryPlanView {
    SecondaryPlanView { deeds: Seq::empty(), done: status, failed: status }
}

/// What is to be done for one target: the link at `link` is to point at
/// `source`. Without `create` it is only reported on; with `force` a link to
/// somewhere else is replaced; nothing real is ever touched.
pub open spec fn secondary_plan(
    source: Seq<u8>,
    link: Seq<u8>,
    force: bool,
    create: bool,
    source_git: bool,
    site: SiteView,
) -> SecondaryPlanView {
    if !source_git {
        report_only(SecondaryView::DefaultMissing)
    } else {
        match site {
            SiteView::Link(found) => if path::same_path(found, source) {
                report_only(SecondaryView::AlreadyLinked)
            } else if force && create {
                SecondaryPlanView {
                    deeds: seq![
                        (StepView::RemoveFile(link), false),
                        (StepView::Symlink(source, link), true),
                    ],
                    done: SecondaryView::Linked,
                    failed: SecondaryView::WrongTarget(source, found),
                }
            } else {
                report_only(SecondaryView::WrongTarget(source, found))
            },
            SiteView::BadLink(_) | SiteView::Unreadable(_) => report_only(
                SecondaryView::MissingLink,
            ),
            SiteView::Directory | SiteView::File => report_only(SecondaryView::Occupied(link)),
            SiteView::Absent => if create {
                SecondaryPlanView {
                    deeds: files::above(link, false).push((StepView::Symlink(source, link), true)),
                    done: SecondaryView::Linked,
                    failed: SecondaryView::MissingLink,
                }
            } else {
                report_only(SecondaryView::MissingLink)
            },
        }
    }
}

/// The plan for one entry of a secondary workspace.
pub open spec fn entry_plan(
    default_root: Seq<u8>,
    secondary_root: Seq<u8>,
    entry: RepoEntry,
    force: bool,
    create: bool,
    sight: SecondarySight,
) -> SecondaryPlanView {
    secondary_plan(
        path::child(default_root, target_of(entry)),
        path::child(secondary_root, target_of(entry)),
        force,
        create,
        sight.source_git,
        sight.site@,
    )
}

fn only(status: SecondaryStatus) -> (plan: SecondaryPlan)
    ensures
        plan@ == report_only(status@),
{
    let deeds: Vec<Deed> = Vec::new();
    assert(files::deed_views(deeds@) =~= Seq::<(StepView, bool)>::empty());
    SecondaryPlan { deeds, done: status.clone(), failed: status }
}

/// One secondary target: symlink `secondary_root/<target>` →
/// `default_root/<target>` (absolute; `default_root` is canonicalized by the
/// caller). With `create` disabled it only reports.
pub fn secondary_link_one(
    default_root: &FsPath,
    secondary_root: &FsPath,
    entry: &RepoEntry,
    force: bool,
    create: bool,
    sight: &SecondarySight,
) -> (plan: SecondaryPlan)
    ensures
        plan@ == entry_plan(default_root@, secondary_root@, *entry, force, create, *sight),
{
    let target = entry.effective_target();
    let source = default_root.join(target.as_str());
    let link = secondary_root.join(target.as_str());
    if !sight.source_git {
        return only(SecondaryStatus::DefaultMissing);
    }
    match &sight.site {
        Site::Link(found) => {
            if found.same_as(&source) {
                only(SecondaryStatus::AlreadyLinked)
            } else if force && create {
                let mut deeds: Vec<Deed> = Vec::new();
                files::then_do(&mut deeds, Step::RemoveFile(link.clone()), false);
                files::then_do(&mut deeds, Step::Symlink { source: source.clone(), at: link }, true);
                assert(files::deed_views(deeds@) =~= seq![
                    (StepView::RemoveFile(link@), false),
                    (StepView::Symlink(source@, link@), true),
                ]);
                SecondaryPlan {
                    deeds,
                    done: SecondaryStatus::Linked,
                    failed: SecondaryStatus::WrongTarget { expected: source, found: found.clone() },
                }
            } else {
                only(SecondaryStatus::WrongTarget { expected: source, found: found.clone() })
            }
        },
        Site::BadLink(_) | Site::Unreadable(_) => only(SecondaryStatus::MissingLink),
        Site::Directory | Site::File => only(SecondaryStatus::Occupied(link)),
        Site::Absent => {
            if create {
                let mut deeds = files::make_above(&link, false);
                files::then_do(&mut deeds, Step::Symlink { source, at: link }, true);
                SecondaryPlan {
                    deeds,
                    done: SecondaryStatus::Linked,
                    failed: SecondaryStatus::MissingLink,
                }
            } else {
                only(SecondaryStatus::MissingLink)
            }
        },
    }
}

/// Reports what [`link_secondary`] would do, going by what was seen of each
/// target; nothing is changed.
pub fn check_secondary(
    default_root: &FsPath,
    secondary_root: &FsPath,
    entries: &[RepoEntry],
    sights: &[SecondarySight],
) -> (report: Vec<(String, SecondaryStatus)>)
    requires
        sights@.len() == entries@.len(),
    ensures
        report@.len() == entries@.len(),
        forall|i: int|
            0 <= i < entries@.len() ==> (#[trigger] report@[i]).0@ == name_of(entries@[i])
                && report@[i].1@ == entry_plan(
                default_root@,
                secondary_root@,
                entries@[i],
                false,
                false,
                sights@[i],
            ).done,
{
    let mut report: Vec<(String, SecondaryStatus)> = Vec::new();
    let mut i: usize = 0;
    while i < entries.len()
        invariant
            i <= entries.len(),
            sights@.len() == entries@.len(),
            report.len() == i,
            forall|j: int|
                0 <= j < i ==> (#[trigger] report@[j]).0@ == name_of(entries@[j])
                    && report@[j].1@ == entry_plan(
                    default_root@,
                    secondary_root@,
                    entries@[j],
                    false,
                    false,
                    sights@[j],
                ).done,
        decreases entries.len() - i,
    {
        let plan = secondary_link_one(
            default_root,
            secondary_root,
            &entries[i],
            false,
            false,
            &sights[i],
        );
        report.push((entries[i].effective_name(), plan.done));
        i = i + 1;
    }
    report
}

/// A run that links every entry's target in one secondary workspace, one
/// after the other.
#[derive(Debug)]
pub struct SecondaryRun {
    default_root: FsPath,
    secondary_root: FsPath,
    entries: Vec<RepoEntry>,
    force: bool,
    report: Vec<(String, SecondaryStatus)>,
}

/// Where a [`SecondaryRun`] stands.
pub struct SecondaryRunView {
    /// The default workspace.
    pub default_root: Seq<u8>,
    /// The secondary workspace.
    pub secondary_root: Seq<u8>,
    /// The entries.
    pub entries: Seq<RepoEntry>,
    /// Whether links to somewhere else are replaced.
    pub force: bool,
    /// What became of the entries so far.
    pub report: Seq<(Seq<char>, SecondaryView)>,
}

/// A report by value.
pub open spec fn report_view(report: Seq<(String, SecondaryStatus)>) -> Seq<
    (Seq<char>, SecondaryView),
> {
    report.map_values(|line: (String, SecondaryStatus)| (line.0@, line.1@))
}

impl View for SecondaryRun {
    type V = SecondaryRunView;

    closed spec fn view(&self) -> SecondaryRunView {
        SecondaryRunView {
            default_root: self.default_root@,
            secondary_root: self.secondary_root@,
            entries: self.entries@,
            force: self.force,
            report: report_view(self.report@),
        }
    }
}

/// Links every entry's target in `secondary_root` at the default
/// workspace's materialized checkout.
pub fn link_secondary(
    default_root: &FsPath,
    secondary_root: &FsPath,
    entries: &[RepoEntry],
    force: bool,
) -> (run: SecondaryRun)
    ensures
        run@ == (SecondaryRunView {
            default_root: default_root@,
            secondary_root: secondary_root@,
            entries: entries@,
            force,
            report: Seq::empty(),
        }),
{
    let report: Vec<(String, SecondaryStatus)> = Vec::new();
    assert(report_view(report@) =~= Seq::<(Seq<char>, SecondaryView)>::empty());
    SecondaryRun {
        default_root: default_root.clone(),
        secondary_root: secondary_root.clone(),
        entries: copied_entries(entries),
        force,
        report,
    }
}

impl SecondaryRun {
    /// What to look at next: for a `.git` at the first path, and at what
    /// stands at the second; `None` once every entry is dealt with.
    pub fn ask(&self) -> (ask: Option<(FsPath, FsPath)>)
        ensures
            ask is Some == (self@.report.len() < self@.entries.len()),
            ask matches Some(paths) ==> {
                let target = target_of(self@.entries[self@.report.len() as int]);
                &&& paths.0@ == path::child(path::child(self@.default_root, target), ".git"@)
                &&& paths.1@ == path::child(self@.secondary_root, target)
            },
    {
        let i: usize = self.report.len();
        if i < self.entries.len() {
            let target = self.entries[i].effective_target();
            Some(
                (
                    self.default_root.join(target.as_str()).join(".git"),
                    self.secondary_root.join(target.as_str()),
                ),
            )
        } else {
            None
        }
    }

    /// What is to be done, going by what was seen.
    pub fn plan(&self, sight: &SecondarySight) -> (plan: Option<SecondaryPlan>)
        ensures
            plan is Some == (self@.report.len() < self@.entries.len()),
            plan matches Some(plan) ==> plan@ == entry_plan(
                self@.default_root,
                self@.secondary_root,
                self@.entries[self@.report.len() as int],
                self@.force,
                true,
                *sight,
            ),
    {
        let i: usize = self.report.len();
        if i < self.entries.len() {
            Some(
                secondary_link_one(
                    &self.default_root,
                    &self.secondary_root,
                    &self.entries[i],
                    self.force,
                    true,
                    sight,
                ),
            )
        } else {
            None
        }
    }

    /// Notes what became of the plan, and goes on to the next entry.
    pub fn resume(&mut self, plan: SecondaryPlan, failed: bool)
        requires
            old(self)@.report.len() < old(self)@.entries.len(),
        ensures
            final(self)@ == (SecondaryRunView {
                report: old(self)@.report.push(
                    (
                        name_of(old(self)@.entries[old(self)@.report.len() as int]),
                        if failed {
                            plan@.failed
                        } else {
                            plan@.done
                        },
                    ),
                ),
                ..old(self)@
            }),
    {
        let i: usize = self.report.len();
        let name = self.entries[i].effective_name();
        let ghost before = report_view(self.report@);
        let status = if failed {
            plan.failed
        } else {
            plan.done
        };
        self.report.push((name, status));
        assert(report_view(self.report@) =~= before.push((name@, status@)));
    }

    /// What became of the entries, in their order.
    pub fn report(self) -> (report: Vec<(String, SecondaryStatus)>)
        ensures
            report_view(report@) == self@.report,
    {
        self.report
    }
}

/// **Checking never plans a change.**
pub proof fn checking_changes_nothing(
    source: Seq<u8>,
    link: Seq<u8>,
    force: bool,
    source_git: bool,
    site: SiteView,
)
    ensures
        secondary_plan(source, link, force, false, source_git, site).deeds.len() == 0,
{
}

/// **Nothing real is ever touched**, forced or not, and no dangling link is
/// made: only a link is replaced, and only a link to an existing checkout is
/// created.
pub proof fn only_links_are_replaced(
    source: Seq<u8>,
    link: Seq<u8>,
    force: bool,
    create: bool,
    source_git: bool,
    site: SiteView,
)
    ensures
        secondary_plan(source, link, force, create, source_git, site).deeds.len() > 0
            ==> source_git && (site is Link || site is Absent),
        site is Link && !force ==> secondary_plan(source, link, force, create, source_git, site).deeds.len()
            == 0,
{
}

/// Where an entry's link stands.
pub open spec fn link_place(secondary_root: Seq<u8>, entry: RepoEntry) -> Seq<u8> {
    path::child(secondary_root, target_of(entry))
}

/// What an entry's link leads to.
pub open spec fn link_source(default_root: Seq<u8>, entry: RepoEntry) -> Seq<u8> {
    path::child(default_root, target_of(entry))
}

/// Where the links of a run stand, and what they lead to.
pub open spec fn run_links(run: SecondaryRunView) -> Seq<(Seq<u8>, Seq<u8>)> {
    run.entries.map_values(
        |entry: RepoEntry|
            (link_place(run.secondary_root, entry), link_source(run.default_root, entry)),
    )
}

/// The plan for the run's `i`-th entry, going by what stands on the disk.
pub open spec fn run_plan(
    run: SecondaryRunView,
    source_git: bool,
    disk: Disk,
    i: int,
) -> SecondaryPlanView {
    secondary_plan(
        link_source(run.default_root, run.entries[i]),
        link_place(run.secondary_root, run.entries[i]),
        run.force,
        true,
        source_git,
        files::seen(disk, link_place(run.secondary_root, run.entries[i])),
    )
}

/// The course of a finished run: for each entry whether the default workspace
/// has a checkout, the disk before and behind its plan, and whether that failed.
pub open spec fn course(
    run: SecondaryRunView,
    gits: Seq<bool>,
    failed: Seq<bool>,
    disks: Seq<Disk>,
) -> bool {
    &&& run.report.len() == run.entries.len()
    &&& gits.len() == run.entries.len()
    &&& failed.len() == run.entries.len()
    &&& disks.len() == run.entries.len() + 1
    &&& forall|i: int|
        0 <= i < run.entries.len() ==> {
            let plan = run_plan(run, #[trigger] gits[i], disks[i], i);
            &&& files::performed(disks[i], plan.deeds, failed[i], disks[i + 1])
            &&& run.report[i] == (
                name_of(run.entries[i]),
                if failed[i] {
                    plan.failed
                } else {
                    plan.done
                },
            )
        }
}

/// Whether the entry's link leads to the default workspace's checkout.
pub open spec fn leads_home(run: SecondaryRunView, disk: Disk, i: int) -> bool {
    files::leads_to(
        disk,
        link_place(run.secondary_root, run.entries[i]),
        link_source(run.default_root, run.entries[i]),
    )
}

/// What stands right at some point of a run is left alone from there on.
proof fn lemma_home_stays(
    run: SecondaryRunView,
    gits: Seq<bool>,
    failed: Seq<bool>,
    disks: Seq<Disk>,
    i: int,
    from: int,
    to: int,
)
    requires
        course(run, gits, failed, disks),
        files::side_by_side(run_links(run)),
        0 <= i < run.entries.len(),
        0 <= from <= to <= run.entries.len(),
        leads_home(run, disks[from], i),
    ensures
        leads_home(run, disks[to], i),
        files::seen(disks[to], link_place(run.secondary_root, run.entries[i])) == files::seen(
            disks[from],
            link_place(run.secondary_root, run.entries[i]),
        ),
    decreases to - from,
{
    if from < to {
        let k = to - 1;
        lemma_home_stays(run, gits, failed, disks, i, from, k);
        let links = run_links(run);
        let plan = run_plan(run, gits[k], disks[k], k);
        assert(files::performed(disks[k], plan.deeds, failed[k], disks[k + 1]));
        assert(links[i].0 == link_place(run.secondary_root, run.entries[i]));
        assert(links[k].0 == link_place(run.secondary_root, run.entries[k]));
        files::lemma_link_stays(links, i, k, disks[k], plan.deeds, failed[k], disks[to]);
    }
}

/// Whether no link of a run stands where another one does, or inside it.
pub open spec fn none_inside(run: SecondaryRunView) -> bool {
    forall|i: int, j: int|
        #![trigger run.entries[i], run.entries[j]]
        0 <= i < run.entries.len() && 0 <= j < run.entries.len() && i != j ==> !files::inside(
            path::parts(link_place(run.secondary_root, run.entries[i])),
            path::parts(link_place(run.secondary_root, run.entries[j])),
        )
}

/// **Links to targets that do not lie inside each other stand side by side.**
pub proof fn distinct_targets_stand_side_by_side(run: SecondaryRunView)
    requires
        run.secondary_root.len() > 0,
        forall|i: int|
            0 <= i < run.entries.len() ==> path::relative(target_of(#[trigger] run.entries[i])),
        forall|i: int, j: int|
            #![trigger run.entries[i], run.entries[j]]
            0 <= i < run.entries.len() && 0 <= j < run.entries.len() && i != j ==> !files::inside(
                path::names_in(target_of(run.entries[i])),
                path::names_in(target_of(run.entries[j])),
            ),
    ensures
        files::side_by_side(run_links(run)),
        none_inside(run),
{
    let links = run_links(run);
    let root = path::parts(run.secondary_root);
    assert forall|i: int, j: int|
        #![trigger run.entries[i], run.entries[j]]
        0 <= i < run.entries.len() && 0 <= j < run.entries.len() && i != j implies !files::inside(
        path::parts(link_place(run.secondary_root, run.entries[i])),
        path::parts(link_place(run.secondary_root, run.entries[j])),
    ) by {
        let a = target_of(run.entries[i]);
        let b = target_of(run.entries[j]);
        path::lemma_joined_parts(run.secondary_root, encode_utf8(a));
        path::lemma_joined_parts(run.secondary_root, encode_utf8(b));
        if files::inside(root + path::names_in(a), root + path::names_in(b)) {
            files::lemma_below(root, path::names_in(a), root, path::names_in(b));
        }
    }
    assert forall|i: int, j: int|
        #![trigger links[i], links[j]]
        0 <= i < links.len() && 0 <= j < links.len() && files::inside(
            path::parts(links[i].0),
            path::parts(links[j].0),
        ) implies path::parts(links[i].0) == path::parts(links[j].0) && path::same_path(
        links[i].1,
        links[j].1,
    ) by {
        assert(links[i].0 == link_place(run.secondary_root, run.entries[i]));
        assert(links[j].0 == link_place(run.secondary_root, run.entries[j]));
    }
}

/// What stands at an entry's link is what stood there when the run began, until
/// the run comes to it.
proof fn lemma_untouched_before(
    run: SecondaryRunView,
    gits: Seq<bool>,
    failed: Seq<bool>,
    disks: Seq<Disk>,
    i: int,
    upto: int,
)
    requires
        course(run, gits, failed, disks),
        none_inside(run),
        0 <= upto <= i < run.entries.len(),
    ensures
        files::seen(disks[upto], link_place(run.secondary_root, run.entries[i])) == files::seen(
            disks[0],
            link_place(run.secondary_root, run.entries[i]),
        ),
    decreases upto,
{
    if upto > 0 {
        let k = upto - 1;
        lemma_untouched_before(run, gits, failed, disks, i, k);
        let at = link_place(run.secondary_root, run.entries[k]);
        let plan = run_plan(run, gits[k], disks[k], k);
        assert(files::performed(disks[k], plan.deeds, failed[k], disks[k + 1]));
        if path::has_parent(at) {
            path::lemma_parent_is_shorter(at);
            let parts = path::parts(at);
            let upper = path::parts(path::parent_of(at)->0);
            assert(files::inside(upper, parts)) by {
                assert(parts.take(upper.len() as int) =~= parts.drop_last());
            }
        }
        files::lemma_off_the_way(
            disks[k],
            plan.deeds,
            failed[k],
            disks[upto],
            at,
            link_place(run.secondary_root, run.entries[i]),
        );
    }
}

/// **Linking does what checking said.** Where no file operation fails and no link
/// stands inside another, a run without force makes the links that a check just
/// before it found missing, and reports of every other one what the check did. A
/// check never says that it linked, and plans no change.
pub proof fn linking_does_what_checking_said(
    run: SecondaryRunView,
    gits: Seq<bool>,
    failed: Seq<bool>,
    disks: Seq<Disk>,
    sights: Seq<SecondarySight>,
    i: int,
)
    requires
        course(run, gits, failed, disks),
        none_inside(run),
        !run.force,
        forall|k: int| 0 <= k < failed.len() ==> !#[trigger] failed[k],
        0 <= i < run.entries.len(),
        sights.len() == run.entries.len(),
        sights[i].source_git == gits[i],
        sights[i].site@ == files::seen(disks[0], link_place(run.secondary_root, run.entries[i])),
        !(sights[i].site@ is BadLink),
        !(sights[i].site@ is Unreadable),
    ensures
        ({
            let check = entry_plan(
                run.default_root,
                run.secondary_root,
                run.entries[i],
                false,
                false,
                sights[i],
            );
            &&& check.deeds.len() == 0
            &&& !(check.done is Linked)
            &&& run.report.len() == run.entries.len()
            &&& run.report[i] == (
                name_of(run.entries[i]),
                if check.done is MissingLink {
                    SecondaryView::Linked
                } else {
                    check.done
                },
            )
        }),
{
    lemma_untouched_before(run, gits, failed, disks, i, i);
    let plan = run_plan(run, gits[i], disks[i], i);
    assert(files::performed(disks[i], plan.deeds, failed[i], disks[i + 1]));
}

/// **A link that was reported as in place is in place when the run is over**,
/// whatever became of the entries before and behind it.
pub proof fn reported_links_lead_home(
    run: SecondaryRunView,
    gits: Seq<bool>,
    failed: Seq<bool>,
    disks: Seq<Disk>,
    i: int,
)
    requires
        course(run, gits, failed, disks),
        files::side_by_side(run_links(run)),
        0 <= i < run.entries.len(),
        run.report[i].1 is Linked || run.report[i].1 is AlreadyLinked,
    ensures
        leads_home(run, disks[run.entries.len() as int], i),
        run.report[i].0 == name_of(run.entries[i]),
        gits[i],
{
    let source = link_source(run.default_root, run.entries[i]);
    let link = link_place(run.secondary_root, run.entries[i]);
    let plan = run_plan(run, gits[i], disks[i], i);
    assert(files::performed(disks[i], plan.deeds, failed[i], disks[i + 1]));
    if plan.deeds.len() > 0 {
        assert(!failed[i]);
        files::lemma_link_is_performed(disks[i], plan.deeds, disks[i + 1], source, link);
    }
    lemma_home_stays(run, gits, failed, disks, i, i + 1, run.entries.len() as int);
}

/// **Linking again does nothing.** A second run over the same entries, forced or
/// not, reports every link that the first one reported as in place, and changes
/// nothing for it.
pub proof fn linking_again_does_nothing(
    run: SecondaryRunView,
    gits: Seq<bool>,
    failed: Seq<bool>,
    disks: Seq<Disk>,
    again: SecondaryRunView,
    later_failed: Seq<bool>,
    later: Seq<Disk>,
    i: int,
)
    requires
        course(run, gits, failed, disks),
        course(again, gits, later_failed, later),
        again.default_root == run.default_root,
        again.secondary_root == run.secondary_root,
        again.entries == run.entries,
        later[0] == disks[run.entries.len() as int],
        files::side_by_side(run_links(run)),
        0 <= i < run.entries.len(),
        run.report[i].1 is Linked || run.report[i].1 is AlreadyLinked,
    ensures
        again.report[i] == (name_of(run.entries[i]), SecondaryView::AlreadyLinked),
        run_plan(again, gits[i], later[i], i) == report_only(SecondaryView::AlreadyLinked),
        later[i + 1] == later[i],
        leads_home(run, later[run.entries.len() as int], i),
{
    let n = run.entries.len() as int;
    reported_links_lead_home(run, gits, failed, disks, i);
    assert(leads_home(again, later[0], i));
    assert(run_links(again) =~= run_links(run));
    lemma_home_stays(again, gits, later_failed, later, i, 0, i);
    lemma_home_stays(again, gits, later_failed, later, i, 0, n);
    let plan = run_plan(again, gits[i], later[i], i);
    assert(files::performed(later[i], plan.deeds, later_failed[i], later[i + 1]));
}

/// **What another workspace gets for a repository.** Nothing without a repository
/// in the default workspace; otherwise a link to it: made at a free place, left
/// alone where it is there, put in place of a link to somewhere else with force.
/// A real file or directory is never replaced.
pub proof fn other_workspaces_get_a_link(
    source: Seq<u8>,
    link: Seq<u8>,
    force: bool,
    create: bool,
    source_git: bool,
    site: SiteView,
)
    ensures
        ({
            let plan = secondary_plan(source, link, force, create, source_git, site);
            let right = site is Link && path::parts(site->Link_0) == path::parts(source);
            let made = source_git && create && site is Absent;
            let replaced = source_git && create && force && site is Link && !right;
            &&& !source_git <==> plan.done is DefaultMissing
            &&& source_git && right <==> plan.done is AlreadyLinked
            &&& made || replaced <==> plan.done is Linked
            &&& made || replaced <==> plan.deeds.len() > 0
            &&& source_git && (site is File || site is Directory) <==> plan.done is Occupied
            &&& plan.done is Occupied ==> plan.done == SecondaryView::Occupied(link)
            &&& source_git && site is Link && !right && !(create && force) <==> plan.done
                is WrongTarget
            &&& plan.done is WrongTarget ==> plan.done == SecondaryView::WrongTarget(
                source,
                site->Link_0,
            )
            &&& made || replaced ==> plan.deeds.last() == (StepView::Symlink(source, link), true)
            &&& replaced ==> plan.deeds.len() == 2 && plan.deeds[0] == (
                StepView::RemoveFile(link),
                false,
            ) && plan.failed == SecondaryView::WrongTarget(source, site->Link_0)
            &&& made ==> plan.deeds.len() <= 2 && plan.failed is MissingLink
            &&& made && plan.deeds.len() == 2 ==> path::parent_of(link) is Some
                && plan.deeds[0] == (StepView::MakeDirs(path::parent_of(link)->0), false)
            &&& made && path::parent_of(link) is Some ==> plan.deeds.len() == 2
            &&& !made && !replaced ==> plan.failed == plan.done
        }),
{
}

/// **The link and what it leads to have the same place in their workspaces**, and
/// a check makes nothing.
pub proof fn links_have_the_place_of_what_they_lead_to(
    default_root: Seq<u8>,
    secondary_root: Seq<u8>,
    entry: RepoEntry,
    force: bool,
    sight: SecondarySight,
)
    ensures
        ({
            let plan = entry_plan(default_root, secondary_root, entry, force, true, sight);
            &&& plan.deeds.len() > 0 ==> plan.deeds.last().0 == StepView::Symlink(
                path::joined(default_root, encode_utf8(target_of(entry))),
                path::joined(secondary_root, encode_utf8(target_of(entry))),
            )
            &&& sight.source_git && sight.site is Absent ==> plan.deeds.len() > 0
        }),
        entry_plan(default_root, secondary_root, entry, force, false, sight).deeds.len() == 0,
{
}

} // verus!
