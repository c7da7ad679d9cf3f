//! `jjn doctor`: the health of the wiring, of `[[repo]]` entries and of
//! `[[link]]` entries.

use vstd::prelude::*;

use super::apply::repo_root;
use super::apply::repo_root_of;
use super::apply::topology_view;
use super::apply::TopologyView;
use super::complained;
use super::end_with;
use super::line_views;
use super::no_lines;
use super::put_line;
use super::said;
use super::Ending;
use super::Line;
use super::LineView;
use crate::config::SecondaryMode;
use crate::hooks::hooks_health_text;
use crate::hooks::HooksHealth;
use crate::link;
use crate::link::LinkEntry;
use crate::link::LinkSight;
use crate::lock;
use crate::lock::RepoLock;
use crate::path;
use crate::path::FsPath;
use crate::repo;
use crate::repo::doctor::Health;
use crate::repo::entry::duplicate_of;
use crate::repo::entry::name_of;
use crate::repo::entry::repo_error_text;
use crate::repo::entry::target_of;
use crate::repo::secondary::SecondarySight;
use crate::repo::secondary::SecondaryView;
use crate::repo::RepoEntry;
use crate::repo::RepoSight;
use crate::text;
use crate::toml::Entries;
use crate::workspace::WorkspaceError;
use crate::workspace::WorkspaceInfo;

verus! {

/// One thing that was checked: whether it is in order, and what is said of it.
pub type Finding = (bool, Seq<char>);

/// How many of the findings are problems.
pub open spec fn problems_in(findings: Seq<Finding>) -> nat
    decreases findings.len(),
{
    if findings.len() == 0 {
        0
    } else if findings.last().0 {
        problems_in(findings.drop_last())
    } else {
        problems_in(findings.drop_last()) + 1
    }
}

/// What is said of the findings: a line for each.
pub open spec fn finding_lines(findings: Seq<Finding>) -> Seq<LineView> {
    findings.map_values(|finding: Finding| (false, finding.1))
}

/// What is found so far.
#[derive(Debug)]
pub struct Findings {
    list: Vec<(bool, String)>,
}

impl View for Findings {
    type V = Seq<Finding>;

    closed spec fn view(&self) -> Seq<Finding> {
        self.list@.map_values(|one: (bool, String)| (one.0, one.1@))
    }
}

impl Findings {
    /// Nothing is found yet.
    pub fn none() -> (findings: Findings)
        ensures
            findings@ == Seq::<Finding>::empty(),
    {
        let findings = Findings { list: Vec::new() };
        assert(findings@ =~= Seq::<Finding>::empty());
        findings
    }

    /// Adds a finding.
    fn note(&mut self, fine: bool, text: String)
        ensures
            final(self)@ == old(self)@.push((fine, text@)),
    {
        let ghost before = self@;
        self.list.push((fine, text));
        assert(self@ =~= before.push((fine, text@)));
    }

    /// How many problems were found.
    pub fn problems(&self) -> (count: usize)
        ensures
            count == problems_in(self@),
    {
        let mut count: usize = 0;
        let mut i: usize = 0;
        assert(problems_in(self@.take(0)) == 0);
        while i < self.list.len()
            invariant
                i <= self.list.len(),
                count <= i,
                count == problems_in(self@.take(i as int)),
            decreases self.list.len() - i,
        {
            assert(self@.take(i + 1).drop_last() =~= self@.take(i as int));
            assert(self@.take(i + 1).last() == self@[i as int]);
            if !self.list[i].0 {
                count = count + 1;
            }
            i = i + 1;
        }
        assert(self@.take(i as int) =~= self@);
        count
    }

    /// What is said of the findings.
    pub fn lines(&self) -> (lines: Vec<Line>)
        ensures
            line_views(lines@) == finding_lines(self@),
    {
        let mut lines = no_lines();
        let ghost all = finding_lines(self@);
        let mut i: usize = 0;
        assert(all.take(0) =~= Seq::<LineView>::empty());
        while i < self.list.len()
            invariant
                i <= self.list.len(),
                all == finding_lines(self@),
                line_views(lines@) == all.take(i as int),
            decreases self.list.len() - i,
        {
            put_line(&mut lines, said(self.list[i].1.clone()));
            assert(all.take(i + 1) =~= all.take(i as int).push(all[i as int]));
            i = i + 1;
        }
        assert(all.take(i as int) =~= all);
        lines
    }
}

/// How a finding is marked.
pub open spec fn mark_of(fine: bool) -> Seq<char> {
    if fine {
        "ok "@
    } else {
        "FAIL "@
    }
}

fn mark(fine: bool) -> (mark: &'static str)
    ensures
        mark@ == mark_of(fine),
{
    if fine {
        "ok "
    } else {
        "FAIL "
    }
}

// ---------------------------------------------------------------------------
// The opening
// ---------------------------------------------------------------------------

/// What is found about the wiring; it is mentioned only where it is incomplete.
pub open spec fn hooks_findings(health: HooksHealth) -> Seq<Finding> {
    if health == HooksHealth::Healthy {
        Seq::empty()
    } else {
        seq![(false, "hooks: FAIL "@ + hooks_health_text(health))]
    }
}

/// What is said where the entries of a workspace are not checked, because it
/// is not trusted.
pub open spec fn unchecked_text(
    root: Seq<u8>,
    global_path: Seq<u8>,
    repos: nat,
    links: nat,
) -> Seq<char> {
    "untrusted: repo "@ + text::lossy_text(root) + " is not in trusted-repos ("@
        + text::lossy_text(global_path) + "); "@ + text::digits_of(repos) + " repo and "@
        + text::digits_of(links) + " link entries skipped (jjn trust)"@
}

/// How `doctor` goes on behind the wiring.
#[derive(Debug)]
pub enum Opening {
    /// It ends here.
    Ended(Ending),
    /// The entries are checked.
    Check(Findings),
}

/// How `doctor` begins: with the wiring, and with the reasons not to check any
/// entries.
pub fn open(
    health: &HooksHealth,
    root: &FsPath,
    global_path: &FsPath,
    repos: usize,
    links: usize,
    trusted: bool,
) -> (opening: Opening)
    ensures
        ({
            let found = hooks_findings(*health);
            let failed = *health != HooksHealth::Healthy;
            if repos == 0 && links == 0 {
                opening matches Opening::Ended(ending) && ending@ == (
                    if failed {
                        finding_lines(found)
                    } else {
                        seq![(false, "no [[repo]] or [[link]] entries; nothing to check"@)]
                    },
                    failed,
                )
            } else if !trusted {
                opening matches Opening::Ended(ending) && ending@ == (
                    finding_lines(found).push(
                        (
                            false,
                            unchecked_text(root@, global_path@, repos as nat, links as nat),
                        ),
                    ),
                    failed,
                )
            } else {
                opening matches Opening::Check(findings) && findings@ == found
            }
        }),
{
    let mut findings = Findings::none();
    let failed = !health.is_ok();
    if failed {
        findings.note(
            false,
            "hooks: FAIL ".to_owned().concat(health.message().as_str()),
        );
    }
    assert(findings@ =~= hooks_findings(*health));
    if repos == 0 && links == 0 {
        if failed {
            return Opening::Ended(Ending { lines: findings.lines(), failed: true });
        }
        return Opening::Ended(
            end_with(
                said("no [[repo]] or [[link]] entries; nothing to check".to_owned()),
                false,
            ),
        );
    }
    if !trusted {
        let skipped = "untrusted: repo ".to_owned().concat(root.display().as_str()).concat(
            " is not in trusted-repos (",
        ).concat(global_path.display().as_str()).concat("); ").concat(
            text::render(repos as u64).as_str(),
        ).concat(" repo and ").concat(text::render(links as u64).as_str()).concat(
            " link entries skipped (jjn trust)",
        );
        let mut lines = findings.lines();
        put_line(&mut lines, said(skipped));
        return Opening::Ended(Ending { lines, failed });
    }
    Opening::Check(findings)
}

// ---------------------------------------------------------------------------
// The checks
// ---------------------------------------------------------------------------

/// What is found about the declarations; they are mentioned only where two of
/// them clash.
pub open spec fn clash_findings(repos: Seq<RepoEntry>) -> Seq<Finding> {
    match duplicate_of(repos) {
        None => Seq::empty(),
        Some((kind, value)) => seq![
            (false, "repos: FAIL "@ + ("duplicate repo "@ + kind + ": "@ + value)),
        ],
    }
}

/// Checks that no two entries share a name or a target.
fn check_clashes(findings: &mut Findings, repos: &Vec<RepoEntry>)
    ensures
        final(findings)@ == old(findings)@ + clash_findings(repos@),
{
    let ghost before = findings@;
    match repo::validate(repos.as_slice()) {
        Ok(_) => {
            assert(before + clash_findings(repos@) =~= before);
        },
        Err(err) => {
            findings.note(false, "repos: FAIL ".to_owned().concat(err.message().as_str()));
            assert(clash_findings(repos@)[0].1 =~= "repos: FAIL "@ + repo_error_text(err));
            assert(findings@ =~= before + clash_findings(repos@));
        },
    }
}

/// What is found about a `[[repo]]` entry.
pub open spec fn repo_finding(entry: RepoEntry, health: Health) -> Finding {
    (
        health is Fine,
        name_of(entry) + " ("@ + target_of(entry) + "): "@ + mark_of(health is Fine)
            + repo::doctor::health_text(health),
    )
}

/// What is found about the `[[repo]]` entries.
pub open spec fn repo_findings(report: Seq<repo::Diagnosis>) -> Seq<Finding> {
    report.map_values(|one: repo::Diagnosis| repo_finding(one.entry, one.status@))
}

/// Reports on the `[[repo]]` entries.
fn note_repos(findings: &mut Findings, report: &Vec<repo::Diagnosis>)
    ensures
        final(findings)@ == old(findings)@ + repo_findings(report@),
{
    let ghost all = repo_findings(report@);
    let ghost before = findings@;
    let mut i: usize = 0;
    assert(before + all.take(0) =~= before);
    while i < report.len()
        invariant
            i <= report.len(),
            all == repo_findings(report@),
            findings@ == before + all.take(i as int),
        decreases report.len() - i,
    {
        let fine = report[i].status.is_ok();
        let line = report[i].entry.effective_name().concat(" (").concat(
            report[i].entry.effective_target().as_str(),
        ).concat("): ").concat(mark(fine)).concat(report[i].status.message().as_str());
        findings.note(fine, line);
        assert(before + all.take(i + 1) =~= (before + all.take(i as int)).push(all[i as int]));
        i = i + 1;
    }
    assert(all.take(i as int) =~= all);
}

/// What is found about the link to a sub-repo in a secondary workspace.
pub open spec fn secondary_finding(name: Seq<char>, status: SecondaryView) -> Finding {
    (
        status is AlreadyLinked,
        name + " [secondary]: "@ + mark_of(status is AlreadyLinked)
            + repo::secondary::secondary_text(status),
    )
}

/// What is found about the links to sub-repos in a secondary workspace.
pub open spec fn secondary_findings(report: Seq<(Seq<char>, SecondaryView)>) -> Seq<Finding> {
    report.map_values(|one: (Seq<char>, SecondaryView)| secondary_finding(one.0, one.1))
}

/// Reports on the links to sub-repos in a secondary workspace.
fn note_secondary(findings: &mut Findings, report: &Vec<(String, repo::SecondaryStatus)>)
    ensures
        final(findings)@ == old(findings)@ + secondary_findings(repo::secondary::report_view(report@)),
{
    let ghost all = secondary_findings(repo::secondary::report_view(report@));
    let ghost before = findings@;
    let mut i: usize = 0;
    assert(before + all.take(0) =~= before);
    while i < report.len()
        invariant
            i <= report.len(),
            all == secondary_findings(repo::secondary::report_view(report@)),
            findings@ == before + all.take(i as int),
        decreases report.len() - i,
    {
        let fine = report[i].1.is_ok();
        let line = report[i].0.clone().concat(" [secondary]: ").concat(mark(fine)).concat(
            report[i].1.message().as_str(),
        );
        findings.note(fine, line);
        assert(before + all.take(i + 1) =~= (before + all.take(i as int)).push(all[i as int]));
        i = i + 1;
    }
    assert(all.take(i as int) =~= all);
}

/// What is found about a `[[link]]` entry.
pub open spec fn link_finding(entry: LinkEntry, health: link::Health) -> Finding {
    (
        health is Fine,
        entry.target@ + ": "@ + mark_of(health is Fine) + link::health_text(health),
    )
}

/// What is found about the `[[link]]` entries.
pub open spec fn link_findings(report: Seq<link::Diagnosis>) -> Seq<Finding> {
    report.map_values(|one: link::Diagnosis| link_finding(one.entry, one.status@))
}

/// Reports on the `[[link]]` entries.
fn note_links(findings: &mut Findings, report: &Vec<link::Diagnosis>)
    ensures
        final(findings)@ == old(findings)@ + link_findings(report@),
{
    let ghost all = link_findings(report@);
    let ghost before = findings@;
    let mut i: usize = 0;
    assert(before + all.take(0) =~= before);
    while i < report.len()
        invariant
            i <= report.len(),
            all == link_findings(report@),
            findings@ == before + all.take(i as int),
        decreases report.len() - i,
    {
        let fine = report[i].status.is_ok();
        let line = report[i].entry.target.clone().concat(": ").concat(mark(fine)).concat(
            report[i].status.message().as_str(),
        );
        findings.note(fine, line);
        assert(before + all.take(i + 1) =~= (before + all.take(i as int)).push(all[i as int]));
        i = i + 1;
    }
    assert(all.take(i as int) =~= all);
}

/// Whether links to sub-repos are checked, and where the default workspace is:
/// in a secondary workspace whose sub-repos are links.
pub open spec fn links_into(
    mode: SecondaryMode,
    root: Seq<u8>,
    default: Option<Seq<u8>>,
) -> bool {
    mode == SecondaryMode::Link && (default matches Some(default) && !path::same_path(
        default,
        root,
    ))
}

/// Whether links to sub-repos are checked: in a secondary workspace whose
/// sub-repos are links. Both roots are canonicalized by the caller.
pub fn checks_secondary(mode: SecondaryMode, root: &FsPath, default: &Option<FsPath>) -> (yes: bool)
    ensures
        yes == links_into(mode, root@, link::maybe_path(*default)),
{
    match mode {
        SecondaryMode::Link => match default {
            Some(default) => !default.same_as(root),
            None => false,
        },
        _ => false,
    }
}

/// One check of `doctor`.
#[derive(Debug)]
pub enum Check {
    /// The declarations and the `[[repo]]` entries, below this root.
    Repos(FsPath),
    /// The links to the sub-repos of this default workspace.
    SecondaryLinks(FsPath),
    /// The `[[link]]` entries.
    Links,
}

/// A [`Check`] by value.
pub enum CheckView {
    /// See [`Check::Repos`].
    Repos(Seq<u8>),
    /// See [`Check::SecondaryLinks`].
    SecondaryLinks(Seq<u8>),
    /// See [`Check::Links`].
    Links,
}

impl View for Check {
    type V = CheckView;

    open spec fn view(&self) -> CheckView {
        match *self {
            Check::Repos(root) => CheckView::Repos(root@),
            Check::SecondaryLinks(default) => CheckView::SecondaryLinks(default@),
            Check::Links => CheckView::Links,
        }
    }
}

/// The checks by value.
pub open spec fn check_views(list: Seq<Check>) -> Seq<CheckView> {
    list.map_values(|check: Check| check@)
}

/// What is checked of a workspace with this many entries: the sub-repos where
/// they are materialized, then the links to them, then the `[[link]]` entries.
pub open spec fn planned_checks(
    repos: nat,
    links: nat,
    mode: SecondaryMode,
    root: Seq<u8>,
    topology: TopologyView,
    default: Option<Seq<u8>>,
) -> Seq<CheckView> {
    (if repos > 0 {
        seq![CheckView::Repos(repo_root_of(root, mode, topology))]
    } else {
        Seq::empty()
    }) + (if repos > 0 && links_into(mode, root, default) {
        seq![CheckView::SecondaryLinks(default->0)]
    } else {
        Seq::empty()
    }) + (if links > 0 {
        seq![CheckView::Links]
    } else {
        Seq::empty()
    })
}

/// Decides what is checked, going by how many entries there are, by the mode
/// and by what is known of the workspaces; `default` is the root of the default
/// one, canonicalized by the caller, as `root` is.
pub fn plan_checks(
    repos: usize,
    links: usize,
    mode: SecondaryMode,
    root: &FsPath,
    workspaces: &Result<Vec<WorkspaceInfo>, WorkspaceError>,
    default: &Option<FsPath>,
) -> (checks: Vec<Check>)
    ensures
        check_views(checks@) == planned_checks(
            repos as nat,
            links as nat,
            mode,
            root@,
            topology_view(*workspaces),
            link::maybe_path(*default),
        ),
{
    let mut checks: Vec<Check> = Vec::new();
    if repos > 0 {
        checks.push(Check::Repos(repo_root(root, mode, workspaces)));
        if checks_secondary(mode, root, default) {
            if let Some(default) = default {
                checks.push(Check::SecondaryLinks(default.clone()));
            }
        }
    }
    if links > 0 {
        checks.push(Check::Links);
    }
    assert(check_views(checks@) =~= planned_checks(
        repos as nat,
        links as nat,
        mode,
        root@,
        topology_view(*workspaces),
        link::maybe_path(*default),
    ));
    checks
}

/// What is found about the `[[repo]]` entries, going by the lock and by what
/// was seen of each.
pub open spec fn repo_checks(
    repos: Seq<RepoEntry>,
    locked: Entries,
    sights: Seq<RepoSight>,
) -> Seq<Finding> {
    Seq::new(
        repos.len(),
        |i: int|
            repo_finding(
                repos[i],
                repo::doctor::health_of(
                    repos[i],
                    lock::recorded(locked, name_of(repos[i])),
                    sights[i],
                ),
            ),
    )
}

/// What is found about the links to sub-repos in a secondary workspace, going
/// by what was seen of each.
pub open spec fn secondary_checks(
    default_root: Seq<u8>,
    root: Seq<u8>,
    repos: Seq<RepoEntry>,
    sights: Seq<SecondarySight>,
) -> Seq<Finding> {
    Seq::new(
        repos.len(),
        |i: int|
            secondary_finding(
                name_of(repos[i]),
                repo::secondary::entry_plan(
                    default_root,
                    root,
                    repos[i],
                    false,
                    false,
                    sights[i],
                ).done,
            ),
    )
}

/// What is found about the `[[link]]` entries, going by what was seen of each.
pub open spec fn link_checks(
    root: Seq<u8>,
    home: Option<Seq<u8>>,
    links: Seq<LinkEntry>,
    sights: Seq<LinkSight>,
) -> Seq<Finding> {
    Seq::new(
        links.len(),
        |i: int| link_finding(links[i], link::health_of(root, home, links[i], sights[i])),
    )
}

/// Checks the declarations and the `[[repo]]` entries.
pub fn check_repos(
    findings: &mut Findings,
    repos: &Vec<RepoEntry>,
    lock: &RepoLock,
    sights: &Vec<RepoSight>,
)
    requires
        sights@.len() == repos@.len(),
    ensures
        final(findings)@ == old(findings)@ + clash_findings(repos@) + repo_checks(
            repos@,
            lock.entries(),
            sights@,
        ),
{
    check_clashes(findings, repos);
    let report = repo::doctor(repos.as_slice(), lock, sights.as_slice());
    assert(repo_findings(report@) =~= repo_checks(repos@, lock.entries(), sights@));
    note_repos(findings, &report);
}

/// Checks the links to sub-repos in a secondary workspace.
pub fn check_secondary_links(
    findings: &mut Findings,
    default_root: &FsPath,
    root: &FsPath,
    repos: &Vec<RepoEntry>,
    sights: &Vec<SecondarySight>,
)
    requires
        sights@.len() == repos@.len(),
    ensures
        final(findings)@ == old(findings)@ + secondary_checks(
            default_root@,
            root@,
            repos@,
            sights@,
        ),
{
    let report = repo::check_secondary(default_root, root, repos.as_slice(), sights.as_slice());
    assert(secondary_findings(repo::secondary::report_view(report@)) =~= secondary_checks(
        default_root@,
        root@,
        repos@,
        sights@,
    ));
    note_secondary(findings, &report);
}

/// Checks the `[[link]]` entries.
pub fn check_links(
    findings: &mut Findings,
    root: &FsPath,
    links: &Vec<LinkEntry>,
    sights: &Vec<LinkSight>,
)
    requires
        sights@.len() == links@.len(),
    ensures
        exists|home: Option<Seq<u8>>|
            final(findings)@ == old(findings)@ + #[trigger] link_checks(
                root@,
                home,
                links@,
                sights@,
            ),
{
    let report = link::doctor(root, links.as_slice(), sights.as_slice());
    proof {
        let home = choose|home: Option<Seq<u8>>| #[trigger]
            link::diagnosed(root@, home, links@, sights@, report@);
        assert(link_findings(report@) =~= link_checks(root@, home, links@, sights@));
    }
    note_links(findings, &report);
}

/// How `doctor` ends once everything is checked: with a line for each finding,
/// and with the number of problems, if any.
pub open spec fn closing(findings: Seq<Finding>) -> (Seq<LineView>, bool) {
    let count = problems_in(findings);
    if count == 0 {
        (finding_lines(findings), false)
    } else {
        (
            finding_lines(findings).push((true, text::digits_of(count) + " problem(s) found"@)),
            true,
        )
    }
}

/// Ends `doctor` once everything is checked.
pub fn close(findings: &Findings) -> (ending: Ending)
    ensures
        ending@ == closing(findings@),
{
    let count: usize = findings.problems();
    let mut lines = findings.lines();
    if count > 0 {
        put_line(
            &mut lines,
            complained(text::render(count as u64).concat(" problem(s) found")),
        );
    }
    Ending { lines, failed: count > 0 }
}

// ---------------------------------------------------------------------------
// Laws
// ---------------------------------------------------------------------------

/// **`doctor` succeeds exactly where everything is in order.**
pub proof fn success_means_no_problem(findings: Seq<Finding>)
    ensures
        closing(findings).1 <==> exists|i: int| 0 <= i < findings.len() && !(#[trigger] findings[i]).0,
    decreases findings.len(),
{
    if findings.len() > 0 {
        let less = findings.drop_last();
        success_means_no_problem(less);
        if closing(less).1 {
            let i = choose|i: int| 0 <= i < less.len() && !(#[trigger] less[i]).0;
            assert(!findings[i].0);
        }
        if !findings.last().0 {
            assert(!findings[findings.len() - 1].0);
        }
        if exists|i: int| 0 <= i < findings.len() && !(#[trigger] findings[i]).0 {
            let i = choose|i: int| 0 <= i < findings.len() && !(#[trigger] findings[i]).0;
            if i < less.len() {
                assert(!less[i].0);
            }
        }
    }
}

/// **Clashing declarations are a problem**, and only those.
pub proof fn clashes_are_found(repos: Seq<RepoEntry>)
    ensures
        closing(clash_findings(repos)).1 <==> duplicate_of(repos) is Some,
{
    success_means_no_problem(clash_findings(repos));
    if duplicate_of(repos) is Some {
        assert(!clash_findings(repos)[0].0);
    }
}

/// **Each finding that is not fine counts as one problem, and no other does.**
pub proof fn problems_are_counted_one_by_one(findings: Seq<Finding>, next: Finding)
    ensures
        problems_in(Seq::empty()) == 0,
        problems_in(findings.push(next)) == problems_in(findings) + (if next.0 {
            0int
        } else {
            1int
        }),
        closing(findings).1 <==> problems_in(findings) > 0,
        closing(findings).0.len() == findings.len() + (if problems_in(findings) > 0 {
            1int
        } else {
            0int
        }),
        problems_in(findings) > 0 ==> closing(findings).0.last() == (
            true,
            text::digits_of(problems_in(findings)) + " problem(s) found"@,
        ),
        forall|i: int|
            0 <= i < findings.len() ==> #[trigger] closing(findings).0[i] == (false, findings[i].1),
{
    assert(findings.push(next).drop_last() =~= findings);
}

/// **A finding is fine exactly if what was found is healthy.**
pub proof fn findings_are_fine_where_all_is_well(
    entry: RepoEntry,
    health: Health,
    name: Seq<char>,
    status: SecondaryView,
    link: LinkEntry,
    linked: link::Health,
    hooks: HooksHealth,
)
    ensures
        repo_finding(entry, health).0 <==> health is Fine,
        secondary_finding(name, status).0 <==> status is AlreadyLinked,
        link_finding(link, linked).0 <==> linked is Fine,
        hooks_findings(hooks).len() == 0 <==> hooks == HooksHealth::Healthy,
        hooks != HooksHealth::Healthy ==> hooks_findings(hooks).len() == 1 && !hooks_findings(
            hooks,
        )[0].0,
        repo_finding(entry, health).1 == name_of(entry) + " ("@ + target_of(entry) + "): "@ + (
        if health is Fine {
            "ok "@
        } else {
            "FAIL "@
        }) + repo::doctor::health_text(health),
        secondary_finding(name, status).1 == name + " [secondary]: "@ + (
        if status is AlreadyLinked {
            "ok "@
        } else {
            "FAIL "@
        }) + repo::secondary::secondary_text(status),
        link_finding(link, linked).1 == link.target@ + ": "@ + (if linked is Fine {
            "ok "@
        } else {
            "FAIL "@
        }) + link::health_text(linked),
{
}

/// **What is declared is checked**: repositories and links wherever there are some,
/// and links into the default workspace only from another one, where links are what
/// it gets.
pub proof fn what_is_declared_is_checked(
    repos: nat,
    links: nat,
    mode: SecondaryMode,
    root: Seq<u8>,
    topology: TopologyView,
    default: Option<Seq<u8>>,
)
    ensures
        ({
            let checks = planned_checks(repos, links, mode, root, topology, default);
            let other = repos > 0 && mode == SecondaryMode::Link && default is Some && path::parts(
                default->0,
            ) != path::parts(root);
            let first = if repos > 0 {
                1int
            } else {
                0int
            };
            let second = if other {
                1int
            } else {
                0int
            };
            let third = if links > 0 {
                1int
            } else {
                0int
            };
            &&& checks.len() == first + second + third
            &&& repos > 0 ==> checks[0] == CheckView::Repos(repo_root_of(root, mode, topology))
            &&& other ==> checks[1] == CheckView::SecondaryLinks(default->0)
            &&& links > 0 ==> checks.last() is Links
        }),
{
}

/// **Every repository and every link is checked**, each against what was seen of
/// it, and repositories against what the lock has under their name.
pub proof fn every_entry_is_checked(
    repos: Seq<RepoEntry>,
    locked: Entries,
    sights: Seq<RepoSight>,
    root: Seq<u8>,
    home: Option<Seq<u8>>,
    links: Seq<LinkEntry>,
    seen: Seq<LinkSight>,
    i: int,
)
    ensures
        repo_checks(repos, locked, sights).len() == repos.len(),
        link_checks(root, home, links, seen).len() == links.len(),
        0 <= i < repos.len() ==> (repo_checks(repos, locked, sights)[i].0 <==> (
        repo::doctor::health_of(
            repos[i],
            lock::recorded(locked, name_of(repos[i])),
            sights[i],
        ) is Fine)),
        0 <= i < links.len() ==> (link_checks(root, home, links, seen)[i].0 <==> (link::health_of(
            root,
            home,
            links[i],
            seen[i],
        ) is Fine)),
{
}

/// **Links into the default workspace are checked one by one**, as a check that
/// makes nothing.
pub proof fn every_secondary_link_is_checked(
    default_root: Seq<u8>,
    root: Seq<u8>,
    repos: Seq<RepoEntry>,
    sights: Seq<SecondarySight>,
    i: int,
)
    ensures
        secondary_checks(default_root, root, repos, sights).len() == repos.len(),
        0 <= i < repos.len() ==> (secondary_checks(default_root, root, repos, sights)[i].0 <==> (
        repo::secondary::entry_plan(
            default_root,
            root,
            repos[i],
            false,
            false,
            sights[i],
        ).done is AlreadyLinked)),
{
}

/// **What was left unchecked is counted**, and named with the list that would have
/// it checked.
pub proof fn unchecked_entries_are_counted(
    root: Seq<u8>,
    global_path: Seq<u8>,
    repos: nat,
    links: nat,
)
    ensures
        unchecked_text(root, global_path, repos, links) == "untrusted: repo "@ + text::lossy_text(
            root,
        ) + " is not in trusted-repos ("@ + text::lossy_text(global_path) + "); "@
            + text::digits_of(repos) + " repo and "@ + text::digits_of(links)
            + " link entries skipped (jjn trust)"@,
{
}

/// **A clash is a problem that names what clashes.**
pub proof fn clashes_are_named(repos: Seq<RepoEntry>)
    ensures
        duplicate_of(repos) is None ==> clash_findings(repos).len() == 0,
        duplicate_of(repos) matches Some((kind, value)) ==> clash_findings(repos) == seq![
            (false, "repos: FAIL "@ + ("duplicate repo "@ + kind + ": "@ + value)),
        ],
{
}

} // verus!
