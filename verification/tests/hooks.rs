//! Wiring a workspace.

use jjunction::files::Deed;
use jjunction::files::FileRead;
use jjunction::files::Step;
use jjunction::hooks::conclude;
use jjunction::hooks::doctor;
use jjunction::hooks::init;
use jjunction::hooks::wire_text_of_envrc;
use jjunction::hooks::HooksError;
use jjunction::hooks::HooksHealth;
use jjunction::hooks::InitReport;
use jjunction::hooks::WireStatus;
use jjunction::hooks::WiringSight;
use jjunction::hooks::MARK_BEGIN;
use jjunction::path::FsPath;
use std::collections::BTreeMap;

const ROOT: &str = "/ws";

/// The files of a workspace.
struct Files {
    held: BTreeMap<String, String>,
}

impl Files {
    fn new() -> Files {
        Files {
            held: BTreeMap::new(),
        }
    }

    fn write(&mut self, name: &str, content: &str) {
        self.held
            .insert(format!("{ROOT}/{name}"), content.to_owned());
    }

    fn read(&self, name: &str) -> FileRead {
        match self.held.get(&format!("{ROOT}/{name}")) {
            Some(content) => FileRead::Text(content.clone()),
            None => FileRead::Absent,
        }
    }

    fn text(&self, name: &str) -> String {
        self.held[&format!("{ROOT}/{name}")].clone()
    }

    fn has(&self, name: &str) -> bool {
        self.held.contains_key(&format!("{ROOT}/{name}"))
    }

    fn sight(&self) -> WiringSight {
        WiringSight {
            config: self.has(".jjunction/config.toml"),
            envrc: self.read(".envrc"),
            devenv_yaml: self.has("devenv.yaml"),
            devenv_nix: self.has("devenv.nix"),
            devenv_local: self.read("devenv.local.nix"),
        }
    }

    fn perform(&mut self, deed: &Deed) {
        assert!(deed.required);
        match &deed.step {
            Step::Write { path, content } => {
                self.held.insert(path.display(), content.clone());
            }
            Step::MakeDirs(path) => assert_eq!(path.display(), "/ws/.jjunction"),
            other => panic!("{other:?}"),
        }
    }

    fn init(&mut self) -> Result<InitReport, HooksError> {
        let plan = init(&FsPath::new(ROOT), &self.sight());
        for deed in &plan.deeds {
            self.perform(deed);
        }
        conclude(plan, None)
    }
}

#[test]
fn init_is_idempotent_and_marker_scoped() {
    let mut files = Files::new();
    files.write(".envrc", "use devenv\n");

    let report = files.init().unwrap();
    assert_eq!(report.config, WireStatus::Created);
    assert_eq!(report.envrc, WireStatus::Created);
    assert_eq!(report.devenv_local, WireStatus::Skipped); // no devenv project

    let text = files.text(".envrc");
    assert!(
        text.starts_with("use devenv\n"),
        "user content kept: {text}"
    );
    assert!(text.contains(MARK_BEGIN));
    assert!(text.contains("watch_file .jjunction/config.toml"));
    assert!(text.ends_with("# jjunction:end\n"));

    let report = files.init().unwrap();
    assert_eq!(report.envrc, WireStatus::AlreadyWired);
    assert_eq!(report.config, WireStatus::AlreadyWired);
    assert_eq!(
        files.text(".envrc"),
        text,
        "second run must not change anything"
    );
}

#[test]
fn init_creates_envrc_when_absent() {
    let mut files = Files::new();

    files.init().unwrap();

    let text = files.text(".envrc");
    assert!(text.contains(MARK_BEGIN));
    assert!(text.contains("[ -d .jj/repo ] && watch_file"));
    assert_eq!(files.text(".jjunction/config.toml"), "");
}

#[test]
fn init_wires_devenv_local_nix_for_devenv_projects() {
    let mut files = Files::new();
    files.write("devenv.yaml", "");

    let report = files.init().unwrap();
    assert_eq!(report.devenv_local, WireStatus::Created);

    let text = files.text("devenv.local.nix");
    assert!(text.contains("jjn apply --quiet"));
    assert!(text.contains("enterShell"));

    assert_eq!(files.init().unwrap().devenv_local, WireStatus::AlreadyWired);
}

#[test]
fn init_refuses_foreign_devenv_local_nix() {
    let mut files = Files::new();
    files.write("devenv.yaml", "");
    files.write(
        "devenv.local.nix",
        "{ pkgs, ... }: { packages = [ pkgs.hello ]; }\n",
    );

    let refused = files.init();
    assert!(matches!(refused, Err(HooksError::ForeignFile(_))));
    assert!(refused.unwrap_err().message().contains("/ws/devenv.local.nix"));
    // untouched
    assert!(files.text("devenv.local.nix").contains("hello"));
}

#[test]
fn doctor_reports_missing_wiring() {
    let mut files = Files::new();

    assert_eq!(doctor(&files.sight()), HooksHealth::EnvrcMissing);

    files.init().unwrap();
    assert_eq!(doctor(&files.sight()), HooksHealth::Healthy);

    files.write("devenv.yaml", "");
    assert_eq!(doctor(&files.sight()), HooksHealth::DevenvLocalMissing);

    files.init().unwrap();
    assert_eq!(doctor(&files.sight()), HooksHealth::Healthy);
}

#[test]
fn a_block_stands_off_from_what_precedes_it() {
    let tidy = wire_text_of_envrc("use devenv\n");
    let untidy = wire_text_of_envrc("use devenv");
    assert_eq!(tidy, untidy);
    assert!(tidy.starts_with("use devenv\n\n# jjunction:begin"));
    assert!(wire_text_of_envrc("").starts_with("\n# jjunction:begin"));
}

#[test]
fn failures_end_init() {
    let files = Files::new();
    let plan = init(&FsPath::new(ROOT), &files.sight());
    let err = conclude(plan, Some("disk full".to_owned())).unwrap_err();
    assert_eq!(err.message(), "disk full");

    let mut sight = files.sight();
    sight.envrc = FileRead::Unreadable("denied".to_owned());
    let plan = init(&FsPath::new(ROOT), &sight);
    assert!(matches!(&plan.verdict, Err(HooksError::Io(message)) if message == "denied"));
    assert_eq!(doctor(&sight), HooksHealth::EnvrcMissing);
}

#[test]
fn wiring_describes_itself() {
    assert_eq!(WireStatus::Created.message(), "wired");
    assert_eq!(WireStatus::AlreadyWired.message(), "already wired");
    assert_eq!(WireStatus::Skipped.message(), "skipped");
    assert_eq!(HooksHealth::Healthy.message(), "ok");
    assert!(HooksHealth::Healthy.is_ok());
    assert!(!HooksHealth::EnvrcMissing.is_ok());
    assert_eq!(
        HooksHealth::DevenvLocalMissing.message(),
        "devenv.local.nix lacks the jjn apply hook (jjn init)"
    );
    assert_eq!(
        HooksHealth::EnvrcMissing.message(),
        ".envrc lacks the jjunction watch block (jjn init)"
    );
}
