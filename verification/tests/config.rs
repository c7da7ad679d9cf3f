//! Layers, sections, and the trust gate.

use jj_lib::config::ConfigLayer;
use jj_lib::config::ConfigSource;
use jj_lib::config::StackedConfig;
use jj_lib::settings::UserSettings;
use jjunction::config::global::GlobalConfigReader;
use jjunction::config::load_repos_config;
use jjunction::config::load_single;
use jjunction::config::load_stacked;
use jjunction::config::load_workspace_config;
use jjunction::config::local::LocalConfigReader;
use jjunction::config::settings::synth_settings;
use jjunction::config::trust::is_trusted;
use jjunction::config::trust::trust;
use jjunction::config::trust::trusted_repos;
use jjunction::config::trust::TrustError;
use jjunction::config::trust::TrustFile;
use jjunction::config::trust::TrustOutcome;
use jjunction::config::AllowPolicy;
use jjunction::config::ConfigReader;
use jjunction::config::JjunctionConfig;
use jjunction::config::LayerError;
use jjunction::config::SecondaryMode;
use jjunction::config::WorkspaceConfig;
use jjunction::files::FileRead;
use jjunction::path::FsPath;

fn stack(text: &str) -> StackedConfig {
    let mut stacked = StackedConfig::empty();
    stacked.add_layer(ConfigLayer::parse(ConfigSource::Repo, text).unwrap());
    stacked
}

struct StubReader;

impl ConfigReader for StubReader {
    type Error = std::convert::Infallible;

    fn read(&self) -> Result<JjunctionConfig, Self::Error> {
        Ok(JjunctionConfig::default())
    }
}

#[test]
fn reads_config_via_trait() {
    let config = StubReader.read().unwrap();
    assert_eq!(config, JjunctionConfig::default());
}

#[test]
fn builds_user_settings_from_config() {
    let mut config = StackedConfig::with_defaults();
    config.add_layer(
        ConfigLayer::parse(
            ConfigSource::User,
            r#"
                user.name = "Test User"
                user.email = "test.user@example.com"
                operation.username = "test-username"
                operation.hostname = "host.example.com"
                "#,
        )
        .unwrap(),
    );

    let settings = UserSettings::from_config(config).unwrap();

    assert_eq!(settings.user_name(), "Test User");
    assert_eq!(settings.user_email(), "test.user@example.com");
}

#[test]
fn placeholder_settings_stand_above_the_defaults() {
    let settings = synth_settings().unwrap();
    assert_eq!(settings.user_name(), "jjunction");
    assert_eq!(settings.user_email(), "jjunction@localhost");
    assert_eq!(settings.config().layers().len(), 2);
    assert_eq!(settings.config().layers()[0].source, ConfigSource::Default);
    assert!(settings.config().layers()[1].data.contains_key("user"));
}

#[test]
fn stacks_local_below_global() {
    let local = LocalConfigReader::new(FsPath::new("/ws")).with_file(FileRead::Text(
        "key = \"local\"\nonly-local = 1\n".to_owned(),
    ));
    let global = GlobalConfigReader::from_path(FsPath::new("/home/global.toml"))
        .with_file(FileRead::Text("key = \"global\"\n".to_owned()));
    let stacked = load_stacked(&local, &global).unwrap();

    assert_eq!(stacked.get::<String>("key").unwrap(), "global");
    assert_eq!(stacked.get::<i64>("only-local").unwrap(), 1);
}

#[test]
fn parses_repos_secondary_mode() {
    let mut local = StackedConfig::empty();
    local.add_layer(
        ConfigLayer::parse(ConfigSource::Repo, "[repos]\nsecondary = \"clone\"\n").unwrap(),
    );
    assert_eq!(
        load_repos_config(&local).unwrap().secondary,
        SecondaryMode::Clone
    );

    // absent section defaults to link; unknown values are rejected
    let empty = StackedConfig::empty();
    assert_eq!(
        load_repos_config(&empty).unwrap().secondary,
        SecondaryMode::Link
    );
    let mut bad = StackedConfig::empty();
    bad.add_layer(
        ConfigLayer::parse(ConfigSource::Repo, "[repos]\nsecondary = \"teleport\"\n").unwrap(),
    );
    assert!(load_repos_config(&bad).is_err());
}

#[test]
fn repos_sections_are_read_field_by_field() {
    assert_eq!(
        load_repos_config(&stack("[repos]\n")).unwrap().secondary,
        SecondaryMode::Link
    );
    assert_eq!(
        load_repos_config(&stack("[repos]\nsecondary = \"skip\"\n"))
            .unwrap()
            .secondary,
        SecondaryMode::Skip
    );
    assert!(load_repos_config(&stack("[repos]\nthird = 1\n")).is_err());
    assert!(load_repos_config(&stack("repos = 3\n")).is_err());
    let problem = load_repos_config(&stack("repos = 3\n")).unwrap_err();
    assert_eq!(problem.message(), "Invalid type or value for repos");
    // an enum value may also be written as a table, a section as a list
    assert_eq!(
        load_repos_config(&stack("[repos]\nsecondary = { clone = {} }\n"))
            .unwrap()
            .secondary,
        SecondaryMode::Clone
    );
    assert_eq!(
        load_repos_config(&stack("repos = [\"skip\"]\n"))
            .unwrap()
            .secondary,
        SecondaryMode::Skip
    );
}

#[test]
fn workspace_sections_are_read_field_by_field() {
    let config = load_workspace_config(&stack("")).unwrap();
    assert_eq!(config, WorkspaceConfig::default());
    assert_eq!(config.allow, AllowPolicy::Hint);
    assert_eq!(
        config.files(),
        vec![".envrc", "devenv.nix", "devenv.yaml", "devenv.lock"]
    );

    let config =
        load_workspace_config(&stack("[workspace]\nsync = [\"a\", \"b\"]\nallow = \"auto\"\n"))
            .unwrap();
    assert_eq!(config.allow, AllowPolicy::Auto);
    assert_eq!(config.files(), vec!["a", "b"]);
    assert_eq!(config.clone(), config);

    let config = load_workspace_config(&stack("[workspace]\nsync = []\nallow = \"never\"\n"));
    assert!(config.unwrap().files().is_empty());
    assert!(load_workspace_config(&stack("[workspace]\nsync = [1]\n")).is_err());
    assert!(load_workspace_config(&stack("[workspace]\nallow = \"perhaps\"\n")).is_err());
    assert!(load_workspace_config(&stack("[workspace]\nfiles = []\n")).is_err());
}

#[test]
fn missing_files_give_empty_stack() {
    let local = LocalConfigReader::new(FsPath::new("/ws"));
    let global = GlobalConfigReader::from_path(FsPath::new("/home/absent.toml"));

    let stacked = load_stacked(&local, &global).unwrap();

    assert!(stacked.get::<String>("key").is_err());
    assert_eq!(stacked.layers().len(), 0);
}

#[test]
fn malformed_local_file_is_an_error() {
    let local = LocalConfigReader::new(FsPath::new("/ws"))
        .with_file(FileRead::Text("not = [closed\n".to_owned()));

    assert!(local.layer().is_err());
    assert!(local.clone().read().is_err());
    assert_eq!(
        local.layer().err().unwrap().message(),
        "Configuration cannot be parsed as TOML document"
    );
}

#[test]
fn unreadable_files_are_errors() {
    let global = GlobalConfigReader::from_path(FsPath::new("/home/config.toml"))
        .with_file(FileRead::Unreadable("permission denied".to_owned()));
    assert!(matches!(global.layer(), Err(LayerError::Read(_))));
    assert_eq!(
        global.clone().read().unwrap_err().message(),
        "Failed to read configuration file"
    );
}

#[test]
fn readers_know_their_files() {
    let local = LocalConfigReader::new(FsPath::new("/ws"));
    assert_eq!(local.path().display(), "/ws/.jjunction/config.toml");
    let global = GlobalConfigReader::from_path(FsPath::new("/g.toml"));
    assert_eq!(global.path().display(), "/g.toml");
    assert_eq!(
        GlobalConfigReader::default_path_in(Some(&FsPath::new("/home/u/.config")))
            .unwrap()
            .display(),
        "/home/u/.config/jjunction/config.toml"
    );
    assert!(GlobalConfigReader::default_path_in(None).is_none());
    match GlobalConfigReader::default_path() {
        Some(path) => assert!(path.display().ends_with("/jjunction/config.toml")),
        None => assert!(dirs::config_dir().is_none()),
    }
    assert_eq!(
        GlobalConfigReader::default_path().map(|path| path.display()),
        dirs::config_dir().map(|dir| format!("{}/jjunction/config.toml", dir.display()))
    );
}

#[test]
fn a_single_layer_is_a_stack() {
    assert_eq!(load_single(None).layers().len(), 0);
    let layer = ConfigLayer::parse(ConfigSource::User, "a = 1\n").unwrap();
    assert_eq!(load_single(Some(layer)).get::<i64>("a").unwrap(), 1);
}

// --- trust ---------------------------------------------------------------

fn stack_with_trusted(paths: &[&str]) -> StackedConfig {
    let mut stacked = StackedConfig::empty();
    let text = paths
        .iter()
        .map(|p| format!("\"{p}\""))
        .collect::<Vec<_>>()
        .join(", ");
    stacked.add_layer(
        ConfigLayer::parse(ConfigSource::User, &format!("trusted-repos = [{text}]")).unwrap(),
    );
    stacked
}

fn listed(stack: &StackedConfig) -> Vec<FsPath> {
    trusted_repos(stack)
        .iter()
        .map(|path| FsPath::new(path))
        .collect()
}

#[test]
fn trusted_repo_is_listed() {
    let dir = tempfile::tempdir().unwrap();
    let stack = stack_with_trusted(&[dir.path().to_str().unwrap()]);
    assert!(is_trusted(
        &listed(&stack),
        &FsPath::new(dir.path().to_str().unwrap())
    ));
}

#[test]
fn untrusted_repo_is_not_listed() {
    let dir = tempfile::tempdir().unwrap();
    let other = tempfile::tempdir().unwrap();
    let stack = stack_with_trusted(&[other.path().to_str().unwrap()]);
    assert!(!is_trusted(
        &listed(&stack),
        &FsPath::new(dir.path().to_str().unwrap())
    ));
}

#[test]
fn missing_key_is_untrusted() {
    let dir = tempfile::tempdir().unwrap();
    let stacked = StackedConfig::empty();
    assert!(!is_trusted(
        &listed(&stacked),
        &FsPath::new(dir.path().to_str().unwrap())
    ));
}

#[test]
fn malformed_trust_lists_trust_nothing() {
    assert!(trusted_repos(&stack("trusted-repos = \"/a\"\n")).is_empty());
    assert!(trusted_repos(&stack("trusted-repos = [\"/a\", 1]\n")).is_empty());
    assert_eq!(
        trusted_repos(&stack("trusted-repos = [\"/a\", \"/b\"]\n")),
        vec!["/a", "/b"]
    );
}

/// Trusts `root` in a global configuration file that held `text`; gives what it
/// holds afterwards.
fn trust_in(text: Option<&str>, root: &str) -> (TrustOutcome, Option<String>) {
    let file = match text {
        Some(text) => FileRead::Text(text.to_owned()),
        None => FileRead::Absent,
    };
    let mut loaded = TrustFile::load(&FsPath::new("/home/config.toml"), &file).unwrap();
    assert!(loaded.can_trust());
    let places: Vec<FsPath> = loaded
        .listed()
        .iter()
        .map(|path| FsPath::new(path))
        .collect();
    let (outcome, written) = trust(&mut loaded, &places, &FsPath::new(root));
    (outcome, written.or_else(|| text.map(|text| text.to_owned())))
}

fn trusts(text: &str, root: &str) -> bool {
    let mut stacked = StackedConfig::empty();
    stacked.add_layer(ConfigLayer::parse(ConfigSource::User, text).unwrap());
    is_trusted(&listed(&stacked), &FsPath::new(root))
}

#[test]
fn trust_appends_and_is_idempotent() {
    let repo = tempfile::tempdir().unwrap();
    let repo = repo.path().to_str().unwrap();

    let (outcome, text) = trust_in(None, repo);
    assert_eq!(outcome, TrustOutcome::Added);
    let text = text.unwrap();
    let (outcome, again) = trust_in(Some(&text), repo);
    assert_eq!(outcome, TrustOutcome::AlreadyTrusted);
    assert_eq!(again, Some(text.clone()));

    assert!(trusts(&text, repo));
}

#[test]
fn trusted_places_are_listed_when_the_file_is_read_again() {
    let roots = [
        "/a b",
        "/#",
        "/\"quoted\"",
        "/'single'",
        "/'\"both\"'",
        "/back\\slash",
        "/tab\there",
        "/two\nlines",
        "/cr\r\nlf",
        "/\u{1}\u{7f}",
        "/h\u{e9}llo",
        "/\"\"\"",
        "/'''\"\"\"",
    ];
    let mut text: Option<String> = None;
    for (i, root) in roots.iter().enumerate() {
        let (outcome, written) = trust_in(text.as_deref(), root);
        assert_eq!(outcome, TrustOutcome::Added);
        for (j, earlier) in roots.iter().enumerate() {
            assert_eq!(trusts(written.as_deref().unwrap(), earlier), j <= i);
        }
        text = written;
    }
}

#[test]
fn trust_creates_the_file_with_a_single_entry() {
    let (_, text) = trust_in(None, "/work/repo");
    let text = text.unwrap();
    assert!(text.contains("trusted-repos"));
    assert_eq!(
        text.matches("/work/repo").count(),
        1,
        "no duplicate entries: {text}"
    );
    assert_eq!(text, "trusted-repos = [\"/work/repo\"]\n");
}

#[test]
fn trust_preserves_existing_content() {
    let (_, text) = trust_in(
        Some("# my global config\nsome-key = 1\n"),
        "/work/repo",
    );
    let text = text.unwrap();
    assert!(text.starts_with("# my global config"), "kept: {text}");
    assert!(text.contains("some-key = 1"));
    assert!(trusts(&text, "/work/repo"));
}

#[test]
fn trust_compares_places_not_spellings() {
    let text = "trusted-repos = [\"/work//repo/.\"]\n";
    assert!(trusts(text, "/work/repo/"));
    assert!(!trusts(text, "/work/rep"));
    assert_eq!(
        trust_in(Some(text), "/work/repo").0,
        TrustOutcome::AlreadyTrusted
    );
}

#[test]
fn trust_reports_bad_files() {
    let path = FsPath::new("/home/config.toml");
    let parse = TrustFile::load(&path, &FileRead::Text("a = [\n".to_owned())).unwrap_err();
    assert!(matches!(parse, TrustError::Parse { .. }));
    assert!(parse
        .message()
        .starts_with("invalid global config /home/config.toml: TOML parse error"));
    let io = TrustFile::load(&path, &FileRead::Unreadable("denied".to_owned())).unwrap_err();
    assert_eq!(io.message(), "denied");
    let taken = TrustFile::load(&path, &FileRead::Text("trusted-repos = 1\n".to_owned()));
    let taken = taken.unwrap();
    assert!(!taken.can_trust());
    assert!(taken.listed().is_empty());
    // what is no string is passed over
    let mixed = TrustFile::load(
        &path,
        &FileRead::Text("trusted-repos = [1, \"/a\", true, \"/b\"]\n".to_owned()),
    );
    assert_eq!(mixed.unwrap().listed(), vec!["/a", "/b"]);
}

#[test]
fn hand_edited_trust_files_are_read_again() {
    let before = "\
# mine
ui.color = \"auto\" # dotted
trusted-repos = [
  # first
  \"/a\", # why
  '/b',   # trailing
]

[tools.editor]
args = [ 1, [ 'x' ] ]
when = 1979-05-27T07:32:00Z
";
    let (outcome, text) = trust_in(Some(before), "/c");
    assert_eq!(outcome, TrustOutcome::Added);
    let text = text.unwrap();
    assert_eq!(trusted_repos(&stack(&text)), vec!["/a", "/b", "/c"]);
    for kept in ["# mine", "# dotted", "# first", "# why", "[tools.editor]"] {
        assert!(text.contains(kept), "kept: {text}");
    }
    assert_eq!(trust_in(Some(&text), "/b").0, TrustOutcome::AlreadyTrusted);
}

// --- layers that merge -----------------------------------------------------------

fn stacked(lower: &str, upper: &str) -> StackedConfig {
    let mut stacked = StackedConfig::empty();
    stacked.add_layer(ConfigLayer::parse(ConfigSource::User, lower).unwrap());
    stacked.add_layer(ConfigLayer::parse(ConfigSource::Repo, upper).unwrap());
    stacked
}

#[test]
fn inline_sections_merge_with_headers() {
    // a header table inside an inline one
    let unknown = stacked("workspace = { allow = \"auto\" }\n", "[workspace.extra]\n");
    assert!(load_workspace_config(&unknown).is_err());
    let never = stacked(
        "workspace = { sync = [\"a\"] }\n",
        "[workspace.allow.never]\n",
    );
    let config = load_workspace_config(&never).unwrap();
    assert_eq!(config.allow, AllowPolicy::Never);
    assert_eq!(config.files(), vec!["a"]);

    let unknown = stacked("repos = { secondary = \"skip\" }\n", "[repos.extra]\n");
    assert!(load_repos_config(&unknown).is_err());
    let clone = stacked("repos = {}\n", "[repos.secondary.clone]\n");
    assert_eq!(
        load_repos_config(&clone).unwrap().secondary,
        SecondaryMode::Clone
    );

    // what is in both layers is the upper one's
    let both = stacked(
        "[workspace]\nallow = \"auto\"\nsync = [\"a\"]\n",
        "workspace.allow = \"never\"\n",
    );
    let config = load_workspace_config(&both).unwrap();
    assert_eq!(config.allow, AllowPolicy::Never);
    assert_eq!(config.files(), vec!["a"]);
}

#[test]
fn sections_are_refused_by_the_kind_of_their_values() {
    for value in ["1.5", "true", "1979-05-27", "{}", "[\"auto\"]"] {
        let text = format!("[workspace]\nallow = {value}\n");
        assert!(load_workspace_config(&stack(&text)).is_err(), "{value}");
        let text = format!("[workspace]\nsync = {value}\n");
        let listed = load_workspace_config(&stack(&text));
        assert_eq!(listed.is_ok(), value == "[\"auto\"]", "{value}");
    }
}

#[test]
fn trust_is_kept_in_files_with_deep_tables() {
    let row = |n: usize| (0..n).map(|i| format!("k{i}")).collect::<Vec<_>>().join(".");
    let deep = format!("{} = 1\n[{}]\n{} = 2\n", row(80), row(79) + ".z", row(80));
    let (outcome, text) = trust_in(Some(&deep), "/work/repo");
    assert_eq!(outcome, TrustOutcome::Added);
    assert!(trusts(&text.unwrap(), "/work/repo"));
}
