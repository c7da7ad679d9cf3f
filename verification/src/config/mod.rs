//! Configuration reading interface.
//!
//! jjunction has two configuration layers:
//!
//! - **global**: a user-level configuration file, overriding the built-in
//!   defaults,
//! - **local**: a project-level configuration file (`.jjunction/config.toml`
//!   at the workspace root), treated as **untrusted** by default and layered
//!   *below* the global one.
//!
//! The on-disk format is TOML, carried by [`jj_lib::config::StackedConfig`] on
//! top of `toml_edit`.

pub mod decode;
pub mod global;
pub mod local;
pub mod settings;
pub mod stack;
pub mod trust;

use jj_lib::config::ConfigLayer;
use jj_lib::config::StackedConfig;
use toml_edit::Item;
use vstd::prelude::*;

use crate::files::FileRead;
use crate::text;
use crate::toml;
use crate::toml::Entries;
use crate::toml::Node;
use crate::workspace::DEFAULT_SYNC_FILES;
use stack::LayerSource;

verus! {

/// Directory name of the project-local configuration, at the workspace
/// root. The local file is `.jjunction/config.toml` — a directory to avoid
/// confusion with jj's own `jj*.toml` configuration names.
pub const LOCAL_CONFIG_DIR: &'static str = ".jjunction";

/// File name of the project-local (untrusted) configuration file, inside
/// [`LOCAL_CONFIG_DIR`].
pub const LOCAL_CONFIG_FILE: &'static str = "config.toml";

/// File name of the machine-generated lock file (resolved sub-repo commits),
/// inside [`LOCAL_CONFIG_DIR`].
pub const LOCAL_LOCK_FILE: &'static str = "lock.toml";

/// Directory name of the global configuration, relative to the platform
/// config directory (e.g. `~/.config/jjunction/`).
pub const GLOBAL_CONFIG_DIR: &'static str = "jjunction";

/// File name of the global configuration file.
pub const GLOBAL_CONFIG_FILE: &'static str = "config.toml";

/// Errors while loading a configuration file.
#[derive(Debug)]
pub enum LayerError {
    /// The file cannot be read; the message says why.
    Read(String),
    /// The file is not a TOML document.
    Parse(jj_lib::config::ConfigLoadError),
}

/// How a load error describes itself.
pub open spec fn load_error_text(err: LayerError) -> Seq<char> {
    match err {
        LayerError::Read(_) => "Failed to read configuration file"@,
        LayerError::Parse(_) => "Configuration cannot be parsed as TOML document"@,
    }
}

impl LayerError {
    /// The error as text.
    pub fn message(&self) -> (message: String)
        ensures
            message@ == load_error_text(*self),
    {
        match self {
            LayerError::Read(_) => "Failed to read configuration file".to_owned(),
            LayerError::Parse(_) => "Configuration cannot be parsed as TOML document".to_owned(),
        }
    }
}

/// A section that does not hold what it should.
#[derive(Debug, PartialEq, Eq)]
pub struct ConfigGetError {
    /// The name of the section.
    pub name: String,
}

impl ConfigGetError {
    /// The error as text.
    pub fn message(&self) -> (message: String)
        ensures
            message@ == get_error_text(self.name@),
    {
        "Invalid type or value for ".to_owned().concat(self.name.as_str())
    }
}

/// How the error of a section describes itself.
pub open spec fn get_error_text(name: Seq<char>) -> Seq<char> {
    "Invalid type or value for "@ + name
}

/// Whether what was read of a configuration file can be loaded.
pub open spec fn loads(file: FileRead) -> bool {
    match file {
        FileRead::Absent => true,
        FileRead::Unreadable(_) => false,
        FileRead::Text(content) => toml::parsed_toml(content@) is Ok,
    }
}

/// The layer that a configuration file adds, if it is there.
pub open spec fn layer_of(source: LayerSource, file: FileRead) -> Option<(nat, Entries)> {
    match file {
        FileRead::Text(content) => match toml::parsed_toml(content@) {
            Ok(entries) => Some((stack::rank(source), entries)),
            Err(_) => None,
        },
        _ => None,
    }
}

/// Whether `layer` is what reading a configuration file comes to.
pub open spec fn layer_read(
    source: LayerSource,
    file: FileRead,
    layer: Result<Option<ConfigLayer>, LayerError>,
) -> bool {
    match file {
        FileRead::Absent => layer == Ok::<Option<ConfigLayer>, LayerError>(None),
        FileRead::Unreadable(message) => layer == Err::<Option<ConfigLayer>, LayerError>(
            LayerError::Read(message),
        ),
        FileRead::Text(content) => match toml::parsed_toml(content@) {
            Ok(entries) => layer matches Ok(Some(layer)) && stack::layer_content(layer) == (
                stack::rank(source),
                entries,
            ),
            Err(_) => layer matches Err(LayerError::Parse(_)),
        },
    }
}

/// Parses what was read as a configuration layer, or `Ok(None)` if it is
/// absent.
pub(crate) fn read_layer(source: LayerSource, file: &FileRead) -> (layer: Result<
    Option<ConfigLayer>,
    LayerError,
>)
    ensures
        layer_read(source, *file, layer),
{
    match file {
        FileRead::Absent => Ok(None),
        FileRead::Unreadable(message) => Err(LayerError::Read(message.clone())),
        FileRead::Text(content) => match stack::parse_layer(source, content.as_str()) {
            Ok(layer) => Ok(Some(layer)),
            Err(err) => Err(LayerError::Parse(err)),
        },
    }
}

/// The layers of one file: one, or none if it is absent.
pub open spec fn layers_of(source: LayerSource, file: FileRead) -> Seq<(nat, Entries)> {
    match layer_of(source, file) {
        Some(layer) => seq![layer],
        None => Seq::empty(),
    }
}

/// A stack of one file.
pub fn load_single(layer: Option<ConfigLayer>) -> (stacked: StackedConfig)
    ensures
        stack::stack_layers(stacked) == (match layer {
            Some(layer) => seq![stack::layer_content(layer)],
            None => Seq::empty(),
        }),
{
    let mut stacked = stack::empty_stack();
    if let Some(layer) = layer {
        stack::add_layer(&mut stacked, layer);
        assert(stack::stack_layers(stacked) =~= seq![stack::layer_content(layer)]);
    }
    stacked
}

/// Assembles the effective configuration stack:
///
/// 1. project-local layer (untrusted, lowest),
/// 2. user-global layer on top.
///
/// Both layers are user configuration; a stack orders layers of one source by
/// insertion, so the local layer is added first.
pub fn load_stacked(
    local: &local::LocalConfigReader,
    global: &global::GlobalConfigReader,
) -> (stacked: Result<StackedConfig, LayerError>)
    ensures
        stacked is Ok == (loads(local.content()) && loads(global.content())),
        stacked matches Ok(stacked) ==> stack::stack_layers(stacked) == layers_of(
            LayerSource::User,
            local.content(),
        ) + layers_of(LayerSource::User, global.content()),
        !loads(local.content()) ==> layer_read(
            LayerSource::User,
            local.content(),
            Err(stacked->Err_0),
        ),
        loads(local.content()) && !loads(global.content()) ==> layer_read(
            LayerSource::User,
            global.content(),
            Err(stacked->Err_0),
        ),
{
    let mut stacked = match local.layer() {
        Ok(layer) => load_single(layer),
        Err(err) => return Err(err),
    };
    assert(stack::stack_layers(stacked) =~= layers_of(LayerSource::User, local.content()));
    match global.layer() {
        Ok(Some(layer)) => stack::add_layer(&mut stacked, layer),
        Ok(None) => {},
        Err(err) => return Err(err),
    }
    assert(stack::stack_layers(stacked) =~= layers_of(LayerSource::User, local.content())
        + layers_of(LayerSource::User, global.content()));
    Ok(stacked)
}

/// **The user's own configuration wins over the repository's**: a global value
/// hides the local one, and what the global file does not set is taken from
/// the local one.
pub proof fn global_overrides_local(
    local: (nat, Entries),
    global: (nat, Entries),
    key: Seq<char>,
)
    ensures
        toml::lookup(global.1, key) matches Some(node) && !stack::table_like(node)
            ==> stack::stacked(seq![local] + seq![global], key) == Some(
            stack::as_value(toml::lookup(global.1, key)->0),
        ),
        toml::lookup(global.1, key) is None ==> stack::stacked(seq![local] + seq![global], key)
            == stack::stacked(seq![local], key),
{
    assert(seq![local] + seq![global] =~= seq![local].push(global));
    if let Some(node) = toml::lookup(global.1, key) {
        if !stack::table_like(node) {
            stack::upper_layers_override(seq![local], global, key, node);
        }
    } else {
        stack::lower_layers_shine_through(seq![local], global, key);
        stack::lemma_topmost(seq![local], key);
    }
}

/// Root configuration of jjunction.
///
/// Intentionally empty for now; fields will be added once the configuration
/// keys are decided.
#[derive(Debug, Clone, Copy, PartialEq, Eq)]
pub struct JjunctionConfig {}

impl Default for JjunctionConfig {
    fn default() -> (config: JjunctionConfig)
        ensures
            config == (JjunctionConfig {  }),
    {
        JjunctionConfig {  }
    }
}

/// Reads jjunction configuration from one layer (global or local).
///
/// Implementations decide where to load from and how to parse, so the format
/// choice can be made later without touching callers.
pub trait ConfigReader {
    /// Error type produced by this reader.
    type Error;

    /// Reads and parses the configuration layer.
    fn read(&self) -> Result<JjunctionConfig, Self::Error>;
}

/// How `jjn` deals with `direnv allow` for non-default workspaces.
#[derive(Debug, Clone, Copy, PartialEq, Eq, Structural)]
pub enum AllowPolicy {
    /// Run `direnv allow <workspace>` when `.envrc` matches the default
    /// workspace's copy byte for byte.
    Auto,
    /// Print the `direnv allow` command without running it.
    Hint,
    /// Do nothing.
    Never,
}

impl Default for AllowPolicy {
    fn default() -> (policy: AllowPolicy)
        ensures
            policy == AllowPolicy::Hint,
    {
        AllowPolicy::Hint
    }
}

/// `[workspace]` section: cross-workspace file sync configuration.
#[derive(Debug, PartialEq, Eq)]
pub struct WorkspaceConfig {
    /// Files mirrored from the default workspace into every other workspace.
    /// Defaults to the devenv/direnv set ([`crate::workspace::DEFAULT_SYNC_FILES`]).
    pub sync: Option<Vec<String>>,
    /// `direnv allow` policy for non-default workspaces.
    pub allow: AllowPolicy,
}

impl Default for WorkspaceConfig {
    fn default() -> (config: WorkspaceConfig)
        ensures
            config.sync is None,
            config.allow == AllowPolicy::Hint,
    {
        WorkspaceConfig { sync: None, allow: AllowPolicy::default() }
    }
}

impl Clone for WorkspaceConfig {
    fn clone(&self) -> (copy: WorkspaceConfig)
        ensures
            copy.allow == self.allow,
            copy.sync is Some == self.sync is Some,
            files_of(copy) == files_of(*self),
    {
        WorkspaceConfig {
            sync: match &self.sync {
                Some(files) => Some(text::copied_all(files)),
                None => None,
            },
            allow: self.allow,
        }
    }
}

/// Files mirrored into every non-default workspace when `[workspace].sync`
/// is not configured.
pub open spec fn default_files() -> Seq<Seq<char>> {
    seq![".envrc"@, "devenv.nix"@, "devenv.yaml"@, "devenv.lock"@]
}

/// The files that a configuration mirrors.
pub open spec fn files_of(config: WorkspaceConfig) -> Seq<Seq<char>> {
    match config.sync {
        Some(files) => text::views(files@),
        None => default_files(),
    }
}

impl WorkspaceConfig {
    /// Returns the effective sync file list.
    pub fn files(&self) -> (files: Vec<String>)
        ensures
            text::views(files@) == files_of(*self),
    {
        match &self.sync {
            Some(files) => text::copied_all(files),
            None => {
                let mut files: Vec<String> = Vec::new();
                files.push(DEFAULT_SYNC_FILES[0].to_owned());
                files.push(DEFAULT_SYNC_FILES[1].to_owned());
                files.push(DEFAULT_SYNC_FILES[2].to_owned());
                files.push(DEFAULT_SYNC_FILES[3].to_owned());
                assert(text::views(files@) =~= default_files());
                files
            },
        }
    }
}

/// How secondary jj workspaces materialize `[[repo]]` entries.
#[derive(Debug, Clone, Copy, PartialEq, Eq, Structural)]
pub enum SecondaryMode {
    /// Symlink each secondary workspace's target to the default workspace's
    /// checkout (one canonical clone shared by all workspaces).
    Link,
    /// Independent clone in the invoking workspace only.
    Clone,
    /// Secondary workspaces get nothing.
    Skip,
}

impl Default for SecondaryMode {
    fn default() -> (mode: SecondaryMode)
        ensures
            mode == SecondaryMode::Link,
    {
        SecondaryMode::Link
    }
}

/// `[repos]` section: sub-repo materialization options.
#[derive(Debug, Clone, Copy, PartialEq, Eq, Structural)]
pub struct ReposConfig {
    /// How secondary jj workspaces see sub-repos.
    pub secondary: SecondaryMode,
}

impl Default for ReposConfig {
    fn default() -> (config: ReposConfig)
        ensures
            config.secondary == SecondaryMode::Link,
    {
        ReposConfig { secondary: SecondaryMode::default() }
    }
}

/// What a `[repos]` section says.
pub open spec fn repos_config_of(node: Node) -> Option<ReposConfig> {
    match decode::fields_of(node, seq!["secondary"@], 0) {
        None => None,
        Some(fields) => match fields[0] {
            None => Some(ReposConfig { secondary: SecondaryMode::Link }),
            Some(value) => match decode::choice_of(value, seq!["link"@, "clone"@, "skip"@]) {
                Some(i) => Some(
                    ReposConfig {
                        secondary: if i == 0 {
                            SecondaryMode::Link
                        } else if i == 1 {
                            SecondaryMode::Clone
                        } else {
                            SecondaryMode::Skip
                        },
                    },
                ),
                None => None,
            },
        },
    }
}

fn read_repos_config(value: &Item) -> (config: Option<ReposConfig>)
    ensures
        config == repos_config_of(toml::item_node(*value)),
{
    let names: Vec<&str> = vec!["secondary"];
    assert(decode::name_views(names@) =~= seq!["secondary"@]);
    let fields = match decode::fields(value, &names, 0) {
        Some(fields) => fields,
        None => return None,
    };
    assert(decode::nodes_in(fields@)[0] == decode::node_in(fields@[0]));
    match fields[0] {
        None => Some(ReposConfig { secondary: SecondaryMode::Link }),
        Some(value) => {
            let choices: Vec<&str> = vec!["link", "clone", "skip"];
            assert(decode::name_views(choices@) =~= seq!["link"@, "clone"@, "skip"@]);
            match decode::read_choice(value, &choices) {
                Some(0) => Some(ReposConfig { secondary: SecondaryMode::Link }),
                Some(1) => Some(ReposConfig { secondary: SecondaryMode::Clone }),
                Some(2) => Some(ReposConfig { secondary: SecondaryMode::Skip }),
                _ => None,
            }
        },
    }
}

/// Loads the `[repos]` section from the local configuration stack. Missing
/// section yields the default configuration.
pub fn load_repos_config(local: &StackedConfig) -> (config: Result<ReposConfig, ConfigGetError>)
    ensures
        match stack::stacked(stack::stack_layers(*local), "repos"@) {
            None => config matches Ok(config) && config.secondary == SecondaryMode::Link,
            Some(node) => match repos_config_of(node) {
                Some(read) => config == Ok::<ReposConfig, ConfigGetError>(read),
                None => config matches Err(err) && err.name@ == "repos"@,
            },
        },
{
    match stack::get_value(local, "repos") {
        None => Ok(ReposConfig::default()),
        Some(value) => match read_repos_config(&value) {
            Some(config) => Ok(config),
            None => Err(ConfigGetError { name: "repos".to_owned() }),
        },
    }
}

/// A `[workspace]` section by value: the files, and the policy.
pub open spec fn workspace_config_of(node: Node) -> Option<(Option<Seq<Seq<char>>>, AllowPolicy)> {
    match decode::fields_of(node, seq!["sync"@, "allow"@], 1) {
        None => None,
        Some(fields) => {
            let sync = match fields[0] {
                None => Some(None),
                Some(value) => match decode::texts_of(value) {
                    Some(files) => Some(Some(files)),
                    None => None,
                },
            };
            let allow = match fields[1] {
                None => Some(AllowPolicy::Hint),
                Some(value) => match decode::choice_of(value, seq!["auto"@, "hint"@, "never"@]) {
                    Some(i) => Some(
                        if i == 0 {
                            AllowPolicy::Auto
                        } else if i == 1 {
                            AllowPolicy::Hint
                        } else {
                            AllowPolicy::Never
                        },
                    ),
                    None => None,
                },
            };
            match (sync, allow) {
                (Some(sync), Some(allow)) => Some((sync, allow)),
                _ => None,
            }
        },
    }
}

/// A [`WorkspaceConfig`] by value.
pub open spec fn workspace_config_view(config: WorkspaceConfig) -> (
    Option<Seq<Seq<char>>>,
    AllowPolicy,
) {
    (
        match config.sync {
            Some(files) => Some(text::views(files@)),
            None => None,
        },
        config.allow,
    )
}

fn read_workspace_config(value: &Item) -> (config: Option<WorkspaceConfig>)
    ensures
        match config {
            Some(config) => workspace_config_of(toml::item_node(*value)) == Some(
                workspace_config_view(config),
            ),
            None => workspace_config_of(toml::item_node(*value)) is None,
        },
{
    let names: Vec<&str> = vec!["sync", "allow"];
    assert(decode::name_views(names@) =~= seq!["sync"@, "allow"@]);
    let fields = match decode::fields(value, &names, 1) {
        Some(fields) => fields,
        None => return None,
    };
    assert(decode::nodes_in(fields@)[0] == decode::node_in(fields@[0]));
    assert(decode::nodes_in(fields@)[1] == decode::node_in(fields@[1]));
    let sync: Option<Vec<String>> = match fields[0] {
        None => None,
        Some(value) => match decode::read_texts(value) {
            Some(files) => Some(files),
            None => return None,
        },
    };
    let allow = match fields[1] {
        None => AllowPolicy::default(),
        Some(value) => {
            let choices: Vec<&str> = vec!["auto", "hint", "never"];
            assert(decode::name_views(choices@) =~= seq!["auto"@, "hint"@, "never"@]);
            match decode::read_choice(value, &choices) {
                Some(0) => AllowPolicy::Auto,
                Some(1) => AllowPolicy::Hint,
                Some(2) => AllowPolicy::Never,
                _ => return None,
            }
        },
    };
    Some(WorkspaceConfig { sync, allow })
}

/// Loads the `[workspace]` section from the local configuration stack.
/// Missing section yields the default configuration.
pub fn load_workspace_config(local: &StackedConfig) -> (config: Result<
    WorkspaceConfig,
    ConfigGetError,
>)
    ensures
        match stack::stacked(stack::stack_layers(*local), "workspace"@) {
            None => config matches Ok(config) && config.sync is None && config.allow
                == AllowPolicy::Hint,
            Some(node) => match workspace_config_of(node) {
                Some(read) => config matches Ok(config) && workspace_config_view(config) == read,
                None => config matches Err(err) && err.name@ == "workspace"@,
            },
        },
{
    match stack::get_value(local, "workspace") {
        None => Ok(WorkspaceConfig::default()),
        Some(value) => match read_workspace_config(&value) {
            Some(config) => Ok(config),
            None => Err(ConfigGetError { name: "workspace".to_owned() }),
        },
    }
}

/// The words of the two choices are all different.
proof fn lemma_words()
    ensures
        "link"@ != "clone"@ && "link"@ != "skip"@ && "clone"@ != "skip"@,
        "auto"@ != "hint"@ && "auto"@ != "never"@ && "hint"@ != "never"@,
        "sync"@ != "allow"@,
{
    reveal_strlit("link");
    reveal_strlit("clone");
    reveal_strlit("skip");
    reveal_strlit("auto");
    reveal_strlit("hint");
    reveal_strlit("never");
    reveal_strlit("sync");
    reveal_strlit("allow");
    assert("link"@.len() == 4 && "clone"@.len() == 5 && "skip"@.len() == 4);
    assert("auto"@.len() == 4 && "hint"@.len() == 4 && "never"@.len() == 5);
    assert("sync"@.len() == 4 && "allow"@.len() == 5);
    assert("link"@[0] == 'l' && "skip"@[0] == 's');
    assert("auto"@[0] == 'a' && "hint"@[0] == 'h');
}

/// Which of three words a text is.
proof fn lemma_choice(word: Seq<char>, a: Seq<char>, b: Seq<char>, c: Seq<char>)
    ensures
        decode::index_of(seq![a, b, c], word) == (if word == a {
            Some(0int)
        } else if word == b {
            Some(1int)
        } else if word == c {
            Some(2int)
        } else {
            None
        }),
{
    reveal_with_fuel(decode::index_of, 4);
    let all = seq![a, b, c];
    assert(all.skip(1) =~= seq![b, c]);
    assert(seq![b, c].skip(1) =~= seq![c]);
    assert(seq![c].skip(1) =~= Seq::<Seq<char>>::empty());
}

/// **What `[repos]` says of other workspaces is one of three words**, a link where
/// it says nothing, and any other word or key is refused.
pub proof fn secondary_is_one_of_three_words(entries: Entries, word: Seq<char>)
    ensures
        ({
            let config = repos_config_of(Node::Inline(entries));
            let known = forall|i: int|
                0 <= i < toml::live_keys(entries).len() ==> #[trigger] toml::live_keys(entries)[i]
                    == "secondary"@;
            let said = toml::lookup(entries, "secondary"@);
            &&& !known ==> config is None
            &&& known && said is None ==> config == Some(
                ReposConfig { secondary: SecondaryMode::Link },
            )
            &&& known && said == Some(Node::Text("link"@)) ==> config == Some(
                ReposConfig { secondary: SecondaryMode::Link },
            )
            &&& known && said == Some(Node::Text("clone"@)) ==> config == Some(
                ReposConfig { secondary: SecondaryMode::Clone },
            )
            &&& known && said == Some(Node::Text("skip"@)) ==> config == Some(
                ReposConfig { secondary: SecondaryMode::Skip },
            )
            &&& said == Some(Node::Text(word)) && word != "link"@ && word != "clone"@ && word
                != "skip"@ ==> config is None
        }),
{
    lemma_words();
    let names = seq!["secondary"@];
    assert(names[0] == "secondary"@);
    let keys = toml::live_keys(entries);
    assert forall|i: int| 0 <= i < keys.len() implies (names.contains(#[trigger] keys[i]) <==> keys[i]
        == "secondary"@) by {
        if names.contains(keys[i]) {
            let k = choose|k: int| 0 <= k < names.len() && names[k] == keys[i];
            assert(k == 0);
        }
    }
    lemma_choice("link"@, "link"@, "clone"@, "skip"@);
    lemma_choice("clone"@, "link"@, "clone"@, "skip"@);
    lemma_choice("skip"@, "link"@, "clone"@, "skip"@);
    lemma_choice(word, "link"@, "clone"@, "skip"@);
}

/// **What `[workspace]` says of `direnv` is one of three words**, a hint where it
/// says nothing, and any other word is refused. The files to mirror are those it
/// lists, text by text.
pub proof fn allow_is_one_of_three_words(entries: Entries, word: Seq<char>, list: Seq<Node>)
    requires
        forall|i: int|
            0 <= i < toml::live_keys(entries).len() ==> #[trigger] toml::live_keys(entries)[i]
                == "sync"@ || toml::live_keys(entries)[i] == "allow"@,
    ensures
        ({
            let config = workspace_config_of(Node::Inline(entries));
            let said = toml::lookup(entries, "allow"@);
            let sync = toml::lookup(entries, "sync"@);
            let named = sync == Some(Node::List(list)) && forall|i: int|
                0 <= i < list.len() ==> #[trigger] list[i] is Text;
            let fine = sync is None || named;
            &&& fine && said is None ==> config is Some && config->Some_0.1 == AllowPolicy::Hint
            &&& fine && said == Some(Node::Text("auto"@)) ==> config is Some && config->Some_0.1
                == AllowPolicy::Auto
            &&& fine && said == Some(Node::Text("hint"@)) ==> config is Some && config->Some_0.1
                == AllowPolicy::Hint
            &&& fine && said == Some(Node::Text("never"@)) ==> config is Some && config->Some_0.1
                == AllowPolicy::Never
            &&& said == Some(Node::Text(word)) && word != "auto"@ && word != "hint"@ && word
                != "never"@ ==> config is None
            &&& config is Some && sync is None ==> config->Some_0.0 is None
            &&& config is Some && named ==> config->Some_0.0 is Some && config->Some_0.0->Some_0.len()
                == list.len() && forall|i: int|
                0 <= i < list.len() ==> Node::Text(config->Some_0.0->Some_0[i]) == #[trigger] list[i]
            &&& sync == Some(Node::List(list)) && !named ==> config is None
        }),
{
    lemma_words();
    let names = seq!["sync"@, "allow"@];
    assert(names[0] == "sync"@ && names[1] == "allow"@);
    let keys = toml::live_keys(entries);
    assert forall|i: int| 0 <= i < keys.len() implies names.contains(#[trigger] keys[i]) by {
        assert(keys[i] == names[0] || keys[i] == names[1]);
    }
    lemma_choice("auto"@, "auto"@, "hint"@, "never"@);
    lemma_choice("hint"@, "auto"@, "hint"@, "never"@);
    lemma_choice("never"@, "auto"@, "hint"@, "never"@);
    lemma_choice(word, "auto"@, "hint"@, "never"@);
}

/// **Where nothing is said, four files are mirrored.**
pub proof fn four_files_are_mirrored(config: WorkspaceConfig)
    ensures
        config.sync is None ==> files_of(config) == seq![
            ".envrc"@,
            "devenv.nix"@,
            "devenv.yaml"@,
            "devenv.lock"@,
        ],
        config.sync matches Some(files) ==> files_of(config).len() == files@.len() && forall|i: int|
            0 <= i < files@.len() ==> #[trigger] files_of(config)[i] == files@[i]@,
{
}

/// **A configuration file is a layer exactly if it is there and can be read.**
pub proof fn files_that_parse_are_layers(source: LayerSource, content: String)
    ensures
        layers_of(source, FileRead::Absent).len() == 0,
        loads(FileRead::Absent),
        loads(FileRead::Text(content)) <==> toml::parsed_toml(content@) is Ok,
        toml::parsed_toml(content@) matches Ok(entries) ==> layers_of(
            source,
            FileRead::Text(content),
        ) == seq![(stack::rank(source), entries)],
        !loads(FileRead::Unreadable(content)),
{
}

/// **A file is read as what it says, or refused**: a layer has what the text says,
/// and a text that cannot be parsed is never passed over.
pub proof fn layers_have_what_the_text_says(
    source: LayerSource,
    content: String,
    layer: Result<Option<ConfigLayer>, LayerError>,
)
    requires
        layer_read(source, FileRead::Text(content), layer),
    ensures
        layer is Ok <==> toml::parsed_toml(content@) is Ok,
        layer is Ok ==> layer->Ok_0 is Some,
        layer matches Ok(Some(read)) ==> stack::layer_content(read).1 == toml::parsed_toml(
            content@,
        )->Ok_0 && stack::layer_content(read).0 == stack::rank(source),
{
}

/// **A file that is not there is no layer, and one that cannot be read is refused
/// with the reason.**
pub proof fn missing_files_are_no_layers(
    source: LayerSource,
    message: String,
    none: Result<Option<ConfigLayer>, LayerError>,
    refused: Result<Option<ConfigLayer>, LayerError>,
)
    requires
        layer_read(source, FileRead::Absent, none),
        layer_read(source, FileRead::Unreadable(message), refused),
    ensures
        none is Ok && none->Ok_0 is None,
        refused is Err && refused->Err_0 == LayerError::Read(message),
{
}

} // verus!
