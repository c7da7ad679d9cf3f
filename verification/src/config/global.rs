//! Global (user-level) configuration reader.

use jj_lib::config::ConfigLayer;
use vstd::prelude::*;
use vstd::utf8::encode_utf8;

use super::layer_read;
use super::read_layer;
use super::stack::LayerSource;
use super::LayerError;
use super::ConfigReader;
use super::JjunctionConfig;
use super::GLOBAL_CONFIG_DIR;
use super::GLOBAL_CONFIG_FILE;
use crate::files::FileRead;
use crate::path;
use crate::path::FsPath;

verus! {

/// Reads the user-level configuration file
/// (`<platform config dir>/jjunction/config.toml`).
///
/// A missing file is treated as an empty layer so that first runs work
/// without any setup.
#[derive(Debug)]
pub struct GlobalConfigReader {
    path: FsPath,
    file: FileRead,
}

/// `dirs::config_dir` gives the platform's directory for user configuration,
/// going by the environment; nothing is said of which one it is.
#[verifier::external_body]
fn platform_config_dir() -> (dir: Option<FsPath>) {
    match dirs::config_dir() {
        Some(dir) => Some(FsPath::from_bytes(dir.into_os_string().into_encoded_bytes())),
        None => None,
    }
}

/// The global configuration file in a directory for user configuration.
pub open spec fn default_place(dir: Seq<u8>) -> Seq<u8> {
    path::child(path::child(dir, GLOBAL_CONFIG_DIR@), GLOBAL_CONFIG_FILE@)
}

impl GlobalConfigReader {
    /// The path this reader loads from.
    pub closed spec fn location(&self) -> Seq<u8> {
        self.path@
    }

    /// What was read there.
    pub closed spec fn content(&self) -> FileRead {
        self.file
    }

    /// The default global config path under the platform config directory, or
    /// `None` if the platform has no such directory.
    pub fn default_path() -> (path: Option<FsPath>)
        ensures
            path matches Some(path) ==> exists|dir: Seq<u8>| path@ == #[trigger] default_place(dir),
    {
        GlobalConfigReader::default_path_in(platform_config_dir().as_ref())
    }

    /// The default global config path where this is the platform config
    /// directory.
    pub fn default_path_in(config_dir: Option<&FsPath>) -> (path: Option<FsPath>)
        ensures
            path is Some == config_dir is Some,
            config_dir matches Some(dir) ==> path->0@ == default_place(dir@),
    {
        match config_dir {
            Some(dir) => Some(dir.join(GLOBAL_CONFIG_DIR).join(GLOBAL_CONFIG_FILE)),
            None => None,
        }
    }

    /// Creates a reader for an explicit path, where nothing has been read yet.
    pub fn from_path(path: FsPath) -> (reader: GlobalConfigReader)
        ensures
            reader.location() == path@,
            reader.content() == FileRead::Absent,
    {
        GlobalConfigReader { path, file: FileRead::Absent }
    }

    /// The reader with what was read at its path.
    pub fn with_file(self, file: FileRead) -> (reader: GlobalConfigReader)
        ensures
            reader.location() == self.location(),
            reader.content() == file,
    {
        GlobalConfigReader { path: self.path, file }
    }

    /// Returns the path this reader loads from.
    pub fn path(&self) -> (path: &FsPath)
        ensures
            path@ == self.location(),
    {
        &self.path
    }

    /// The global configuration as a layer of user configuration, or `None` if
    /// the file does not exist.
    pub fn layer(&self) -> (layer: Result<Option<ConfigLayer>, LayerError>)
        ensures
            layer_read(LayerSource::User, self.content(), layer),
    {
        read_layer(LayerSource::User, &self.file)
    }
}

impl Clone for GlobalConfigReader {
    fn clone(&self) -> (copy: GlobalConfigReader)
        ensures
            copy.location() == self.location(),
            copy.content() == self.content(),
    {
        GlobalConfigReader { path: self.path.clone(), file: self.file.clone() }
    }
}

impl ConfigReader for GlobalConfigReader {
    type Error = LayerError;

    fn read(&self) -> (config: Result<JjunctionConfig, LayerError>)
        ensures
            config is Ok == super::loads(self.content()),
            config matches Err(err) ==> layer_read(LayerSource::User, self.content(), Err(err)),
    {
        match self.layer() {
            Ok(_) => Ok(JjunctionConfig::default()),
            Err(err) => Err(err),
        }
    }
}

/// **The global configuration is `jjunction/config.toml` in the user's configuration
/// directory.**
pub proof fn global_configuration_has_its_place(dir: Seq<u8>)
    ensures
        default_place(dir) == path::joined(
            path::joined(dir, encode_utf8("jjunction"@)),
            encode_utf8("config.toml"@),
        ),
{
}

} // verus!
