//! Project-local (in-repo) configuration reader.
//!
//! Reads `<workspace root>/.jjunction/config.toml`. The file is treated as
//! **untrusted**: it is layered *below* the user global configuration, and
//! what has side effects is only honored where the workspace is trusted (see
//! [`super::trust`]).

use jj_lib::config::ConfigLayer;
use vstd::prelude::*;

use super::layer_read;
use super::read_layer;
use super::stack::LayerSource;
use super::LayerError;
use super::ConfigReader;
use super::JjunctionConfig;
use super::LOCAL_CONFIG_DIR;
use super::LOCAL_CONFIG_FILE;
use crate::files::FileRead;
use crate::path;
use crate::path::FsPath;

verus! {

/// Reads the project-local configuration file below a workspace root.
#[derive(Debug)]
pub struct LocalConfigReader {
    root: FsPath,
    file: FileRead,
}

impl LocalConfigReader {
    /// The workspace root.
    pub closed spec fn location(&self) -> Seq<u8> {
        self.root@
    }

    /// What was read of the configuration file.
    pub closed spec fn content(&self) -> FileRead {
        self.file
    }

    /// Creates a reader rooted at `root` (a workspace root), where nothing has
    /// been read yet.
    pub fn new(root: FsPath) -> (reader: LocalConfigReader)
        ensures
            reader.location() == root@,
            reader.content() == FileRead::Absent,
    {
        LocalConfigReader { root, file: FileRead::Absent }
    }

    /// The reader with what was read at its path.
    pub fn with_file(self, file: FileRead) -> (reader: LocalConfigReader)
        ensures
            reader.location() == self.location(),
            reader.content() == file,
    {
        LocalConfigReader { root: self.root, file }
    }

    /// Returns the path of the local configuration file.
    pub fn path(&self) -> (path: FsPath)
        ensures
            path@ == path::child(
                path::child(self.location(), LOCAL_CONFIG_DIR@),
                LOCAL_CONFIG_FILE@,
            ),
    {
        self.root.join(LOCAL_CONFIG_DIR).join(LOCAL_CONFIG_FILE)
    }

    /// The local configuration as a layer of user configuration (inserted
    /// below the global layer; see [`super::load_stacked`]), or `None` if the
    /// file does not exist.
    pub fn layer(&self) -> (layer: Result<Option<ConfigLayer>, LayerError>)
        ensures
            layer_read(LayerSource::User, self.content(), layer),
    {
        read_layer(LayerSource::User, &self.file)
    }
}

impl Clone for LocalConfigReader {
    fn clone(&self) -> (copy: LocalConfigReader)
        ensures
            copy.location() == self.location(),
            copy.content() == self.content(),
    {
        LocalConfigReader { root: self.root.clone(), file: self.file.clone() }
    }
}

impl ConfigReader for LocalConfigReader {
    type Error = LayerError;

    fn read(&self) -> (config: Result<JjunctionConfig, LayerError>)
        ensures
            config is Ok == super::loads(self.content()),
            config matches Err(err) ==> layer_read(LayerSource::User, self.content(), Err(err)),
    {
        match self.layer() {
            Ok(_) => Ok(JjunctionConfig::default()),
            Err(err) => Err(err),
        }
    }
}

} // verus!
