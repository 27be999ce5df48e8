//! Well-known filesystem locations for the pipeline's durable storage,
//! modelled as plain path strings joined with '/'.

use vstd::prelude::*;

verus! {

/// The failure of resolving a base directory through the operating system.
#[derive(Debug, Clone, Copy, PartialEq, Eq, Structural)]
pub enum PathError {
    MissingDocumentsDir,
    MissingDesktopDir,
}

impl PathError {
    /// The human-readable rendering of this error.
    pub fn describe(&self) -> (r: String)
        ensures
            *self is MissingDocumentsDir ==> r@ == "Failed to locate Documents directory"@,
            *self is MissingDesktopDir ==> r@ == "Failed to locate Desktop directory"@,
    {
        match self {
            PathError::MissingDocumentsDir => String::from_str(
                "Failed to locate Documents directory",
            ),
            PathError::MissingDesktopDir => String::from_str("Failed to locate Desktop directory"),
        }
    }
}

/// Relies on dirs::document_dir: the user's documents directory, if the
/// platform defines one; which value comes back depends on the environment
/// alone, so nothing is promised of it.
#[verifier::external_body]
fn document_dir_string() -> (r: Option<String>) {
    dirs::document_dir().map(|p| p.to_string_lossy().into_owned())
}

/// Relies on dirs::desktop_dir: the user's desktop directory, if the
/// platform defines one; which value comes back depends on the environment
/// alone, so nothing is promised of it.
#[verifier::external_body]
fn desktop_dir_string() -> (r: Option<String>) {
    dirs::desktop_dir().map(|p| p.to_string_lossy().into_owned())
}

/// The resolver of the pipeline's storage locations, holding the two base
/// directories explicitly rather than as ambient state.
#[derive(Debug, Clone, PartialEq, Eq)]
pub struct PathManager {
    pub documents_dir: String,
    pub desktop_dir: String,
}

impl PathManager {
    /// Builds a path manager from explicitly supplied base directories.
    pub fn from_dirs(documents_dir: String, desktop_dir: String) -> (r: PathManager)
        ensures
            r.documents_dir@ == documents_dir@,
            r.desktop_dir@ == desktop_dir@,
    {
        PathManager { documents_dir, desktop_dir }
    }

    /// Resolves the base directories through the operating system; the error
    /// names the first directory the platform could not supply.
    pub fn new() -> (r: Result<PathManager, PathError>) {
        let documents_dir = match document_dir_string() {
            Some(d) => d,
            None => {
                return Err(PathError::MissingDocumentsDir);
            },
        };
        let desktop_dir = match desktop_dir_string() {
            Some(d) => d,
            None => {
                return Err(PathError::MissingDesktopDir);
            },
        };
        Ok(PathManager { documents_dir, desktop_dir })
    }

    /// The configuration directory under the documents directory.
    pub fn get_space_simulator_config_path(&self) -> (r: String)
        ensures
            r@ == self.documents_dir@ + "/space-simulator/config"@,
    {
        let mut s = self.documents_dir.clone();
        s.append("/space-simulator/config");
        s
    }

    /// The data directory under the documents directory.
    pub fn get_space_simulator_data_path(&self) -> (r: String)
        ensures
            r@ == self.documents_dir@ + "/space-simulator/data"@,
    {
        let mut s = self.documents_dir.clone();
        s.append("/space-simulator/data");
        s
    }

    /// The path of a file on the desktop.
    pub fn get_desktop_file_path(&self, filename: &str) -> (r: String)
        ensures
            r@ == self.desktop_dir@ + "/"@ + filename@,
    {
        let mut s = self.desktop_dir.clone();
        s.append("/");
        s.append(filename);
        s
    }
}

} // verus!
