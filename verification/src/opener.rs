use vstd::prelude::*;
use vstd::string::*;

verus! {

/// What became of one attempt to launch the external command: the spawn
/// failed with an error text, or the process ran and exited, successfully or
/// not.
pub enum LaunchStatus {
    /// The process could not be spawned; carries the spawn error's text.
    SpawnFailed(String),
    /// The process exited; `true` means a successful exit status.
    Exited(bool),
}

/// Why an open or reveal request failed.
#[derive(Debug)]
pub enum OpenError {
    /// The external command could not be spawned; carries the spawn error's
    /// text.
    CommandFailed(String),
    /// The viewer process exited unsuccessfully; carries the file's path.
    OpenFailed(String),
    /// The file-browser process exited unsuccessfully; carries the file's
    /// path.
    RevealFailed(String),
}

impl OpenError {
    /// The human-readable message for this error; it names the file path,
    /// or the spawn error's text.
    pub fn message(&self) -> (m: String)
        ensures
            self matches OpenError::CommandFailed(e) ==> m@ == "Failed to execute open command: "@
                + e@,
            self matches OpenError::OpenFailed(p) ==> m@ == "Failed to open file in MD_RENDER: "@
                + p@,
            self matches OpenError::RevealFailed(p) ==> m@ == "Failed to reveal file in Finder: "@
                + p@,
    {
        match self {
            OpenError::CommandFailed(e) => String::from_str(
                "Failed to execute open command: ",
            ).concat(e.as_str()),
            OpenError::OpenFailed(p) => String::from_str(
                "Failed to open file in MD_RENDER: ",
            ).concat(p.as_str()),
            OpenError::RevealFailed(p) => String::from_str(
                "Failed to reveal file in Finder: ",
            ).concat(p.as_str()),
        }
    }
}

/// The decision behind opening a file in the external viewer: success only
/// when the spawned process exited successfully; a spawn failure keeps the
/// spawn error's text, an unsuccessful exit names the file.
pub fn open_outcome(file_path: &str, status: LaunchStatus) -> (r: Result<(), OpenError>)
    ensures
        status matches LaunchStatus::Exited(true) <==> r is Ok,
        status matches LaunchStatus::SpawnFailed(e) ==> (r matches Err(err) && err
            matches OpenError::CommandFailed(t) && t@ == e@),
        status matches LaunchStatus::Exited(false) ==> (r matches Err(err) && err
            matches OpenError::OpenFailed(p) && p@ == file_path@),
{
    match status {
        LaunchStatus::SpawnFailed(e) => Err(OpenError::CommandFailed(e)),
        LaunchStatus::Exited(true) => Ok(()),
        LaunchStatus::Exited(false) => Err(OpenError::OpenFailed(file_path.to_owned())),
    }
}

/// The decision behind revealing a file in the file browser: success only
/// when the spawned process exited successfully; a spawn failure keeps the
/// spawn error's text, an unsuccessful exit names the file.
pub fn reveal_outcome(file_path: &str, status: LaunchStatus) -> (r: Result<(), OpenError>)
    ensures
        status matches LaunchStatus::Exited(true) <==> r is Ok,
        status matches LaunchStatus::SpawnFailed(e) ==> (r matches Err(err) && err
            matches OpenError::CommandFailed(t) && t@ == e@),
        status matches LaunchStatus::Exited(false) ==> (r matches Err(err) && err
            matches OpenError::RevealFailed(p) && p@ == file_path@),
{
    match status {
        LaunchStatus::SpawnFailed(e) => Err(OpenError::CommandFailed(e)),
        LaunchStatus::Exited(true) => Ok(()),
        LaunchStatus::Exited(false) => Err(OpenError::RevealFailed(file_path.to_owned())),
    }
}

} // verus!
