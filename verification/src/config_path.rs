//! The places that configuration comes from.
use vstd::prelude::*;
use vstd::string::*;

verus! {

/// A place outside of the project.
#[derive(Clone, Copy, Debug)]
pub enum ExternalConfigSource {
    /// A file in the user's home directory.
    UserFile(&'static str),
    /// A folder in the user's home directory, all files of which are configuration.
    UserFolder(&'static str),
    /// A file for the whole machine. Nothing about a repository may stand there.
    GlobalFile(&'static str),
    /// A folder for the whole machine, all files of which are configuration. Nothing about a
    /// repository may stand there.
    GlobalFolder(&'static str),
}

/// A place in a cell of the project.
#[derive(Clone, Copy, Debug)]
pub enum ProjectConfigSource {
    CellRelativeFile(&'static str),
    /// A folder, all files of which are configuration.
    CellRelativeFolder(&'static str),
}

/// The places outside of the project, from the least to the most important. What stands in the
/// project is more important than all of them.
pub fn default_external_config_sources(windows: bool) -> (r: Vec<ExternalConfigSource>)
    ensures
        r@ == seq![
            ExternalConfigSource::GlobalFolder(
                if windows {
                    "C:\\ProgramData\\buckconfig.d"
                } else {
                    "/etc/buckconfig.d"
                },
            ),
            ExternalConfigSource::GlobalFile(
                if windows {
                    "C:\\ProgramData\\buckconfig"
                } else {
                    "/etc/buckconfig"
                },
            ),
            ExternalConfigSource::UserFolder(".buckconfig.d"),
            ExternalConfigSource::UserFile(".buckconfig.local"),
        ],
{
    let mut v: Vec<ExternalConfigSource> = Vec::new();
    if windows {
        v.push(ExternalConfigSource::GlobalFolder("C:\\ProgramData\\buckconfig.d"));
        v.push(ExternalConfigSource::GlobalFile("C:\\ProgramData\\buckconfig"));
    } else {
        v.push(ExternalConfigSource::GlobalFolder("/etc/buckconfig.d"));
        v.push(ExternalConfigSource::GlobalFile("/etc/buckconfig"));
    }
    v.push(ExternalConfigSource::UserFolder(".buckconfig.d"));
    v.push(ExternalConfigSource::UserFile(".buckconfig.local"));
    v
}

/// The places in a cell, from the least to the most important.
pub fn default_project_config_sources() -> (r: Vec<ProjectConfigSource>)
    ensures
        r@ == seq![
            ProjectConfigSource::CellRelativeFolder(".buckconfig.d"),
            ProjectConfigSource::CellRelativeFile(".buckconfig"),
            ProjectConfigSource::CellRelativeFile(".buckconfig.local"),
        ],
{
    let mut v: Vec<ProjectConfigSource> = Vec::new();
    v.push(ProjectConfigSource::CellRelativeFolder(".buckconfig.d"));
    v.push(ProjectConfigSource::CellRelativeFile(".buckconfig"));
    v.push(ProjectConfigSource::CellRelativeFile(".buckconfig.local"));
    v
}

} // verus!
