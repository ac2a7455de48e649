//! The project file: what a served project says of itself.

use crate::pathext::{ComponentView, FsPath};
use vstd::prelude::*;
use vstd::string::StringExecFns;

verus! {

/// The name of the file that holds a project, in the project's directory.
pub const PROJECT_FILENAME: &'static str = "rbxfs.json";

/// Why a project could not be loaded.
#[derive(Debug, Clone, Copy, PartialEq, Eq, Structural)]
pub enum ProjectLoadError {
    DidNotExist,
    FailedToOpen,
    FailedToRead,
    Invalid,
}

/// Why a project could not be saved.
#[derive(Debug, Clone, Copy, PartialEq, Eq, Structural)]
pub enum ProjectSaveError {
    FailedToCreate,
}

/// Why a project could not be created.
#[derive(Debug, Clone, Copy, PartialEq, Eq, Structural)]
pub enum ProjectInitError {
    AlreadyExists,
    FailedToCreate,
}

impl ProjectInitError {
    /// The error in words.
    pub fn to_string(&self) -> (text: String)
        ensures
            text@ == match self {
                ProjectInitError::AlreadyExists => "A project already exists at that location."@,
                ProjectInitError::FailedToCreate => "Failed to write to the given location."@,
            },
    {
        match self {
            ProjectInitError::AlreadyExists => String::from_str(
                "A project already exists at that location.",
            ),
            ProjectInitError::FailedToCreate => String::from_str(
                "Failed to write to the given location.",
            ),
        }
    }
}

/// A project: its name, and the port that it asks to be served on.
#[derive(Debug, PartialEq, Eq)]
pub struct Project {
    name: String,
    serve_port: Option<u64>,
}

impl Project {
    /// The project that a new project file holds.
    pub fn new() -> (project: Project)
        ensures
            project.name()@ == "some-project"@,
            project.serve_port() is None,
    {
        Project { name: String::from_str("some-project"), serve_port: None }
    }

    /// The project with this name and port.
    pub fn with(name: String, serve_port: Option<u64>) -> (project: Project)
        ensures
            project.name() == name,
            project.serve_port() == serve_port,
    {
        Project { name, serve_port }
    }

    /// The project's name.
    pub closed spec fn name(&self) -> String {
        self.name
    }

    /// The port that the project asks for.
    pub closed spec fn serve_port(&self) -> Option<u64> {
        self.serve_port
    }

    /// The project's name.
    pub fn get_name(&self) -> (name: &String)
        ensures
            *name == self.name(),
    {
        &self.name
    }

    /// The port that the project asks for.
    pub fn get_serve_port(&self) -> (port: Option<u64>)
        ensures
            port == self.serve_port(),
    {
        self.serve_port
    }

    /// The port to serve on: the one that was asked for on the command
    /// line, else the one that the project asks for, else `fallback`.
    pub fn port_to_serve(&self, asked: Option<u64>, fallback: u64) -> (port: u64)
        ensures
            port == match asked {
                Some(port) => port,
                None => match self.serve_port() {
                    Some(port) => port,
                    None => fallback,
                },
            },
    {
        match asked {
            Some(port) => port,
            None => match self.serve_port {
                Some(port) => port,
                None => fallback,
            },
        }
    }

    /// Where the project file of the directory `location` lies.
    pub fn file_path(location: &FsPath) -> (path: FsPath)
        ensures
            path@ == location@.push(ComponentView::Normal(PROJECT_FILENAME@)),
    {
        let name = FsPath::parse(PROJECT_FILENAME);
        proof {
            lemma_project_filename();
        }
        let path = location.join(&name);
        assert(path@ =~= location@.push(ComponentView::Normal(PROJECT_FILENAME@)));
        path
    }
}

impl Default for Project {
    fn default() -> (project: Project)
        ensures
            project.name()@ == "some-project"@,
            project.serve_port() is None,
    {
        Project::new()
    }
}

/// The project file's name is read as one named component.
pub proof fn lemma_project_filename()
    ensures
        crate::pathext::parse_components(PROJECT_FILENAME@) == seq![
            ComponentView::Normal(PROJECT_FILENAME@),
        ],
{
    reveal_strlit("rbxfs.json");
    let text = PROJECT_FILENAME@;
    crate::pathext::laws::lemma_plain_name_is_one_piece(text);
}

} // verus!
