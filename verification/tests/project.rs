use rbxfs::pathext::FsPath;
use rbxfs::project::{Project, ProjectInitError, ProjectLoadError, ProjectSaveError, PROJECT_FILENAME};

#[test]
fn a_new_project_has_the_default_name_and_no_port() {
    let project = Project::new();
    assert_eq!(project.get_name(), "some-project");
    assert_eq!(project.get_serve_port(), None);
    assert_eq!(Project::default(), project);
}

#[test]
fn the_port_asked_for_comes_first() {
    let project = Project::with("game".to_string(), Some(9000));
    assert_eq!(project.port_to_serve(Some(1234), 8000), 1234);
    assert_eq!(project.port_to_serve(None, 8000), 9000);
    assert_eq!(Project::new().port_to_serve(None, 8000), 8000);
}

#[test]
fn the_project_file_lies_in_the_project_directory() {
    assert_eq!(PROJECT_FILENAME, "rbxfs.json");
    assert_eq!(Project::file_path(&FsPath::parse("/home/me/game")), FsPath::parse("/home/me/game/rbxfs.json"));
    assert_eq!(Project::file_path(&FsPath::parse("")), FsPath::parse("rbxfs.json"));
}

#[test]
fn init_errors_say_what_went_wrong() {
    assert_eq!(
        ProjectInitError::AlreadyExists.to_string(),
        "A project already exists at that location."
    );
    assert_eq!(ProjectInitError::FailedToCreate.to_string(), "Failed to write to the given location.");
    assert_ne!(ProjectLoadError::DidNotExist, ProjectLoadError::Invalid);
    assert_ne!(ProjectLoadError::FailedToOpen, ProjectLoadError::FailedToRead);
    assert_eq!(ProjectSaveError::FailedToCreate, ProjectSaveError::FailedToCreate);
}
