//! The decision of the project bootstrap service; cloning the template is done
//! by the caller.
use vstd::prelude::*;

verus! {

/// Why a project could not be created.
#[derive(Debug)]
pub enum ProjectServiceError {
    /// A file or directory of the project's name is already there.
    AlreadyExists(String),
}

impl ProjectServiceError {
    /// The message shown for the error.
    pub open spec fn text(&self) -> Seq<char> {
        match self {
            ProjectServiceError::AlreadyExists(s) => "Project <"@ + s@ + "> already exists"@,
        }
    }

    pub fn message(&self) -> (r: String)
        ensures
            r@ == self.text(),
    {
        match self {
            ProjectServiceError::AlreadyExists(s) => {
                let mut r = String::from_str("Project <");
                r.append(s.as_str());
                r.append("> already exists");
                r
            },
        }
    }
}

/// Creates projects by cloning a template into a new directory.
pub struct FilesystemProjectService;

impl FilesystemProjectService {
    /// A project may be created only where nothing of its name exists yet;
    /// `exists` says whether something does.
    pub fn check_directory(&self, directory_path: &str, exists: bool) -> (r: Result<(), ProjectServiceError>)
        ensures
            r is Ok <==> !exists,
            r matches Err(ProjectServiceError::AlreadyExists(s)) ==> s@ == directory_path@,
    {
        if exists {
            return Err(ProjectServiceError::AlreadyExists(directory_path.to_owned()));
        }
        Ok(())
    }
}

} // verus!
