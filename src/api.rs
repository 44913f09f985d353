use vstd::prelude::*;

use crate::models::{ProjectRecord, UserProfile};
use crate::tree::ProjectFileEntry;

verus! {

/// A request to create a project from a template.
#[derive(Debug)]
pub struct CreateProjectRequest {
    pub name: String,
    pub project_type: String,
    pub languages: Vec<String>,
    pub template_id: String,
    pub description: Option<String>,
}

#[derive(Debug)]
pub struct CreateProjectResponse {
    pub project: ProjectRecord,
}

#[derive(Debug)]
pub struct TransliterationRequest {
    pub text: String,
}

#[derive(Debug)]
pub struct TransliterationResponse {
    pub candidates: Vec<String>,
}

#[derive(Debug)]
pub struct ListProjectFilesRequest {
    pub project_id: String,
}

#[derive(Debug)]
pub struct ProjectFilesResponse {
    pub files: Vec<ProjectFileEntry>,
}

#[derive(Debug)]
pub struct LoadMarkdownRequest {
    pub project_id: String,
    pub file_path: String,
}

#[derive(Debug)]
pub struct LoadMarkdownResponse {
    pub content: String,
}

#[derive(Debug)]
pub struct SaveMarkdownRequest {
    pub project_id: String,
    pub file_path: String,
    pub content: String,
}

#[derive(Debug)]
pub struct SaveMarkdownResponse {
    pub path: String,
}

/// A request to copy an outside file into a project; the target directory
/// defaults to `assets/images`.
#[derive(Debug)]
pub struct CopyAssetRequest {
    pub project_id: String,
    pub source: String,
    pub target_dir: Option<String>,
}

#[derive(Debug)]
pub struct CopyAssetResponse {
    pub relative_path: String,
}

#[derive(Debug)]
pub struct RegisterUserRequest {
    pub email: String,
    pub password: String,
    pub display_name: Option<String>,
}

#[derive(Debug)]
pub struct LoginUserRequest {
    pub email: String,
    pub password: String,
}

#[derive(Debug)]
pub struct AuthResponse {
    pub user: UserProfile,
}

#[derive(Debug)]
pub struct CurrentUserResponse {
    pub user: Option<UserProfile>,
}

/// The asset directory used when a copy request names none.
pub fn default_asset_dir() -> (r: String)
    ensures
        r@ == "assets/images"@,
{
    String::from_str("assets/images")
}

} // verus!
