//! Spawn templates.
//!
//! An image is not a host, not a container, and not owned by either. A spawned
//! container records the template it came from, as provenance and nothing
//! more.
use vstd::prelude::*;
use crate::error::{bad_request, refusal, AppError, ErrorModel};
use crate::json::{copy_opt_json, opt_json, Json};
use crate::models::host::Image;
use crate::text::{join3, opt, starts_with, trim, trim_opt, trimmed, trimmed_opt};

verus! {

/// Why a name is refused.
pub open spec fn name_refusal(name: Seq<char>) -> Option<ErrorModel> {
    if name.len() == 0 {
        Some(ErrorModel::BadRequest("name is required"@))
    } else if name.len() > 100 {
        Some(ErrorModel::BadRequest("name must be 100 characters or fewer"@))
    } else {
        None
    }
}

pub fn validate_name(name: &str) -> (r: Result<(), AppError>)
    ensures
        refusal(r) == name_refusal(name@),
{
    let len: usize = name.unicode_len();
    if len == 0 {
        Err(bad_request("name is required"))
    } else if len > 100 {
        Err(bad_request("name must be 100 characters or fewer"))
    } else {
        Ok(())
    }
}

/// Why a root is refused.
pub open spec fn root_path_refusal(root_path: Seq<char>) -> Option<ErrorModel> {
    if root_path.len() == 0 {
        Some(ErrorModel::BadRequest("default_root_path is required"@))
    } else if !"/"@.is_prefix_of(root_path) {
        Some(ErrorModel::BadRequest("default_root_path must be absolute"@))
    } else {
        None
    }
}

/// The same absolute-path rule containers carry.
pub fn validate_root_path(root_path: &str) -> (r: Result<(), AppError>)
    ensures
        refusal(r) == root_path_refusal(root_path@),
{
    if root_path.is_empty() {
        return Err(bad_request("default_root_path is required"));
    }
    if !starts_with(root_path, "/") {
        return Err(bad_request("default_root_path must be absolute"));
    }
    Ok(())
}

#[derive(Debug)]
pub struct CreateRequest {
    pub name: String,
    pub reference: String,
    pub default_mounts: Option<Json>,
    pub default_root_path: String,
}

/// A template as it is written.
#[derive(Debug)]
pub struct NewImage {
    pub id: u128,
    pub user_id: u128,
    pub name: String,
    pub reference: String,
    pub default_mounts: Option<Json>,
    pub default_root_path: String,
}

/// Why a new template is refused.
pub open spec fn create_refusal(input: CreateRequest) -> Option<ErrorModel> {
    if name_refusal(trimmed(input.name@)) is Some {
        name_refusal(trimmed(input.name@))
    } else if trimmed(input.reference@).len() == 0 {
        Some(ErrorModel::BadRequest("reference is required"@))
    } else {
        root_path_refusal(trimmed(input.default_root_path@))
    }
}

/// The template to store.
pub fn create(input: CreateRequest, id: u128, user_id: u128) -> (r: Result<NewImage, AppError>)
    ensures
        refusal(r) == create_refusal(input),
        r matches Ok(image) ==> {
            &&& image.id == id
            &&& image.user_id == user_id
            &&& image.name@ == trimmed(input.name@)
            &&& image.reference@ == trimmed(input.reference@)
            &&& opt_json(image.default_mounts) == opt_json(input.default_mounts)
            &&& image.default_root_path@ == trimmed(input.default_root_path@)
        },
{
    let name = trim(input.name.as_str()).to_owned();
    if let Err(error) = validate_name(name.as_str()) {
        return Err(error);
    }
    let reference = trim(input.reference.as_str()).to_owned();
    if reference.as_str().is_empty() {
        return Err(bad_request("reference is required"));
    }
    let default_root_path = trim(input.default_root_path.as_str()).to_owned();
    if let Err(error) = validate_root_path(default_root_path.as_str()) {
        return Err(error);
    }
    Ok(
        NewImage {
            id,
            user_id,
            name,
            reference,
            default_mounts: input.default_mounts,
            default_root_path,
        },
    )
}

/// A change to a template, as it is asked for.
#[derive(Debug)]
pub struct UpdateRequest {
    pub name: Option<String>,
    pub reference: Option<String>,
    /// `Some(None)` clears the field; `None` leaves it unchanged.
    pub default_mounts: Option<Option<Json>>,
    pub default_root_path: Option<String>,
}

/// A change to a template, as it is written.
#[derive(Debug)]
pub struct UpdateImage {
    pub name: Option<String>,
    pub reference: Option<String>,
    pub default_mounts: Option<Option<Json>>,
    pub default_root_path: Option<String>,
}

/// Why a change is refused.
pub open spec fn update_refusal(input: UpdateRequest) -> Option<ErrorModel> {
    let name = trimmed_opt(opt(input.name));
    let reference = trimmed_opt(opt(input.reference));
    let root_path = trimmed_opt(opt(input.default_root_path));
    if name is Some && name_refusal(name->0) is Some {
        name_refusal(name->0)
    } else if reference is Some && reference->0.len() == 0 {
        Some(ErrorModel::BadRequest("reference cannot be empty"@))
    } else if root_path is Some {
        root_path_refusal(root_path->0)
    } else {
        None
    }
}

/// The change to store.
pub fn update(input: UpdateRequest) -> (r: Result<UpdateImage, AppError>)
    ensures
        refusal(r) == update_refusal(input),
        r matches Ok(patch) ==> {
            &&& opt(patch.name) == trimmed_opt(opt(input.name))
            &&& opt(patch.reference) == trimmed_opt(opt(input.reference))
            &&& patch.default_mounts == input.default_mounts
            &&& opt(patch.default_root_path) == trimmed_opt(opt(input.default_root_path))
        },
{
    let name = trim_opt(&input.name);
    if let Some(text) = &name {
        if let Err(error) = validate_name(text.as_str()) {
            return Err(error);
        }
    }
    let reference = trim_opt(&input.reference);
    if let Some(text) = &reference {
        if text.as_str().is_empty() {
            return Err(bad_request("reference cannot be empty"));
        }
    }
    let default_root_path = trim_opt(&input.default_root_path);
    if let Some(text) = &default_root_path {
        if let Err(error) = validate_root_path(text.as_str()) {
            return Err(error);
        }
    }
    Ok(UpdateImage { name, reference, default_mounts: input.default_mounts, default_root_path })
}

/// What a name that is taken is answered with.
pub fn taken(name: &str) -> (r: AppError)
    ensures
        r@ == ErrorModel::BadRequest("an image named '"@ + name@ + "' already exists"@),
{
    AppError::BadRequest(join3("an image named '", name, "' already exists"))
}

/// A template as the client sees it.
#[derive(Debug)]
pub struct ImageResponse {
    pub id: u128,
    pub name: String,
    pub reference: String,
    pub default_mounts: Option<Json>,
    pub default_root_path: String,
    pub created_at: i64,
}

pub fn image_response(i: &Image) -> (r: ImageResponse)
    ensures
        r.id == i.id,
        r.name@ == i.name@,
        r.reference@ == i.reference@,
        opt_json(r.default_mounts) == opt_json(i.default_mounts),
        r.default_root_path@ == i.default_root_path@,
        r.created_at == i.created_at,
{
    ImageResponse {
        id: i.id,
        name: i.name.clone(),
        reference: i.reference.clone(),
        default_mounts: copy_opt_json(&i.default_mounts),
        default_root_path: i.default_root_path.clone(),
        created_at: i.created_at,
    }
}

/// A template is accepted just where it has a name that fits, a reference and an
/// absolute root; a change to one, where what it sets does.
pub proof fn a_template_is_accepted_part_by_part(input: CreateRequest, patch: UpdateRequest)
    ensures
        create_refusal(input) is None <==> {
            let root = trimmed(input.default_root_path@);
            &&& 1 <= trimmed(input.name@).len() <= 100
            &&& trimmed(input.reference@).len() > 0
            &&& root.len() > 0 && root[0] == '/'
        },
        update_refusal(patch) is None <==> {
            &&& patch.name matches Some(name) ==> 1 <= trimmed(name@).len() <= 100
            &&& patch.reference matches Some(text) ==> trimmed(text@).len() > 0
            &&& patch.default_root_path matches Some(text) ==> trimmed(text@).len() > 0 && trimmed(
                text@,
            )[0] == '/'
        },
{
    lemma_absolute(trimmed(input.default_root_path@));
    if let Some(text) = patch.default_root_path {
        lemma_absolute(trimmed(text@));
    }
}

proof fn lemma_absolute(root: Seq<char>)
    ensures
        root_path_refusal(root) is None <==> root.len() > 0 && root[0] == '/',
{
    reveal_strlit("/");
    if root.len() > 0 && root[0] == '/' {
        assert(root.subrange(0, 1) =~= "/"@);
    }
    if "/"@.is_prefix_of(root) {
        assert(root.subrange(0, 1)[0] == '/');
    }
}

} // verus!
