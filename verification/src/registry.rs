//! The projects of a workspace: which directories are projects, where a
//! new project goes, what its metadata says, and in what order projects
//! are listed.

use crate::doc::{
    record_views, BuilderProjectDoc, ProjectMetadata, ProjectMetadataView, ProjectRecord,
    ProjectRecordView,
};
use crate::ident::{lowercase_of, normalize_site_url, normalize_slug, site_url_of, slug_of};
use crate::normalize::{default_builder_doc, default_doc};
use crate::order::{
    all_positions, lemma_sorted_by_key, positions, sort_positions, sorted_by_key, take_in_order,
};
use crate::text::{chars_of, has_suffix, is_blank, is_blank_text, string_of, texts, trim, trimmed};
use vstd::prelude::*;

verus! {

/// What the name of a project directory ends with.
pub const PROJECT_DIR_SUFFIX: &'static str = ".manifold";

/// What a path of the file system leads to.
#[derive(Clone, Copy, Debug, PartialEq, Eq)]
pub enum PathKind {
    Missing,
    File,
    Directory,
}

/// Why an operation on the projects of a workspace was turned down.
#[derive(Debug, PartialEq, Eq)]
pub enum RegistryError {
    /// No workspace root was given.
    WorkspaceRootRequired,
    /// The workspace root is no directory.
    WorkspaceNotDirectory,
    /// Nothing is left of the slug once it is normalized.
    SlugRequired,
    /// The directory of the new project is there already.
    ProjectExists { path: String },
    /// The project path is no directory.
    InvalidProjectPath,
    /// The project path cannot be written as text.
    PathNotText,
}

/// Whether listing the projects of a workspace has anything to read.
#[derive(Clone, Copy, Debug, PartialEq, Eq)]
pub enum ListingPlan {
    /// There is no workspace yet: it has no projects.
    Empty,
    /// The entries of the workspace directory are to be read.
    Scan,
}

/// Where a new project goes: its slug, and the name of its directory.
#[derive(Debug, PartialEq, Eq)]
pub struct ProjectPlace {
    pub slug: String,
    pub dir_name: String,
}

/// What a new project starts with.
#[derive(Debug, PartialEq)]
pub struct ProjectSeed {
    pub metadata: ProjectMetadata,
    pub document: BuilderProjectDoc,
}

/// The message that tells of an error.
pub open spec fn message_of(error: RegistryError) -> Seq<char> {
    match error {
        RegistryError::WorkspaceRootRequired => "Workspace root is required."@,
        RegistryError::WorkspaceNotDirectory => "Workspace root must be a directory"@,
        RegistryError::SlugRequired => "Project slug is required"@,
        RegistryError::ProjectExists { path } => "Project "@ + path@ + " already exists"@,
        RegistryError::InvalidProjectPath => "Project path is invalid"@,
        RegistryError::PathNotText => "Project path is not valid UTF-8"@,
    }
}

/// What listing the projects of the workspace `root` does, where `root`
/// leads to `found`.
pub open spec fn listing_of(root: Seq<char>, found: PathKind) -> Result<
    ListingPlan,
    RegistryError,
> {
    if is_blank(root) {
        Err(RegistryError::WorkspaceRootRequired)
    } else {
        match found {
            PathKind::Missing => Ok(ListingPlan::Empty),
            PathKind::File => Err(RegistryError::WorkspaceNotDirectory),
            PathKind::Directory => Ok(ListingPlan::Scan),
        }
    }
}

/// Whether an entry of a workspace directory may be a project: it is a
/// directory, and its name is text that ends with the suffix of project
/// directories.
pub open spec fn is_candidate(is_dir: bool, name: Option<Seq<char>>) -> bool {
    is_dir && match name {
        Some(text) => ".manifold"@.is_suffix_of(text),
        None => false,
    }
}

/// The times at which the given projects were last updated, in order.
pub open spec fn updates_of(records: Seq<ProjectRecordView>) -> Seq<Seq<char>> {
    records.map_values(|record: ProjectRecordView| record.updated_at)
}

/// The order in which projects are listed: the one updated last comes
/// first, and projects updated at the same time keep their order.
pub open spec fn listing_order(records: Seq<ProjectRecordView>) -> Seq<int> {
    sorted_by_key(all_positions(records.len() as int), updates_of(records), true)
}

/// The projects in the order in which they are listed.
pub open spec fn listed_records(records: Seq<ProjectRecordView>) -> Seq<ProjectRecordView> {
    listing_order(records).map_values(|k: int| records[k])
}

/// The record of the project that lies at `path` and has the given
/// metadata.
pub open spec fn record_of(path: Seq<char>, metadata: ProjectMetadataView) -> ProjectRecordView {
    ProjectRecordView {
        id: path,
        name: metadata.name,
        path,
        updated_at: metadata.updated_at,
        site_url: metadata.site_url,
    }
}

/// Where the project with the given normalized slug goes, if the slug is
/// not empty.
pub open spec fn place_of(slug: Seq<char>) -> Option<(Seq<char>, Seq<char>)> {
    if slug.len() == 0 {
        None
    } else {
        Some((slug, slug + ".manifold"@))
    }
}

/// The metadata of a project that is made at the time `now`.
pub open spec fn new_metadata(
    name: Seq<char>,
    slug: Seq<char>,
    site_url: Seq<char>,
    now: Seq<char>,
) -> ProjectMetadataView {
    ProjectMetadataView {
        name: trim(name),
        slug,
        site_url: site_url_of(site_url),
        created_at: now,
        updated_at: now,
    }
}

/// The current time in UTC as a text of RFC 3339, from
/// `chrono::Utc::now` and `chrono::DateTime::to_rfc3339`. Nothing is said
/// of the text: it differs from call to call. The clock of the machine
/// must not stand before the year 1970.
#[verifier::external_body]
fn now_iso() -> String {
    chrono::Utc::now().to_rfc3339()
}

impl RegistryError {
    /// The message that tells of this error.
    pub fn message(&self) -> (text: String)
        ensures
            text@ == message_of(*self),
    {
        match self {
            RegistryError::WorkspaceRootRequired => "Workspace root is required.".to_string(),
            RegistryError::WorkspaceNotDirectory => {
                "Workspace root must be a directory".to_string()
            },
            RegistryError::SlugRequired => "Project slug is required".to_string(),
            RegistryError::ProjectExists { path } => {
                let mut text = "Project ".to_string();
                text.append(path.as_str());
                text.append(" already exists");
                text
            },
            RegistryError::InvalidProjectPath => "Project path is invalid".to_string(),
            RegistryError::PathNotText => "Project path is not valid UTF-8".to_string(),
        }
    }
}

/// What listing the projects of a workspace does: it is turned down where
/// no workspace root is given or where the root is no directory, it
/// has nothing to read where the root is missing, and else it reads the
/// entries of the root.
pub fn plan_listing(workspace_root: &str, found: PathKind) -> (plan: Result<
    ListingPlan,
    RegistryError,
>)
    ensures
        plan == listing_of(workspace_root@, found),
{
    let root = chars_of(workspace_root);
    if is_blank_text(&root) {
        return Err(RegistryError::WorkspaceRootRequired);
    }
    match found {
        PathKind::Missing => Ok(ListingPlan::Empty),
        PathKind::File => Err(RegistryError::WorkspaceNotDirectory),
        PathKind::Directory => Ok(ListingPlan::Scan),
    }
}

/// Whether the name of a directory is that of a project directory.
pub fn is_project_dir_name(name: &str) -> (yes: bool)
    ensures
        yes == ".manifold"@.is_suffix_of(name@),
{
    let chars = chars_of(name);
    let suffix = chars_of(PROJECT_DIR_SUFFIX);
    has_suffix(&chars, &suffix)
}

/// Whether an entry of a workspace directory may be a project. `name` is
/// the name of the entry where it is text.
pub fn is_project_candidate(is_dir: bool, name: Option<&str>) -> (yes: bool)
    ensures
        yes == is_candidate(
            is_dir,
            match name {
                Some(text) => Some(text@),
                None => None,
            },
        ),
{
    if !is_dir {
        return false;
    }
    match name {
        Some(text) => is_project_dir_name(text),
        None => false,
    }
}

/// The record of the project that lies at `path`, which is `None` where
/// the path cannot be written as text.
pub fn project_record_from_dir(path: Option<&str>, metadata: ProjectMetadata) -> (record: Result<
    ProjectRecord,
    RegistryError,
>)
    ensures
        match record {
            Ok(found) => path matches Some(text) && found@ == record_of(text@, metadata@),
            Err(error) => path is None && error == RegistryError::PathNotText,
        },
{
    match path {
        Some(text) => Ok(
            ProjectRecord {
                id: text.to_string(),
                name: metadata.name,
                path: text.to_string(),
                updated_at: metadata.updated_at,
                site_url: metadata.site_url,
            },
        ),
        None => Err(RegistryError::PathNotText),
    }
}

/// The projects in the order in which they are listed: the one updated
/// last comes first.
pub fn sort_projects(records: Vec<ProjectRecord>) -> (listed: Vec<ProjectRecord>)
    ensures
        record_views(listed@) == listed_records(record_views(records@)),
{
    let mut keys: Vec<Vec<char>> = Vec::new();
    let mut all: Vec<usize> = Vec::new();
    let mut i: usize = 0;
    while i < records.len()
        invariant
            i <= records.len(),
            keys.len() == i,
            all.len() == i,
            texts(keys@) == updates_of(record_views(records@)).take(i as int),
            positions(all@) == all_positions(i as int),
            forall|j: int| 0 <= j < i ==> all@[j] == j,
        decreases records.len() - i,
    {
        let ghost keys_before = texts(keys@);
        let key = chars_of(records[i].updated_at.as_str());
        keys.push(key);
        all.push(i);
        assert(texts(keys@) == keys_before.push(records@[i as int].updated_at@));
        assert(positions(all@) == all_positions(i + 1));
        i += 1;
    }
    assert(updates_of(record_views(records@)).take(i as int) == updates_of(
        record_views(records@),
    ));
    let order = sort_positions(&all, &keys, true);
    proof {
        let given = all_positions(records.len() as int);
        lemma_sorted_by_key(given, texts(keys@), true);
        let sorted = positions(order@);
        assert forall|j: int| 0 <= j < sorted.len() implies 0 <= #[trigger] sorted[j]
            < records.len() by {
            assert(sorted.contains(sorted[j]));
            assert(given.contains(sorted[j]));
            let at = choose|at: int| 0 <= at < given.len() && given[at] == sorted[j];
        }
    }
    let ghost views = record_views(records@);
    let listed = take_in_order(records, &order);
    assert(record_views(listed@) == listed_records(views));
    listed
}

/// Where the project with the given normalized slug goes. A project
/// without a slug is turned down.
pub fn place_for_slug(slug: String) -> (place: Result<ProjectPlace, RegistryError>)
    ensures
        match place {
            Ok(found) => place_of(slug@) == Some((found.slug@, found.dir_name@)),
            Err(error) => place_of(slug@) is None && error == RegistryError::SlugRequired,
        },
{
    let chars = chars_of(slug.as_str());
    if chars.len() == 0 {
        return Err(RegistryError::SlugRequired);
    }
    let mut dir_name = String::new();
    dir_name.append(slug.as_str());
    dir_name.append(PROJECT_DIR_SUFFIX);
    Ok(ProjectPlace { slug, dir_name })
}

/// Where a new project with the given slug goes: under its normalized
/// slug, in the directory named by that slug and the suffix of project
/// directories.
pub fn place_project(slug: &str) -> (place: Result<ProjectPlace, RegistryError>)
    ensures
        match place {
            Ok(found) => place_of(slug_of(lowercase_of(trim(slug@)))) == Some(
                (found.slug@, found.dir_name@),
            ),
            Err(error) => place_of(slug_of(lowercase_of(trim(slug@)))) is None && error
                == RegistryError::SlugRequired,
        },
{
    place_for_slug(normalize_slug(slug))
}

/// The metadata of a project that is made at the time `now`: its name
/// trimmed, its slug as given, and its site URL with a scheme.
pub fn new_project_metadata(name: &str, slug: String, site_url: &str, now: String) -> (metadata:
    ProjectMetadata)
    ensures
        metadata@ == new_metadata(name@, slug@, site_url@, now@),
{
    let shown = string_of(&trimmed(&chars_of(name)));
    ProjectMetadata {
        name: shown,
        slug,
        site_url: normalize_site_url(site_url),
        created_at: now.clone(),
        updated_at: now,
    }
}

/// What a project that is made now starts with: its metadata, stamped
/// with the current time, and the default document.
pub fn seed_project(name: &str, slug: String, site_url: &str) -> (seed: ProjectSeed)
    ensures
        seed.metadata@ == new_metadata(name@, slug@, site_url@, seed.metadata@.created_at),
        seed.document@ == default_doc(seed.metadata@),
{
    let metadata = new_project_metadata(name, slug, site_url, now_iso());
    let document = default_builder_doc(&metadata);
    ProjectSeed { metadata, document }
}

/// The metadata of a project whose site URL is set at the time `now`.
pub fn with_site_url(metadata: ProjectMetadata, site_url: &str, now: String) -> (updated:
    ProjectMetadata)
    ensures
        updated@ == (ProjectMetadataView {
            site_url: site_url_of(site_url@),
            updated_at: now@,
            ..metadata@
        }),
{
    ProjectMetadata {
        name: metadata.name,
        slug: metadata.slug,
        site_url: normalize_site_url(site_url),
        created_at: metadata.created_at,
        updated_at: now,
    }
}

/// The metadata of a project whose site URL is set now.
pub fn touch_site_url(metadata: ProjectMetadata, site_url: &str) -> (updated: ProjectMetadata)
    ensures
        updated@ == (ProjectMetadataView {
            site_url: site_url_of(site_url@),
            updated_at: updated@.updated_at,
            ..metadata@
        }),
{
    with_site_url(metadata, site_url, now_iso())
}

/// Whether a new project may go to `path`, which leads to `found`: there
/// must be nothing yet. A project is never written over another.
pub fn require_free_place(found: PathKind, path: String) -> (checked: Result<(), RegistryError>)
    ensures
        checked is Ok <==> found == PathKind::Missing,
        checked matches Err(error) ==> error == (RegistryError::ProjectExists { path }),
{
    match found {
        PathKind::Missing => Ok(()),
        _ => Err(RegistryError::ProjectExists { path }),
    }
}

/// Whether a project path may be worked on: it has to be a directory.
pub fn require_project_dir(found: PathKind) -> (checked: Result<(), RegistryError>)
    ensures
        checked is Ok <==> found == PathKind::Directory,
        checked matches Err(error) ==> error == RegistryError::InvalidProjectPath,
{
    match found {
        PathKind::Directory => Ok(()),
        _ => Err(RegistryError::InvalidProjectPath),
    }
}

/// Whether a new project may go under a workspace root: the root has to
/// be a directory once it was made where it was missing.
pub fn require_workspace_dir(found: PathKind) -> (checked: Result<(), RegistryError>)
    ensures
        checked is Ok <==> found == PathKind::Directory,
        checked matches Err(error) ==> error == RegistryError::WorkspaceNotDirectory,
{
    match found {
        PathKind::Directory => Ok(()),
        _ => Err(RegistryError::WorkspaceNotDirectory),
    }
}

} // verus!
