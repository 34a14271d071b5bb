use manifold_core::doc::{ProjectMetadata, ProjectRecord};
use manifold_core::registry::{
    is_project_candidate, is_project_dir_name, new_project_metadata, place_for_slug,
    place_project, plan_listing, project_record_from_dir, require_free_place, require_project_dir,
    require_workspace_dir, seed_project, sort_projects, touch_site_url, with_site_url,
    ListingPlan, PathKind, ProjectPlace, RegistryError, PROJECT_DIR_SUFFIX,
};

fn metadata(updated_at: &str) -> ProjectMetadata {
    ProjectMetadata {
        name: "Name".to_string(),
        slug: "name".to_string(),
        site_url: "https://name.example".to_string(),
        created_at: "2024-01-01T00:00:00+00:00".to_string(),
        updated_at: updated_at.to_string(),
    }
}

fn record(name: &str, updated_at: &str) -> ProjectRecord {
    ProjectRecord {
        id: format!("/w/{}.manifold", name),
        name: name.to_string(),
        path: format!("/w/{}.manifold", name),
        updated_at: updated_at.to_string(),
        site_url: "https://example.com".to_string(),
    }
}

#[test]
fn listing_needs_a_workspace_root() {
    assert_eq!(plan_listing("", PathKind::Directory), Err(RegistryError::WorkspaceRootRequired));
    assert_eq!(plan_listing("  \t", PathKind::Missing), Err(RegistryError::WorkspaceRootRequired));
}

#[test]
fn listing_a_missing_workspace_is_empty_and_a_file_is_an_error() {
    assert_eq!(plan_listing("/w", PathKind::Missing), Ok(ListingPlan::Empty));
    assert_eq!(plan_listing("/w", PathKind::File), Err(RegistryError::WorkspaceNotDirectory));
    assert_eq!(plan_listing("/w", PathKind::Directory), Ok(ListingPlan::Scan));
}

#[test]
fn project_directories_end_with_the_suffix() {
    assert_eq!(PROJECT_DIR_SUFFIX, ".manifold");
    assert!(is_project_dir_name("my-site.manifold"));
    assert!(is_project_dir_name(".manifold"));
    assert!(!is_project_dir_name("my-site.manifold.bak"));
    assert!(!is_project_dir_name("my-site"));
    assert!(!is_project_dir_name("my-site.Manifold"));
    assert!(is_project_candidate(true, Some("a.manifold")));
    assert!(!is_project_candidate(false, Some("a.manifold")));
    assert!(!is_project_candidate(true, Some("a.txt")));
    assert!(!is_project_candidate(true, None));
}

#[test]
fn record_takes_its_identity_from_the_path() {
    let found = project_record_from_dir(Some("/w/name.manifold"), metadata("2024-05-05T10:00:00+00:00"));
    assert_eq!(
        found,
        Ok(ProjectRecord {
            id: "/w/name.manifold".to_string(),
            name: "Name".to_string(),
            path: "/w/name.manifold".to_string(),
            updated_at: "2024-05-05T10:00:00+00:00".to_string(),
            site_url: "https://name.example".to_string(),
        })
    );
    assert_eq!(project_record_from_dir(None, metadata("x")), Err(RegistryError::PathNotText));
}

#[test]
fn projects_are_listed_with_the_last_updated_first() {
    let listed = sort_projects(vec![
        record("old", "2023-01-01T00:00:00+00:00"),
        record("new", "2024-06-01T00:00:00+00:00"),
        record("mid-a", "2024-01-01T00:00:00+00:00"),
        record("mid-b", "2024-01-01T00:00:00+00:00"),
    ]);
    let order: Vec<&str> = listed.iter().map(|r| r.name.as_str()).collect();
    assert_eq!(order, vec!["new", "mid-a", "mid-b", "old"]);
    assert_eq!(sort_projects(Vec::new()), Vec::new());
}

#[test]
fn a_new_project_goes_under_its_normalized_slug() {
    assert_eq!(
        place_project("My Site!"),
        Ok(ProjectPlace { slug: "my-site".to_string(), dir_name: "my-site.manifold".to_string() })
    );
    assert_eq!(
        place_project("  "),
        Ok(ProjectPlace { slug: "new-project".to_string(), dir_name: "new-project.manifold".to_string() })
    );
    assert_eq!(place_project("???"), Err(RegistryError::SlugRequired));
    assert_eq!(place_for_slug(String::new()), Err(RegistryError::SlugRequired));
    assert_eq!(
        place_for_slug("x".to_string()),
        Ok(ProjectPlace { slug: "x".to_string(), dir_name: "x.manifold".to_string() })
    );
}

#[test]
fn new_metadata_is_stamped_once() {
    let made = new_project_metadata("  My Site ", "my-site".to_string(), "my.site", "2024-02-03T04:05:06+00:00".to_string());
    assert_eq!(
        made,
        ProjectMetadata {
            name: "My Site".to_string(),
            slug: "my-site".to_string(),
            site_url: "https://my.site".to_string(),
            created_at: "2024-02-03T04:05:06+00:00".to_string(),
            updated_at: "2024-02-03T04:05:06+00:00".to_string(),
        }
    );
}

#[test]
fn a_seeded_project_has_the_home_page_and_a_time_stamp() {
    let seed = seed_project(" My Site ", "my-site".to_string(), "");
    assert_eq!(seed.metadata.name, "My Site");
    assert_eq!(seed.metadata.slug, "my-site");
    assert_eq!(seed.metadata.site_url, "https://example.com");
    assert_eq!(seed.metadata.created_at, seed.metadata.updated_at);
    assert!(seed.metadata.created_at.len() >= 20);
    assert_eq!(&seed.metadata.created_at[4..5], "-");
    assert!(seed.metadata.created_at.contains('T'));
    assert_eq!(seed.document.pages.len(), 1);
    assert_eq!(seed.document.pages[0].id, "home");
    assert_eq!(seed.document.pages[0].route, "/");
    assert_eq!(seed.document.site.site_name, "My Site");
    assert_eq!(seed.document.site.base_url, "https://example.com");
}

#[test]
fn setting_the_site_url_keeps_the_rest() {
    let updated = with_site_url(metadata("2024-01-01T00:00:00+00:00"), " shop.example ", "2025-01-01T00:00:00+00:00".to_string());
    assert_eq!(
        updated,
        ProjectMetadata {
            name: "Name".to_string(),
            slug: "name".to_string(),
            site_url: "https://shop.example".to_string(),
            created_at: "2024-01-01T00:00:00+00:00".to_string(),
            updated_at: "2025-01-01T00:00:00+00:00".to_string(),
        }
    );
    let touched = touch_site_url(metadata("2000-01-01T00:00:00+00:00"), "");
    assert_eq!(touched.site_url, "https://example.com");
    assert_eq!(touched.created_at, "2024-01-01T00:00:00+00:00");
    assert!(touched.updated_at.as_str() > "2000-01-01T00:00:00+00:00");
}

#[test]
fn paths_have_to_be_directories() {
    assert_eq!(require_project_dir(PathKind::Directory), Ok(()));
    assert_eq!(require_project_dir(PathKind::File), Err(RegistryError::InvalidProjectPath));
    assert_eq!(require_project_dir(PathKind::Missing), Err(RegistryError::InvalidProjectPath));
    assert_eq!(require_workspace_dir(PathKind::Directory), Ok(()));
    assert_eq!(require_workspace_dir(PathKind::File), Err(RegistryError::WorkspaceNotDirectory));
    assert_eq!(require_workspace_dir(PathKind::Missing), Err(RegistryError::WorkspaceNotDirectory));
}

#[test]
fn a_new_project_needs_a_free_place() {
    assert_eq!(require_free_place(PathKind::Missing, "/w/a.manifold".to_string()), Ok(()));
    assert_eq!(
        require_free_place(PathKind::Directory, "/w/a.manifold".to_string()),
        Err(RegistryError::ProjectExists { path: "/w/a.manifold".to_string() })
    );
    assert_eq!(
        require_free_place(PathKind::File, "/w/a.manifold".to_string()),
        Err(RegistryError::ProjectExists { path: "/w/a.manifold".to_string() })
    );
}

#[test]
fn every_error_has_its_message() {
    assert_eq!(RegistryError::WorkspaceRootRequired.message(), "Workspace root is required.");
    assert_eq!(RegistryError::WorkspaceNotDirectory.message(), "Workspace root must be a directory");
    assert_eq!(RegistryError::SlugRequired.message(), "Project slug is required");
    assert_eq!(
        RegistryError::ProjectExists { path: "/w/a.manifold".to_string() }.message(),
        "Project /w/a.manifold already exists"
    );
    assert_eq!(RegistryError::InvalidProjectPath.message(), "Project path is invalid");
    assert_eq!(RegistryError::PathNotText.message(), "Project path is not valid UTF-8");
}
