use manifold_core::doc::{
    BuilderProjectDoc, PageDoc, PageSeoDoc, ProjectMetadata, SiteDoc, SitemapDoc,
};
use manifold_core::normalize::{default_builder_doc, normalize_builder_doc};
use manifold_core::store::{
    assemble_builder_doc, file_extension, has_json_extension, is_seeded_dir,
    page_file_name, plan_save, stale_page_files, PAGES_DIR, PROJECT_META_FILE, SITEMAP_FILE,
    SITE_FILE,
};

fn page(id: &str, title: &str, route: &str) -> PageDoc {
    PageDoc {
        id: id.to_string(),
        title: title.to_string(),
        route: route.to_string(),
        seo: PageSeoDoc { title: title.to_string(), description: String::new() },
        blocks: Vec::new(),
    }
}

fn site() -> SiteDoc {
    SiteDoc { site_name: "Stored".to_string(), base_url: "https://stored.example".to_string() }
}

fn sitemap(order: &[&str], root: &str) -> SitemapDoc {
    SitemapDoc { page_order: order.iter().map(|id| id.to_string()).collect(), root_page_id: root.to_string() }
}

fn metadata() -> ProjectMetadata {
    ProjectMetadata {
        name: "Meta Name".to_string(),
        slug: "meta-name".to_string(),
        site_url: "https://meta.example".to_string(),
        created_at: "2024-01-01T00:00:00+00:00".to_string(),
        updated_at: "2024-01-01T00:00:00+00:00".to_string(),
    }
}

fn names(list: &[&str]) -> Vec<String> {
    list.iter().map(|name| name.to_string()).collect()
}

fn titles(doc: &BuilderProjectDoc) -> Vec<String> {
    doc.pages.iter().map(|p| p.title.clone()).collect()
}

#[test]
fn file_names_of_a_project_directory() {
    assert_eq!(PROJECT_META_FILE, "project.json");
    assert_eq!(SITE_FILE, "site.json");
    assert_eq!(SITEMAP_FILE, "sitemap.json");
    assert_eq!(PAGES_DIR, "pages");
    assert_eq!(page_file_name("home"), "home.json");
    assert_eq!(page_file_name("about-2"), "about-2.json");
}

#[test]
fn extension_is_what_follows_the_last_dot() {
    assert_eq!(file_extension("home.json"), Some("json".to_string()));
    assert_eq!(file_extension("a.b.JSON"), Some("JSON".to_string()));
    assert_eq!(file_extension("archive.tar.gz"), Some("gz".to_string()));
    assert_eq!(file_extension("trailing."), Some(String::new()));
    assert_eq!(file_extension("json"), None);
    assert_eq!(file_extension(".json"), None);
    assert_eq!(file_extension(".hidden.json"), Some("json".to_string()));
    assert_eq!(file_extension(""), None);
    assert_eq!(file_extension(".."), None);
}

#[test]
fn extension_agrees_with_std_paths() {
    for name in ["home.json", "a.b.c", "x", ".x", "..", "x.", "..x", "...", ".a.b", "n.JsOn", "é.ü"] {
        let expected = std::path::Path::new(name)
            .extension()
            .and_then(|e| e.to_str())
            .map(|e| e.to_string());
        assert_eq!(file_extension(name), expected, "{:?}", name);
        assert_eq!(has_json_extension(name), expected.as_deref() == Some("json"));
    }
}

#[test]
fn a_directory_is_seeded_when_nothing_is_missing() {
    assert!(is_seeded_dir(true, true, true));
    assert!(!is_seeded_dir(false, true, true));
    assert!(!is_seeded_dir(true, false, true));
    assert!(!is_seeded_dir(true, true, false));
}

#[test]
fn no_page_found_gives_the_default_document() {
    let doc = assemble_builder_doc(&metadata(), site(), sitemap(&["a"], "a"), Vec::new());
    assert_eq!(doc, default_builder_doc(&metadata()));
    assert_eq!(doc.site.site_name, "Meta Name");
    assert_eq!(doc.site.base_url, "https://meta.example");
}

#[test]
fn listed_pages_come_first_and_the_others_by_title() {
    let found = vec![
        page("zeta", "Zeta", "/zeta"),
        page("about", "About", "/about"),
        page("home", "Home", "/"),
        page("blog", "Blog", "/blog"),
        page("contact", "Contact", "/contact"),
    ];
    let doc = assemble_builder_doc(&metadata(), site(), sitemap(&["home", "blog"], "home"), found);
    assert_eq!(titles(&doc), vec!["Home", "Blog", "About", "Contact", "Zeta"]);
    assert_eq!(doc.sitemap.page_order, vec!["home", "blog", "about", "contact", "zeta"]);
    assert_eq!(doc.sitemap.root_page_id, "home");
    assert_eq!(doc.selected_page_id, "home");
    assert_eq!(doc.site, site());
}

#[test]
fn unlisted_pages_with_one_title_keep_the_order_in_which_they_were_read() {
    let found = vec![
        page("b", "Same", "/b"),
        page("c", "Other", "/c"),
        page("a", "Same", "/a"),
        page("d", "same", "/d"),
    ];
    let doc = assemble_builder_doc(&metadata(), site(), sitemap(&[], ""), found);
    assert_eq!(
        doc.pages.iter().map(|p| p.route.clone()).collect::<Vec<_>>(),
        vec!["/c", "/b", "/a", "/d"]
    );
}

#[test]
fn of_pages_found_with_one_id_the_last_one_counts() {
    let found = vec![page("home", "Old home", "/old"), page("x", "X", "/x"), page("home", "New home", "/")];
    let doc = assemble_builder_doc(&metadata(), site(), sitemap(&["home", "home"], "home"), found);
    assert_eq!(titles(&doc), vec!["New home", "X"]);
    assert_eq!(doc.sitemap.page_order, vec!["home", "x"]);
}

#[test]
fn a_page_file_that_went_missing_leaves_the_page_order_and_the_root() {
    let saved = plan_save(BuilderProjectDoc {
        site: site(),
        sitemap: sitemap(&["about", "home", "blog"], "about"),
        pages: vec![page("home", "Home", "/"), page("about", "About", "/about"), page("blog", "Blog", "/blog")],
        selected_page_id: "about".to_string(),
    });
    assert_eq!(saved.page_files, vec!["home.json", "about.json", "blog.json"]);
    let left: Vec<PageDoc> = saved.document.pages.into_iter().filter(|p| p.id != "about").collect();
    let doc = assemble_builder_doc(&metadata(), saved.document.site, saved.document.sitemap, left);
    assert_eq!(doc.sitemap.page_order, vec!["home", "blog"]);
    assert_eq!(doc.sitemap.root_page_id, "home");
    assert_eq!(doc.selected_page_id, "home");
    assert_eq!(titles(&doc), vec!["Home", "Blog"]);
}

#[test]
fn what_was_saved_loads_into_a_document_in_canonical_form() {
    let build = || BuilderProjectDoc {
        site: site(),
        sitemap: sitemap(&["about-2", "about"], "about-2"),
        pages: vec![page("a", "Upper", "/About"), page("b", "Lower", "/about"), page("c", "Home", "/")],
        selected_page_id: "c".to_string(),
    };
    let saved = plan_save(build());
    assert_eq!(saved.document, normalize_builder_doc(build()));
    let mut found = saved.document.pages;
    found.reverse();
    let loaded = assemble_builder_doc(&metadata(), saved.document.site, saved.document.sitemap, found);
    let again = plan_save(assemble_builder_doc(
        &metadata(),
        site(),
        sitemap(&["about-2", "about", "home"], "about-2"),
        {
            let mut pages = plan_save(build()).document.pages;
            pages.reverse();
            pages
        },
    ));
    assert_eq!(again.document, loaded);
    assert_eq!(loaded.pages.len(), 3);
    assert_eq!(loaded.sitemap.page_order.len(), 3);
}

#[test]
fn save_writes_one_file_for_each_page_of_the_canonical_form() {
    let plan = plan_save(BuilderProjectDoc {
        site: site(),
        sitemap: sitemap(&[], ""),
        pages: vec![page("x", "A", "/Docs/Intro"), page("y", "B", "/docs/intro"), page("z", "C", "/")],
        selected_page_id: String::new(),
    });
    assert_eq!(plan.page_files, vec!["docsintro.json", "docsintro-2.json", "home.json"]);
    assert_eq!(plan.document.pages[1].id, "docsintro-2");
    let empty = plan_save(BuilderProjectDoc {
        site: site(),
        sitemap: sitemap(&[], ""),
        pages: Vec::new(),
        selected_page_id: String::new(),
    });
    assert_eq!(empty.page_files, vec!["home.json"]);
}

#[test]
fn stale_files_are_the_files_that_were_not_written() {
    let existing = names(&["home.json", "old.json", "notes.txt", "about.json", ".json", "x.JSON", "old.json"]);
    let written = names(&["home.json", "about.json"]);
    assert_eq!(
        stale_page_files(&existing, &written),
        names(&["old.json", "notes.txt", ".json", "x.JSON", "old.json"])
    );
    assert_eq!(stale_page_files(&existing, &Vec::new()), existing);
    assert_eq!(stale_page_files(&Vec::new(), &written), Vec::<String>::new());
    assert_eq!(stale_page_files(&names(&["notes.txt", "home.json"]), &names(&["home.json"])), names(&["notes.txt"]));
    assert_eq!(stale_page_files(&written, &written), Vec::<String>::new());
}

#[test]
fn after_a_save_the_pages_directory_holds_the_written_files_alone() {
    let plan = plan_save(BuilderProjectDoc {
        site: site(),
        sitemap: sitemap(&[], ""),
        pages: vec![page("x", "A", "/a"), page("y", "B", "/b")],
        selected_page_id: String::new(),
    });
    let mut directory = names(&["b.json", "draft.md", "c.json", "a.json", "thumbs.db"]);
    let stale = stale_page_files(&directory, &plan.page_files);
    directory.retain(|name| !stale.contains(name));
    directory.sort();
    assert_eq!(directory, names(&["a.json", "b.json"]));
}
