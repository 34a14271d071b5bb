use manifold_core::ident::{
    assign_ids, canonical_id_chars, canonical_page_id_from_route, normalize_site_url,
    normalize_slug, resolve_page_ids, slug_from_lowercase, unused_id,
};
use manifold_core::text::{chars_of, string_of};

#[test]
fn root_and_blank_routes_give_home() {
    assert_eq!(canonical_page_id_from_route("/"), "home");
    assert_eq!(canonical_page_id_from_route(""), "home");
    assert_eq!(canonical_page_id_from_route("   "), "home");
    assert_eq!(canonical_page_id_from_route("  /  "), "home");
    assert_eq!(canonical_page_id_from_route("///"), "home");
    assert_eq!(canonical_page_id_from_route("/!!!"), "home");
    assert_eq!(canonical_page_id_from_route("/-_-"), "home");
}

#[test]
fn segments_are_joined_without_separator() {
    assert_eq!(canonical_page_id_from_route("/blog/posts"), "blogposts");
    assert_eq!(canonical_page_id_from_route("blog//posts/"), "blogposts");
    assert_eq!(canonical_page_id_from_route("/a/b/c"), "abc");
}

#[test]
fn letters_are_lowered_and_other_characters_become_dashes() {
    assert_eq!(canonical_page_id_from_route("/About"), "about");
    assert_eq!(canonical_page_id_from_route("/about"), "about");
    assert_eq!(canonical_page_id_from_route("/About Us"), "about-us");
    assert_eq!(canonical_page_id_from_route("/my_page"), "my-page");
    assert_eq!(canonical_page_id_from_route("/a__b--c"), "a-b-c");
    assert_eq!(canonical_page_id_from_route("/-lead/trail-"), "leadtrail");
    assert_eq!(canonical_page_id_from_route("/Caf\u{e9} 24"), "caf-24");
    assert_eq!(canonical_page_id_from_route(" /Pricing? "), "pricing");
    assert_eq!(canonical_page_id_from_route("/x-/-y"), "x-y");
}

#[test]
fn canonical_id_is_the_same_for_the_same_route() {
    for route in ["/", "/About", "/a/b", "  /x y/ "] {
        assert_eq!(canonical_page_id_from_route(route), canonical_page_id_from_route(route));
        assert_eq!(
            string_of(&canonical_id_chars(&chars_of(route))),
            canonical_page_id_from_route(route)
        );
    }
}

#[test]
fn slug_of_a_project_name() {
    assert_eq!(normalize_slug("My Site!"), "my-site");
    assert_eq!(normalize_slug("  Hello   World  "), "hello-world");
    assert_eq!(normalize_slug("a_b"), "a-b");
    assert_eq!(normalize_slug("--x--y--"), "x-y");
    assert_eq!(normalize_slug("ABC"), "abc");
    assert_eq!(normalize_slug("caf\u{e9}"), "caf");
    assert_eq!(normalize_slug("tab\tsep"), "tab-sep");
}

#[test]
fn blank_slug_stands_for_new_project() {
    assert_eq!(normalize_slug(""), "new-project");
    assert_eq!(normalize_slug("   "), "new-project");
    assert_eq!(slug_from_lowercase(""), "new-project");
}

#[test]
fn slug_may_come_out_empty() {
    assert_eq!(normalize_slug("!!!"), "");
    assert_eq!(normalize_slug("---"), "");
    assert_eq!(normalize_slug("\u{e9}\u{e9}"), "");
}

#[test]
fn slug_is_lowered_as_unicode_lowers() {
    assert_eq!(normalize_slug("\u{212a}elvin"), "kelvin");
    assert_eq!(normalize_slug("\u{130}stanbul"), "istanbul");
}

#[test]
fn slug_from_lowercase_keeps_what_it_is_given() {
    assert_eq!(slug_from_lowercase("my site"), "my-site");
    assert_eq!(slug_from_lowercase("Mixed Case"), "Mixed-Case");
    assert_eq!(slug_from_lowercase("a\u{a0}b"), "ab");
}

#[test]
fn site_url_gets_a_scheme() {
    assert_eq!(normalize_site_url(""), "https://example.com");
    assert_eq!(normalize_site_url("  \n"), "https://example.com");
    assert_eq!(normalize_site_url("example.org"), "https://example.org");
    assert_eq!(normalize_site_url("  example.org/path "), "https://example.org/path");
    assert_eq!(normalize_site_url("http://example.org"), "http://example.org");
    assert_eq!(normalize_site_url(" https://example.org "), "https://example.org");
    assert_eq!(normalize_site_url("HTTP://example.org"), "https://HTTP://example.org");
    assert_eq!(normalize_site_url("ftp://example.org"), "https://ftp://example.org");
    assert_eq!(normalize_site_url("http:/"), "https://http:/");
}

#[test]
fn unused_id_takes_the_first_free_number() {
    let about = chars_of("about");
    assert_eq!(string_of(&unused_id(&about, &Vec::new())), "about");
    let used = vec![chars_of("about")];
    assert_eq!(string_of(&unused_id(&about, &used)), "about-2");
    let used = vec![chars_of("about"), chars_of("about-2"), chars_of("about-3")];
    assert_eq!(string_of(&unused_id(&about, &used)), "about-4");
    let used = vec![chars_of("about"), chars_of("about-3")];
    assert_eq!(string_of(&unused_id(&about, &used)), "about-2");
    let used = vec![chars_of("home")];
    assert_eq!(string_of(&unused_id(&about, &used)), "about");
}

#[test]
fn unused_id_counts_past_nine() {
    let base = chars_of("p");
    let mut used = vec![chars_of("p")];
    for n in 2..=11 {
        used.push(chars_of(&format!("p-{}", n)));
    }
    assert_eq!(string_of(&unused_id(&base, &used)), "p-12");
}

#[test]
fn colliding_routes_are_resolved_in_document_order() {
    let routes: Vec<String> =
        ["/About", "/about", "/", "", "/about/", "/about-2", "/x"].iter().map(|r| r.to_string()).collect();
    assert_eq!(
        resolve_page_ids(&routes),
        vec!["about", "about-2", "home", "home-2", "about-3", "about-2-2", "x"]
    );
    assert_eq!(resolve_page_ids(&Vec::new()), Vec::<String>::new());
    let given = vec![chars_of("/a b"), chars_of("/a_b")];
    assert_eq!(assign_ids(&given), vec![chars_of("a-b"), chars_of("a-b-2")]);
}
