//! Bringing a document into its canonical form: page ids derived from the
//! routes, a page order that lists every page once, and a root page and a
//! selected page that exist.

use crate::doc::{
    ids_of, page_views, routes_of, BuilderProjectDoc, DocView, PageDoc, PageSeoDoc, PageView,
    ProjectMetadata, ProjectMetadataView, SeoView, SiteDoc, SiteView, SitemapDoc, SitemapView,
};
use crate::ident::{
    assign_ids, assigned_ids, lemma_assigned_ids_distinct, lemma_canonical_id_of_root,
};
use crate::text::{
    chars_of, contains_text, copy_of, same_chars, string_of, string_texts, strings_of, texts,
};
use vstd::prelude::*;

verus! {

/// The page that a document without pages gets: the root of the site,
/// with no title, nothing for search engines, and no blocks.
pub open spec fn root_page() -> PageView {
    PageView {
        id: "home"@,
        title: ""@,
        route: "/"@,
        seo: SeoView { title: ""@, description: ""@ },
        blocks: Seq::empty(),
    }
}

/// The page that a new project starts with: the root of the site, under
/// the title `Home`.
pub open spec fn home_page() -> PageView {
    PageView {
        id: "home"@,
        title: "Home"@,
        route: "/"@,
        seo: SeoView { title: "Home"@, description: ""@ },
        blocks: Seq::empty(),
    }
}

/// The document that a new project starts with: the site as the metadata
/// names it, and the home page alone.
pub open spec fn default_doc(metadata: ProjectMetadataView) -> DocView {
    DocView {
        site: SiteView { site_name: metadata.name, base_url: metadata.site_url },
        sitemap: SitemapView { page_order: seq!["home"@], root_page_id: "home"@ },
        pages: seq![home_page()],
        selected_page_id: "home"@,
    }
}

/// The pages of a document, or the root page alone where it has none.
pub open spec fn pages_or_home(pages: Seq<PageView>) -> Seq<PageView> {
    if pages.len() == 0 {
        seq![root_page()]
    } else {
        pages
    }
}

/// The pages with the given ids in place of their own.
pub open spec fn with_ids(pages: Seq<PageView>, ids: Seq<Seq<char>>) -> Seq<PageView> {
    Seq::new(pages.len(), |i: int| PageView { id: ids[i], ..pages[i] })
}

/// What an id refers to once the pages have their new ids: the new id of
/// the last page that held `id` before, and `id` itself where no page
/// held it.
pub open spec fn renamed(old_ids: Seq<Seq<char>>, new_ids: Seq<Seq<char>>, id: Seq<char>) -> Seq<
    char,
>
    decreases old_ids.len(),
{
    if old_ids.len() == 0 {
        id
    } else if old_ids.last() == id {
        new_ids[old_ids.len() - 1]
    } else {
        renamed(old_ids.drop_last(), new_ids, id)
    }
}

/// What is kept of a page order: each entry renamed, in the order of the
/// entries, without those that name no page and without those that name
/// a page that an earlier entry names.
pub open spec fn kept_order(
    entries: Seq<Seq<char>>,
    old_ids: Seq<Seq<char>>,
    new_ids: Seq<Seq<char>>,
) -> Seq<Seq<char>>
    decreases entries.len(),
{
    if entries.len() == 0 {
        Seq::empty()
    } else {
        let before = kept_order(entries.drop_last(), old_ids, new_ids);
        let id = renamed(old_ids, new_ids, entries.last());
        if new_ids.contains(id) && !before.contains(id) {
            before.push(id)
        } else {
            before
        }
    }
}

/// `order` followed by those of `ids` that it lacks, in the order of `ids`.
pub open spec fn with_missing(order: Seq<Seq<char>>, ids: Seq<Seq<char>>) -> Seq<Seq<char>>
    decreases ids.len(),
{
    if ids.len() == 0 {
        order
    } else {
        let before = with_missing(order, ids.drop_last());
        if before.contains(ids.last()) {
            before
        } else {
            before.push(ids.last())
        }
    }
}

/// The page that a stored reference stands for: the renamed reference
/// where it names a page, and else `fallback`.
pub open spec fn resolved(
    id: Seq<char>,
    old_ids: Seq<Seq<char>>,
    new_ids: Seq<Seq<char>>,
    fallback: Seq<char>,
) -> Seq<char> {
    let target = renamed(old_ids, new_ids, id);
    if new_ids.contains(target) {
        target
    } else {
        fallback
    }
}

/// The canonical form of a document.
pub open spec fn normalized(doc: DocView) -> DocView {
    let pages = pages_or_home(doc.pages);
    let old_ids = ids_of(pages);
    let new_ids = assigned_ids(routes_of(pages));
    let order = with_missing(kept_order(doc.sitemap.page_order, old_ids, new_ids), new_ids);
    let root = resolved(doc.sitemap.root_page_id, old_ids, new_ids, order.first());
    let selected = resolved(doc.selected_page_id, old_ids, new_ids, root);
    DocView {
        site: doc.site,
        sitemap: SitemapView { page_order: order, root_page_id: root },
        pages: with_ids(pages, new_ids),
        selected_page_id: selected,
    }
}

/// What holds of every document in canonical form: it has a page, no two
/// pages share an id, the page order lists exactly the pages and each
/// once, and the root page and the selected page are among the pages.
pub open spec fn is_consistent(doc: DocView) -> bool {
    &&& doc.pages.len() > 0
    &&& ids_of(doc.pages).no_duplicates()
    &&& doc.sitemap.page_order.no_duplicates()
    &&& forall|id: Seq<char>|
        doc.sitemap.page_order.contains(id) <==> ids_of(doc.pages).contains(id)
    &&& ids_of(doc.pages).contains(doc.sitemap.root_page_id)
    &&& ids_of(doc.pages).contains(doc.selected_page_id)
}

/// An id that the pages already hold stands for itself when the pages
/// keep their ids.
pub proof fn lemma_renamed_to_itself(ids: Seq<Seq<char>>, k: int, id: Seq<char>)
    requires
        0 <= k <= ids.len(),
    ensures
        renamed(ids.take(k), ids, id) == id,
    decreases k,
{
    if k > 0 {
        let held = ids.take(k);
        assert(held.drop_last() == ids.take(k - 1));
        lemma_renamed_to_itself(ids, k - 1, id);
    }
}

/// What is kept of a page order names pages only, and none twice.
pub proof fn lemma_kept_order_is_valid(
    entries: Seq<Seq<char>>,
    old_ids: Seq<Seq<char>>,
    new_ids: Seq<Seq<char>>,
)
    ensures
        kept_order(entries, old_ids, new_ids).no_duplicates(),
        forall|id: Seq<char>| #[trigger]
            kept_order(entries, old_ids, new_ids).contains(id) ==> new_ids.contains(id),
    decreases entries.len(),
{
    if entries.len() > 0 {
        lemma_kept_order_is_valid(entries.drop_last(), old_ids, new_ids);
        let before = kept_order(entries.drop_last(), old_ids, new_ids);
        let id = renamed(old_ids, new_ids, entries.last());
        if new_ids.contains(id) && !before.contains(id) {
            lemma_push_keeps_distinct(before, id);
        }
    }
}

/// A list without repetitions stays so when it gets an item that it lacks,
/// and holds then what it held and the item.
pub proof fn lemma_push_keeps_distinct(list: Seq<Seq<char>>, item: Seq<char>)
    requires
        list.no_duplicates(),
        !list.contains(item),
    ensures
        list.push(item).no_duplicates(),
        forall|x: Seq<char>| #[trigger] list.push(item).contains(x) <==> list.contains(x) || x == item,
{
    let longer = list.push(item);
    assert forall|i: int, j: int| 0 <= i < longer.len() && 0 <= j < longer.len() && i != j implies longer[i]
        != longer[j] by {
        if i < list.len() {
            assert(list.contains(list[i]));
        }
        if j < list.len() {
            assert(list.contains(list[j]));
        }
    }
    assert forall|x: Seq<char>| #[trigger] longer.contains(x) <==> list.contains(x) || x == item by {
        if list.contains(x) {
            let i = choose|i: int| 0 <= i < list.len() && list[i] == x;
            assert(longer[i] == x);
        }
        if x == item {
            assert(longer[list.len() as int] == x);
        }
    }
}

/// Adding the missing ids keeps the order that was there and puts the
/// missing ones behind it: the result begins with `order`, holds what
/// `order` or `ids` holds, and repeats nothing where `order` repeats
/// nothing.
pub proof fn lemma_with_missing(order: Seq<Seq<char>>, ids: Seq<Seq<char>>)
    ensures
        order.is_prefix_of(with_missing(order, ids)),
        forall|x: Seq<char>| #[trigger]
            with_missing(order, ids).contains(x) <==> order.contains(x) || ids.contains(x),
        order.no_duplicates() ==> with_missing(order, ids).no_duplicates(),
        forall|i: int|
            order.len() <= i < with_missing(order, ids).len() ==> !order.contains(
                #[trigger] with_missing(order, ids)[i],
            ),
    decreases ids.len(),
{
    let full = with_missing(order, ids);
    if ids.len() == 0 {
        assert(order.is_prefix_of(order));
    } else {
        let rest = ids.drop_last();
        let before = with_missing(order, rest);
        lemma_with_missing(order, rest);
        assert forall|x: Seq<char>| ids.contains(x) <==> rest.contains(x) || x == ids.last() by {
            if ids.contains(x) {
                let i = choose|i: int| 0 <= i < ids.len() && ids[i] == x;
                if i < rest.len() {
                    assert(rest[i] == x);
                }
            }
            if rest.contains(x) {
                let i = choose|i: int| 0 <= i < rest.len() && rest[i] == x;
                assert(ids[i] == x);
            }
            if x == ids.last() {
                assert(ids[ids.len() - 1] == x);
            }
        }
        if !before.contains(ids.last()) {
            assert forall|x: Seq<char>| #[trigger]
                full.contains(x) <==> before.contains(x) || x == ids.last() by {
                if before.contains(x) {
                    let i = choose|i: int| 0 <= i < before.len() && before[i] == x;
                    assert(full[i] == x);
                }
                if x == ids.last() {
                    assert(full[before.len() as int] == x);
                }
            }
            if order.no_duplicates() {
                lemma_push_keeps_distinct(before, ids.last());
            }
            assert(order.is_prefix_of(full)) by {
                assert(order =~= full.subrange(0, order.len() as int));
            }
        }
    }
}

/// The ids of pages that were given ids are those ids.
pub proof fn lemma_ids_of_with_ids(pages: Seq<PageView>, ids: Seq<Seq<char>>)
    requires
        pages.len() == ids.len(),
    ensures
        ids_of(with_ids(pages, ids)) == ids,
        routes_of(with_ids(pages, ids)) == routes_of(pages),
        with_ids(pages, ids).len() == pages.len(),
{
    assert(ids_of(with_ids(pages, ids)) =~= ids);
    assert(routes_of(with_ids(pages, ids)) =~= routes_of(pages));
}

/// From whatever document it starts, the canonical form has a page, no
/// id twice among its pages, a page order that lists exactly the pages
/// and each once, and a root page and a selected page that are among the
/// pages.
pub proof fn lemma_normalized_is_consistent(doc: DocView)
    ensures
        is_consistent(normalized(doc)),
{
    let pages = pages_or_home(doc.pages);
    let old_ids = ids_of(pages);
    let new_ids = assigned_ids(routes_of(pages));
    let kept = kept_order(doc.sitemap.page_order, old_ids, new_ids);
    let order = with_missing(kept, new_ids);
    let out = normalized(doc);
    lemma_assigned_ids_distinct(routes_of(pages));
    lemma_ids_of_with_ids(pages, new_ids);
    lemma_kept_order_is_valid(doc.sitemap.page_order, old_ids, new_ids);
    lemma_with_missing(kept, new_ids);
    assert(new_ids.contains(new_ids[0]));
    assert(order.contains(new_ids[0]));
    assert(order.len() > 0);
    assert(order.contains(order.first()));
    assert(forall|id: Seq<char>| order.contains(id) <==> new_ids.contains(id));
}

/// Bringing a document into canonical form a second time changes nothing.
pub proof fn lemma_normalized_is_idempotent(doc: DocView)
    ensures
        normalized(normalized(doc)) == normalized(doc),
{
    let pages = pages_or_home(doc.pages);
    let old_ids = ids_of(pages);
    let ids = assigned_ids(routes_of(pages));
    let once = normalized(doc);
    lemma_normalized_is_consistent(doc);
    lemma_assigned_ids_distinct(routes_of(pages));
    lemma_ids_of_with_ids(pages, ids);
    assert(pages_or_home(once.pages) == once.pages);
    assert(ids_of(once.pages) == ids);
    assert(assigned_ids(routes_of(once.pages)) == ids);
    assert(with_ids(once.pages, ids) =~= once.pages);
    let order = once.sitemap.page_order;
    lemma_kept_order_unchanged(order, ids, order.len() as int);
    assert(order.take(order.len() as int) == order);
    lemma_with_missing_nothing(order, ids, ids.len() as int);
    assert(ids.take(ids.len() as int) == ids);
    lemma_renamed_to_itself(ids, ids.len() as int, once.sitemap.root_page_id);
    lemma_renamed_to_itself(ids, ids.len() as int, once.selected_page_id);
    let twice = normalized(once);
    assert(twice.sitemap.page_order == order);
    assert(twice.sitemap.root_page_id == once.sitemap.root_page_id);
    assert(twice.selected_page_id == once.selected_page_id);
    assert(twice.pages == once.pages);
}

/// A page order that names pages only, and none twice, is kept whole
/// when the pages keep their ids.
pub proof fn lemma_kept_order_unchanged(order: Seq<Seq<char>>, ids: Seq<Seq<char>>, k: int)
    requires
        0 <= k <= order.len(),
        order.no_duplicates(),
        forall|id: Seq<char>| order.contains(id) ==> ids.contains(id),
    ensures
        kept_order(order.take(k), ids, ids) == order.take(k),
    decreases k,
{
    if k > 0 {
        let head = order.take(k);
        assert(head.drop_last() == order.take(k - 1));
        lemma_kept_order_unchanged(order, ids, k - 1);
        lemma_renamed_to_itself(ids, ids.len() as int, head.last());
        assert(ids.take(ids.len() as int) == ids);
        assert(order.contains(order[k - 1]));
        let earlier = order.take(k - 1);
        assert(!earlier.contains(head.last())) by {
            if earlier.contains(head.last()) {
                let i = choose|i: int| 0 <= i < earlier.len() && earlier[i] == head.last();
                assert(order[i] == order[k - 1]);
            }
        }
        assert(order.take(k - 1).push(head.last()) == head);
    }
}

/// A page order that lists all the pages lacks none of them.
pub proof fn lemma_with_missing_nothing(order: Seq<Seq<char>>, ids: Seq<Seq<char>>, k: int)
    requires
        0 <= k <= ids.len(),
        forall|id: Seq<char>| ids.contains(id) ==> order.contains(id),
    ensures
        with_missing(order, ids.take(k)) == order,
    decreases k,
{
    if k > 0 {
        let head = ids.take(k);
        assert(head.drop_last() == ids.take(k - 1));
        lemma_with_missing_nothing(order, ids, k - 1);
        assert(ids.contains(ids[k - 1]));
    }
}

/// The ids of the pages in canonical form depend on the routes of the
/// pages alone: not on the ids that the pages had, nor on their titles
/// or their blocks.
pub proof fn lemma_page_ids_follow_routes(a: DocView, b: DocView)
    requires
        routes_of(a.pages) == routes_of(b.pages),
    ensures
        ids_of(normalized(a).pages) == ids_of(normalized(b).pages),
{
    let left = pages_or_home(a.pages);
    let right = pages_or_home(b.pages);
    assert(routes_of(a.pages).len() == a.pages.len());
    assert(routes_of(b.pages).len() == b.pages.len());
    assert(routes_of(left) =~= routes_of(right));
    lemma_assigned_ids_distinct(routes_of(left));
    lemma_ids_of_with_ids(left, assigned_ids(routes_of(left)));
    lemma_ids_of_with_ids(right, assigned_ids(routes_of(right)));
}

/// What the entry at position `p` of a page order names once the pages
/// have their new ids.
pub open spec fn named_at(
    entries: Seq<Seq<char>>,
    old_ids: Seq<Seq<char>>,
    new_ids: Seq<Seq<char>>,
    p: int,
) -> Seq<char> {
    renamed(old_ids, new_ids, entries[p])
}

/// Whether some entry of a page order names `id` once the pages have
/// their new ids.
pub open spec fn is_named(
    entries: Seq<Seq<char>>,
    old_ids: Seq<Seq<char>>,
    new_ids: Seq<Seq<char>>,
    id: Seq<char>,
) -> bool {
    exists|p: int|
        0 <= p < entries.len() && #[trigger] named_at(entries, old_ids, new_ids, p) == id
}

/// Whether some entry of a page order names `first` and a later entry
/// names `second`.
pub open spec fn are_named_in_order(
    entries: Seq<Seq<char>>,
    old_ids: Seq<Seq<char>>,
    new_ids: Seq<Seq<char>>,
    first: Seq<char>,
    second: Seq<char>,
) -> bool {
    exists|p: int, q: int|
        0 <= p < q < entries.len() && #[trigger] named_at(entries, old_ids, new_ids, p) == first
            && #[trigger] named_at(entries, old_ids, new_ids, q) == second
}

/// What is kept of a page order stands in the order of the entries: each
/// kept id is named by an entry, and of two kept ids the earlier one is
/// named by an entry that stands before an entry that names the later one.
pub proof fn lemma_kept_order_follows_entries(
    entries: Seq<Seq<char>>,
    old_ids: Seq<Seq<char>>,
    new_ids: Seq<Seq<char>>,
)
    ensures
        forall|i: int|
            0 <= i < kept_order(entries, old_ids, new_ids).len() ==> is_named(
                entries,
                old_ids,
                new_ids,
                #[trigger] kept_order(entries, old_ids, new_ids)[i],
            ),
        forall|i: int, j: int|
            0 <= i < j < kept_order(entries, old_ids, new_ids).len() ==> are_named_in_order(
                entries,
                old_ids,
                new_ids,
                #[trigger] kept_order(entries, old_ids, new_ids)[i],
                #[trigger] kept_order(entries, old_ids, new_ids)[j],
            ),
    decreases entries.len(),
{
    let kept = kept_order(entries, old_ids, new_ids);
    if entries.len() > 0 {
        let rest = entries.drop_last();
        let before = kept_order(rest, old_ids, new_ids);
        let last = entries.len() - 1;
        lemma_kept_order_follows_entries(rest, old_ids, new_ids);
        assert forall|i: int| 0 <= i < kept.len() implies is_named(
            entries,
            old_ids,
            new_ids,
            #[trigger] kept[i],
        ) by {
            if i < before.len() {
                assert(is_named(rest, old_ids, new_ids, before[i]));
                let p = choose|p: int|
                    0 <= p < rest.len() && #[trigger] named_at(rest, old_ids, new_ids, p)
                        == before[i];
                assert(named_at(entries, old_ids, new_ids, p) == kept[i]);
            } else {
                assert(named_at(entries, old_ids, new_ids, last) == kept[i]);
            }
        }
        assert forall|i: int, j: int| 0 <= i < j < kept.len() implies are_named_in_order(
            entries,
            old_ids,
            new_ids,
            #[trigger] kept[i],
            #[trigger] kept[j],
        ) by {
            if j < before.len() {
                assert(are_named_in_order(rest, old_ids, new_ids, before[i], before[j]));
                let (p, q) = choose|p: int, q: int|
                    0 <= p < q < rest.len() && #[trigger] named_at(rest, old_ids, new_ids, p)
                        == before[i] && #[trigger] named_at(rest, old_ids, new_ids, q)
                        == before[j];
                assert(named_at(entries, old_ids, new_ids, p) == kept[i]);
                assert(named_at(entries, old_ids, new_ids, q) == kept[j]);
            } else {
                assert(is_named(rest, old_ids, new_ids, before[i]));
                let p = choose|p: int|
                    0 <= p < rest.len() && #[trigger] named_at(rest, old_ids, new_ids, p)
                        == before[i];
                assert(named_at(entries, old_ids, new_ids, p) == kept[i]);
                assert(named_at(entries, old_ids, new_ids, last) == kept[j]);
            }
        }
    }
}

/// Adding the missing ids puts behind the order exactly the ids that it
/// lacks, in the order in which the pages hold them.
pub proof fn lemma_with_missing_appends(order: Seq<Seq<char>>, ids: Seq<Seq<char>>)
    requires
        ids.no_duplicates(),
    ensures
        with_missing(order, ids) == order + ids.filter(|id: Seq<char>| !order.contains(id)),
    decreases ids.len(),
{
    let lacking = |id: Seq<char>| !order.contains(id);
    if ids.len() == 0 {
        reveal(Seq::filter);
        assert(order + ids.filter(lacking) == order);
    } else {
        let rest = ids.drop_last();
        let before = with_missing(order, rest);
        lemma_with_missing_appends(order, rest);
        lemma_with_missing(order, rest);
        rest.lemma_filter_push(ids.last(), lacking);
        assert(rest.push(ids.last()) == ids);
        assert(!rest.contains(ids.last())) by {
            if rest.contains(ids.last()) {
                let i = choose|i: int| 0 <= i < rest.len() && rest[i] == ids.last();
                assert(ids[i] == ids[ids.len() - 1]);
            }
        }
        if !before.contains(ids.last()) {
            assert(before.push(ids.last()) == order + rest.filter(lacking).push(ids.last()));
        }
    }
}

/// The page order of the canonical form is what is kept of the old page
/// order, in the old order, followed by the ids of the pages that it does
/// not list, in the order of the pages.
pub proof fn lemma_normalized_page_order(doc: DocView)
    ensures
        ({
            let pages = pages_or_home(doc.pages);
            let ids = assigned_ids(routes_of(pages));
            let kept = kept_order(doc.sitemap.page_order, ids_of(pages), ids);
            normalized(doc).sitemap.page_order == kept + ids.filter(
                |id: Seq<char>| !kept.contains(id),
            )
        }),
{
    let pages = pages_or_home(doc.pages);
    let ids = assigned_ids(routes_of(pages));
    let kept = kept_order(doc.sitemap.page_order, ids_of(pages), ids);
    lemma_assigned_ids_distinct(routes_of(pages));
    lemma_with_missing_appends(kept, ids);
}

/// The document that a new project starts with is in canonical form.
pub proof fn lemma_default_doc_is_normal(metadata: ProjectMetadataView)
    ensures
        normalized(default_doc(metadata)) == default_doc(metadata),
{
    let doc = default_doc(metadata);
    let routes = routes_of(doc.pages);
    let home = "home"@;
    assert(routes =~= seq!["/"@]);
    assert(routes.drop_last() =~= Seq::<Seq<char>>::empty());
    lemma_canonical_id_of_root();
    assert(assigned_ids(routes.drop_last()) =~= Seq::<Seq<char>>::empty());
    assert(!Seq::<Seq<char>>::empty().contains(home));
    assert(assigned_ids(routes) =~= seq![home]);
    let ids = assigned_ids(routes);
    assert(ids_of(doc.pages) =~= ids);
    assert(with_ids(doc.pages, ids) =~= doc.pages);
    assert(ids.contains(home)) by {
        assert(ids[0] == home);
    }
    lemma_renamed_to_itself(ids, 1, home);
    assert(ids.take(1) == ids);
    let order = doc.sitemap.page_order;
    assert(order =~= ids);
    assert forall|id: Seq<char>| order.contains(id) implies ids.contains(id) by {}
    lemma_kept_order_unchanged(order, ids, 1);
    assert(order.take(1) == order);
    lemma_with_missing_nothing(order, ids, 1);
}

/// The page that a document without pages gets.
pub fn root_page_doc() -> (page: PageDoc)
    ensures
        page@ == root_page(),
{
    PageDoc {
        id: "home".to_string(),
        title: "".to_string(),
        route: "/".to_string(),
        seo: PageSeoDoc { title: "".to_string(), description: "".to_string() },
        blocks: Vec::new(),
    }
}

/// The page that a new project starts with.
pub fn home_page_doc() -> (page: PageDoc)
    ensures
        page@ == home_page(),
{
    PageDoc {
        id: "home".to_string(),
        title: "Home".to_string(),
        route: "/".to_string(),
        seo: PageSeoDoc { title: "Home".to_string(), description: "".to_string() },
        blocks: Vec::new(),
    }
}

/// The document that a new project starts with.
pub fn default_builder_doc(metadata: &ProjectMetadata) -> (doc: BuilderProjectDoc)
    ensures
        doc@ == default_doc(metadata@),
{
    let mut page_order: Vec<String> = Vec::new();
    page_order.push("home".to_string());
    let mut pages: Vec<PageDoc> = Vec::new();
    pages.push(home_page_doc());
    let doc = BuilderProjectDoc {
        site: SiteDoc { site_name: metadata.name.clone(), base_url: metadata.site_url.clone() },
        sitemap: SitemapDoc { page_order, root_page_id: "home".to_string() },
        pages,
        selected_page_id: "home".to_string(),
    };
    assert(doc@.sitemap.page_order == seq!["home"@]);
    assert(doc@.pages == seq![home_page()]);
    doc
}

/// Gives every page the id that its route and the pages before it call
/// for. Returns the ids that the pages had, and the ids that they have
/// now.
fn assign_page_ids(pages: &mut Vec<PageDoc>) -> (ids: (Vec<Vec<char>>, Vec<Vec<char>>))
    ensures
        ids.0.len() == ids.1.len(),
        texts(ids.0@) == ids_of(page_views(old(pages)@)),
        texts(ids.1@) == assigned_ids(routes_of(page_views(old(pages)@))),
        page_views(final(pages)@) == with_ids(page_views(old(pages)@), texts(ids.1@)),
{
    let ghost source = page_views(pages@);
    let mut old_ids: Vec<Vec<char>> = Vec::new();
    let mut routes: Vec<Vec<char>> = Vec::new();
    let mut i: usize = 0;
    while i < pages.len()
        invariant
            i <= pages.len(),
            source == page_views(pages@),
            old_ids.len() == i,
            texts(old_ids@) == ids_of(source).take(i as int),
            texts(routes@) == routes_of(source).take(i as int),
        decreases pages.len() - i,
    {
        let ghost ids_before = texts(old_ids@);
        let ghost routes_before = texts(routes@);
        let previous = chars_of(pages[i].id.as_str());
        let route = chars_of(pages[i].route.as_str());
        old_ids.push(previous);
        routes.push(route);
        assert(texts(old_ids@) == ids_before.push(source[i as int].id));
        assert(texts(routes@) == routes_before.push(source[i as int].route));
        i += 1;
    }
    assert(routes_of(source).take(i as int) == routes_of(source));
    assert(ids_of(source).take(i as int) == ids_of(source));
    let new_ids = assign_ids(&routes);
    let mut k: usize = 0;
    while k < pages.len()
        invariant
            k <= pages.len(),
            pages.len() == source.len(),
            new_ids.len() == source.len(),
            forall|j: int|
                0 <= j < k ==> (#[trigger] pages@[j])@ == (PageView {
                    id: new_ids@[j]@,
                    ..source[j]
                }),
            forall|j: int| k <= j < pages.len() ==> (#[trigger] pages@[j])@ == source[j],
        decreases pages.len() - k,
    {
        pages[k].id = string_of(&new_ids[k]);
        k += 1;
    }
    assert(page_views(pages@) == with_ids(source, texts(new_ids@)));
    (old_ids, new_ids)
}

/// What `id` refers to once the pages have their new ids.
fn rename_id(old_ids: &Vec<Vec<char>>, new_ids: &Vec<Vec<char>>, id: &Vec<char>) -> (out: Vec<char>)
    requires
        old_ids.len() == new_ids.len(),
    ensures
        out@ == renamed(texts(old_ids@), texts(new_ids@), id@),
{
    let mut k: usize = old_ids.len();
    assert(texts(old_ids@).take(k as int) == texts(old_ids@));
    while k > 0
        invariant
            k <= old_ids.len(),
            old_ids.len() == new_ids.len(),
            renamed(texts(old_ids@), texts(new_ids@), id@) == renamed(
                texts(old_ids@).take(k as int),
                texts(new_ids@),
                id@,
            ),
        decreases k,
    {
        proof {
            let held = texts(old_ids@).take(k as int);
            assert(held.last() == old_ids@[k - 1]@);
            assert(held.drop_last() == texts(old_ids@).take(k - 1));
        }
        if same_chars(&old_ids[k - 1], id) {
            return copy_of(&new_ids[k - 1]);
        }
        k -= 1;
    }
    copy_of(id)
}

/// The page order of the canonical form.
fn rebuild_order(entries: &Vec<String>, old_ids: &Vec<Vec<char>>, new_ids: &Vec<Vec<char>>) -> (order:
    Vec<Vec<char>>)
    requires
        old_ids.len() == new_ids.len(),
    ensures
        texts(order@) == with_missing(
            kept_order(string_texts(entries@), texts(old_ids@), texts(new_ids@)),
            texts(new_ids@),
        ),
{
    let mut order: Vec<Vec<char>> = Vec::new();
    let mut i: usize = 0;
    while i < entries.len()
        invariant
            i <= entries.len(),
            old_ids.len() == new_ids.len(),
            texts(order@) == kept_order(
                string_texts(entries@).take(i as int),
                texts(old_ids@),
                texts(new_ids@),
            ),
        decreases entries.len() - i,
    {
        let entry = chars_of(entries[i].as_str());
        let id = rename_id(old_ids, new_ids, &entry);
        proof {
            let listed = string_texts(entries@);
            assert(listed.take(i + 1).drop_last() == listed.take(i as int));
            assert(listed.take(i + 1).last() == entry@);
        }
        if contains_text(new_ids, &id) && !contains_text(&order, &id) {
            let ghost before = texts(order@);
            order.push(id);
            assert(texts(order@) == before.push(id@));
        }
        i += 1;
    }
    assert(string_texts(entries@).take(i as int) == string_texts(entries@));
    let ghost kept = texts(order@);
    let mut j: usize = 0;
    while j < new_ids.len()
        invariant
            j <= new_ids.len(),
            texts(order@) == with_missing(kept, texts(new_ids@).take(j as int)),
        decreases new_ids.len() - j,
    {
        proof {
            let ids = texts(new_ids@);
            assert(ids.take(j + 1).drop_last() == ids.take(j as int));
            assert(ids.take(j + 1).last() == new_ids@[j as int]@);
        }
        if !contains_text(&order, &new_ids[j]) {
            let ghost before = texts(order@);
            let id = copy_of(&new_ids[j]);
            order.push(id);
            assert(texts(order@) == before.push(id@));
        }
        j += 1;
    }
    assert(texts(new_ids@).take(j as int) == texts(new_ids@));
    order
}

/// The page that a stored reference stands for.
fn resolve_id(
    id: &str,
    old_ids: &Vec<Vec<char>>,
    new_ids: &Vec<Vec<char>>,
    fallback: &Vec<char>,
) -> (out: Vec<char>)
    requires
        old_ids.len() == new_ids.len(),
    ensures
        out@ == resolved(id@, texts(old_ids@), texts(new_ids@), fallback@),
{
    let given = chars_of(id);
    let target = rename_id(old_ids, new_ids, &given);
    if contains_text(new_ids, &target) {
        target
    } else {
        copy_of(fallback)
    }
}

/// Brings a document into its canonical form. A document without pages
/// gets the root page. Every page gets the id that its route calls for;
/// the page order, the root page and the selected page follow the pages
/// to their new ids, and what they name in vain is dropped or replaced.
pub fn normalize_builder_doc(doc: BuilderProjectDoc) -> (out: BuilderProjectDoc)
    ensures
        out@ == normalized(doc@),
        is_consistent(out@),
{
    let BuilderProjectDoc { site, sitemap, pages, selected_page_id } = doc;
    let mut pages = pages;
    if pages.len() == 0 {
        pages.push(root_page_doc());
        assert(page_views(pages@) == seq![root_page()]);
    }
    let ghost source = page_views(pages@);
    assert(source == pages_or_home(doc@.pages));
    let (old_ids, new_ids) = assign_page_ids(&mut pages);
    let order = rebuild_order(&sitemap.page_order, &old_ids, &new_ids);
    proof {
        lemma_normalized_is_consistent(doc@);
        let listed = normalized(doc@).sitemap.page_order;
        assert(listed == texts(order@));
        assert(is_consistent(normalized(doc@)));
        let first = ids_of(normalized(doc@).pages)[0];
        assert(ids_of(normalized(doc@).pages).contains(first));
        assert(listed.contains(first));
        assert(texts(order@).len() == order.len());
        assert(texts(order@).first() == order@[0]@);
    }
    let root = resolve_id(sitemap.root_page_id.as_str(), &old_ids, &new_ids, &order[0]);
    let selected = resolve_id(selected_page_id.as_str(), &old_ids, &new_ids, &root);
    BuilderProjectDoc {
        site,
        sitemap: SitemapDoc { page_order: strings_of(&order), root_page_id: string_of(&root) },
        pages,
        selected_page_id: string_of(&selected),
    }
}

} // verus!
