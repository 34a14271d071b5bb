//! What goes to and comes from a project directory: the names of the
//! files, the document that is put together from the files found there,
//! and the files that a save leaves behind for deletion.

use crate::doc::{
    ids_of, page_views, BuilderProjectDoc, DocView, PageDoc, PageView, ProjectMetadata,
    ProjectMetadataView, SiteDoc, SiteView, SitemapDoc, SitemapView,
};
use crate::normalize::{
    default_builder_doc, default_doc, is_consistent, lemma_default_doc_is_normal,
    lemma_normalized_is_consistent, lemma_normalized_is_idempotent, normalize_builder_doc,
    normalized,
};
use crate::order::{
    are_distinct_below, holds_position, lemma_sorted_by_key, positions, sort_positions,
    sorted_by_key, take_in_order,
};
use crate::text::{
    chars_of, chars_of_each, contains_text, same_chars, same_text, slice_of, string_of,
    string_texts, texts,
};
use vstd::prelude::*;

verus! {

/// The file that holds the metadata of a project.
pub const PROJECT_META_FILE: &'static str = "project.json";

/// The file that holds the site of a document.
pub const SITE_FILE: &'static str = "site.json";

/// The file that holds the sitemap of a document.
pub const SITEMAP_FILE: &'static str = "sitemap.json";

/// The directory that holds one file for each page.
pub const PAGES_DIR: &'static str = "pages";

/// The titles of a list of pages, in order.
pub open spec fn titles_of(pages: Seq<PageView>) -> Seq<Seq<char>> {
    pages.map_values(|page: PageView| page.title)
}

/// The position of the last of `ids` that equals `id`, if there is one.
pub open spec fn last_position(ids: Seq<Seq<char>>, id: Seq<char>) -> Option<int>
    decreases ids.len(),
{
    if ids.len() == 0 {
        None
    } else if ids.last() == id {
        Some(ids.len() - 1)
    } else {
        last_position(ids.drop_last(), id)
    }
}

/// The positions of the pages that a page order lists, in the order in
/// which it lists them. Of the pages that share an id the last one counts,
/// and a page that is listed twice stands where it is listed first.
pub open spec fn listed_positions(entries: Seq<Seq<char>>, ids: Seq<Seq<char>>) -> Seq<int>
    decreases entries.len(),
{
    if entries.len() == 0 {
        Seq::empty()
    } else {
        let before = listed_positions(entries.drop_last(), ids);
        match last_position(ids, entries.last()) {
            Some(k) => if before.contains(k) {
                before
            } else {
                before.push(k)
            },
            None => before,
        }
    }
}

/// Whether the page at position `k` is the last one with its id and is
/// not listed by the page order.
pub open spec fn is_unlisted(entries: Seq<Seq<char>>, ids: Seq<Seq<char>>, k: int) -> bool {
    last_position(ids, ids[k]) == Some(k) && !entries.contains(ids[k])
}

/// The positions below `n` of the pages that the page order does not
/// list, in rising order.
pub open spec fn unlisted_positions(entries: Seq<Seq<char>>, ids: Seq<Seq<char>>, n: int) -> Seq<
    int,
>
    decreases n,
{
    if n <= 0 {
        Seq::empty()
    } else {
        let before = unlisted_positions(entries, ids, n - 1);
        if is_unlisted(entries, ids, n - 1) {
            before.push(n - 1)
        } else {
            before
        }
    }
}

/// The order in which the pages found in a project directory enter the
/// document: first the pages that the page order lists, as it lists them,
/// then the others by title.
pub open spec fn load_order(
    entries: Seq<Seq<char>>,
    ids: Seq<Seq<char>>,
    titles: Seq<Seq<char>>,
) -> Seq<int> {
    listed_positions(entries, ids) + sorted_by_key(
        unlisted_positions(entries, ids, ids.len() as int),
        titles,
        false,
    )
}

/// The pages at the given positions.
pub open spec fn pages_at(pages: Seq<PageView>, order: Seq<int>) -> Seq<PageView> {
    order.map_values(|k: int| pages[k])
}

/// The document that stands for what was found in a project directory:
/// the default document where no page was found, and else the canonical
/// form of the site, the sitemap and the pages found, with no page
/// selected.
pub open spec fn loaded_doc(
    metadata: ProjectMetadataView,
    site: SiteView,
    sitemap: SitemapView,
    found: Seq<PageView>,
) -> DocView {
    if found.len() == 0 {
        default_doc(metadata)
    } else {
        normalized(
            DocView {
                site,
                sitemap,
                pages: pages_at(
                    found,
                    load_order(sitemap.page_order, ids_of(found), titles_of(found)),
                ),
                selected_page_id: ""@,
            },
        )
    }
}

/// The last position of an id is a position of that id.
pub proof fn lemma_last_position(ids: Seq<Seq<char>>, id: Seq<char>)
    ensures
        match last_position(ids, id) {
            Some(k) => 0 <= k < ids.len() && ids[k] == id,
            None => !ids.contains(id),
        },
    decreases ids.len(),
{
    if ids.len() > 0 && ids.last() != id {
        lemma_last_position(ids.drop_last(), id);
        if last_position(ids, id) is None {
            assert forall|i: int| 0 <= i < ids.len() implies ids[i] != id by {
                if i < ids.len() - 1 {
                    assert(ids.drop_last()[i] == ids[i]);
                    assert(ids.drop_last().contains(ids[i]));
                }
            }
        }
    }
}

/// The positions that a page order lists are positions of pages whose ids
/// it names, and none stands twice.
pub proof fn lemma_listed_positions(entries: Seq<Seq<char>>, ids: Seq<Seq<char>>)
    ensures
        are_distinct_below(listed_positions(entries, ids), ids.len() as int),
        forall|i: int|
            0 <= i < listed_positions(entries, ids).len() ==> entries.contains(
                ids[#[trigger] listed_positions(entries, ids)[i]],
            ),
    decreases entries.len(),
{
    if entries.len() > 0 {
        let rest = entries.drop_last();
        let before = listed_positions(rest, ids);
        let listed = listed_positions(entries, ids);
        lemma_listed_positions(rest, ids);
        lemma_last_position(ids, entries.last());
        assert forall|i: int| 0 <= i < listed.len() implies entries.contains(
            ids[#[trigger] listed[i]],
        ) by {
            if i < before.len() {
                let j = choose|j: int| 0 <= j < rest.len() && rest[j] == ids[before[i]];
                assert(entries[j] == ids[before[i]]);
            } else {
                assert(entries[entries.len() - 1] == ids[listed[i]]);
            }
        }
        assert forall|i: int, j: int|
            0 <= i < listed.len() && 0 <= j < listed.len() && i != j implies listed[i]
            != listed[j] by {
            if i < before.len() {
                assert(before.contains(before[i]));
            }
            if j < before.len() {
                assert(before.contains(before[j]));
            }
        }
    }
}

/// The positions that the page order does not list are below `n`, rise,
/// and are those of pages that it does not name.
pub proof fn lemma_unlisted_positions(entries: Seq<Seq<char>>, ids: Seq<Seq<char>>, n: int)
    ensures
        forall|i: int|
            0 <= i < unlisted_positions(entries, ids, n).len() ==> 0 <= #[trigger] unlisted_positions(
                entries,
                ids,
                n,
            )[i] < n && !entries.contains(ids[unlisted_positions(entries, ids, n)[i]]),
        forall|i: int, j: int|
            0 <= i < j < unlisted_positions(entries, ids, n).len() ==> #[trigger] unlisted_positions(
                entries,
                ids,
                n,
            )[i] < #[trigger] unlisted_positions(entries, ids, n)[j],
    decreases n,
{
    if n > 0 {
        let before = unlisted_positions(entries, ids, n - 1);
        let found = unlisted_positions(entries, ids, n);
        lemma_unlisted_positions(entries, ids, n - 1);
        assert forall|i: int| 0 <= i < found.len() implies 0 <= #[trigger] found[i] < n
            && !entries.contains(ids[found[i]]) by {
            if i < before.len() {
                assert(found[i] == before[i]);
            }
        }
        assert forall|i: int, j: int| 0 <= i < j < found.len() implies #[trigger] found[i]
            < #[trigger] found[j] by {
            assert(found[i] == before[i]);
            if j < before.len() {
                assert(found[j] == before[j]);
            }
        }
    }
}

/// Every page found enters the document at most once: the load order
/// holds positions of pages found, and none twice.
pub proof fn lemma_load_order(entries: Seq<Seq<char>>, ids: Seq<Seq<char>>, titles: Seq<Seq<char>>)
    ensures
        are_distinct_below(load_order(entries, ids, titles), ids.len() as int),
{
    let n = ids.len() as int;
    let listed = listed_positions(entries, ids);
    let unlisted = unlisted_positions(entries, ids, n);
    let sorted = sorted_by_key(unlisted, titles, false);
    let order = load_order(entries, ids, titles);
    lemma_listed_positions(entries, ids);
    lemma_unlisted_positions(entries, ids, n);
    lemma_sorted_by_key(unlisted, titles, false);
    assert(unlisted.no_duplicates());
    assert forall|i: int| 0 <= i < sorted.len() implies 0 <= #[trigger] sorted[i] < n
        && !entries.contains(ids[sorted[i]]) by {
        assert(sorted.contains(sorted[i]));
        assert(unlisted.contains(sorted[i]));
        let j = choose|j: int| 0 <= j < unlisted.len() && unlisted[j] == sorted[i];
    }
    assert forall|i: int, j: int|
        0 <= i < order.len() && 0 <= j < order.len() && i != j implies order[i] != order[j] by {
        if i < listed.len() && j >= listed.len() {
            assert(order[j] == sorted[j - listed.len()]);
        }
        if j < listed.len() && i >= listed.len() {
            assert(order[i] == sorted[i - listed.len()]);
        }
    }
}

/// The position of the last of `ids` that holds the characters of `id`.
fn last_position_of(ids: &Vec<Vec<char>>, id: &Vec<char>) -> (found: Option<usize>)
    ensures
        match found {
            Some(k) => last_position(texts(ids@), id@) == Some(k as int) && k < ids.len(),
            None => last_position(texts(ids@), id@) is None,
        },
{
    let mut k: usize = ids.len();
    assert(texts(ids@).take(k as int) == texts(ids@));
    while k > 0
        invariant
            k <= ids.len(),
            last_position(texts(ids@), id@) == last_position(texts(ids@).take(k as int), id@),
        decreases k,
    {
        proof {
            let held = texts(ids@).take(k as int);
            assert(held.last() == ids@[k - 1]@);
            assert(held.drop_last() == texts(ids@).take(k - 1));
        }
        if same_chars(&ids[k - 1], id) {
            return Some(k - 1);
        }
        k -= 1;
    }
    None
}

/// The positions of the pages that the page order lists.
fn listed_order(entries: &Vec<Vec<char>>, ids: &Vec<Vec<char>>) -> (order: Vec<usize>)
    ensures
        positions(order@) == listed_positions(texts(entries@), texts(ids@)),
{
    let mut order: Vec<usize> = Vec::new();
    let mut i: usize = 0;
    while i < entries.len()
        invariant
            i <= entries.len(),
            positions(order@) == listed_positions(texts(entries@).take(i as int), texts(ids@)),
        decreases entries.len() - i,
    {
        proof {
            let named = texts(entries@);
            assert(named.take(i + 1).drop_last() == named.take(i as int));
            assert(named.take(i + 1).last() == entries@[i as int]@);
        }
        match last_position_of(ids, &entries[i]) {
            Some(k) => {
                if !holds_position(&order, k) {
                    let ghost before = positions(order@);
                    order.push(k);
                    assert(positions(order@) == before.push(k as int));
                }
            },
            None => {},
        }
        i += 1;
    }
    assert(texts(entries@).take(i as int) == texts(entries@));
    order
}

/// The positions of the pages that the page order does not list, by
/// title.
fn unlisted_order(entries: &Vec<Vec<char>>, ids: &Vec<Vec<char>>, titles: &Vec<Vec<char>>) -> (order:
    Vec<usize>)
    requires
        ids.len() == titles.len(),
    ensures
        positions(order@) == sorted_by_key(
            unlisted_positions(texts(entries@), texts(ids@), ids.len() as int),
            texts(titles@),
            false,
        ),
{
    let mut found: Vec<usize> = Vec::new();
    let mut k: usize = 0;
    while k < ids.len()
        invariant
            k <= ids.len(),
            forall|i: int| 0 <= i < found.len() ==> found@[i] < ids.len(),
            positions(found@) == unlisted_positions(texts(entries@), texts(ids@), k as int),
        decreases ids.len() - k,
    {
        let last = last_position_of(ids, &ids[k]);
        let is_last = match last {
            Some(at) => at == k,
            None => false,
        };
        assert(texts(ids@)[k as int] == ids@[k as int]@);
        if is_last && !contains_text(entries, &ids[k]) {
            let ghost before = positions(found@);
            found.push(k);
            assert(positions(found@) == before.push(k as int));
        }
        k += 1;
    }
    sort_positions(&found, titles, false)
}

/// The document that stands for what was found in a project directory:
/// the site, the sitemap, and the pages in the order in which they were
/// read. Of the pages found with one id the one read last counts.
pub fn assemble_builder_doc(
    metadata: &ProjectMetadata,
    site: SiteDoc,
    sitemap: SitemapDoc,
    found: Vec<PageDoc>,
) -> (doc: BuilderProjectDoc)
    ensures
        doc@ == loaded_doc(metadata@, site@, sitemap@, page_views(found@)),
        is_consistent(doc@),
        normalized(doc@) == doc@,
{
    if found.len() == 0 {
        proof {
            lemma_default_doc_is_normal(metadata@);
            lemma_normalized_is_consistent(default_doc(metadata@));
        }
        return default_builder_doc(metadata);
    }
    let mut ids: Vec<Vec<char>> = Vec::new();
    let mut titles: Vec<Vec<char>> = Vec::new();
    let mut i: usize = 0;
    while i < found.len()
        invariant
            i <= found.len(),
            ids.len() == i,
            titles.len() == i,
            texts(ids@) == ids_of(page_views(found@)).take(i as int),
            texts(titles@) == titles_of(page_views(found@)).take(i as int),
        decreases found.len() - i,
    {
        let ghost ids_before = texts(ids@);
        let ghost titles_before = texts(titles@);
        let id = chars_of(found[i].id.as_str());
        let title = chars_of(found[i].title.as_str());
        ids.push(id);
        titles.push(title);
        assert(texts(ids@) == ids_before.push(found@[i as int].id@));
        assert(texts(titles@) == titles_before.push(found@[i as int].title@));
        i += 1;
    }
    assert(ids_of(page_views(found@)).take(i as int) == ids_of(page_views(found@)));
    assert(titles_of(page_views(found@)).take(i as int) == titles_of(page_views(found@)));
    let entries = chars_of_each(&sitemap.page_order);
    let mut order = listed_order(&entries, &ids);
    let mut rest = unlisted_order(&entries, &ids, &titles);
    let ghost listed = positions(order@);
    let ghost others = positions(rest@);
    order.append(&mut rest);
    proof {
        assert(positions(order@) == listed + others);
        lemma_load_order(texts(entries@), texts(ids@), texts(titles@));
    }
    let ghost got = page_views(found@);
    let pages = take_in_order(found, &order);
    assert(page_views(pages@) == pages_at(got, positions(order@)));
    let given = BuilderProjectDoc { site, sitemap, pages, selected_page_id: "".to_string() };
    proof {
        lemma_normalized_is_idempotent(given@);
    }
    normalize_builder_doc(given)
}

/// Whatever a load finds, the document that it makes of it is in
/// canonical form and consistent: making the canonical form of it anew
/// changes nothing.
pub proof fn lemma_loaded_doc_is_normal(
    metadata: ProjectMetadataView,
    site: SiteView,
    sitemap: SitemapView,
    found: Seq<PageView>,
)
    ensures
        normalized(loaded_doc(metadata, site, sitemap, found)) == loaded_doc(
            metadata,
            site,
            sitemap,
            found,
        ),
        is_consistent(loaded_doc(metadata, site, sitemap, found)),
{
    if found.len() == 0 {
        lemma_default_doc_is_normal(metadata);
        lemma_normalized_is_consistent(default_doc(metadata));
    } else {
        let given = DocView {
            site,
            sitemap,
            pages: pages_at(found, load_order(sitemap.page_order, ids_of(found), titles_of(found))),
            selected_page_id: ""@,
        };
        lemma_normalized_is_idempotent(given);
        lemma_normalized_is_consistent(given);
    }
}

/// The position of the last dot of a file name, if it has one.
pub open spec fn last_dot(name: Seq<char>) -> Option<int>
    decreases name.len(),
{
    if name.len() == 0 {
        None
    } else if name.last() == '.' {
        Some(name.len() - 1)
    } else {
        last_dot(name.drop_last())
    }
}

/// The extension of the name of a directory entry: what follows its last
/// dot. A name without a dot has none, nor has a name whose only dot
/// stands first, nor has the name `..`.
pub open spec fn extension_of(name: Seq<char>) -> Option<Seq<char>> {
    match last_dot(name) {
        Some(k) => if k == 0 || name == ".."@ {
            None
        } else {
            Some(name.skip(k + 1))
        },
        None => None,
    }
}

/// The name of the file that holds the page with the given id.
pub open spec fn page_file(id: Seq<char>) -> Seq<char> {
    id + ".json"@
}

/// The names of the files that hold the pages with the given ids.
pub open spec fn page_files(ids: Seq<Seq<char>>) -> Seq<Seq<char>> {
    ids.map_values(|id: Seq<char>| page_file(id))
}

/// Whether a file of the pages directory is left over once the files
/// `written` are in place: it is none of those written.
pub open spec fn is_stale(name: Seq<char>, written: Seq<Seq<char>>) -> bool {
    !written.contains(name)
}

/// Those of the files `existing` that are left over once the files
/// `written` are in place, in the order of `existing`.
pub open spec fn stale_files(existing: Seq<Seq<char>>, written: Seq<Seq<char>>) -> Seq<Seq<char>> {
    existing.filter(|name: Seq<char>| is_stale(name, written))
}

/// What of a project directory a load has to find for reading it: the
/// site file, the sitemap file and the pages directory.
pub open spec fn is_seeded(has_site: bool, has_sitemap: bool, has_pages: bool) -> bool {
    has_site && has_sitemap && has_pages
}

/// One more file at the end of `existing` adds itself to the files left
/// over if it is left over, and changes nothing else.
pub proof fn lemma_stale_files_push(
    existing: Seq<Seq<char>>,
    written: Seq<Seq<char>>,
    name: Seq<char>,
)
    ensures
        stale_files(existing.push(name), written) == if is_stale(name, written) {
            stale_files(existing, written).push(name)
        } else {
            stale_files(existing, written)
        },
{
    existing.lemma_filter_push(name, |name: Seq<char>| is_stale(name, written));
}

/// What a save does to a project directory: the document that it writes,
/// in canonical form, and for each page the name of its file.
pub struct SavePlan {
    pub document: BuilderProjectDoc,
    pub page_files: Vec<String>,
}

/// The position of the last dot among `chars`.
fn last_dot_of(chars: &Vec<char>) -> (found: Option<usize>)
    ensures
        match found {
            Some(k) => last_dot(chars@) == Some(k as int) && k < chars.len(),
            None => last_dot(chars@) is None,
        },
{
    let mut k: usize = chars.len();
    assert(chars@.take(k as int) == chars@);
    while k > 0
        invariant
            k <= chars.len(),
            last_dot(chars@) == last_dot(chars@.take(k as int)),
        decreases k,
    {
        assert(chars@.take(k as int).drop_last() == chars@.take(k - 1));
        if chars[k - 1] == '.' {
            return Some(k - 1);
        }
        k -= 1;
    }
    None
}

/// The extension of the name of a directory entry.
pub fn file_extension(name: &str) -> (extension: Option<String>)
    ensures
        match extension {
            Some(text) => extension_of(name@) == Some(text@),
            None => extension_of(name@) is None,
        },
{
    let chars = chars_of(name);
    let parent = chars_of("..");
    match last_dot_of(&chars) {
        Some(k) => {
            if k == 0 || same_chars(&chars, &parent) {
                None
            } else {
                let tail = slice_of(&chars, k + 1, chars.len());
                Some(string_of(&tail))
            }
        },
        None => None,
    }
}

/// Whether the name of a directory entry has the extension `json`.
pub fn has_json_extension(name: &str) -> (yes: bool)
    ensures
        yes == (extension_of(name@) == Some("json"@)),
{
    match file_extension(name) {
        Some(text) => same_text(text.as_str(), "json"),
        None => false,
    }
}

/// The name of the file that holds the page with the given id.
pub fn page_file_name(page_id: &str) -> (name: String)
    ensures
        name@ == page_file(page_id@),
{
    let mut name = String::new();
    name.append(page_id);
    name.append(".json");
    assert(name@ == page_id@ + ".json"@);
    name
}

/// Whether a load finds what it needs for reading a project directory.
/// Where it does not, the directory gets the default document.
pub fn is_seeded_dir(has_site: bool, has_sitemap: bool, has_pages: bool) -> (seeded: bool)
    ensures
        seeded == is_seeded(has_site, has_sitemap, has_pages),
{
    has_site && has_sitemap && has_pages
}

/// What a save of the given document writes: the document in canonical
/// form, and one file for each of its pages, named by the id of the page.
pub fn plan_save(doc: BuilderProjectDoc) -> (plan: SavePlan)
    ensures
        plan.document@ == normalized(doc@),
        is_consistent(plan.document@),
        string_texts(plan.page_files@) == page_files(ids_of(plan.document@.pages)),
{
    let document = normalize_builder_doc(doc);
    let mut names: Vec<String> = Vec::new();
    let mut i: usize = 0;
    while i < document.pages.len()
        invariant
            i <= document.pages.len(),
            string_texts(names@) == page_files(ids_of(document@.pages)).take(i as int),
        decreases document.pages.len() - i,
    {
        let ghost before = string_texts(names@);
        let name = page_file_name(document.pages[i].id.as_str());
        names.push(name);
        assert(string_texts(names@) == before.push(name@));
        assert(ids_of(document@.pages)[i as int] == document.pages@[i as int].id@);
        i += 1;
    }
    assert(page_files(ids_of(document@.pages)).take(i as int) == page_files(
        ids_of(document@.pages),
    ));
    SavePlan { document, page_files: names }
}

/// Those of the files found in the pages directory that a save deletes
/// after it has written the files `written`: every file that it did not
/// write, so that the directory holds the pages of the document and
/// nothing else.
pub fn stale_page_files(existing: &Vec<String>, written: &Vec<String>) -> (stale: Vec<String>)
    ensures
        string_texts(stale@) == stale_files(string_texts(existing@), string_texts(written@)),
{
    let kept = chars_of_each(written);
    let mut stale: Vec<String> = Vec::new();
    let mut i: usize = 0;
    assert(string_texts(existing@).take(0) == Seq::<Seq<char>>::empty());
    proof {
        reveal(Seq::filter);
    }
    while i < existing.len()
        invariant
            i <= existing.len(),
            texts(kept@) == string_texts(written@),
            string_texts(stale@) == stale_files(
                string_texts(existing@).take(i as int),
                string_texts(written@),
            ),
        decreases existing.len() - i,
    {
        let name = existing[i].as_str();
        let chars = chars_of(name);
        proof {
            let found = string_texts(existing@);
            lemma_stale_files_push(found.take(i as int), string_texts(written@), name@);
            assert(found.take(i as int).push(name@) == found.take(i + 1));
        }
        if !contains_text(&kept, &chars) {
            let ghost before = string_texts(stale@);
            let copy = string_of(&chars);
            stale.push(copy);
            assert(string_texts(stale@) == before.push(name@));
        }
        i += 1;
    }
    assert(string_texts(existing@).take(i as int) == string_texts(existing@));
    stale
}

} // verus!
