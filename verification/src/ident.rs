//! Identifiers derived from text: the id of a page from its route, the
//! directory slug of a project from its name, and the site URL with its
//! scheme.

use crate::text::{
    ascii_lower, ascii_lower_char, chars_of, chars_of_each, collapse_dashes, collapsed_dashes,
    contains_text, copy_of, decimal, has_prefix, is_ascii_alphanumeric,
    is_ascii_alphanumeric_char, is_ascii_whitespace, is_ascii_whitespace_char, is_whitespace,
    lemma_decimal_injective, push_decimal, string_of, string_texts, strings_of, texts, trim,
    trim_start, trimmed,
};
use vstd::prelude::*;
use vstd::set_lib::lemma_len_subset;

verus! {

/// What a character of a route contributes to the page id: nothing for a
/// slash, the small letter or the digit for an ASCII letter or digit, and
/// a dash for anything else.
pub open spec fn route_char(c: char) -> Option<char> {
    if c == '/' {
        None
    } else if is_ascii_alphanumeric(c) {
        Some(ascii_lower(c))
    } else {
        Some('-')
    }
}

/// The characters that the segments of a route contribute to the page id,
/// one after the other with nothing between the segments.
pub open spec fn route_chars(route: Seq<char>) -> Seq<char> {
    route.filter_map(|c: char| route_char(c))
}

/// The id that a page with the given route gets before collisions with
/// other pages are resolved.
pub open spec fn canonical_id(route: Seq<char>) -> Seq<char> {
    let id = collapse_dashes(route_chars(trim(route)));
    if id.len() == 0 {
        "home"@
    } else {
        id
    }
}

/// What a character of a lower-cased project name contributes to the
/// slug: itself for an ASCII letter, an ASCII digit or a dash, a dash for
/// ASCII whitespace or an underscore, and nothing for anything else.
pub open spec fn slug_char(c: char) -> Option<char> {
    if is_ascii_alphanumeric(c) || c == '-' {
        Some(c)
    } else if is_ascii_whitespace(c) || c == '_' {
        Some('-')
    } else {
        None
    }
}

/// The characters that a lower-cased project name contributes to the slug.
pub open spec fn slug_chars(lowered: Seq<char>) -> Seq<char> {
    lowered.filter_map(|c: char| slug_char(c))
}

/// The slug of a project whose trimmed and lower-cased name is `lowered`.
/// An empty name stands for `new-project`.
pub open spec fn slug_of(lowered: Seq<char>) -> Seq<char> {
    let source = if lowered.len() == 0 {
        "new-project"@
    } else {
        lowered
    };
    collapse_dashes(slug_chars(source))
}

/// The lower-case form of a text as the Unicode character database
/// defines it, which `str::to_lowercase` computes.
pub uninterp spec fn lowercase_of(s: Seq<char>) -> Seq<char>;

/// The site URL that stands for what the user typed: a fixed address for
/// a blank input, the trimmed input where it names its scheme, and else
/// the trimmed input behind `https://`.
pub open spec fn site_url_of(raw: Seq<char>) -> Seq<char> {
    let url = trim(raw);
    if url.len() == 0 {
        "https://example.com"@
    } else if "http://"@.is_prefix_of(url) || "https://"@.is_prefix_of(url) {
        url
    } else {
        "https://"@ + url
    }
}

/// The `n`-th variant of the id `base`: the id, a dash and the number.
pub open spec fn numbered_id(base: Seq<char>, n: nat) -> Seq<char> {
    base + seq!['-'] + decimal(n)
}

/// Whether `n` is the first number from two on whose variant of `base`
/// is not among `used`.
pub open spec fn is_first_free(base: Seq<char>, used: Seq<Seq<char>>, n: nat) -> bool {
    &&& 2 <= n
    &&& !used.contains(numbered_id(base, n))
    &&& forall|m: nat| 2 <= m < n ==> used.contains(#[trigger] numbered_id(base, m))
}

/// The id that a page with the candidate id `base` gets when the pages
/// before it hold the ids `used`: `base` itself where it is free, and
/// else its first free variant `base-2`, `base-3`, and so on.
pub open spec fn free_id(base: Seq<char>, used: Seq<Seq<char>>) -> Seq<char> {
    if !used.contains(base) {
        base
    } else {
        numbered_id(base, choose|n: nat| is_first_free(base, used, n))
    }
}

/// The ids of the pages with the given routes, in document order: each
/// page gets the canonical id of its route, made free of the ids of the
/// pages before it.
pub open spec fn assigned_ids(routes: Seq<Seq<char>>) -> Seq<Seq<char>>
    decreases routes.len(),
{
    if routes.len() == 0 {
        Seq::empty()
    } else {
        let before = assigned_ids(routes.drop_last());
        before.push(free_id(canonical_id(routes.last()), before))
    }
}

/// The route `/` gives the id `home`.
pub proof fn lemma_canonical_id_of_root()
    ensures
        canonical_id("/"@) == "home"@,
{
    reveal_strlit("/");
    let route = "/"@;
    assert(route =~= seq!['/']);
    assert(route.drop_first() =~= Seq::<char>::empty());
    assert(route.drop_last() =~= Seq::<char>::empty());
    assert(!is_whitespace('/'));
    assert(trim_start(route) == route);
    assert(trim(route) == route);
    let f = |c: char| route_char(c);
    assert(route.filter_map(f) == route.drop_last().filter_map(f));
    assert(route_chars(route) =~= Seq::<char>::empty());
}

/// Two variants of one id with different numbers differ.
pub proof fn lemma_numbered_id_injective(base: Seq<char>, a: nat, b: nat)
    requires
        numbered_id(base, a) == numbered_id(base, b),
    ensures
        a == b,
{
    let left = numbered_id(base, a);
    let right = numbered_id(base, b);
    let from = (base.len() + 1) as int;
    assert(left.skip(from) == decimal(a));
    assert(right.skip(from) == decimal(b));
    lemma_decimal_injective(a, b);
}

/// At most one number is the first free one.
pub proof fn lemma_first_free_unique(base: Seq<char>, used: Seq<Seq<char>>, a: nat, b: nat)
    requires
        is_first_free(base, used, a),
        is_first_free(base, used, b),
    ensures
        a == b,
{
    if a < b {
        assert(used.contains(numbered_id(base, a)));
    }
    if b < a {
        assert(used.contains(numbered_id(base, b)));
    }
}

/// Where the numbers from two up to `n` are all taken, `n` is at most
/// one more than the count of the ids in use.
pub proof fn lemma_taken_numbers_bounded(base: Seq<char>, used: Seq<Seq<char>>, n: nat)
    requires
        2 <= n,
        forall|m: nat| 2 <= m < n ==> used.contains(#[trigger] numbered_id(base, m)),
    ensures
        n <= used.len() + 2,
    decreases n,
{
    let taken = Set::new(|x: Seq<char>| exists|m: nat| 2 <= m < n && x == numbered_id(base, m));
    lemma_taken_numbers_counted(base, n);
    assert(taken.subset_of(used.to_set()));
    used.lemma_cardinality_of_set();
    lemma_len_subset(taken, used.to_set());
}

/// The variants of `base` with the numbers from two up to `n` are `n - 2`
/// different ids.
pub proof fn lemma_taken_numbers_counted(base: Seq<char>, n: nat)
    requires
        2 <= n,
    ensures
        Set::new(
            |x: Seq<char>| exists|m: nat| 2 <= m < n && x == numbered_id(base, m),
        ).finite(),
        Set::new(|x: Seq<char>| exists|m: nat| 2 <= m < n && x == numbered_id(base, m)).len() == n
            - 2,
    decreases n,
{
    let taken = Set::new(|x: Seq<char>| exists|m: nat| 2 <= m < n && x == numbered_id(base, m));
    if n == 2 {
        assert(taken == Set::<Seq<char>>::empty());
    } else {
        let k = (n - 1) as nat;
        let before = Set::new(
            |x: Seq<char>| exists|m: nat| 2 <= m < k && x == numbered_id(base, m),
        );
        lemma_taken_numbers_counted(base, k);
        assert(!before.contains(numbered_id(base, k))) by {
            if before.contains(numbered_id(base, k)) {
                let m = choose|m: nat| 2 <= m < k && numbered_id(base, k) == numbered_id(base, m);
                lemma_numbered_id_injective(base, k, m);
            }
        }
        assert(taken == before.insert(numbered_id(base, k)));
    }
}

/// Some number is the first free one.
pub proof fn lemma_first_free_exists(base: Seq<char>, used: Seq<Seq<char>>, from: nat) -> (n: nat)
    requires
        2 <= from,
        forall|m: nat| 2 <= m < from ==> used.contains(#[trigger] numbered_id(base, m)),
    ensures
        is_first_free(base, used, n),
    decreases used.len() + 2 - from,
{
    lemma_taken_numbers_bounded(base, used, from);
    if !used.contains(numbered_id(base, from)) {
        from
    } else {
        lemma_taken_numbers_bounded(base, used, from + 1);
        lemma_first_free_exists(base, used, from + 1)
    }
}

/// The id that `free_id` picks is not in use.
pub proof fn lemma_free_id_is_free(base: Seq<char>, used: Seq<Seq<char>>)
    ensures
        !used.contains(free_id(base, used)),
{
    if used.contains(base) {
        let n = lemma_first_free_exists(base, used, 2);
    }
}

/// No id is assigned to two pages, and every page gets one.
pub proof fn lemma_assigned_ids_distinct(routes: Seq<Seq<char>>)
    ensures
        assigned_ids(routes).len() == routes.len(),
        assigned_ids(routes).no_duplicates(),
    decreases routes.len(),
{
    if routes.len() > 0 {
        let before = assigned_ids(routes.drop_last());
        lemma_assigned_ids_distinct(routes.drop_last());
        lemma_free_id_is_free(canonical_id(routes.last()), before);
    }
}

/// `str::to_lowercase` of std: the lower-case form of the whole text. The
/// result is named, not described: it depends on the text alone.
#[verifier::external_body]
fn to_lowercase(s: &str) -> (lowered: String)
    ensures
        lowered@ == lowercase_of(s@),
{
    s.to_lowercase()
}

/// The characters of the canonical id of a page with the given route.
pub fn canonical_id_chars(route: &Vec<char>) -> (id: Vec<char>)
    ensures
        id@ == canonical_id(route@),
        id@.len() > 0,
{
    let source = trimmed(route);
    let mut flat: Vec<char> = Vec::new();
    let mut i: usize = 0;
    while i < source.len()
        invariant
            i <= source.len(),
            flat@ == route_chars(source@.take(i as int)),
        decreases source.len() - i,
    {
        let c = source[i];
        proof {
            source@.lemma_filter_map_take_succ(|c: char| route_char(c), i as int);
        }
        if c != '/' {
            if is_ascii_alphanumeric_char(c) {
                flat.push(ascii_lower_char(c));
            } else {
                flat.push('-');
            }
        }
        i += 1;
    }
    assert(source@.take(source.len() as int) == source@);
    let id = collapsed_dashes(&flat);
    if id.len() == 0 {
        proof {
            reveal_strlit("home");
        }
        chars_of("home")
    } else {
        id
    }
}

/// The id for a page whose candidate id is `base`, where the pages before
/// it hold the ids `used`.
pub fn unused_id(base: &Vec<char>, used: &Vec<Vec<char>>) -> (id: Vec<char>)
    ensures
        id@ == free_id(base@, texts(used@)),
        !texts(used@).contains(id@),
{
    if !contains_text(used, base) {
        return copy_of(base);
    }
    let mut number: u128 = 2;
    loop
        invariant
            2 <= number,
            texts(used@).contains(base@),
            forall|m: nat|
                2 <= m < number ==> texts(used@).contains(#[trigger] numbered_id(base@, m)),
        decreases used.len() + 2 - number,
    {
        proof {
            lemma_taken_numbers_bounded(base@, texts(used@), number as nat);
        }
        let mut candidate = copy_of(base);
        candidate.push('-');
        push_decimal(&mut candidate, number);
        assert(candidate@ == numbered_id(base@, number as nat));
        if !contains_text(used, &candidate) {
            proof {
                let picked = choose|n: nat| is_first_free(base@, texts(used@), n);
                assert(is_first_free(base@, texts(used@), number as nat));
                lemma_first_free_unique(base@, texts(used@), picked, number as nat);
            }
            return candidate;
        }
        proof {
            lemma_taken_numbers_bounded(base@, texts(used@), (number + 1) as nat);
        }
        number += 1;
    }
}

/// The ids of the pages with the given routes, in document order.
pub fn assign_ids(routes: &Vec<Vec<char>>) -> (ids: Vec<Vec<char>>)
    ensures
        ids.len() == routes.len(),
        texts(ids@) == assigned_ids(texts(routes@)),
{
    let mut ids: Vec<Vec<char>> = Vec::new();
    let mut i: usize = 0;
    while i < routes.len()
        invariant
            i <= routes.len(),
            ids.len() == i,
            texts(ids@) == assigned_ids(texts(routes@).take(i as int)),
        decreases routes.len() - i,
    {
        let base = canonical_id_chars(&routes[i]);
        let next = unused_id(&base, &ids);
        proof {
            let given = texts(routes@);
            assert(given.take(i + 1).drop_last() == given.take(i as int));
            assert(given.take(i + 1).last() == routes@[i as int]@);
        }
        let ghost before = texts(ids@);
        ids.push(next);
        assert(texts(ids@) == before.push(next@));
        i += 1;
    }
    assert(texts(routes@).take(i as int) == texts(routes@));
    ids
}

/// The ids of the pages with the given routes, in document order: each
/// page gets the canonical id of its route, and where pages before it
/// hold that id, the id with the first free number from two on. Of
/// routes that collide the first keeps the bare id.
pub fn resolve_page_ids(routes: &Vec<String>) -> (ids: Vec<String>)
    ensures
        string_texts(ids@) == assigned_ids(string_texts(routes@)),
{
    let given = chars_of_each(routes);
    let ids = assign_ids(&given);
    strings_of(&ids)
}

/// The id that a page with the given route gets before collisions with
/// other pages are resolved. It depends on the route alone.
pub fn canonical_page_id_from_route(route: &str) -> (id: String)
    ensures
        id@ == canonical_id(route@),
{
    let chars = chars_of(route);
    let id = canonical_id_chars(&chars);
    string_of(&id)
}

/// The slug of a project whose trimmed and lower-cased name is `lowered`.
pub fn slug_from_lowercase(lowered: &str) -> (slug: String)
    ensures
        slug@ == slug_of(lowered@),
{
    let given = chars_of(lowered);
    let source = if given.len() == 0 {
        chars_of("new-project")
    } else {
        given
    };
    let mut kept: Vec<char> = Vec::new();
    let mut i: usize = 0;
    while i < source.len()
        invariant
            i <= source.len(),
            kept@ == slug_chars(source@.take(i as int)),
        decreases source.len() - i,
    {
        let c = source[i];
        proof {
            source@.lemma_filter_map_take_succ(|c: char| slug_char(c), i as int);
        }
        if is_ascii_alphanumeric_char(c) || c == '-' {
            kept.push(c);
        } else if is_ascii_whitespace_char(c) || c == '_' {
            kept.push('-');
        }
        i += 1;
    }
    assert(source@.take(source.len() as int) == source@);
    let slug = collapsed_dashes(&kept);
    string_of(&slug)
}

/// The directory slug of a project with the given name.
pub fn normalize_slug(raw: &str) -> (slug: String)
    ensures
        slug@ == slug_of(lowercase_of(trim(raw@))),
{
    let name = string_of(&trimmed(&chars_of(raw)));
    let lowered = to_lowercase(name.as_str());
    slug_from_lowercase(lowered.as_str())
}

/// The site URL that stands for what the user typed.
pub fn normalize_site_url(raw: &str) -> (url: String)
    ensures
        url@ == site_url_of(raw@),
{
    let given = trimmed(&chars_of(raw));
    if given.len() == 0 {
        return "https://example.com".to_string();
    }
    let plain = chars_of("http://");
    let secure = chars_of("https://");
    if has_prefix(&given, &plain) || has_prefix(&given, &secure) {
        return string_of(&given);
    }
    let mut url = secure;
    let mut i: usize = 0;
    while i < given.len()
        invariant
            i <= given.len(),
            url@ == "https://"@ + given@.take(i as int),
        decreases given.len() - i,
    {
        url.push(given[i]);
        i += 1;
    }
    assert(given@.take(given.len() as int) == given@);
    string_of(&url)
}

} // verus!
