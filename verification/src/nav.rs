//! The two fragments that every page of the site shares: the navigation and
//! the list of articles.

use crate::content::{Index, Page};
use crate::date::{date_iso8601, date_utc, format_date_iso8601, format_date_utc};
use crate::paths::{join_path, joined, parent, parent_dir};
use crate::sort::{
    keyed, lemma_sort_keyed_map, map_items, sort_by_key, sort_keyed, values, SortKey, SortKeyView,
};
use crate::text::texts;
use vstd::prelude::*;
use vstd::string::StringExecFns;

verus! {

/// The texts of `texts`, one after the other.
pub open spec fn concat(texts: Seq<Seq<char>>) -> Seq<char>
    decreases texts.len(),
{
    if texts.len() == 0 {
        Seq::empty()
    } else {
        concat(texts.drop_last()) + texts.last()
    }
}

/// A link of the navigation.
pub open spec fn nav_link(href: Seq<char>, title: Seq<char>) -> Seq<char> {
    "<a href=\""@ + href + "\">"@ + title + "</a>\n"@
}

/// The root of the site, as a path.
pub open spec fn site_root() -> Seq<char> {
    "/"@
}

/// The directory of an index on the site: the root joined with the
/// directory of the index.
pub open spec fn index_dir(index: Index) -> Seq<char> {
    joined(site_root(), index.metadata.filepath@)
}

/// The address of an index: its directory followed by `/`; for the index at
/// the root, the root alone.
pub open spec fn index_href(index: Index) -> Seq<char> {
    if index_dir(index).len() > 1 {
        index_dir(index) + "/"@
    } else {
        "/"@
    }
}

/// The address of a page in the navigation: its id below the directory of
/// its index, followed by `/`.
pub open spec fn page_nav_href(index: Index, page: Page) -> Seq<char> {
    joined(index_dir(index), page.metadata.id@) + "/"@
}

/// The navigation entries of the first `n` pages of `index`: one for each
/// page that has a position, in the order of the pages.
pub open spec fn page_nav_entries(index: Index, n: int) -> Seq<(SortKeyView, Seq<char>)>
    decreases n,
{
    if n <= 0 {
        Seq::empty()
    } else {
        let page = index.pages@[n - 1];
        match page.metadata.display_in_nav {
            Some(position) => page_nav_entries(index, n - 1).push(
                (
                    SortKeyView::Number(position as int),
                    nav_link(page_nav_href(index, page), page.metadata.title@),
                ),
            ),
            None => page_nav_entries(index, n - 1),
        }
    }
}

/// The navigation entry of `index` itself, if it has a position.
pub open spec fn own_nav_entry(index: Index) -> Seq<(SortKeyView, Seq<char>)> {
    match index.metadata.display_in_nav {
        Some(position) => seq![
            (
                SortKeyView::Number(position as int),
                nav_link(index_href(index), index.metadata.title@),
            ),
        ],
        None => Seq::empty(),
    }
}

/// The navigation entries of the indices and their pages, as they are found:
/// each index that has a position, then those of its pages that have one.
pub open spec fn nav_entries(indices: Seq<Index>) -> Seq<(SortKeyView, Seq<char>)>
    decreases indices.len(),
{
    if indices.len() == 0 {
        Seq::empty()
    } else {
        let index = indices.last();
        nav_entries(indices.drop_last()) + own_nav_entry(index) + page_nav_entries(
            index,
            index.pages@.len() as int,
        )
    }
}

/// The navigation: the links of all entries, by ascending position; entries
/// of equal position in the order in which they were found.
pub open spec fn navigation(indices: Seq<Index>) -> Seq<char> {
    concat(values(sort_keyed(nav_entries(indices), false)))
}

/// The view of a string, as a function.
pub open spec fn text_of() -> spec_fn(String) -> Seq<char> {
    |s: String| s@
}

/// Writes a link of the navigation.
fn make_nav_link(href: &str, title: &str) -> (link: String)
    ensures
        link@ == nav_link(href@, title@),
{
    let mut link = "<a href=\"".to_owned();
    link.append(href);
    link.append("\">");
    link.append(title);
    link.append("</a>\n");
    link
}

/// Joins the texts.
pub fn concat_all(parts: &Vec<String>) -> (all: String)
    ensures
        all@ == concat(texts(parts@)),
{
    let mut all = String::new();
    let mut i: usize = 0;
    let ghost views = texts(parts@);
    assert(views.take(0) =~= Seq::<Seq<char>>::empty());
    while i < parts.len()
        invariant
            i <= parts.len(),
            views == texts(parts@),
            all@ == concat(views.take(i as int)),
        decreases parts.len() - i,
    {
        assert(views.take(i + 1).drop_last() =~= views.take(i as int));
        all.append(parts[i].as_str());
        i += 1;
    }
    assert(views.take(i as int) =~= views);
    all
}

/// Create the HTML of the navigation from the indices and their pages.
///
/// Every index and every page with a position in `display_in_nav` gets a
/// link, and the links stand by ascending position.
pub fn build_navigation(indices: &[Index]) -> (html: String)
    ensures
        html@ == navigation(indices@),
{
    let mut navs: Vec<(SortKey, String)> = Vec::new();
    let mut i: usize = 0;
    assert(indices@.take(0) =~= Seq::<Index>::empty());
    assert(map_items(keyed(navs@), text_of()) =~= Seq::<(SortKeyView, Seq<char>)>::empty());
    while i < indices.len()
        invariant
            i <= indices.len(),
            map_items(keyed(navs@), text_of()) == nav_entries(indices@.take(i as int)),
        decreases indices.len() - i,
    {
        let index = &indices[i];
        let ghost done = nav_entries(indices@.take(i as int));
        assert(indices@.take(i + 1).drop_last() =~= indices@.take(i as int));
        assert(indices@.take(i + 1).last() == *index);
        let dir = join_path("/", index.metadata.filepath.as_str());
        if let Some(position) = index.metadata.display_in_nav {
            let link = if dir.as_str().unicode_len() > 1 {
                let mut href = dir.clone();
                href.append("/");
                make_nav_link(href.as_str(), index.metadata.title.as_str())
            } else {
                make_nav_link("/", index.metadata.title.as_str())
            };
            let ghost before = navs@;
            navs.push((SortKey::Number(position as i128), link));
            assert(map_items(keyed(navs@), text_of()) =~= map_items(keyed(before), text_of()).push(
                (SortKeyView::Number(position as int), link@),
            ));
        }
        assert(map_items(keyed(navs@), text_of()) =~= done + own_nav_entry(*index));
        let mut k: usize = 0;
        while k < index.pages.len()
            invariant
                k <= index.pages.len(),
                dir@ == index_dir(*index),
                map_items(keyed(navs@), text_of()) == done + own_nav_entry(*index)
                    + page_nav_entries(*index, k as int),
            decreases index.pages.len() - k,
        {
            let page = &index.pages[k];
            if let Some(position) = page.metadata.display_in_nav {
                let mut href = join_path(dir.as_str(), page.metadata.id.as_str());
                href.append("/");
                let link = make_nav_link(href.as_str(), page.metadata.title.as_str());
                let ghost before = navs@;
                navs.push((SortKey::Number(position as i128), link));
                assert(map_items(keyed(navs@), text_of()) =~= map_items(
                    keyed(before),
                    text_of(),
                ).push((SortKeyView::Number(position as int), link@)));
            }
            k += 1;
        }
        i += 1;
    }
    assert(indices@.take(i as int) =~= indices@);
    let ghost entries = keyed(navs@);
    let links = sort_by_key(navs, false);
    proof {
        lemma_sort_keyed_map(entries, text_of(), false);
        assert(texts(links@) =~= values(
            map_items(sort_keyed(entries, false), text_of()),
        ));
    }
    concat_all(&links)
}


/// The address of a page in the list of articles: its id below the directory
/// of its own file, followed by `/`.
pub open spec fn article_href(page: Page) -> Seq<char> {
    joined(joined(site_root(), parent(page.metadata.filepath@)), page.metadata.id@) + "/"@
}

/// The entry of a page in the list of articles: a heading that links to the
/// page, the date, and the excerpt.
pub open spec fn article_entry(
    href: Seq<char>,
    title: Seq<char>,
    date_iso: Seq<char>,
    date_shown: Seq<char>,
    excerpt: Seq<char>,
) -> Seq<char> {
    "<hgroup>\n<h3><a href=\""@ + href + "\">"@ + title
        + "</a></h3>\n<p><small><time datetime=\""@ + date_iso + "\">"@ + date_shown
        + "</time></small></p>\n</hgroup><p>"@ + excerpt + "</p>\\\n                 n"@
}

/// The entry of `page`, where it has both a date and an excerpt.
pub open spec fn page_article(page: Page) -> Seq<char> {
    match (page.metadata.date, page.metadata.excerpt) {
        (Some(date), Some(excerpt)) => article_entry(
            article_href(page),
            page.metadata.title@,
            date_iso8601(date),
            date_utc(date),
            excerpt@,
        ),
        _ => Seq::empty(),
    }
}

/// The entries of the first `n` of `pages`.
pub open spec fn page_articles(pages: Seq<Page>, n: int) -> Seq<char>
    decreases n,
{
    if n <= 0 {
        Seq::empty()
    } else {
        page_articles(pages, n - 1) + page_article(pages[n - 1])
    }
}

/// The list of articles: the entries of all pages that have a date and an
/// excerpt, index by index, in the order of the pages.
pub open spec fn article_list(indices: Seq<Index>) -> Seq<char>
    decreases indices.len(),
{
    if indices.len() == 0 {
        Seq::empty()
    } else {
        article_list(indices.drop_last()) + page_articles(
            indices.last().pages@,
            indices.last().pages@.len() as int,
        )
    }
}

/// Writes the entry of `page` in the list of articles.
fn make_article(page: &Page) -> (entry: String)
    ensures
        entry@ == page_article(*page),
{
    match (&page.metadata.date, &page.metadata.excerpt) {
        (Some(date), Some(excerpt)) => {
            let parent = parent_dir(page.metadata.filepath.as_str());
            let dir = join_path("/", parent.as_str());
            let mut href = join_path(dir.as_str(), page.metadata.id.as_str());
            href.append("/");
            let date_iso = format_date_iso8601(date);
            let date_shown = format_date_utc(date);
            let mut entry = "<hgroup>\n<h3><a href=\"".to_owned();
            entry.append(href.as_str());
            entry.append("\">");
            entry.append(page.metadata.title.as_str());
            entry.append("</a></h3>\n<p><small><time datetime=\"");
            entry.append(date_iso.as_str());
            entry.append("\">");
            entry.append(date_shown.as_str());
            entry.append("</time></small></p>\n</hgroup><p>");
            entry.append(excerpt.as_str());
            entry.append("</p>\\\n                 n");
            entry
        },
        _ => String::new(),
    }
}

/// Build an HTML list of articles.
pub fn build_article_list(indices: &[Index]) -> (html: String)
    ensures
        html@ == article_list(indices@),
{
    let mut html = String::new();
    let mut i: usize = 0;
    assert(indices@.take(0) =~= Seq::<Index>::empty());
    while i < indices.len()
        invariant
            i <= indices.len(),
            html@ == article_list(indices@.take(i as int)),
        decreases indices.len() - i,
    {
        let index = &indices[i];
        let ghost done = html@;
        assert(indices@.take(i + 1).drop_last() =~= indices@.take(i as int));
        assert(indices@.take(i + 1).last() == *index);
        let mut k: usize = 0;
        assert(done + page_articles(index.pages@, 0) =~= done);
        while k < index.pages.len()
            invariant
                k <= index.pages.len(),
                html@ == done + page_articles(index.pages@, k as int),
            decreases index.pages.len() - k,
        {
            let page = &index.pages[k];
            let entry = make_article(page);
            html.append(entry.as_str());
            assert(html@ =~= done + page_articles(index.pages@, k + 1));
            k += 1;
        }
        i += 1;
    }
    assert(indices@.take(i as int) =~= indices@);
    html
}


/// The navigation entry of a page of `index` that has the position
/// `position`.
pub open spec fn page_nav_entry(index: Index, page: Page, position: usize) -> (
    SortKeyView,
    Seq<char>,
) {
    (
        SortKeyView::Number(position as int),
        nav_link(page_nav_href(index, page), page.metadata.title@),
    )
}

/// Whether `page` has a position and `entry` is its navigation entry.
pub open spec fn is_entry_of_page(index: Index, page: Page, entry: (SortKeyView, Seq<char>)) -> bool {
    page.metadata.display_in_nav is Some && entry == page_nav_entry(
        index,
        page,
        page.metadata.display_in_nav->0,
    )
}

/// Whether `entry` is the navigation entry of one of the first `n` pages of
/// `index`, a page that has a position.
pub open spec fn is_page_nav_entry(index: Index, n: int, entry: (SortKeyView, Seq<char>)) -> bool {
    exists|k: int|
        0 <= k < n && k < index.pages@.len() && #[trigger] is_entry_of_page(
            index,
            index.pages@[k],
            entry,
        )
}

/// Whether `entry` is the navigation entry of an index that has a position,
/// or of a page that has one.
pub open spec fn is_nav_entry(indices: Seq<Index>, entry: (SortKeyView, Seq<char>)) -> bool {
    exists|i: int|
        0 <= i < indices.len() && (own_nav_entry(#[trigger] indices[i]).contains(entry)
            || is_page_nav_entry(indices[i], indices[i].pages@.len() as int, entry))
}

/// The page entries of an index are those of its pages that have a position.
pub proof fn lemma_page_nav_entries(index: Index, n: int, entry: (SortKeyView, Seq<char>))
    requires
        n <= index.pages@.len(),
    ensures
        page_nav_entries(index, n).contains(entry) <==> is_page_nav_entry(index, n, entry),
    decreases n,
{
    if n > 0 {
        lemma_page_nav_entries(index, n - 1, entry);
        let rest = page_nav_entries(index, n - 1);
        let page = index.pages@[n - 1];
        let all = page_nav_entries(index, n);
        if all.contains(entry) {
            let k = choose|k: int| 0 <= k < all.len() && all[k] == entry;
            if k < rest.len() {
                assert(rest[k] == entry);
                assert(rest.contains(entry));
            } else {
                assert(is_entry_of_page(index, index.pages@[n - 1], entry));
            }
            assert(is_page_nav_entry(index, n, entry));
        }
        if is_page_nav_entry(index, n, entry) {
            let k = choose|k: int|
                0 <= k < n && k < index.pages@.len() && #[trigger] is_entry_of_page(
                    index,
                    index.pages@[k],
                    entry,
                );
            if k < n - 1 {
                assert(is_page_nav_entry(index, n - 1, entry));
                let m = choose|m: int| 0 <= m < rest.len() && rest[m] == entry;
                assert(all[m] == entry);
            } else {
                assert(all[all.len() - 1] == entry);
            }
        }
    }
}

/// Only indices and pages that have a position are in the navigation, and
/// all of them are.
pub proof fn lemma_nav_entries(indices: Seq<Index>, entry: (SortKeyView, Seq<char>))
    ensures
        nav_entries(indices).contains(entry) <==> is_nav_entry(indices, entry),
    decreases indices.len(),
{
    if indices.len() > 0 {
        let init = indices.drop_last();
        let index = indices.last();
        let n = index.pages@.len() as int;
        lemma_nav_entries(init, entry);
        lemma_page_nav_entries(index, n, entry);
        let a = nav_entries(init);
        let b = own_nav_entry(index);
        let c = page_nav_entries(index, n);
        let all = nav_entries(indices);
        assert(all == a + b + c);
        if all.contains(entry) {
            let k = choose|k: int| 0 <= k < all.len() && all[k] == entry;
            if k < a.len() {
                assert(a[k] == entry);
                assert(is_nav_entry(init, entry));
                let i = choose|i: int|
                    0 <= i < init.len() && (own_nav_entry(#[trigger] init[i]).contains(entry)
                        || is_page_nav_entry(init[i], init[i].pages@.len() as int, entry));
                assert(indices[i] == init[i]);
            } else if k < a.len() + b.len() {
                assert(b[k - a.len()] == entry);
                assert(own_nav_entry(indices[indices.len() - 1]).contains(entry));
            } else {
                assert(c[k - a.len() - b.len()] == entry);
                assert(c.contains(entry));
                assert(is_page_nav_entry(indices[indices.len() - 1], n, entry));
            }
            assert(is_nav_entry(indices, entry));
        }
        if is_nav_entry(indices, entry) {
            let i = choose|i: int|
                0 <= i < indices.len() && (own_nav_entry(#[trigger] indices[i]).contains(entry)
                    || is_page_nav_entry(indices[i], indices[i].pages@.len() as int, entry));
            if i < indices.len() - 1 {
                assert(init[i] == indices[i]);
                assert(is_nav_entry(init, entry));
                let m = choose|m: int| 0 <= m < a.len() && a[m] == entry;
                assert(all[m] == entry);
            } else if b.contains(entry) {
                let m = choose|m: int| 0 <= m < b.len() && b[m] == entry;
                assert(all[a.len() + m] == entry);
            } else {
                let m = choose|m: int| 0 <= m < c.len() && c[m] == entry;
                assert(all[a.len() + b.len() + m] == entry);
            }
        }
    }
}

/// The links of the navigation stand by ascending position, and they are the
/// links of the entries found, each as often as it was found.
pub proof fn lemma_navigation_order(indices: Seq<Index>)
    ensures
        sort_keyed(nav_entries(indices), false).to_multiset() == nav_entries(
            indices,
        ).to_multiset(),
        forall|i: int, j: int|
            0 <= i < j < nav_entries(indices).len() ==> {
                &&& (#[trigger] sort_keyed(nav_entries(indices), false)[i]).0 matches SortKeyView::Number(a)
                &&& (#[trigger] sort_keyed(nav_entries(indices), false)[j]).0 matches SortKeyView::Number(b)
                &&& a <= b
            },
{
    let entries = nav_entries(indices);
    let s = sort_keyed(entries, false);
    crate::sort::lemma_sort_keyed(entries, false);
    assert forall|i: int| 0 <= i < entries.len() implies (#[trigger] s[i]).0 is Number by {
        assert(entries.contains(s[i]));
        lemma_nav_entries(indices, s[i]);
    }
    assert forall|i: int, j: int| 0 <= i < j < entries.len() implies {
        &&& (#[trigger] s[i]).0 matches SortKeyView::Number(a)
        &&& (#[trigger] s[j]).0 matches SortKeyView::Number(b)
        &&& a <= b
    } by {
        assert(s[i].0 is Number && s[j].0 is Number);
        assert(crate::sort::in_order(s[i].0, s[j].0, false));
    }
}

/// Entries of equal position stand in the navigation in the order in which
/// they were found.
pub proof fn lemma_navigation_ties(indices: Seq<Index>, position: int)
    ensures
        crate::sort::with_key(
            sort_keyed(nav_entries(indices), false),
            SortKeyView::Number(position),
        ) == crate::sort::with_key(nav_entries(indices), SortKeyView::Number(position)),
{
    crate::sort::lemma_sort_keyed_stable(
        nav_entries(indices),
        false,
        SortKeyView::Number(position),
    );
}

} // verus!
