//! The content model: pages, the indices that own them, and how a content
//! file is taken apart.

use crate::date::PageDate;
use crate::error::Error;
use crate::paths::{parent, parent_dir};
use crate::sort::{keyed, sort_by_key, sort_keyed, values, SortKey, SortKeyView};
use crate::text::{to_chars, trim, trim_bounds};
use vstd::prelude::*;

verus! {

/// By what the pages of an index are ordered.
#[derive(Clone, Copy, Debug, PartialEq, Eq, Structural)]
pub enum SortOrder {
    /// By title, ascending.
    Title,
    /// By date, newest first; pages without a date come last.
    Date,
    /// By weight, ascending; pages without a weight come first.
    Weight,
}

/// What the frontmatter of a page says, and where the page was found.
#[derive(Clone, Debug)]
pub struct PageMetadata {
    /// ID used for URLs.
    pub id: String,
    /// Page title.
    pub title: String,
    /// The position of the page in the navigation; absent if it is not shown.
    pub display_in_nav: Option<usize>,
    /// A number to sort pages by.
    pub weight: Option<i32>,
    /// Excerpt of the page's content.
    pub excerpt: Option<String>,
    /// When the page was written.
    pub date: Option<PageDate>,
    /// The path of the content file, relative to the content directory.
    pub filepath: String,
    /// The template to use, relative to the templates directory.
    pub template: String,
}

/// A page: its metadata and its content as HTML.
#[derive(Clone, Debug)]
pub struct Page {
    pub metadata: PageMetadata,
    pub html: String,
}

/// What the frontmatter of an index file says, and where the file was found.
#[derive(Clone, Debug)]
pub struct IndexMetadata {
    /// Page title.
    pub title: String,
    /// The position of the index in the navigation; absent if it is not shown.
    pub display_in_nav: Option<usize>,
    /// The order of the pages.
    pub sort_by: SortOrder,
    /// The template to use, relative to the templates directory.
    pub template: String,
    /// The directory of the index, relative to the content directory: the
    /// parent of its index file. Empty for the content directory itself.
    pub filepath: String,
}

/// An index: the page of a content directory, with the pages of that
/// directory in order.
#[derive(Clone, Debug)]
pub struct Index {
    pub metadata: IndexMetadata,
    pub html: String,
    pub pages: Vec<Page>,
}

/// The template of a page that names none.
pub fn default_page_template() -> (path: String)
    ensures
        path@ == "page.html"@,
{
    "page.html".to_owned()
}

/// The template of an index that names none.
pub fn default_index_template() -> (path: String)
    ensures
        path@ == "index.html"@,
{
    "index.html".to_owned()
}

/// Whether the delimiter `+++` stands at index `k` of `t`.
pub open spec fn delimiter_at(t: Seq<char>, k: int) -> bool {
    &&& 0 <= k
    &&& k + 2 < t.len()
    &&& t[k] == '+'
    &&& t[k + 1] == '+'
    &&& t[k + 2] == '+'
}

/// The index of the first delimiter at or after `k`.
pub open spec fn first_delimiter(t: Seq<char>, k: int) -> Option<int>
    decreases t.len() - k,
{
    if k < 0 || k + 2 >= t.len() {
        None
    } else if delimiter_at(t, k) {
        Some(k)
    } else {
        first_delimiter(t, k + 1)
    }
}

/// Frontmatter and Markdown of a content file: what stands between the first
/// two delimiters, and what follows the second, trimmed. What precedes the
/// first delimiter is left out. `None` with fewer than two delimiters.
pub open spec fn split_content(t: Seq<char>) -> Option<(Seq<char>, Seq<char>)> {
    match first_delimiter(t, 0) {
        None => None,
        Some(a) => match first_delimiter(t, a + 3) {
            None => None,
            Some(b) => Some((t.subrange(a + 3, b), trim(t.subrange(b + 3, t.len() as int)))),
        },
    }
}

/// Finds the first delimiter at or after `from`.
fn find_delimiter(v: &Vec<char>, from: usize) -> (r: Option<usize>)
    requires
        from <= v.len(),
    ensures
        match r {
            Some(k) => first_delimiter(v@, from as int) == Some(k as int) && from <= k && k + 3
                <= v.len(),
            None => first_delimiter(v@, from as int) is None,
        },
{
    let n = v.len();
    let mut k: usize = from;
    while n - k > 2
        invariant
            from <= k <= n == v.len(),
            first_delimiter(v@, from as int) == first_delimiter(v@, k as int),
        decreases n - k,
    {
        if v[k] == '+' && v[k + 1] == '+' && v[k + 2] == '+' {
            return Some(k);
        }
        k += 1;
    }
    None
}

/// Extract frontmatter and Markdown from the text of a content file.
///
/// A text with fewer than two delimiters is refused with
/// `Error::MalformedContent`, which carries `filepath`.
pub fn parse_file<'a>(input: &'a str, filepath: &str) -> (r: Result<(&'a str, &'a str), Error>)
    ensures
        match r {
            Ok((frontmatter, markdown)) => split_content(input@) == Some(
                (frontmatter@, markdown@),
            ),
            Err(Error::MalformedContent(path)) => split_content(input@) is None && path@
                == filepath@,
            Err(_) => false,
        },
{
    let v = to_chars(input);
    let a = match find_delimiter(&v, 0) {
        Some(a) => a,
        None => {
            return Err(Error::MalformedContent(filepath.to_owned()));
        },
    };
    let b = match find_delimiter(&v, a + 3) {
        Some(b) => b,
        None => {
            return Err(Error::MalformedContent(filepath.to_owned()));
        },
    };
    let (c, d) = trim_bounds(&v, b + 3, v.len());
    Ok((input.substring_char(a + 3, b), input.substring_char(c, d)))
}

/// The HTML that the `pulldown-cmark` crate makes of `markdown` with the
/// extensions whose bits are set in `extensions`.
pub uninterp spec fn markdown_html(markdown: Seq<char>, extensions: int) -> Seq<char>;

/// Calls `pulldown_cmark::html::push_html` on an empty string and the parser
/// that `Parser::new_ext` makes of `markdown` and the options with the bits
/// `extensions`. Claimed: the result is a function of the two arguments alone.
#[verifier::external_body]
fn push_html(markdown: &str, extensions: u32) -> (html: String)
    ensures
        html@ == markdown_html(markdown@, extensions as int),
{
    let options = pulldown_cmark::Options::from_bits_truncate(extensions);
    let parser = pulldown_cmark::Parser::new_ext(markdown, options);
    let mut html = String::new();
    pulldown_cmark::html::push_html(&mut html, parser);
    html
}

/// The extensions that content is converted with: tables (bit 1), footnotes
/// (bit 2), strikethrough (bit 3) and task lists (bit 4).
pub const MARKDOWN_EXTENSIONS: u32 = 30;

/// Converts Markdown to HTML, with footnotes, strikethrough, tables and task
/// lists.
pub fn convert_markdown(markdown: &str) -> (html: String)
    ensures
        html@ == markdown_html(markdown@, MARKDOWN_EXTENSIONS as int),
{
    push_html(markdown, MARKDOWN_EXTENSIONS)
}

impl Page {
    /// Makes the page of the content file at `relpath` from its decoded
    /// frontmatter and its Markdown: the metadata is stamped with the path,
    /// the Markdown is converted.
    pub fn parse_md(relpath: &str, metadata: PageMetadata, markdown: &str) -> (page: Page)
        ensures
            page.metadata == (PageMetadata { filepath: page.metadata.filepath, ..metadata }),
            page.metadata.filepath@ == relpath@,
            page.html@ == markdown_html(markdown@, MARKDOWN_EXTENSIONS as int),
    {
        let mut metadata = metadata;
        metadata.filepath = relpath.to_owned();
        Page { metadata, html: convert_markdown(markdown) }
    }
}

impl Index {
    /// Makes the index of the index file at `relpath` from its decoded
    /// frontmatter and its Markdown: the metadata is stamped with the
    /// directory of the file, the Markdown is converted. The index has no
    /// pages yet.
    pub fn parse_md(relpath: &str, metadata: IndexMetadata, markdown: &str) -> (index: Index)
        ensures
            index.metadata == (IndexMetadata { filepath: index.metadata.filepath, ..metadata }),
            index.metadata.filepath@ == parent(relpath@),
            index.html@ == markdown_html(markdown@, MARKDOWN_EXTENSIONS as int),
            index.pages@ == Seq::<Page>::empty(),
    {
        let mut metadata = metadata;
        metadata.filepath = parent_dir(relpath);
        Index { metadata, html: convert_markdown(markdown), pages: Vec::new() }
    }
}

/// Whether the order goes from the largest key to the smallest.
pub open spec fn is_descending(order: SortOrder) -> bool {
    order == SortOrder::Date
}

/// The key that `order` sorts `page` by.
pub open spec fn page_key(order: SortOrder, page: Page) -> SortKeyView {
    match order {
        SortOrder::Title => SortKeyView::Text(page.metadata.title@),
        SortOrder::Date => match page.metadata.date {
            Some(date) => SortKeyView::Number(date.nanos()),
            None => SortKeyView::Absent,
        },
        SortOrder::Weight => match page.metadata.weight {
            Some(weight) => SortKeyView::Number(weight as int),
            None => SortKeyView::Absent,
        },
    }
}

/// The pages with their keys.
pub open spec fn with_keys(pages: Seq<Page>, order: SortOrder) -> Seq<(SortKeyView, Page)> {
    Seq::new(pages.len(), |i: int| (page_key(order, pages[i]), pages[i]))
}

/// The pages in the order that `order` asks for. Pages of equal key keep
/// their order.
pub open spec fn sorted_pages(pages: Seq<Page>, order: SortOrder) -> Seq<Page> {
    values(sort_keyed(with_keys(pages, order), is_descending(order)))
}

/// Computes the key of a page.
fn page_sort_key(order: SortOrder, page: &Page) -> (key: SortKey)
    ensures
        key@ == page_key(order, *page),
{
    match order {
        SortOrder::Title => SortKey::Text(to_chars(page.metadata.title.as_str())),
        SortOrder::Date => match &page.metadata.date {
            Some(date) => SortKey::Number(date.unix_timestamp_nanos()),
            None => SortKey::Absent,
        },
        SortOrder::Weight => match page.metadata.weight {
            Some(weight) => SortKey::Number(weight as i128),
            None => SortKey::Absent,
        },
    }
}

/// Sorts the pages of an index.
pub fn sort_pages(pages: Vec<Page>, order: SortOrder) -> (r: Vec<Page>)
    ensures
        r@ == sorted_pages(pages@, order),
{
    let ghost all = pages@;
    let mut items: Vec<(SortKey, Page)> = Vec::new();
    for page in it: pages
        invariant
            it.seq() == all,
            keyed(items@) == with_keys(all, order).take(it.index() as int),
    {
        let ghost k = it.index() as int;
        let ghost before = items@;
        assert(0 <= k < all.len() && page == all[k]);
        assert(keyed(before).len() == before.len());
        let key = page_sort_key(order, &page);
        items.push((key, page));
        assert(items@ == before.push((key, page)));
        assert forall|i: int| 0 <= i < k + 1 implies keyed(items@)[i] == with_keys(all, order).take(
            k + 1,
        )[i] by {
            if i < k {
                assert(keyed(items@)[i] == keyed(before)[i]);
                assert(keyed(before)[i] == with_keys(all, order).take(k)[i]);
            }
        }
        assert(keyed(items@) =~= with_keys(all, order).take(k + 1));
    }
    assert(with_keys(all, order).take(all.len() as int) =~= with_keys(all, order));
    sort_by_key(items, order == SortOrder::Date)
}


/// Whether `a` comes strictly before `b` under `order`: by a smaller title,
/// a later date (any date before none), or a smaller weight (none before
/// any).
pub open spec fn strictly_before(order: SortOrder, a: Page, b: Page) -> bool {
    match order {
        SortOrder::Title => crate::sort::text_le(a.metadata.title@, b.metadata.title@)
            && a.metadata.title@ != b.metadata.title@,
        SortOrder::Date => match (a.metadata.date, b.metadata.date) {
            (Some(x), Some(y)) => x.nanos() > y.nanos(),
            (Some(_), None) => true,
            _ => false,
        },
        SortOrder::Weight => match (a.metadata.weight, b.metadata.weight) {
            (Some(x), Some(y)) => x < y,
            (None, Some(_)) => true,
            _ => false,
        },
    }
}

/// Sorting permutes the pages.
pub proof fn lemma_sorted_pages_permutation(pages: Seq<Page>, order: SortOrder)
    ensures
        sorted_pages(pages, order).len() == pages.len(),
        sorted_pages(pages, order).to_multiset() == pages.to_multiset(),
{
    let keys = with_keys(pages, order);
    crate::sort::lemma_sort_keyed(keys, is_descending(order));
    crate::sort::lemma_sort_keyed_values(keys, is_descending(order));
    assert(values(keys) =~= pages);
}

/// Pages whose keys under `order` all differ (distinct titles, distinct
/// instants, or distinct weights, according to the order) come out strictly
/// ordered: each page stands strictly before all that follow it.
pub proof fn lemma_sorted_pages_strict(pages: Seq<Page>, order: SortOrder)
    requires
        forall|i: int, j: int|
            0 <= i < j < pages.len() ==> page_key(order, pages[i]) != page_key(order, pages[j]),
    ensures
        forall|i: int, j: int|
            0 <= i < j < pages.len() ==> strictly_before(
                order,
                #[trigger] sorted_pages(pages, order)[i],
                #[trigger] sorted_pages(pages, order)[j],
            ),
{
    let keys = with_keys(pages, order);
    let descending = is_descending(order);
    let s = sort_keyed(keys, descending);
    let r = sorted_pages(pages, order);
    crate::sort::lemma_sort_keyed(keys, descending);
    assert(keys.no_duplicates());
    keys.lemma_multiset_has_no_duplicates();
    s.lemma_multiset_has_no_duplicates_conv();
    assert forall|i: int, j: int| 0 <= i < j < pages.len() implies strictly_before(
        order,
        #[trigger] r[i],
        #[trigger] r[j],
    ) by {
        assert(keys.contains(s[i]));
        assert(keys.contains(s[j]));
        let a = choose|a: int| 0 <= a < keys.len() && keys[a] == s[i];
        let b = choose|b: int| 0 <= b < keys.len() && keys[b] == s[j];
        assert(s[i] != s[j]);
        assert(a != b);
        assert(s[i].0 != s[j].0);
        assert(crate::sort::in_order(s[i].0, s[j].0, descending));
        assert(r[i] == pages[a] && r[j] == pages[b]);
    }
}

} // verus!
