use sitegen::content::{
    convert_markdown, default_index_template, default_page_template, parse_file, sort_pages, Index,
    IndexMetadata, Page, PageMetadata, SortOrder, MARKDOWN_EXTENSIONS,
};
use sitegen::date::{format_date_iso8601, format_date_utc, PageDate, ISO8601_WHOLE_SECONDS};
use sitegen::error::Error;
use sitegen::sort::{key_le_exec, sort_by_key, text_le_exec, SortKey};

const JANUARY: i128 = 1_672_531_200_000_000_000;
const FEBRUARY: i128 = 1_675_209_600_000_000_000;
const MARCH: i128 = 1_677_628_800_000_000_000;

fn content_page(id: &str, title: &str, weight: Option<i32>, date: Option<i128>) -> Page {
    Page {
        metadata: PageMetadata {
            id: id.to_string(),
            title: title.to_string(),
            display_in_nav: None,
            weight,
            excerpt: None,
            date: date.map(|nanos| PageDate::new(nanos, 0).unwrap()),
            filepath: format!("{id}.md"),
            template: default_page_template(),
        },
        html: String::new(),
    }
}

fn ids(pages: &[Page]) -> Vec<String> {
    pages.iter().map(|p| p.metadata.id.clone()).collect()
}

#[test]
fn test_default_templates() {
    assert_eq!("page.html", default_page_template());
    assert_eq!("index.html", default_index_template());
}

#[test]
fn test_parse_file_splits_frontmatter_and_markdown() {
    let input = "+++\ntitle = \"T\"\n+++\n\n# Heading\n\ntext \n\n";
    let (frontmatter, markdown) = parse_file(input, "a.md").unwrap();
    assert_eq!("\ntitle = \"T\"\n", frontmatter);
    assert_eq!("# Heading\n\ntext", markdown);
}

#[test]
fn test_parse_file_edges() {
    assert_eq!(("", ""), parse_file("++++++", "a.md").unwrap());
    assert_eq!(("a", "b +++ c"), parse_file("ignored+++a+++ b +++ c\u{2003}", "a.md").unwrap());
    assert_eq!(("", "+"), parse_file("+++++++", "a.md").unwrap());
    assert_eq!(("é", "ü"), parse_file("+++é+++\u{a0}ü", "a.md").unwrap());
}

#[test]
fn test_parse_file_malformed() {
    for input in ["", "no delimiter", "+++ only one", "++ +", "+++++", "a+++b++c"] {
        let r = parse_file(input, "blog/a.md");
        assert!(matches!(r, Err(Error::MalformedContent(path)) if path == "blog/a.md"));
    }
}

#[test]
fn test_convert_markdown() {
    assert_eq!("<h1>Title</h1>\n", convert_markdown("# Title"));
    assert_eq!("<p><del>gone</del></p>\n", convert_markdown("~~gone~~"));
    assert_eq!("", convert_markdown(""));
}

#[test]
fn test_convert_markdown_uses_the_four_extensions() {
    let markdown = "| a | b |\n|---|---|\n| 1 | 2 |\n\n- [x] done\n\nnote[^1] ~~x~~\n\n[^1]: foot\n";
    let mut options = pulldown_cmark::Options::empty();
    options.insert(pulldown_cmark::Options::ENABLE_FOOTNOTES);
    options.insert(pulldown_cmark::Options::ENABLE_STRIKETHROUGH);
    options.insert(pulldown_cmark::Options::ENABLE_TABLES);
    options.insert(pulldown_cmark::Options::ENABLE_TASKLISTS);
    assert_eq!(MARKDOWN_EXTENSIONS, options.bits());
    let mut expected = String::new();
    pulldown_cmark::html::push_html(
        &mut expected,
        pulldown_cmark::Parser::new_ext(markdown, options),
    );
    let html = convert_markdown(markdown);
    assert_eq!(expected, html);
    assert!(html.contains("<table>"));
    assert!(html.contains("checkbox"));
    assert!(html.contains("<del>x</del>"));
    assert!(html.contains("footnote"));
}

#[test]
fn test_page_parse_md() {
    let mut metadata = content_page("p", "P", Some(3), Some(JANUARY)).metadata;
    metadata.filepath = "stale".to_string();
    metadata.excerpt = Some("short".to_string());
    let page = Page::parse_md("blog/p.md", metadata, "*hi*");
    assert_eq!("blog/p.md", page.metadata.filepath);
    assert_eq!("<p><em>hi</em></p>\n", page.html);
    assert_eq!("p", page.metadata.id);
    assert_eq!("P", page.metadata.title);
    assert_eq!(Some(3), page.metadata.weight);
    assert_eq!(Some("short".to_string()), page.metadata.excerpt);
    assert_eq!("page.html", page.metadata.template);
    assert_eq!(JANUARY, page.metadata.date.unwrap().unix_timestamp_nanos());
}

#[test]
fn test_index_parse_md() {
    let metadata = IndexMetadata {
        title: "Blog".to_string(),
        display_in_nav: Some(2),
        sort_by: SortOrder::Date,
        template: default_index_template(),
        filepath: String::new(),
    };
    let index = Index::parse_md("blog/_index.md", metadata.clone(), "text");
    assert_eq!("blog", index.metadata.filepath);
    assert_eq!("", Index::parse_md("_index.md", metadata.clone(), "").metadata.filepath);
    assert_eq!("a/b", Index::parse_md("a/b/_index.md", metadata, "").metadata.filepath);
    assert_eq!("<p>text</p>\n", index.html);
    assert_eq!("Blog", index.metadata.title);
    assert_eq!(Some(2), index.metadata.display_in_nav);
    assert_eq!(SortOrder::Date, index.metadata.sort_by);
    assert!(index.pages.is_empty());
}

#[test]
fn test_sort_by_date_newest_first() {
    let pages = vec![
        content_page("january", "a", None, Some(JANUARY)),
        content_page("march", "b", None, Some(MARCH)),
        content_page("february", "c", None, Some(FEBRUARY)),
    ];
    let sorted = sort_pages(pages, SortOrder::Date);
    assert_eq!(vec!["march", "february", "january"], ids(&sorted));
}

#[test]
fn test_sort_by_date_puts_undated_last() {
    let pages = vec![
        content_page("none1", "a", None, None),
        content_page("old", "b", None, Some(JANUARY)),
        content_page("none2", "c", None, None),
        content_page("new", "d", None, Some(MARCH)),
    ];
    let sorted = sort_pages(pages, SortOrder::Date);
    assert_eq!(vec!["new", "old", "none1", "none2"], ids(&sorted));
}

#[test]
fn test_sort_by_weight_ascending() {
    let pages = vec![
        content_page("c", "x", Some(30), None),
        content_page("m", "x", Some(-5), None),
        content_page("none", "x", None, None),
        content_page("z", "x", Some(i32::MAX), None),
        content_page("a", "x", Some(i32::MIN), None),
    ];
    let sorted = sort_pages(pages, SortOrder::Weight);
    assert_eq!(vec!["none", "a", "m", "c", "z"], ids(&sorted));
    let weights: Vec<Option<i32>> = sorted.iter().map(|p| p.metadata.weight).collect();
    assert!(weights.windows(2).all(|w| w[0] < w[1]));
}

#[test]
fn test_sort_by_title_lexicographic() {
    let pages = vec![
        content_page("4", "b", None, None),
        content_page("2", "Zebra", None, None),
        content_page("5", "ba", None, None),
        content_page("1", "", None, None),
        content_page("6", "é", None, None),
        content_page("3", "a", None, None),
    ];
    let sorted = sort_pages(pages, SortOrder::Title);
    assert_eq!(vec!["1", "2", "3", "4", "5", "6"], ids(&sorted));
    let titles: Vec<String> = sorted.iter().map(|p| p.metadata.title.clone()).collect();
    assert!(titles.windows(2).all(|w| w[0] < w[1]));
}

#[test]
fn test_sort_keeps_order_of_equal_keys() {
    let pages = vec![
        content_page("first", "t", Some(1), None),
        content_page("second", "t", Some(0), None),
        content_page("third", "t", Some(1), None),
        content_page("fourth", "t", Some(0), None),
    ];
    let sorted = sort_pages(pages, SortOrder::Weight);
    assert_eq!(vec!["second", "fourth", "first", "third"], ids(&sorted));
    assert!(sort_pages(Vec::new(), SortOrder::Title).is_empty());
}

#[test]
fn test_sort_by_key_orders_kinds_of_keys() {
    let items = vec![
        (SortKey::Text("b".chars().collect()), 1),
        (SortKey::Number(7), 2),
        (SortKey::Absent, 3),
        (SortKey::Text("a".chars().collect()), 4),
        (SortKey::Number(-7), 5),
    ];
    assert_eq!(vec![3, 5, 2, 4, 1], sort_by_key(items, false));
    let items = vec![(SortKey::Number(1), 'a'), (SortKey::Absent, 'b'), (SortKey::Number(2), 'c')];
    assert_eq!(vec!['c', 'a', 'b'], sort_by_key(items, true));
}

#[test]
fn test_text_order_is_that_of_strings() {
    let words = ["", "a", "ab", "b", "B", "é", "e", "\u{10000}", "\u{ffff}", "aa"];
    for a in words {
        for b in words {
            let x: Vec<char> = a.chars().collect();
            let y: Vec<char> = b.chars().collect();
            assert_eq!(a <= b, text_le_exec(&x, &y));
            assert_eq!(a <= b, key_le_exec(&SortKey::Text(x), &SortKey::Text(y)));
        }
    }
}

#[test]
fn test_format_dates() {
    let date = PageDate::new(JANUARY, 0).unwrap();
    assert_eq!("2023-01-01T00:00:00Z", format_date_iso8601(&date));
    assert_eq!("2023-01-01 00:00Z", format_date_utc(&date));
    let date = PageDate::new(FEBRUARY + 3_723_000_000_999, 3600).unwrap();
    assert_eq!("2023-02-01T02:02:03+01:00", format_date_iso8601(&date));
    assert_eq!("2023-02-01 01:02Z", format_date_utc(&date));
    assert_eq!(FEBRUARY + 3_723_000_000_999, date.unix_timestamp_nanos());
    assert_eq!(3600, date.offset_whole_seconds());
    let date = PageDate::new(MARCH, -5 * 3600 - 1800).unwrap();
    assert_eq!("2023-02-28T18:30:00-05:30", format_date_iso8601(&date));
    assert_eq!("2023-03-01 00:00Z", format_date_utc(&date));
}

#[test]
fn test_dates_that_cannot_be_written() {
    assert!(PageDate::new(i128::MAX, 0).is_none());
    assert!(PageDate::new(i128::MIN, 0).is_none());
    assert!(PageDate::new(0, 100 * 3600).is_none());
    assert!(PageDate::new(0, 0).is_some());
}

#[test]
fn test_iso8601_configuration() {
    let config = time::format_description::well_known::iso8601::Config::DEFAULT
        .set_time_precision(
            time::format_description::well_known::iso8601::TimePrecision::Second {
                decimal_digits: None,
            },
        )
        .encode();
    assert_eq!(config, ISO8601_WHOLE_SECONDS);
}

#[test]
fn test_white_space_is_that_of_char() {
    for code in 0..=0x10FFFF_u32 {
        if let Some(c) = char::from_u32(code) {
            assert_eq!(c.is_whitespace(), sitegen::text::is_whitespace(c), "U+{code:04X}");
        }
    }
}
