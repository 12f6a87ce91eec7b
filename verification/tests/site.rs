use sitegen::assets::{Mirror, MirrorAction};
use sitegen::config::{default_content_path, default_output_path, Config, SiteInfo};
use sitegen::content::{Index, IndexMetadata, Page, PageMetadata, SortOrder};
use sitegen::date::PageDate;
use sitegen::error::Error;
use sitegen::export::{export_plan, index_unit, page_unit, template_paths, Website};
use sitegen::loader::Loader;
use sitegen::nav::{build_article_list, build_navigation, concat_all};
use sitegen::paths::{is_index_name, is_markdown_name, join_path, parent_dir, Entry, EntryKind};
use sitegen::template::{template, Context, TemplateCache};

fn site_page(filepath: &str, id: &str, title: &str, nav: Option<usize>) -> Page {
    Page {
        metadata: PageMetadata {
            id: id.to_string(),
            title: title.to_string(),
            display_in_nav: nav,
            weight: None,
            excerpt: None,
            date: None,
            filepath: filepath.to_string(),
            template: "page.html".to_string(),
        },
        html: format!("<p>{id}</p>"),
    }
}

fn site_index(filepath: &str, title: &str, nav: Option<usize>, pages: Vec<Page>) -> Index {
    Index {
        metadata: IndexMetadata {
            title: title.to_string(),
            display_in_nav: nav,
            sort_by: SortOrder::Title,
            template: "index.html".to_string(),
            filepath: filepath.to_string(),
        },
        html: format!("<p>{title}</p>"),
        pages,
    }
}

fn entry(name: &str, kind: EntryKind) -> Entry {
    Entry { name: name.to_string(), kind }
}

fn site_config() -> Config {
    Config {
        site_info: SiteInfo { title: "Site".to_string(), description: "About".to_string() },
        content_path: default_content_path(),
        output_path: default_output_path(),
    }
}

#[test]
fn test_default_paths() {
    assert_eq!(".", default_content_path());
    assert_eq!("_site", default_output_path());
}

#[test]
fn test_config_from_file() {
    let config = Config::from_file("config.toml", site_config());
    assert_eq!(".", config.content_path);
    assert_eq!("_site", config.output_path);
    assert_eq!("Site", config.site_info.title);
    assert_eq!("About", config.site_info.description);
    let config = Config::from_file("my/site/config.toml", site_config());
    assert_eq!("my/site/.", config.content_path);
    assert_eq!("my/site/_site", config.output_path);
    let mut decoded = site_config();
    decoded.output_path = "/var/www".to_string();
    let config = Config::from_file("/etc/config.toml", decoded);
    assert_eq!("/etc/.", config.content_path);
    assert_eq!("/var/www", config.output_path);
}

#[test]
fn test_join_path() {
    assert_eq!("a/b", join_path("a", "b"));
    assert_eq!("a/b", join_path("a/", "b"));
    assert_eq!("b", join_path("", "b"));
    assert_eq!("/b", join_path("a", "/b"));
    assert_eq!("/", join_path("/", ""));
    assert_eq!("a/", join_path("a", ""));
    assert_eq!("/blog", join_path("/", "blog"));
    for (base, rel) in [("a", "b"), ("a/", "b"), ("", "b"), ("a", "/b"), ("/", ""), ("a", ""), ("é", "ü/x")] {
        let expected = std::path::Path::new(base).join(rel);
        assert_eq!(expected.to_str().unwrap(), join_path(base, rel));
    }
}

#[test]
fn test_parent_dir() {
    assert_eq!("", parent_dir("_index.md"));
    assert_eq!("blog", parent_dir("blog/_index.md"));
    assert_eq!("blog/2023", parent_dir("blog/2023/post.md"));
    assert_eq!("/", parent_dir("/config.toml"));
    assert_eq!("", parent_dir(""));
    for path in ["_index.md", "blog/_index.md", "blog/2023/post.md", "/config.toml", "é/ü"] {
        let expected = std::path::Path::new(path).parent().unwrap();
        assert_eq!(expected.to_str().unwrap(), parent_dir(path));
    }
}

#[test]
fn test_file_names() {
    assert!(is_index_name("_index.md"));
    assert!(!is_index_name("index.md"));
    assert!(!is_index_name("_index.md "));
    for name in ["a.md", "_index.md", "a.b.md", "..md", ".md", "md", "a.MD", "a.md.txt", "a.mdx", "", "é.md"] {
        let expected = std::path::Path::new(name).extension().and_then(|e| e.to_str()) == Some("md");
        assert_eq!(expected, is_markdown_name(name), "{name}");
    }
}

#[test]
fn test_navigation_orders_by_position() {
    let indices = vec![
        site_index(
            "",
            "Home",
            Some(1),
            vec![
                site_page("about.md", "about", "About", Some(3)),
                site_page("hidden.md", "hidden", "Hidden", None),
            ],
        ),
        site_index(
            "blog",
            "Blog",
            Some(2),
            vec![site_page("blog/first.md", "first", "First", Some(0))],
        ),
    ];
    let nav = build_navigation(&indices);
    assert_eq!(
        "<a href=\"/blog/first/\">First</a>\n<a href=\"/\">Home</a>\n\
         <a href=\"/blog/\">Blog</a>\n<a href=\"/about/\">About</a>\n",
        nav
    );
    assert!(!nav.contains("Hidden"));
}

#[test]
fn test_navigation_ties_and_hidden_indices() {
    let indices = vec![
        site_index("a", "A", None, vec![site_page("a/p.md", "p", "P", Some(5))]),
        site_index("b/c", "B", Some(5), vec![]),
        site_index("d", "D", Some(5), vec![]),
    ];
    assert_eq!(
        "<a href=\"/a/p/\">P</a>\n<a href=\"/b/c/\">B</a>\n<a href=\"/d/\">D</a>\n",
        build_navigation(&indices)
    );
    assert_eq!("", build_navigation(&Vec::new()));
    assert_eq!("ab", concat_all(&vec!["a".to_string(), String::new(), "b".to_string()]));
}

#[test]
fn test_article_list() {
    let mut dated = site_page("blog/one.md", "one", "One", None);
    dated.metadata.date = PageDate::new(1_672_531_200_000_000_000, 7200);
    dated.metadata.excerpt = Some("First post".to_string());
    let mut no_excerpt = site_page("blog/two.md", "two", "Two", None);
    no_excerpt.metadata.date = PageDate::new(0, 0);
    let mut no_date = site_page("three.md", "three", "Three", None);
    no_date.metadata.excerpt = Some("x".to_string());
    let mut root = site_page("four.md", "four", "Four", None);
    root.metadata.date = PageDate::new(0, 0);
    root.metadata.excerpt = Some(String::new());
    let indices = vec![
        site_index("blog", "Blog", None, vec![dated, no_excerpt]),
        site_index("", "Home", None, vec![no_date, root]),
    ];
    let expected = "<hgroup>\n<h3><a href=\"/blog/one/\">One</a></h3>\n<p><small>\
        <time datetime=\"2023-01-01T02:00:00+02:00\">2023-01-01 00:00Z</time></small></p>\n\
        </hgroup><p>First post</p>\\\n                 n\
        <hgroup>\n<h3><a href=\"/four/\">Four</a></h3>\n<p><small>\
        <time datetime=\"1970-01-01T00:00:00Z\">1970-01-01 00:00Z</time></small></p>\n\
        </hgroup><p></p>\\\n                 n";
    assert_eq!(expected, build_article_list(&indices));
    assert_eq!("", build_article_list(&Vec::new()));
}

#[test]
fn test_site_context() {
    let indices = vec![site_index("", "Home", Some(0), vec![])];
    let ctx = Website::new(site_config()).context(&indices);
    assert_eq!("<a href=\"/\">Home</a>\n", ctx.get("nav").unwrap());
    assert_eq!("", ctx.get("articles").unwrap());
    assert_eq!("Site", ctx.get("site_title").unwrap());
    assert_eq!("About", ctx.get("site_description").unwrap());
    assert!(ctx.get("title").is_none());
}

#[test]
fn test_export_units() {
    let mut ctx = Context::new();
    ctx.insert("site_title", "Site".to_string());
    ctx.insert("title", "stale".to_string());
    let index = site_index("blog", "Blog", None, vec![]);
    let unit = index_unit(&ctx, &index);
    assert_eq!("blog", unit.directory);
    assert_eq!("blog/index.html", unit.file);
    assert_eq!("index.html", unit.template);
    assert_eq!("Blog", unit.context.get("title").unwrap());
    assert_eq!("<p>Blog</p>", unit.context.get("content").unwrap());
    assert_eq!("Site", unit.context.get("site_title").unwrap());
    assert_eq!("stale", ctx.get("title").unwrap());

    let root = index_unit(&ctx, &site_index("", "Home", None, vec![]));
    assert_eq!("", root.directory);
    assert_eq!("index.html", root.file);

    let mut page = site_page("blog/post.md", "my-post", "Post", None);
    let unit = page_unit(&ctx, &page);
    assert_eq!("blog/my-post", unit.directory);
    assert_eq!("blog/my-post/index.html", unit.file);
    assert_eq!("page.html", unit.template);
    assert_eq!("Post", unit.context.get("title").unwrap());
    assert_eq!("<p>my-post</p>", unit.context.get("content").unwrap());
    assert!(unit.context.get("excerpt").is_none());
    assert!(unit.context.get("date").is_none());
    assert!(unit.context.get("date_iso8601").is_none());

    page.metadata.excerpt = Some("short".to_string());
    page.metadata.date = PageDate::new(1_675_209_600_000_000_000, 0);
    page.metadata.filepath = "post.md".to_string();
    let unit = page_unit(&ctx, &page);
    assert_eq!("my-post", unit.directory);
    assert_eq!("short", unit.context.get("excerpt").unwrap());
    assert_eq!("2023-02-01 00:00Z", unit.context.get("date").unwrap());
    assert_eq!("2023-02-01T00:00:00Z", unit.context.get("date_iso8601").unwrap());
}

#[test]
fn test_export_plan_and_template_paths() {
    let mut special = site_page("blog/b.md", "b", "B", None);
    special.metadata.template = "special.html".to_string();
    let indices = vec![
        site_index("", "Home", None, vec![site_page("a.md", "a", "A", None)]),
        site_index("blog", "Blog", None, vec![special, site_page("blog/c.md", "c", "C", None)]),
    ];
    let units = export_plan(&Context::new(), &indices);
    let files: Vec<&str> = units.iter().map(|u| u.file.as_str()).collect();
    assert_eq!(
        vec!["index.html", "a/index.html", "blog/index.html", "blog/b/index.html", "blog/c/index.html"],
        files
    );
    assert_eq!(vec!["index.html", "page.html", "special.html"], template_paths(&units));
    assert!(export_plan(&Context::new(), &Vec::new()).is_empty());
    assert!(template_paths(&Vec::new()).is_empty());
}

#[test]
fn test_loader_walk() {
    let mut loader = Loader::new();
    let dir = loader.next_directory().unwrap();
    assert_eq!("", dir);
    let listing = vec![
        entry("blog", EntryKind::Directory),
        entry("about.md", EntryKind::File),
        entry("_index.md", EntryKind::File),
        entry("notes.txt", EntryKind::File),
        entry("socket", EntryKind::Other),
        entry("drafts.md", EntryKind::Directory),
        entry("z.md", EntryKind::File),
    ];
    let plan = loader.scan(&dir, Ok(listing)).unwrap();
    assert_eq!(Some("_index.md".to_string()), plan.index);
    assert_eq!(vec!["about.md", "z.md"], plan.pages);
    assert_eq!(vec!["blog", "drafts.md"], loader.stack);
    loader.finish_directory(
        Some(site_index("", "Home", None, vec![])),
        vec![site_page("z.md", "z", "Z", None), site_page("about.md", "about", "About", None)],
    );

    let dir = loader.next_directory().unwrap();
    assert_eq!("drafts.md", dir);
    let plan = loader.scan(&dir, Ok(vec![entry("draft.md", EntryKind::File)])).unwrap();
    assert_eq!(None, plan.index);
    assert_eq!(vec!["drafts.md/draft.md"], plan.pages);
    loader.finish_directory(None, vec![site_page("drafts.md/draft.md", "d", "D", None)]);

    let dir = loader.next_directory().unwrap();
    assert_eq!("blog", dir);
    let plan = loader.scan(&dir, Ok(vec![entry("_index.md", EntryKind::File)])).unwrap();
    assert_eq!(Some("blog/_index.md".to_string()), plan.index);
    assert!(plan.pages.is_empty());
    loader.finish_directory(Some(site_index("blog", "Blog", None, vec![])), Vec::new());

    assert_eq!(None, loader.next_directory());
    let indices = loader.into_indices();
    assert_eq!(2, indices.len());
    assert_eq!("Home", indices[0].metadata.title);
    let titles: Vec<&str> = indices[0].pages.iter().map(|p| p.metadata.title.as_str()).collect();
    assert_eq!(vec!["About", "Z"], titles);
    assert_eq!("Blog", indices[1].metadata.title);
    assert!(indices[1].pages.is_empty());
}

#[test]
fn test_loader_unreadable_directory() {
    let mut loader = Loader::new();
    let r = loader.scan("blog", Err("permission denied".to_string()));
    assert!(matches!(
        r,
        Err(Error::ReadDirectory(dir, why)) if dir == "blog" && why == "permission denied"
    ));
    assert_eq!(vec![""], loader.stack);
}

#[test]
fn test_pages_sorted_by_date_are_exported_newest_first() {
    let mut loader = Loader::new();
    let dir = loader.next_directory().unwrap();
    let listing = vec![
        entry("_index.md", EntryKind::File),
        entry("january.md", EntryKind::File),
        entry("march.md", EntryKind::File),
        entry("february.md", EntryKind::File),
    ];
    let plan = loader.scan(&dir, Ok(listing)).unwrap();
    let dates = [
        1_672_531_200_000_000_000_i128,
        1_677_628_800_000_000_000,
        1_675_209_600_000_000_000,
    ];
    let mut pages = Vec::new();
    for (path, nanos) in plan.pages.iter().zip(dates) {
        let mut metadata = site_page("", path.trim_end_matches(".md"), path, None).metadata;
        metadata.date = PageDate::new(nanos, 0);
        pages.push(Page::parse_md(path, metadata, "text"));
    }
    let mut metadata = site_index("", "Home", None, vec![]).metadata;
    metadata.sort_by = SortOrder::Date;
    let index = Index::parse_md(plan.index.as_deref().unwrap(), metadata, "");
    loader.finish_directory(Some(index), pages);
    let indices = loader.into_indices();
    let units = export_plan(&Context::new(), &indices);
    let files: Vec<&str> = units.iter().map(|u| u.file.as_str()).collect();
    assert_eq!(
        vec!["index.html", "march/index.html", "february/index.html", "january/index.html"],
        files
    );
}

#[test]
fn test_mirror_walk() {
    let (mut mirror, first) = Mirror::start();
    assert_eq!(MirrorAction::CreateDirectory(String::new()), first);
    let dir = mirror.next_directory().unwrap();
    assert_eq!("", dir);
    let listing = vec![
        entry("css", EntryKind::Directory),
        entry("favicon.ico", EntryKind::File),
        entry("pipe", EntryKind::Other),
        entry("img", EntryKind::Directory),
    ];
    let actions = mirror.scan(&dir, Ok(listing)).unwrap();
    assert_eq!(
        vec![
            MirrorAction::CreateDirectory("css".to_string()),
            MirrorAction::CopyFile("favicon.ico".to_string()),
            MirrorAction::CreateDirectory("img".to_string()),
        ],
        actions
    );
    let dir = mirror.next_directory().unwrap();
    assert_eq!("img", dir);
    let actions = mirror.scan(&dir, Ok(vec![entry("a.png", EntryKind::File)])).unwrap();
    assert_eq!(vec![MirrorAction::CopyFile("img/a.png".to_string())], actions);
    let dir = mirror.next_directory().unwrap();
    assert_eq!("css", dir);
    assert!(mirror.scan(&dir, Ok(Vec::new())).unwrap().is_empty());
    assert_eq!(None, mirror.next_directory());
}

#[test]
fn test_missing_assets_do_not_stop_the_content_export() {
    let (mut mirror, _) = Mirror::start();
    let dir = mirror.next_directory().unwrap();
    let mirrored = mirror.scan(&dir, Err("No such file or directory".to_string()));
    assert!(matches!(mirrored, Err(Error::ReadDirectory(dir, _)) if dir.is_empty()));

    let indices = vec![site_index("", "Home", Some(0), vec![])];
    let ctx = Website::new(site_config()).context(&indices);
    let units = export_plan(&ctx, &indices);
    assert_eq!(1, units.len());
    let html = template(
        &units[0].context,
        &TemplateCache::new(),
        "<title>{{ site_title }}: {{ title }}</title>{{ nav }}{{ content }}".to_string(),
    )
    .unwrap();
    assert_eq!("<title>Site: Home</title><a href=\"/\">Home</a>\n<p>Home</p>", html);
}

#[test]
fn test_same_input_gives_the_same_output() {
    let build = || {
        let mut dated = site_page("blog/one.md", "one", "One", Some(1));
        dated.metadata.date = PageDate::new(1_672_531_200_000_000_000, 0);
        dated.metadata.excerpt = Some("First".to_string());
        let indices = vec![
            site_index("blog", "Blog", Some(1), vec![dated]),
            site_index("", "Home", Some(1), vec![]),
        ];
        let ctx = Website::new(site_config()).context(&indices);
        let mut out = Vec::new();
        for unit in export_plan(&ctx, &indices) {
            let html = template(
                &unit.context,
                &TemplateCache::new(),
                "{{ nav }}|{{ articles }}|{{ title }}|{{ content }}".to_string(),
            )
            .unwrap();
            out.push((unit.file, html));
        }
        out
    };
    let first = build();
    assert_eq!(3, first.len());
    assert_eq!(first, build());
}
