//! What is written for each index and page: where, from which template, and
//! with which context.

use crate::config::Config;
use crate::content::{Index, Page};
use crate::date::{date_iso8601, date_utc, format_date_iso8601, format_date_utc};
use crate::nav::{article_list, build_article_list, build_navigation, navigation};
use crate::paths::{join_path, joined, parent, parent_dir};
use crate::template::Context;
use crate::text::texts;
use vstd::prelude::*;

verus! {

/// A website to build.
#[derive(Debug)]
pub struct Website {
    /// Configuration for this website.
    pub config: Config,
}

/// The context that all indices and pages share.
pub open spec fn site_context(config: Config, indices: Seq<Index>) -> Map<Seq<char>, Seq<char>> {
    Map::<Seq<char>, Seq<char>>::empty().insert("nav"@, navigation(indices)).insert(
        "articles"@,
        article_list(indices),
    ).insert("site_title"@, config.site_info.title@).insert(
        "site_description"@,
        config.site_info.description@,
    )
}

impl Website {
    /// Create a new website.
    pub fn new(config: Config) -> (site: Website)
        ensures
            site.config == config,
    {
        Website { config }
    }

    /// The context that all indices and pages of the site share: navigation,
    /// list of articles, title and description of the site.
    pub fn context(&self, indices: &[Index]) -> (ctx: Context)
        ensures
            ctx@ == site_context(self.config, indices@),
    {
        let mut ctx = Context::new();
        ctx.insert("nav", build_navigation(indices));
        ctx.insert("articles", build_article_list(indices));
        ctx.insert("site_title", self.config.site_info.title.clone());
        ctx.insert("site_description", self.config.site_info.description.clone());
        ctx
    }
}

/// One file to write: the expansion of a template under a context.
pub struct ExportUnit {
    /// The directory of the file, relative to the output directory.
    pub directory: String,
    /// The file, relative to the output directory.
    pub file: String,
    /// The template, relative to the templates directory.
    pub template: String,
    /// The context to expand the template with.
    pub context: Context,
}

/// An `ExportUnit` as plain values.
pub struct ExportUnitView {
    pub directory: Seq<char>,
    pub file: Seq<char>,
    pub template: Seq<char>,
    pub context: Map<Seq<char>, Seq<char>>,
}

impl View for ExportUnit {
    type V = ExportUnitView;

    open spec fn view(&self) -> ExportUnitView {
        ExportUnitView {
            directory: self.directory@,
            file: self.file@,
            template: self.template@,
            context: self.context@,
        }
    }
}

/// The name of the file that is written into each directory.
pub open spec fn output_file_name() -> Seq<char> {
    "index.html"@
}

/// The context of an index: the shared one with the index's title and
/// content.
pub open spec fn index_context(ctx: Map<Seq<char>, Seq<char>>, index: Index) -> Map<
    Seq<char>,
    Seq<char>,
> {
    ctx.insert("title"@, index.metadata.title@).insert("content"@, index.html@)
}

/// The context of a page: the shared one with the page's title and content,
/// its excerpt if it has one, and its date in both forms if it has one.
pub open spec fn page_context(ctx: Map<Seq<char>, Seq<char>>, page: Page) -> Map<
    Seq<char>,
    Seq<char>,
> {
    let base = ctx.insert("content"@, page.html@).insert("title"@, page.metadata.title@);
    let with_excerpt = match page.metadata.excerpt {
        Some(excerpt) => base.insert("excerpt"@, excerpt@),
        None => base,
    };
    match page.metadata.date {
        Some(date) => with_excerpt.insert("date_iso8601"@, date_iso8601(date)).insert(
            "date"@,
            date_utc(date),
        ),
        None => with_excerpt,
    }
}

/// What is written for an index: `index.html` in its directory.
pub open spec fn index_unit_view(ctx: Map<Seq<char>, Seq<char>>, index: Index) -> ExportUnitView {
    let directory = index.metadata.filepath@;
    ExportUnitView {
        directory,
        file: joined(directory, output_file_name()),
        template: index.metadata.template@,
        context: index_context(ctx, index),
    }
}

/// What is written for a page: `index.html` in the directory named by its id,
/// below the directory of its file.
pub open spec fn page_unit_view(ctx: Map<Seq<char>, Seq<char>>, page: Page) -> ExportUnitView {
    let directory = joined(parent(page.metadata.filepath@), page.metadata.id@);
    ExportUnitView {
        directory,
        file: joined(directory, output_file_name()),
        template: page.metadata.template@,
        context: page_context(ctx, page),
    }
}

/// The unit of an index under the shared context `ctx`.
pub fn index_unit(ctx: &Context, index: &Index) -> (unit: ExportUnit)
    ensures
        unit@ == index_unit_view(ctx@, *index),
{
    let directory = index.metadata.filepath.clone();
    let file = join_path(directory.as_str(), "index.html");
    let mut context = ctx.clone();
    context.insert("title", index.metadata.title.clone());
    context.insert("content", index.html.clone());
    ExportUnit { directory, file, template: index.metadata.template.clone(), context }
}

/// The unit of a page under the shared context `ctx`.
pub fn page_unit(ctx: &Context, page: &Page) -> (unit: ExportUnit)
    ensures
        unit@ == page_unit_view(ctx@, *page),
{
    let parent = parent_dir(page.metadata.filepath.as_str());
    let directory = join_path(parent.as_str(), page.metadata.id.as_str());
    let file = join_path(directory.as_str(), "index.html");
    let mut context = ctx.clone();
    context.insert("content", page.html.clone());
    context.insert("title", page.metadata.title.clone());
    if let Some(excerpt) = &page.metadata.excerpt {
        context.insert("excerpt", excerpt.clone());
    }
    if let Some(date) = &page.metadata.date {
        context.insert("date_iso8601", format_date_iso8601(date));
        context.insert("date", format_date_utc(date));
    }
    ExportUnit { directory, file, template: page.metadata.template.clone(), context }
}

/// The units of the first `n` of `pages`.
pub open spec fn page_units(ctx: Map<Seq<char>, Seq<char>>, pages: Seq<Page>, n: int) -> Seq<
    ExportUnitView,
>
    decreases n,
{
    if n <= 0 {
        Seq::empty()
    } else {
        page_units(ctx, pages, n - 1).push(page_unit_view(ctx, pages[n - 1]))
    }
}

/// All units of a site: index by index, the unit of the index and then
/// those of its pages in their order.
pub open spec fn export_units(ctx: Map<Seq<char>, Seq<char>>, indices: Seq<Index>) -> Seq<
    ExportUnitView,
>
    decreases indices.len(),
{
    if indices.len() == 0 {
        Seq::empty()
    } else {
        let index = indices.last();
        export_units(ctx, indices.drop_last()).push(index_unit_view(ctx, index)) + page_units(
            ctx,
            index.pages@,
            index.pages@.len() as int,
        )
    }
}

/// The views of the units.
pub open spec fn unit_views(units: Seq<ExportUnit>) -> Seq<ExportUnitView> {
    Seq::new(units.len(), |i: int| units[i]@)
}

/// Lists what has to be written for the indices and their pages under the
/// shared context `ctx`. The units are independent of each other.
pub fn export_plan(ctx: &Context, indices: &[Index]) -> (units: Vec<ExportUnit>)
    ensures
        unit_views(units@) == export_units(ctx@, indices@),
{
    let mut units: Vec<ExportUnit> = Vec::new();
    let mut i: usize = 0;
    assert(indices@.take(0) =~= Seq::<Index>::empty());
    assert(unit_views(units@) =~= Seq::<ExportUnitView>::empty());
    while i < indices.len()
        invariant
            i <= indices.len(),
            unit_views(units@) == export_units(ctx@, indices@.take(i as int)),
        decreases indices.len() - i,
    {
        let index = &indices[i];
        assert(indices@.take(i + 1).drop_last() =~= indices@.take(i as int));
        assert(indices@.take(i + 1).last() == *index);
        let ghost done = unit_views(units@);
        let unit = index_unit(ctx, index);
        units.push(unit);
        let ghost head = done.push(index_unit_view(ctx@, *index));
        assert(unit_views(units@) =~= head);
        let mut k: usize = 0;
        assert(head + page_units(ctx@, index.pages@, 0) =~= head);
        while k < index.pages.len()
            invariant
                k <= index.pages.len(),
                unit_views(units@) == head + page_units(ctx@, index.pages@, k as int),
            decreases index.pages.len() - k,
        {
            let ghost before = unit_views(units@);
            let unit = page_unit(ctx, &index.pages[k]);
            units.push(unit);
            assert(unit_views(units@) =~= before.push(page_unit_view(ctx@, index.pages@[k as int])));
            assert(head + page_units(ctx@, index.pages@, k + 1) =~= before.push(
                page_unit_view(ctx@, index.pages@[k as int]),
            ));
            k += 1;
        }
        i += 1;
    }
    assert(indices@.take(i as int) =~= indices@);
    units
}


/// The texts of `s` without repetitions: each text stands where it first
/// occurs.
pub open spec fn distinct(s: Seq<Seq<char>>) -> Seq<Seq<char>>
    decreases s.len(),
{
    if s.len() == 0 {
        Seq::empty()
    } else if distinct(s.drop_last()).contains(s.last()) {
        distinct(s.drop_last())
    } else {
        distinct(s.drop_last()).push(s.last())
    }
}

/// The templates of the units, in the order of the units.
pub open spec fn unit_templates(units: Seq<ExportUnit>) -> Seq<Seq<char>> {
    Seq::new(units.len(), |i: int| units[i].template@)
}

/// Whether `paths` holds the text of `path`.
fn holds_text(paths: &Vec<String>, path: &String) -> (b: bool)
    ensures
        b == texts(paths@).contains(path@),
{
    let mut i: usize = 0;
    while i < paths.len()
        invariant
            i <= paths.len(),
            forall|k: int| 0 <= k < i ==> texts(paths@)[k] != path@,
        decreases paths.len() - i,
    {
        if paths[i] == *path {
            assert(texts(paths@)[i as int] == path@);
            return true;
        }
        i += 1;
    }
    false
}

/// The templates that the units need, each once, so that each is read once
/// before any unit is written.
pub fn template_paths(units: &[ExportUnit]) -> (paths: Vec<String>)
    ensures
        texts(paths@) == distinct(unit_templates(units@)),
{
    let mut paths: Vec<String> = Vec::new();
    let mut i: usize = 0;
    assert(unit_templates(units@).take(0) =~= Seq::<Seq<char>>::empty());
    assert(texts(paths@) =~= Seq::<Seq<char>>::empty());
    while i < units.len()
        invariant
            i <= units.len(),
            texts(paths@) == distinct(unit_templates(units@).take(i as int)),
        decreases units.len() - i,
    {
        assert(unit_templates(units@).take(i + 1).drop_last() =~= unit_templates(units@).take(
            i as int,
        ));
        if !holds_text(&paths, &units[i].template) {
            let ghost before = texts(paths@);
            paths.push(units[i].template.clone());
            assert(texts(paths@) =~= before.push(units@[i as int].template@));
        }
        i += 1;
    }
    assert(unit_templates(units@).take(i as int) =~= unit_templates(units@));
    paths
}

/// No text occurs twice in `distinct(s)`, and it holds exactly the texts of
/// `s`.
pub proof fn lemma_distinct(s: Seq<Seq<char>>)
    ensures
        distinct(s).no_duplicates(),
        forall|t: Seq<char>| distinct(s).contains(t) <==> s.contains(t),
    decreases s.len(),
{
    if s.len() > 0 {
        let d = distinct(s.drop_last());
        lemma_distinct(s.drop_last());
        assert forall|t: Seq<char>| distinct(s).contains(t) <==> s.contains(t) by {
            if s.contains(t) {
                let k = choose|k: int| 0 <= k < s.len() && s[k] == t;
                if k < s.len() - 1 {
                    assert(s.drop_last()[k] == t);
                    assert(s.drop_last().contains(t));
                    assert(d.contains(t));
                    let j = choose|j: int| 0 <= j < d.len() && d[j] == t;
                    assert(distinct(s)[j] == t);
                } else if !d.contains(t) {
                    assert(distinct(s)[d.len() as int] == t);
                }
            }
            if distinct(s).contains(t) {
                let j = choose|j: int| 0 <= j < distinct(s).len() && distinct(s)[j] == t;
                if j < d.len() {
                    assert(d[j] == t);
                    assert(d.contains(t));
                    assert(s.drop_last().contains(t));
                    let k = choose|k: int| 0 <= k < s.drop_last().len() && s.drop_last()[k] == t;
                    assert(s[k] == t);
                } else {
                    assert(s[s.len() - 1] == t);
                }
            }
        }
    }
}

} // verus!
