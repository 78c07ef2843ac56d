//! Rendering of pages, entities and the site's index from their Markdown sources.

use crate::dates::{
    display_date, display_date_string, is_valid_date, iso_date,
    iso_date_string, valid_date,
};
use crate::errors::BuildError;
use crate::markdown::{front_matter_of, markdown_html_of, md_to_html, title_of};
use crate::partials::partials_acyclic;
use crate::registry::{render_outcome, TemplateSet};
use crate::text::{
    replace_all, replace_str, strip_suffix, strip_suffix_str, trim, trim_str,
};
use crate::types::{
    copy_breadcrumbs, crumb_items, crumb_json, entity_args_json, index_args_json, Breadcrumb,
    Entity, EntityArgs, IndexArgs, MetadataModel,
};
use toml_datetime::Date;
use vstd::prelude::*;

verus! {

pub const MD_SUFFIX: &'static str = ".md";

pub const HTML_SUFFIX: &'static str = ".html";

pub const PAGE_TEMPLATE_NAME: &'static str = "page";

pub const INDEX_TEMPLATE_NAME: &'static str = "index";

/// The output name of a Markdown file: `.md` replaced by `.html`.
pub open spec fn html_name(name: Seq<char>) -> Seq<char> {
    replace_all(name, MD_SUFFIX@, HTML_SUFFIX@)
}

/// The calendar date of the front matter, if it gives one.
pub open spec fn front_date(meta: Option<MetadataModel>) -> Option<Date> {
    match meta {
        Some(m) => match m.date {
            Some(dt) => dt.date,
            None => None,
        },
        None => None,
    }
}

/// The date an entity is filed under: its front matter's, else today.
pub open spec fn entity_date(meta: Option<MetadataModel>, today: Date) -> Date {
    match front_date(meta) {
        Some(d) => d,
        None => today,
    }
}

/// The date shown to readers: the entity's date where it is a calendar day, else today.
pub open spec fn shown_date(meta: Option<MetadataModel>, today: Date) -> Date {
    if valid_date(entity_date(meta, today)) {
        entity_date(meta, today)
    } else {
        today
    }
}

pub open spec fn shown_text(meta: Option<MetadataModel>, today: Date) -> Seq<char> {
    display_date(shown_date(meta, today))
}

/// The output name of an entity: its front matter slug, trimmed, with spaces as
/// underscores and `.html` appended; else its file name with `.md` replaced.
pub open spec fn entity_slug(meta: Option<MetadataModel>, name: Seq<char>) -> Seq<char> {
    match meta {
        Some(m) => match m.slug {
            Some(s) => replace_all(trim(s), " "@, "_"@) + HTML_SUFFIX@,
            None => html_name(name),
        },
        None => html_name(name),
    }
}

/// The name an entity shows in its breadcrumb: its short name, else its shown date.
pub open spec fn entity_crumb_name(meta: Option<MetadataModel>, today: Date) -> Seq<char> {
    match meta {
        Some(m) => match m.shortname {
            Some(s) => s,
            None => shown_text(meta, today),
        },
        None => shown_text(meta, today),
    }
}

/// The template an entity of a collection renders with: the collection's name
/// without a trailing `s`.
pub open spec fn entity_template(collection: Seq<char>) -> Seq<char> {
    strip_suffix(collection, "s"@)
}

/// The JSON an entity is rendered with.
pub open spec fn entity_render_data(
    md: Seq<char>,
    name: Seq<char>,
    collection: Seq<char>,
    breadcrumbs: Seq<Breadcrumb>,
    today: Date,
) -> Seq<char> {
    let meta = front_matter_of(md);
    let link = collection + "/"@ + entity_slug(meta, name);
    entity_args_json(
        crumb_items(breadcrumbs).push(crumb_json(entity_crumb_name(meta, today), link)),
        title_of(md),
        markdown_html_of(md),
    )
}

/// A rendered entity: its summary and its HTML, to be written under `entity.filename`.
#[derive(Debug)]
pub struct EntityOutput {
    pub entity: Entity,
    pub html: String,
}

pub open spec fn entity_html(r: Result<EntityOutput, BuildError>) -> Result<String, BuildError> {
    match r {
        Ok(o) => Ok(o.html),
        Err(e) => Err(e),
    }
}

/// Renders the entity `name` of collection `collection_name` from its Markdown.
/// `path` names the source in errors; `today` stands in for a missing or invalid date.
pub fn render_entity(
    templates: &TemplateSet,
    name: &str,
    collection_name: &str,
    breadcrumbs: &Vec<Breadcrumb>,
    path: &str,
    md_str: &str,
    today: Date,
) -> (r: Result<EntityOutput, BuildError>)
    requires
        valid_date(today),
        partials_acyclic(templates.templates()),
    ensures
        render_outcome(
            templates.templates(),
            entity_template(collection_name@),
            entity_render_data(md_str@, name@, collection_name@, breadcrumbs@, today),
            path@,
            entity_html(r),
        ),
        r matches Ok(o) ==> {
            let meta = front_matter_of(md_str@);
            &&& o.entity.filename@ == entity_slug(meta, name@)
            &&& o.entity.title@ == title_of(md_str@)
            &&& o.entity.created_at_iso@ == iso_date(entity_date(meta, today))
            &&& o.entity.created_at@ == shown_text(meta, today)
        },
{
    proof {
        reveal_strlit(" ");
        reveal_strlit(".md");
    }
    let (metadata, title, contents) = md_to_html(md_str);
    let date = match &metadata {
        Some(m) => match m.date {
            Some(dt) => match dt.date {
                Some(d) => d,
                None => today,
            },
            None => today,
        },
        None => today,
    };
    let iso = iso_date_string(date);
    let shown = if is_valid_date(date) {
        date
    } else {
        today
    };
    let created_at = display_date_string(shown);
    let shortname = match &metadata {
        Some(m) => match &m.shortname {
            Some(s) => s.clone(),
            None => created_at.clone(),
        },
        None => created_at.clone(),
    };
    let slug = match &metadata {
        Some(m) => match &m.slug {
            Some(s) => {
                let t = trim_str(s.as_str());
                let mut u = replace_str(t.as_str(), " ", "_");
                u.append(HTML_SUFFIX);
                u
            },
            None => replace_str(name, MD_SUFFIX, HTML_SUFFIX),
        },
        None => replace_str(name, MD_SUFFIX, HTML_SUFFIX),
    };
    let mut link = collection_name.to_owned();
    link.append("/");
    link.append(slug.as_str());
    let template_name = strip_suffix_str(collection_name, "s");
    let mut crumbs = copy_breadcrumbs(breadcrumbs);
    crumbs.push(Breadcrumb { name: shortname, link });
    let args = EntityArgs { path: crumbs, title: title.clone(), contents };
    assert(crumb_items(args.path@) =~= crumb_items(breadcrumbs@).push(
        args.path@.last().json(),
    ));
    let data = args.to_json();
    match templates.render(template_name.as_str(), data.as_str(), path) {
        Ok(html) => Ok(
            EntityOutput {
                entity: Entity { filename: slug, title, created_at_iso: iso, created_at },
                html,
            },
        ),
        Err(e) => Err(e),
    }
}

/// The template a page renders with: the one named like the page where it is
/// registered, else `page`.
pub open spec fn page_template(templates: Map<Seq<char>, Seq<char>>, name: Seq<char>) -> Seq<char> {
    if templates.contains_key(strip_suffix(name, MD_SUFFIX@)) {
        strip_suffix(name, MD_SUFFIX@)
    } else {
        PAGE_TEMPLATE_NAME@
    }
}

/// The JSON a page is rendered with: one breadcrumb to itself.
pub open spec fn page_render_data(md: Seq<char>, name: Seq<char>) -> Seq<char> {
    entity_args_json(
        seq![crumb_json(title_of(md), html_name(name))],
        title_of(md),
        markdown_html_of(md),
    )
}

/// A rendered page, to be written under `file_name`.
#[derive(Debug)]
pub struct PageOutput {
    pub file_name: String,
    pub html: String,
}

pub open spec fn page_html(r: Result<PageOutput, BuildError>) -> Result<String, BuildError> {
    match r {
        Ok(o) => Ok(o.html),
        Err(e) => Err(e),
    }
}

/// Renders the top-level page `name` from its Markdown; `path` names the source in errors.
pub fn render_page(templates: &TemplateSet, name: &str, path: &str, md_str: &str) -> (r: Result<
    PageOutput,
    BuildError,
>)
    requires
        partials_acyclic(templates.templates()),
    ensures
        render_outcome(
            templates.templates(),
            page_template(templates.templates(), name@),
            page_render_data(md_str@, name@),
            path@,
            page_html(r),
        ),
        r matches Ok(o) ==> o.file_name@ == html_name(name@),
{
    proof {
        reveal_strlit(".md");
    }
    let (_, title, contents) = md_to_html(md_str);
    let out_name = replace_str(name, MD_SUFFIX, HTML_SUFFIX);
    let stem = strip_suffix_str(name, MD_SUFFIX);
    let template_name = if templates.has_template(stem.as_str()) {
        stem
    } else {
        PAGE_TEMPLATE_NAME.to_owned()
    };
    let crumbs = vec![Breadcrumb { name: title.clone(), link: out_name.clone() }];
    let args = EntityArgs { path: crumbs, title, contents };
    assert(crumb_items(args.path@) =~= seq![args.path@[0].json()]);
    let data = args.to_json();
    match templates.render(template_name.as_str(), data.as_str(), path) {
        Ok(html) => Ok(PageOutput { file_name: out_name, html }),
        Err(e) => Err(e),
    }
}

/// Renders the site's index from its Markdown with the `index` template.
pub fn render_index(templates: &TemplateSet, path: &str, md_str: &str) -> (r: Result<
    String,
    BuildError,
>)
    requires
        partials_acyclic(templates.templates()),
    ensures
        render_outcome(
            templates.templates(),
            INDEX_TEMPLATE_NAME@,
            index_args_json(title_of(md_str@), markdown_html_of(md_str@)),
            path@,
            r,
        ),
{
    let (_, title, contents) = md_to_html(md_str);
    let args = IndexArgs { title, contents };
    let data = args.to_json();
    templates.render(INDEX_TEMPLATE_NAME, data.as_str(), path)
}

} // verus!
