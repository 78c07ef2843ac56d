//! The values that flow through a build: front matter, summaries of built
//! entities, breadcrumbs and the arguments handed to templates.

use crate::json::{json_array, json_member, json_string, push_json_member, push_json_string};
use crate::text::push_char;
use vstd::prelude::*;

verus! {

#[verifier::external_type_specification]
pub struct ExDatetime(toml_datetime::Datetime);

#[verifier::external_type_specification]
pub struct ExDate(toml_datetime::Date);

#[verifier::external_type_specification]
pub struct ExTime(toml_datetime::Time);

#[verifier::external_type_specification]
pub struct ExOffset(toml_datetime::Offset);

/// Front matter of a Markdown document. Keys other than these are ignored.
#[derive(Debug)]
pub struct EntityMetadata {
    pub slug: Option<String>,
    pub shortname: Option<String>,
    pub head_title: Option<String>,
    pub date: Option<toml_datetime::Datetime>,
}

/// What front matter holds, as plain values.
pub struct MetadataModel {
    pub slug: Option<Seq<char>>,
    pub shortname: Option<Seq<char>>,
    pub head_title: Option<Seq<char>>,
    pub date: Option<toml_datetime::Datetime>,
}

pub open spec fn opt_text(o: Option<String>) -> Option<Seq<char>> {
    match o {
        Some(s) => Some(s@),
        None => None,
    }
}

impl View for EntityMetadata {
    type V = MetadataModel;

    open spec fn view(&self) -> MetadataModel {
        MetadataModel {
            slug: opt_text(self.slug),
            shortname: opt_text(self.shortname),
            head_title: opt_text(self.head_title),
            date: self.date,
        }
    }
}

pub open spec fn opt_metadata(o: Option<EntityMetadata>) -> Option<MetadataModel> {
    match o {
        Some(m) => Some(m@),
        None => None,
    }
}

/// Whether a directory entry is a file or a directory.
#[derive(Clone, Copy, Debug, PartialEq, Eq, Structural)]
pub enum EntryKind {
    File,
    Directory,
}

/// One entry of a directory listing.
#[derive(Debug)]
pub struct SourceEntry {
    pub name: String,
    pub kind: EntryKind,
}

/// The summary of one built member of a collection, listed on the collection's index.
#[derive(Debug)]
pub struct Entity {
    pub filename: String,
    pub title: String,
    pub created_at_iso: String,
    pub created_at: String,
}

/// One step of a page's position in the site.
#[derive(Debug)]
pub struct Breadcrumb {
    pub name: String,
    pub link: String,
}

/// A copy of each breadcrumb.
pub fn copy_breadcrumbs(v: &Vec<Breadcrumb>) -> (r: Vec<Breadcrumb>)
    ensures
        r@ == v@,
{
    let mut r: Vec<Breadcrumb> = Vec::new();
    let n = v.len();
    let mut i: usize = 0;
    while i < n
        invariant
            i <= n == v@.len(),
            r@ == v@.take(i as int),
        decreases n - i,
    {
        r.push(Breadcrumb { name: v[i].name.clone(), link: v[i].link.clone() });
        assert(r@ =~= v@.take(i + 1));
        i = i + 1;
    }
    assert(v@.take(n as int) =~= v@);
    r
}

/// What the site's index template is rendered with.
#[derive(Debug)]
pub struct IndexArgs {
    pub title: String,
    pub contents: String,
}

/// What a collection's index template is rendered with.
#[derive(Debug)]
pub struct EntitiesArgs {
    pub path: Vec<Breadcrumb>,
    pub title: String,
    pub entities: Vec<Entity>,
}

/// What a page or an entity is rendered with.
#[derive(Debug)]
pub struct EntityArgs {
    pub path: Vec<Breadcrumb>,
    pub title: String,
    pub contents: String,
}

impl Entity {
    pub open spec fn json(&self) -> Seq<char> {
        seq!['{'] + json_member("filename"@, json_string(self.filename@)) + seq![',']
            + json_member("title"@, json_string(self.title@)) + seq![',']
            + json_member("created_at_iso"@, json_string(self.created_at_iso@)) + seq![',']
            + json_member("created_at"@, json_string(self.created_at@)) + seq!['}']
    }

    /// The summary as a JSON object.
    pub fn to_json(&self) -> (r: String)
        ensures
            r@ == self.json(),
    {
        let mut out = String::new();
        push_char(&mut out, '{');
        push_json_member(&mut out, "filename", self.filename.as_str());
        push_char(&mut out, ',');
        push_json_member(&mut out, "title", self.title.as_str());
        push_char(&mut out, ',');
        push_json_member(&mut out, "created_at_iso", self.created_at_iso.as_str());
        push_char(&mut out, ',');
        push_json_member(&mut out, "created_at", self.created_at.as_str());
        push_char(&mut out, '}');
        assert(out@ =~= self.json());
        out
    }
}

/// A breadcrumb as a JSON object.
pub open spec fn crumb_json(name: Seq<char>, link: Seq<char>) -> Seq<char> {
    seq!['{'] + json_member("name"@, json_string(name)) + seq![','] + json_member(
        "link"@,
        json_string(link),
    ) + seq!['}']
}

/// Arguments of a page or an entity as a JSON object; `path` holds the breadcrumbs' JSON.
pub open spec fn entity_args_json(path: Seq<Seq<char>>, title: Seq<char>, contents: Seq<char>) -> Seq<char> {
    seq!['{'] + json_member("path"@, json_array(path)) + seq![','] + json_member(
        "title"@,
        json_string(title),
    ) + seq![','] + json_member("contents"@, json_string(contents)) + seq!['}']
}

/// Arguments of a collection's index as a JSON object.
pub open spec fn entities_args_json(
    path: Seq<Seq<char>>,
    title: Seq<char>,
    entities: Seq<Seq<char>>,
) -> Seq<char> {
    seq!['{'] + json_member("path"@, json_array(path)) + seq![','] + json_member(
        "title"@,
        json_string(title),
    ) + seq![','] + json_member("entities"@, json_array(entities)) + seq!['}']
}

/// Arguments of the site's index as a JSON object.
pub open spec fn index_args_json(title: Seq<char>, contents: Seq<char>) -> Seq<char> {
    seq!['{'] + json_member("title"@, json_string(title)) + seq![','] + json_member(
        "contents"@,
        json_string(contents),
    ) + seq!['}']
}

pub open spec fn crumb_items(v: Seq<Breadcrumb>) -> Seq<Seq<char>> {
    v.map_values(|b: Breadcrumb| b.json())
}

pub open spec fn entity_items(v: Seq<Entity>) -> Seq<Seq<char>> {
    v.map_values(|e: Entity| e.json())
}

impl Breadcrumb {
    pub open spec fn json(&self) -> Seq<char> {
        crumb_json(self.name@, self.link@)
    }

    /// The breadcrumb as a JSON object.
    pub fn to_json(&self) -> (r: String)
        ensures
            r@ == self.json(),
    {
        let mut out = String::new();
        push_char(&mut out, '{');
        push_json_member(&mut out, "name", self.name.as_str());
        push_char(&mut out, ',');
        push_json_member(&mut out, "link", self.link.as_str());
        push_char(&mut out, '}');
        assert(out@ =~= self.json());
        out
    }
}

pub open spec fn breadcrumbs_json(v: Seq<Breadcrumb>) -> Seq<char> {
    json_array(crumb_items(v))
}

pub open spec fn entities_json(v: Seq<Entity>) -> Seq<char> {
    json_array(entity_items(v))
}

fn push_breadcrumbs(out: &mut String, v: &Vec<Breadcrumb>)
    ensures
        final(out)@ == old(out)@ + breadcrumbs_json(v@),
{
    let ghost items = crumb_items(v@);
    push_char(out, '[');
    let ghost start = out@;
    let n = v.len();
    let mut i: usize = 0;
    while i < n
        invariant
            i <= n == v@.len(),
            items == crumb_items(v@),
            out@ == start + crate::json::json_list(items.take(i as int)),
        decreases n - i,
    {
        if i > 0 {
            push_char(out, ',');
        }
        let item = v[i].to_json();
        out.append(item.as_str());
        assert(items.take(i + 1).drop_last() =~= items.take(i as int));
        i = i + 1;
        assert(out@ =~= start + crate::json::json_list(items.take(i as int)));
    }
    assert(items.take(n as int) =~= items);
    push_char(out, ']');
    assert(final(out)@ =~= old(out)@ + breadcrumbs_json(v@));
}

fn push_entities(out: &mut String, v: &Vec<Entity>)
    ensures
        final(out)@ == old(out)@ + entities_json(v@),
{
    let ghost items = entity_items(v@);
    push_char(out, '[');
    let ghost start = out@;
    let n = v.len();
    let mut i: usize = 0;
    while i < n
        invariant
            i <= n == v@.len(),
            items == entity_items(v@),
            out@ == start + crate::json::json_list(items.take(i as int)),
        decreases n - i,
    {
        if i > 0 {
            push_char(out, ',');
        }
        let item = v[i].to_json();
        out.append(item.as_str());
        assert(items.take(i + 1).drop_last() =~= items.take(i as int));
        i = i + 1;
        assert(out@ =~= start + crate::json::json_list(items.take(i as int)));
    }
    assert(items.take(n as int) =~= items);
    push_char(out, ']');
    assert(final(out)@ =~= old(out)@ + entities_json(v@));
}

impl IndexArgs {
    pub open spec fn json(&self) -> Seq<char> {
        index_args_json(self.title@, self.contents@)
    }

    /// The arguments as a JSON object.
    pub fn to_json(&self) -> (r: String)
        ensures
            r@ == self.json(),
    {
        let mut out = String::new();
        push_char(&mut out, '{');
        push_json_member(&mut out, "title", self.title.as_str());
        push_char(&mut out, ',');
        push_json_member(&mut out, "contents", self.contents.as_str());
        push_char(&mut out, '}');
        assert(out@ =~= self.json());
        out
    }
}

impl EntityArgs {
    pub open spec fn json(&self) -> Seq<char> {
        entity_args_json(crumb_items(self.path@), self.title@, self.contents@)
    }

    /// The arguments as a JSON object.
    pub fn to_json(&self) -> (r: String)
        ensures
            r@ == self.json(),
    {
        let mut out = String::new();
        push_char(&mut out, '{');
        push_json_string(&mut out, "path");
        push_char(&mut out, ':');
        push_breadcrumbs(&mut out, &self.path);
        push_char(&mut out, ',');
        push_json_member(&mut out, "title", self.title.as_str());
        push_char(&mut out, ',');
        push_json_member(&mut out, "contents", self.contents.as_str());
        push_char(&mut out, '}');
        assert(out@ =~= self.json());
        out
    }
}

impl EntitiesArgs {
    pub open spec fn json(&self) -> Seq<char> {
        entities_args_json(crumb_items(self.path@), self.title@, entity_items(self.entities@))
    }

    /// The arguments as a JSON object.
    pub fn to_json(&self) -> (r: String)
        ensures
            r@ == self.json(),
    {
        let mut out = String::new();
        push_char(&mut out, '{');
        push_json_string(&mut out, "path");
        push_char(&mut out, ':');
        push_breadcrumbs(&mut out, &self.path);
        push_char(&mut out, ',');
        push_json_member(&mut out, "title", self.title.as_str());
        push_char(&mut out, ',');
        push_json_string(&mut out, "entities");
        push_char(&mut out, ':');
        push_entities(&mut out, &self.entities);
        push_char(&mut out, '}');
        assert(out@ =~= self.json());
        out
    }
}

} // verus!
