//! Markdown to HTML, with the document's title and front matter.
//!
//! Front matter is an HTML comment whose first line is `<!--metadata` and whose
//! last line is `-->`; the lines between are read as TOML. It stays in the HTML.

use crate::text::{trim, trim_str};
use crate::types::{opt_metadata, opt_text, EntityMetadata, MetadataModel};
use pulldown_cmark::{html, Event, Options, Parser, Tag};
use vstd::prelude::*;

verus! {

pub const METADATA_OPEN: &'static str = "<!--metadata";

pub const METADATA_CLOSE: &'static str = "-->";

pub const SLUG_KEY: &'static str = "slug";

pub const SHORTNAME_KEY: &'static str = "shortname";

pub const HEAD_TITLE_KEY: &'static str = "head_title";

pub const DATE_KEY: &'static str = "date";

/// One event of the Markdown parser, reduced to what the converter reads.
#[derive(Debug)]
pub enum MdEvent {
    /// The start of a heading of this level.
    HeadingStart(usize),
    Text(String),
    Html(String),
    Other,
}

pub enum MdEventModel {
    HeadingStart(usize),
    Text(Seq<char>),
    Html(Seq<char>),
    Other,
}

impl View for MdEvent {
    type V = MdEventModel;

    open spec fn view(&self) -> MdEventModel {
        match self {
            MdEvent::HeadingStart(l) => MdEventModel::HeadingStart(*l),
            MdEvent::Text(t) => MdEventModel::Text(t@),
            MdEvent::Html(h) => MdEventModel::Html(h@),
            MdEvent::Other => MdEventModel::Other,
        }
    }
}

/// The event stream that pulldown-cmark yields for a document.
pub uninterp spec fn markdown_events_of(md: Seq<char>) -> Seq<MdEventModel>;

/// The HTML that pulldown-cmark renders for a document.
pub uninterp spec fn markdown_html_of(md: Seq<char>) -> Seq<char>;

pub open spec fn events_view(v: Seq<MdEvent>) -> Seq<MdEventModel> {
    v.map_values(|e: MdEvent| e@)
}

/// Relies on `pulldown_cmark::Parser::new_ext` with footnotes, heading attributes and
/// strikethrough enabled: the events it yields for `md`, each reduced to an `MdEvent`
/// (a heading's level as its number, 1 to 6).
#[verifier::external_body]
fn markdown_events(md: &str) -> (r: Vec<MdEvent>)
    ensures
        events_view(r@) == markdown_events_of(md@),
{
    let options = Options::ENABLE_FOOTNOTES | Options::ENABLE_HEADING_ATTRIBUTES
        | Options::ENABLE_STRIKETHROUGH;
    let mut r = Vec::new();
    for event in Parser::new_ext(md, options) {
        r.push(match event {
            Event::Start(Tag::Heading { level, .. }) => MdEvent::HeadingStart(level as usize),
            Event::Text(t) => MdEvent::Text(t.to_string()),
            Event::Html(h) => MdEvent::Html(h.to_string()),
            _ => MdEvent::Other,
        });
    }
    r
}

/// Relies on `pulldown_cmark::html::push_html` over `Parser::new_ext`, with the same
/// extensions as `markdown_events`: the HTML for `md`.
#[verifier::external_body]
fn markdown_html(md: &str) -> (r: String)
    ensures
        r@ == markdown_html_of(md@),
{
    let options = Options::ENABLE_FOOTNOTES | Options::ENABLE_HEADING_ATTRIBUTES
        | Options::ENABLE_STRIKETHROUGH;
    let mut r = String::new();
    html::push_html(&mut r, Parser::new_ext(md, options));
    r
}

/// Whether an event opens a level-1 heading.
pub open spec fn opens_title(e: MdEventModel) -> bool {
    match e {
        MdEventModel::HeadingStart(level) => level == 1,
        _ => false,
    }
}

/// Where the scan of the event stream stands.
pub struct ScanState {
    pub in_heading: bool,
    pub title: Seq<char>,
    pub done: bool,
    pub in_block: bool,
    pub found_block: bool,
    pub block: Seq<char>,
}

pub open spec fn initial_scan() -> ScanState {
    ScanState {
        in_heading: false,
        title: Seq::empty(),
        done: false,
        in_block: false,
        found_block: false,
        block: Seq::empty(),
    }
}

/// One event: the first text inside a level-1 heading is the title and ends the
/// scan; HTML lines between the front matter markers are collected.
pub open spec fn scan_step(st: ScanState, e: MdEventModel) -> ScanState {
    match e {
        MdEventModel::HeadingStart(level) => if level == 1 {
            ScanState { in_heading: true, ..st }
        } else {
            st
        },
        MdEventModel::Text(t) => if st.in_heading {
            ScanState { title: t, done: true, ..st }
        } else {
            st
        },
        MdEventModel::Html(h) => if !st.in_block {
            if trim(h) == METADATA_OPEN@ {
                ScanState { in_block: true, found_block: true, ..st }
            } else {
                st
            }
        } else if trim(h) == METADATA_CLOSE@ {
            ScanState { in_block: false, ..st }
        } else {
            ScanState { block: st.block + h, ..st }
        },
        MdEventModel::Other => st,
    }
}

pub open spec fn scan(ev: Seq<MdEventModel>, st: ScanState) -> ScanState
    decreases ev.len(),
{
    if ev.len() == 0 || st.done {
        st
    } else {
        scan(ev.drop_first(), scan_step(st, ev[0]))
    }
}

pub open spec fn scan_document(md: Seq<char>) -> ScanState {
    scan(markdown_events_of(md), initial_scan())
}

/// The text of the first level-1 heading, or empty.
pub open spec fn title_of(md: Seq<char>) -> Seq<char> {
    scan_document(md).title
}

/// A front matter value, reduced to what the metadata reads.
#[derive(Debug)]
pub enum FrontMatterValue {
    Text(String),
    Datetime(toml_datetime::Datetime),
    Other,
}

pub enum FieldModel {
    Text(Seq<char>),
    Datetime(toml_datetime::Datetime),
    Other,
}

impl View for FrontMatterValue {
    type V = FieldModel;

    open spec fn view(&self) -> FieldModel {
        match self {
            FrontMatterValue::Text(t) => FieldModel::Text(t@),
            FrontMatterValue::Datetime(d) => FieldModel::Datetime(*d),
            FrontMatterValue::Other => FieldModel::Other,
        }
    }
}

pub open spec fn table_view(v: Seq<(String, FrontMatterValue)>) -> Seq<(Seq<char>, FieldModel)> {
    v.map_values(|p: (String, FrontMatterValue)| (p.0@, p.1@))
}

/// The entries of a TOML document, as the `toml` crate reads it; `None` where the
/// text is not a TOML document.
pub uninterp spec fn toml_table_of(text: Seq<char>) -> Option<Seq<(Seq<char>, FieldModel)>>;

/// Relies on `toml::from_str` into a `toml::Table`: its entries, each value reduced
/// to its kind, or `None` where `text` does not parse.
#[verifier::external_body]
fn parse_toml_table(text: &str) -> (r: Option<Vec<(String, FrontMatterValue)>>)
    ensures
        match r {
            Some(v) => toml_table_of(text@) == Some(table_view(v@)),
            None => toml_table_of(text@) is None,
        },
{
    let table: toml::Table = toml::from_str(text).ok()?;
    let mut r = Vec::new();
    for (k, v) in table {
        r.push((k, match v {
            toml::Value::String(t) => FrontMatterValue::Text(t),
            toml::Value::Datetime(d) => FrontMatterValue::Datetime(d),
            _ => FrontMatterValue::Other,
        }));
    }
    Some(r)
}

/// The value of the first entry under `k`.
pub open spec fn lookup(t: Seq<(Seq<char>, FieldModel)>, k: Seq<char>) -> Option<FieldModel>
    decreases t.len(),
{
    if t.len() == 0 {
        None
    } else if t[0].0 == k {
        Some(t[0].1)
    } else {
        lookup(t.drop_first(), k)
    }
}

/// A text field may be absent or text; anything else fails the whole block.
pub open spec fn text_field_ok(f: Option<FieldModel>) -> bool {
    match f {
        Some(FieldModel::Text(_)) | None => true,
        _ => false,
    }
}

pub open spec fn text_field(f: Option<FieldModel>) -> Option<Seq<char>> {
    match f {
        Some(FieldModel::Text(t)) => Some(t),
        _ => None,
    }
}

pub open spec fn date_field_ok(f: Option<FieldModel>) -> bool {
    match f {
        Some(FieldModel::Datetime(_)) | None => true,
        _ => false,
    }
}

pub open spec fn date_field(f: Option<FieldModel>) -> Option<toml_datetime::Datetime> {
    match f {
        Some(FieldModel::Datetime(d)) => Some(d),
        _ => None,
    }
}

/// The metadata that a table of entries gives, or `None` where `date`, `slug` or
/// `shortname` holds a value of the wrong kind. Other keys never fail the block:
/// `head_title` is kept where it is text, and the rest are ignored.
pub open spec fn metadata_of_table(t: Seq<(Seq<char>, FieldModel)>) -> Option<MetadataModel> {
    if text_field_ok(lookup(t, SLUG_KEY@)) && text_field_ok(lookup(t, SHORTNAME_KEY@))
        && date_field_ok(lookup(t, DATE_KEY@)) {
        Some(
            MetadataModel {
                slug: text_field(lookup(t, SLUG_KEY@)),
                shortname: text_field(lookup(t, SHORTNAME_KEY@)),
                head_title: text_field(lookup(t, HEAD_TITLE_KEY@)),
                date: date_field(lookup(t, DATE_KEY@)),
            },
        )
    } else {
        None
    }
}

/// The metadata of a document: `None` where it has no front matter block or the
/// block is not TOML of the expected shape.
pub open spec fn front_matter_of(md: Seq<char>) -> Option<MetadataModel> {
    let st = scan_document(md);
    if !st.found_block {
        None
    } else {
        match toml_table_of(st.block) {
            Some(t) => metadata_of_table(t),
            None => None,
        }
    }
}

/// The index of the first entry under `key`.
fn find_entry(t: &Vec<(String, FrontMatterValue)>, key: &str) -> (r: Option<usize>)
    ensures
        match r {
            Some(i) => i < t@.len() && lookup(table_view(t@), key@) == Some(t@[i as int].1@),
            None => lookup(table_view(t@), key@) is None,
        },
{
    let k = key.to_owned();
    let n = t.len();
    let mut i: usize = 0;
    assert(table_view(t@).subrange(0, n as int) =~= table_view(t@));
    while i < n
        invariant
            i <= n == t@.len(),
            k@ == key@,
            lookup(table_view(t@), key@) == lookup(table_view(t@).subrange(i as int, n as int), key@),
        decreases n - i,
    {
        if t[i].0 == k {
            return Some(i);
        }
        assert(table_view(t@).subrange(i as int, n as int).drop_first()
            =~= table_view(t@).subrange(i + 1, n as int));
        i = i + 1;
    }
    None
}

/// Reads a text field: `Err` where the key holds a value of another kind.
fn text_entry(t: &Vec<(String, FrontMatterValue)>, key: &str) -> (r: Result<Option<String>, ()>)
    ensures
        match r {
            Ok(v) => text_field_ok(lookup(table_view(t@), key@)) && opt_text(v) == text_field(
                lookup(table_view(t@), key@),
            ),
            Err(_) => !text_field_ok(lookup(table_view(t@), key@)),
        },
{
    match find_entry(t, key) {
        None => Ok(None),
        Some(i) => match &t[i].1 {
            FrontMatterValue::Text(s) => Ok(Some(s.clone())),
            _ => Err(()),
        },
    }
}

/// The metadata that the entries of a front matter table give, or `None` where
/// `date`, `slug` or `shortname` holds a value of the wrong kind.
pub fn metadata_from_table(t: &Vec<(String, FrontMatterValue)>) -> (r: Option<EntityMetadata>)
    ensures
        opt_metadata(r) == metadata_of_table(table_view(t@)),
{
    let slug = match text_entry(t, SLUG_KEY) {
        Ok(v) => v,
        Err(_) => return None,
    };
    let shortname = match text_entry(t, SHORTNAME_KEY) {
        Ok(v) => v,
        Err(_) => return None,
    };
    let head_title = match text_entry(t, HEAD_TITLE_KEY) {
        Ok(v) => v,
        Err(_) => None,
    };
    let date = match find_entry(t, DATE_KEY) {
        None => None,
        Some(i) => match &t[i].1 {
            FrontMatterValue::Datetime(d) => Some(*d),
            _ => return None,
        },
    };
    Some(EntityMetadata { slug, shortname, head_title, date })
}

/// What `md_to_html` returns for a document.
pub open spec fn md_to_html_result(md: Seq<char>, r: (Option<EntityMetadata>, String, String)) -> bool {
    &&& opt_metadata(r.0) == front_matter_of(md)
    &&& r.1@ == title_of(md)
    &&& r.2@ == markdown_html_of(md)
}

/// Converts a Markdown document: its front matter, the text of its first level-1
/// heading (empty where there is none), and its HTML.
pub fn md_to_html(md_str: &str) -> (r: (Option<EntityMetadata>, String, String))
    ensures
        md_to_html_result(md_str@, r),
{
    let events = markdown_events(md_str);
    let ghost ev = events_view(events@);
    let open = METADATA_OPEN.to_owned();
    let close = METADATA_CLOSE.to_owned();
    let mut in_heading = false;
    let mut title = String::new();
    let mut in_block = false;
    let mut found_block = false;
    let mut block = String::new();
    let mut done = false;
    let n = events.len();
    let mut i: usize = 0;
    assert(ev.subrange(0, n as int) =~= ev);
    while i < n && !done
        invariant
            i <= n == events@.len(),
            ev == events_view(events@),
            ev == markdown_events_of(md_str@),
            open@ == METADATA_OPEN@,
            close@ == METADATA_CLOSE@,
            scan_document(md_str@) == scan(
                ev.subrange(i as int, n as int),
                ScanState {
                    in_heading,
                    title: title@,
                    done,
                    in_block,
                    found_block,
                    block: block@,
                },
            ),
        decreases n - i,
    {
        assert(ev.subrange(i as int, n as int).drop_first() =~= ev.subrange(i + 1, n as int));
        assert(ev.subrange(i as int, n as int)[0] == events@[i as int]@);
        match &events[i] {
            MdEvent::HeadingStart(level) => {
                if *level == 1 {
                    in_heading = true;
                }
            },
            MdEvent::Text(t) => {
                if in_heading {
                    title = t.clone();
                    done = true;
                }
            },
            MdEvent::Html(h) => {
                let line = trim_str(h.as_str());
                if !in_block {
                    if line == open {
                        in_block = true;
                        found_block = true;
                    }
                } else if line == close {
                    in_block = false;
                } else {
                    block.append(h.as_str());
                }
            },
            MdEvent::Other => {},
        }
        i = i + 1;
    }
    let metadata = if found_block {
        match parse_toml_table(block.as_str()) {
            Some(t) => metadata_from_table(&t),
            None => None,
        }
    } else {
        None
    };
    (metadata, title, markdown_html(md_str))
}

/// Converting the same document twice gives the same front matter, the same title
/// and byte-identical HTML.
pub proof fn lemma_md_to_html_deterministic(
    md: Seq<char>,
    a: (Option<EntityMetadata>, String, String),
    b: (Option<EntityMetadata>, String, String),
)
    requires
        md_to_html_result(md, a),
        md_to_html_result(md, b),
    ensures
        opt_metadata(a.0) == opt_metadata(b.0),
        a.1@ == b.1@,
        a.2@ == b.2@,
{
}

proof fn lemma_scan_keeps_title(ev: Seq<MdEventModel>, st: ScanState)
    requires
        !st.in_heading,
        forall|i: int| 0 <= i < ev.len() ==> !opens_title(#[trigger] ev[i]),
    ensures
        scan(ev, st).title == st.title,
    decreases ev.len(),
{
    if ev.len() > 0 && !st.done {
        let next = scan_step(st, ev[0]);
        assert(!next.in_heading && next.title == st.title);
        assert forall|i: int| 0 <= i < ev.drop_first().len() implies !opens_title(
        #[trigger] ev.drop_first()[i]) by {
            assert(ev.drop_first()[i] == ev[i + 1]);
        }
        lemma_scan_keeps_title(ev.drop_first(), next);
    }
}

/// A document without a level-1 heading has an empty title.
pub proof fn lemma_no_heading_empty_title(md: Seq<char>)
    requires
        forall|i: int|
            0 <= i < markdown_events_of(md).len() ==> !opens_title(#[trigger] markdown_events_of(md)[i]),
    ensures
        title_of(md) == Seq::<char>::empty(),
{
    lemma_scan_keeps_title(markdown_events_of(md), initial_scan());
}

proof fn lemma_scan_first_heading(ev: Seq<MdEventModel>, st: ScanState, i: int, t: Seq<char>)
    requires
        !st.in_heading,
        !st.done,
        0 <= i,
        i + 1 < ev.len(),
        opens_title(ev[i]),
        ev[i + 1] == MdEventModel::Text(t),
        forall|j: int| 0 <= j < i ==> !opens_title(#[trigger] ev[j]),
    ensures
        scan(ev, st).title == t,
    decreases ev.len(),
{
    let rest = ev.drop_first();
    if i == 0 {
        let s1 = scan_step(st, ev[0]);
        assert(rest[0] == ev[1]);
        let s2 = scan_step(s1, rest[0]);
        assert(s2.done && s2.title == t);
        assert(scan(rest, s1) == scan(rest.drop_first(), s2));
    } else {
        let s1 = scan_step(st, ev[0]);
        assert(!s1.in_heading && !s1.done);
        assert(rest[i - 1] == ev[i] && rest[i] == ev[i + 1]);
        assert forall|j: int| 0 <= j < i - 1 implies !opens_title(#[trigger] rest[j]) by {
            assert(rest[j] == ev[j + 1]);
        }
        lemma_scan_first_heading(rest, s1, i - 1, t);
    }
}

/// The title is the text that opens the first level-1 heading.
pub proof fn lemma_first_heading_is_title(md: Seq<char>, i: int, t: Seq<char>)
    requires
        0 <= i,
        i + 1 < markdown_events_of(md).len(),
        opens_title(markdown_events_of(md)[i]),
        markdown_events_of(md)[i + 1] == MdEventModel::Text(t),
        forall|j: int| 0 <= j < i ==> !opens_title(#[trigger] markdown_events_of(md)[j]),
    ensures
        title_of(md) == t,
{
    lemma_scan_first_heading(markdown_events_of(md), initial_scan(), i, t);
}

/// A document without a front matter block, or whose block is not TOML, has no
/// metadata; converting it still succeeds.
pub proof fn lemma_missing_or_malformed_front_matter(md: Seq<char>)
    requires
        !scan_document(md).found_block || toml_table_of(scan_document(md).block) is None,
    ensures
        front_matter_of(md) is None,
{
}

} // verus!
