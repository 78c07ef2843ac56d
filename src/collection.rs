//! Collections: a directory of Markdown entities and the index that lists them,
//! newest first.

use crate::errors::BuildError;
use crate::partials::partials_acyclic;
use crate::registry::{render_outcome, TemplateSet};
use crate::render::MD_SUFFIX;
use crate::text::{chars_of, ends_with, ends_with_str};
use crate::types::{
    crumb_items, crumb_json, entities_args_json, entity_items, Breadcrumb, EntitiesArgs, Entity,
    EntryKind, SourceEntry,
};
use vstd::prelude::*;

verus! {

/// What Inflector's `to_title_case` gives for a text.
pub uninterp spec fn title_case_of(s: Seq<char>) -> Seq<char>;

/// Relies on `inflector::cases::titlecase::to_title_case`.
#[verifier::external_body]
fn title_case(s: &str) -> (r: String)
    ensures
        r@ == title_case_of(s@),
{
    inflector::cases::titlecase::to_title_case(s)
}

/// The breadcrumbs of a collection and of everything in it: one step, titled like
/// the collection and linking to it.
pub fn collection_breadcrumbs(name: &str) -> (r: Vec<Breadcrumb>)
    ensures
        r@.len() == 1,
        r@[0].name@ == title_case_of(name@),
        r@[0].link@ == name@,
{
    vec![Breadcrumb { name: title_case(name), link: name.to_owned() }]
}

/// Whether a listing entry is a member of the collection: a file ending in `.md`.
pub open spec fn is_member(name: Seq<char>, kind: EntryKind) -> bool {
    kind == EntryKind::File && ends_with(name, MD_SUFFIX@)
}

pub open spec fn member_names(entries: Seq<SourceEntry>) -> Seq<Seq<char>>
    decreases entries.len(),
{
    if entries.len() == 0 {
        Seq::empty()
    } else {
        let rest = member_names(entries.drop_last());
        if is_member(entries.last().name@, entries.last().kind) {
            rest.push(entries.last().name@)
        } else {
            rest
        }
    }
}

/// The names of the collection's members, in listing order.
pub fn collection_members(entries: &Vec<SourceEntry>) -> (r: Vec<String>)
    ensures
        r@.map_values(|s: String| s@) == member_names(entries@),
{
    let mut r: Vec<String> = Vec::new();
    let n = entries.len();
    let mut i: usize = 0;
    while i < n
        invariant
            i <= n == entries@.len(),
            r@.map_values(|s: String| s@) == member_names(entries@.take(i as int)),
        decreases n - i,
    {
        assert(entries@.take(i + 1).drop_last() =~= entries@.take(i as int));
        let e = &entries[i];
        if e.kind == EntryKind::File && ends_with_str(e.name.as_str(), MD_SUFFIX) {
            r.push(e.name.clone());
            assert(r@.map_values(|s: String| s@) =~= member_names(entries@.take(i as int)).push(
                e.name@,
            ));
        }
        i = i + 1;
    }
    assert(entries@.take(n as int) =~= entries@);
    r
}

/// Lexicographic order of texts, by code point, as `String`'s `Ord` gives it.
pub open spec fn seq_less(a: Seq<char>, b: Seq<char>) -> bool
    decreases a.len(),
{
    if a.len() == 0 {
        b.len() > 0
    } else if b.len() == 0 {
        false
    } else if a[0] != b[0] {
        a[0] < b[0]
    } else {
        seq_less(a.drop_first(), b.drop_first())
    }
}

pub fn str_less(a: &str, b: &str) -> (r: bool)
    ensures
        r == seq_less(a@, b@),
{
    let x = chars_of(a);
    let y = chars_of(b);
    let mut i: usize = 0;
    assert(x@.skip(0) =~= x@);
    assert(y@.skip(0) =~= y@);
    while i < x.len() && i < y.len() && x[i] == y[i]
        invariant
            i <= x@.len(),
            i <= y@.len(),
            x@ == a@,
            y@ == b@,
            seq_less(a@, b@) == seq_less(x@.skip(i as int), y@.skip(i as int)),
        decreases x@.len() - i,
    {
        assert(x@.skip(i as int).drop_first() =~= x@.skip(i + 1));
        assert(y@.skip(i as int).drop_first() =~= y@.skip(i + 1));
        i = i + 1;
    }
    if i == x.len() {
        i < y.len()
    } else if i == y.len() {
        false
    } else {
        x[i] < y[i]
    }
}

/// Where an entity goes in a list that is newest first: before the first entry
/// that sorts strictly older, so that equal dates keep their order.
pub open spec fn insert_pos(sorted: Seq<Entity>, e: Entity) -> int
    decreases sorted.len(),
{
    if sorted.len() == 0 {
        0
    } else if seq_less(sorted[0].created_at_iso@, e.created_at_iso@) {
        0
    } else {
        1 + insert_pos(sorted.drop_first(), e)
    }
}

/// The entities ordered by `created_at_iso`, newest first; a stable sort.
pub open spec fn newest_first(s: Seq<Entity>) -> Seq<Entity>
    decreases s.len(),
{
    if s.len() == 0 {
        s
    } else {
        let r = newest_first(s.drop_last());
        r.insert(insert_pos(r, s.last()), s.last())
    }
}

fn find_insert_pos(sorted: &Vec<Entity>, e: &Entity) -> (r: usize)
    ensures
        r == insert_pos(sorted@, *e),
{
    let n = sorted.len();
    let mut j: usize = 0;
    assert(sorted@.skip(0) =~= sorted@);
    while j < n && !str_less(sorted[j].created_at_iso.as_str(), e.created_at_iso.as_str())
        invariant
            j <= n == sorted@.len(),
            insert_pos(sorted@, *e) == j + insert_pos(sorted@.skip(j as int), *e),
        decreases n - j,
    {
        assert(sorted@.skip(j as int).drop_first() =~= sorted@.skip(j + 1));
        j = j + 1;
    }
    j
}

/// Orders the entities newest first by `created_at_iso`; equal dates keep their order.
pub fn sort_newest_first(v: Vec<Entity>) -> (r: Vec<Entity>)
    ensures
        r@ == newest_first(v@),
{
    let ghost orig = v@;
    let mut input = v;
    let mut r: Vec<Entity> = Vec::new();
    let ghost mut i: int = 0;
    assert(orig.take(0) =~= Seq::<Entity>::empty());
    assert(orig.skip(0) =~= orig);
    while input.len() > 0
        invariant
            0 <= i <= orig.len(),
            input@ == orig.skip(i),
            r@ == newest_first(orig.take(i)),
        decreases input@.len(),
    {
        let e = input.remove(0);
        let p = find_insert_pos(&r, &e);
        proof {
            lemma_insert_pos_facts(r@, e);
        }
        r.insert(p, e);
        assert(orig.take(i + 1).drop_last() =~= orig.take(i));
        assert(orig.skip(i + 1) =~= orig.skip(i).drop_first());
        proof {
            i = i + 1;
        }
    }
    assert(orig.take(i) =~= orig);
    r
}

/// The JSON a collection's index is rendered with.
pub open spec fn collection_render_data(name: Seq<char>, entities: Seq<Entity>) -> Seq<char> {
    entities_args_json(
        seq![crumb_json(title_case_of(name), name)],
        title_case_of(name),
        entity_items(newest_first(entities)),
    )
}

/// Renders the index of collection `name`, listing its entities newest first, with
/// the template named like the collection; `path` names the output in errors.
pub fn render_collection_index(
    templates: &TemplateSet,
    name: &str,
    entities: Vec<Entity>,
    path: &str,
) -> (r: Result<String, BuildError>)
    requires
        partials_acyclic(templates.templates()),
    ensures
        render_outcome(templates.templates(), name@, collection_render_data(name@, entities@), path@, r),
{
    let crumbs = collection_breadcrumbs(name);
    let title = title_case(name);
    let sorted = sort_newest_first(entities);
    let args = EntitiesArgs { path: crumbs, title, entities: sorted };
    assert(crumb_items(args.path@) =~= seq![crumb_json(title_case_of(name@), name@)]);
    let data = args.to_json();
    templates.render(name, data.as_str(), path)
}

proof fn lemma_less_irreflexive(a: Seq<char>)
    ensures
        !seq_less(a, a),
    decreases a.len(),
{
    if a.len() > 0 {
        lemma_less_irreflexive(a.drop_first());
    }
}

proof fn lemma_less_transitive(a: Seq<char>, b: Seq<char>, c: Seq<char>)
    requires
        seq_less(a, b),
        seq_less(b, c),
    ensures
        seq_less(a, c),
    decreases a.len(),
{
    if a.len() > 0 && b.len() > 0 && c.len() > 0 && a[0] == b[0] && b[0] == c[0] {
        lemma_less_transitive(a.drop_first(), b.drop_first(), c.drop_first());
    }
}

proof fn lemma_less_total(a: Seq<char>, b: Seq<char>)
    ensures
        seq_less(a, b) || seq_less(b, a) || a == b,
    decreases a.len(),
{
    if a.len() > 0 && b.len() > 0 {
        if a[0] == b[0] {
            lemma_less_total(a.drop_first(), b.drop_first());
            if a.drop_first() == b.drop_first() {
                assert(a =~= seq![a[0]] + a.drop_first());
                assert(b =~= seq![b[0]] + b.drop_first());
            }
        }
    } else if a.len() == 0 && b.len() == 0 {
        assert(a =~= b);
    }
}

/// Newest first: no entry is dated strictly before an entry that follows it.
pub open spec fn is_newest_first(s: Seq<Entity>) -> bool {
    forall|i: int, j: int|
        0 <= i < j < s.len() ==> !seq_less(#[trigger] s[i].created_at_iso@, #[trigger] s[j].created_at_iso@)
}

proof fn lemma_insert_pos_facts(sorted: Seq<Entity>, e: Entity)
    ensures
        0 <= insert_pos(sorted, e) <= sorted.len(),
        forall|k: int|
            0 <= k < insert_pos(sorted, e) ==> !seq_less(
                #[trigger] sorted[k].created_at_iso@,
                e.created_at_iso@,
            ),
        insert_pos(sorted, e) < sorted.len() ==> seq_less(
            sorted[insert_pos(sorted, e)].created_at_iso@,
            e.created_at_iso@,
        ),
    decreases sorted.len(),
{
    if sorted.len() > 0 && !seq_less(sorted[0].created_at_iso@, e.created_at_iso@) {
        let rest = sorted.drop_first();
        lemma_insert_pos_facts(rest, e);
        assert forall|k: int| 0 <= k < insert_pos(sorted, e) implies !seq_less(
            #[trigger] sorted[k].created_at_iso@,
            e.created_at_iso@,
        ) by {
            if k > 0 {
                assert(sorted[k] == rest[k - 1]);
            }
        }
        if insert_pos(sorted, e) < sorted.len() {
            assert(sorted[insert_pos(sorted, e)] == rest[insert_pos(rest, e)]);
        }
    }
}

proof fn lemma_insert_keeps_order(r: Seq<Entity>, e: Entity)
    requires
        is_newest_first(r),
    ensures
        is_newest_first(r.insert(insert_pos(r, e), e)),
{
    lemma_insert_pos_facts(r, e);
    let p = insert_pos(r, e);
    let q = r.insert(p, e);
    assert forall|i: int, j: int| 0 <= i < j < q.len() implies !seq_less(
        #[trigger] q[i].created_at_iso@,
        #[trigger] q[j].created_at_iso@,
    ) by {
        let x = e.created_at_iso@;
        if i < p && j == p {
            assert(q[i] == r[i]);
        } else if i < p && j > p {
            assert(q[i] == r[i] && q[j] == r[j - 1]);
        } else if i == p {
            // every later entry is no newer than r[p], which is strictly older than e
            let y = r[j - 1].created_at_iso@;
            let z = r[p].created_at_iso@;
            assert(q[j] == r[j - 1]);
            if j - 1 > p {
                lemma_less_total(y, z);
                if seq_less(y, z) {
                    lemma_less_transitive(y, z, x);
                }
            }
            if seq_less(x, y) {
                lemma_less_transitive(x, y, x);
                lemma_less_irreflexive(x);
            }
        } else if i > p {
            assert(q[i] == r[i - 1] && q[j] == r[j - 1]);
        } else {
            assert(q[i] == r[i] && q[j] == r[j]);
        }
    }
}

/// A collection's index lists its entities newest first by `created_at_iso`, and
/// lists each of them exactly as often as it was given.
pub proof fn lemma_newest_first(s: Seq<Entity>)
    ensures
        is_newest_first(newest_first(s)),
        newest_first(s).to_multiset() == s.to_multiset(),
    decreases s.len(),
{
    broadcast use vstd::seq_lib::group_to_multiset_ensures;

    if s.len() > 0 {
        let r = newest_first(s.drop_last());
        lemma_newest_first(s.drop_last());
        lemma_insert_keeps_order(r, s.last());
        lemma_insert_pos_facts(r, s.last());
        assert(s.drop_last().push(s.last()) =~= s);
    }
}

} // verus!
