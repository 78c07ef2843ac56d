//! The decisions of a build that come before any rendering: what the input tree
//! holds, what happens to the output directory, and which templates are loaded.

use crate::errors::BuildError;
use crate::partials::{
    calls_in, edge_src, edges_acyclic, edges_ranked, names_of, pairs_of, partial_calls,
    partials_acyclic, ranked, read_calls, PartialNode,
};
use crate::registry::{template_compiles, TemplateSet};
use crate::render::MD_SUFFIX;
use crate::text::{
    chars_of, ends_with, ends_with_str, push_char, strip_suffix, strip_suffix_str, string_of,
    trim, trim_str,
};
use crate::types::{EntryKind, SourceEntry};
use vstd::prelude::*;

verus! {

pub const README_NAME: &'static str = "README.md";

pub const INDEX_SOURCE_NAME: &'static str = "index.md";

pub const GIT_NAME: &'static str = ".git";

pub const ASSETS_NAME: &'static str = "assets";

pub const TEMPLATES_NAME: &'static str = "templates";

pub const CNAME_NAME: &'static str = "CNAME";

pub const TEMPLATE_SUFFIX: &'static str = ".hbs";

/// Top-level input names that are never a page or a collection.
pub open spec fn is_reserved_input(name: Seq<char>) -> bool {
    name == README_NAME@ || name == INDEX_SOURCE_NAME@ || name == GIT_NAME@ || name == ASSETS_NAME@
        || name == TEMPLATES_NAME@
}

/// Output entries that a build never deletes.
pub open spec fn is_reserved_output(name: Seq<char>) -> bool {
    name == GIT_NAME@ || name == CNAME_NAME@
}

pub open spec fn is_page(e: SourceEntry) -> bool {
    e.kind == EntryKind::File && ends_with(e.name@, MD_SUFFIX@) && !is_reserved_input(e.name@)
}

pub open spec fn is_collection(e: SourceEntry) -> bool {
    e.kind == EntryKind::Directory && !is_reserved_input(e.name@)
}

pub open spec fn is_index_source(e: SourceEntry) -> bool {
    e.kind == EntryKind::File && e.name@ == INDEX_SOURCE_NAME@
}

/// The names of the entries that satisfy `f`, in listing order.
pub open spec fn names_where(entries: Seq<SourceEntry>, f: spec_fn(SourceEntry) -> bool) -> Seq<Seq<char>>
    decreases entries.len(),
{
    if entries.len() == 0 {
        Seq::empty()
    } else {
        let rest = names_where(entries.drop_last(), f);
        if f(entries.last()) {
            rest.push(entries.last().name@)
        } else {
            rest
        }
    }
}

pub open spec fn names(v: Seq<String>) -> Seq<Seq<char>> {
    v.map_values(|s: String| s@)
}

/// What the top level of the input tree holds.
#[derive(Debug)]
pub struct InputPlan {
    /// Markdown files rendered as pages.
    pub pages: Vec<String>,
    /// Directories built as collections.
    pub collections: Vec<String>,
    /// Whether `index.md` is there, rendered as the site's index.
    pub has_index: bool,
}

fn is_reserved_input_name(name: &String) -> (r: bool)
    ensures
        r == is_reserved_input(name@),
{
    *name == README_NAME.to_owned() || *name == INDEX_SOURCE_NAME.to_owned() || *name
        == GIT_NAME.to_owned() || *name == ASSETS_NAME.to_owned() || *name
        == TEMPLATES_NAME.to_owned()
}

/// Sorts the top-level input entries into pages, collections and the site's index;
/// reserved names are skipped.
pub fn classify_input(entries: &Vec<SourceEntry>) -> (r: InputPlan)
    ensures
        names(r.pages@) == names_where(entries@, |e: SourceEntry| is_page(e)),
        names(r.collections@) == names_where(entries@, |e: SourceEntry| is_collection(e)),
        r.has_index == exists|i: int| 0 <= i < entries@.len() && is_index_source(#[trigger] entries@[i]),
{
    let mut pages: Vec<String> = Vec::new();
    let mut collections: Vec<String> = Vec::new();
    let mut has_index = false;
    let n = entries.len();
    let mut i: usize = 0;
    while i < n
        invariant
            i <= n == entries@.len(),
            names(pages@) == names_where(entries@.take(i as int), |e: SourceEntry| is_page(e)),
            names(collections@) == names_where(
                entries@.take(i as int),
                |e: SourceEntry| is_collection(e),
            ),
            has_index == exists|j: int| 0 <= j < i && is_index_source(#[trigger] entries@[j]),
        decreases n - i,
    {
        let e = &entries[i];
        assert(entries@.take(i + 1).drop_last() =~= entries@.take(i as int));
        assert(entries@.take(i + 1).last() == entries@[i as int]);
        let reserved = is_reserved_input_name(&e.name);
        if e.kind == EntryKind::File && !reserved && ends_with_str(e.name.as_str(), MD_SUFFIX) {
            pages.push(e.name.clone());
            assert(names(pages@) =~= names(pages@.drop_last()).push(e.name@));
        }
        if e.kind == EntryKind::Directory && !reserved {
            collections.push(e.name.clone());
            assert(names(collections@) =~= names(collections@.drop_last()).push(e.name@));
        }
        if e.kind == EntryKind::File && e.name == INDEX_SOURCE_NAME.to_owned() {
            has_index = true;
        }
        i = i + 1;
    }
    assert(entries@.take(n as int) =~= entries@);
    InputPlan { pages, collections, has_index }
}

/// What the output path is before a build.
#[derive(Debug)]
pub enum OutputState {
    Missing,
    File,
    Directory(Vec<SourceEntry>),
}

/// What to do to the output path before rendering.
#[derive(Debug)]
pub enum OutputAction {
    /// Create the directory.
    Create,
    /// Delete these entries of the directory, recursively where they are directories.
    Clear(Vec<String>),
}

pub open spec fn removable(entries: Seq<SourceEntry>) -> Seq<Seq<char>> {
    names_where(entries, |e: SourceEntry| !is_reserved_output(e.name@))
}

/// Checks the input and decides what to do to the output, before anything is
/// written: a missing input and an output that is a plain file are errors; an
/// output directory is cleared of everything but `.git` and `CNAME`; a missing one
/// is created.
pub fn plan_output(input_path: &str, input_exists: bool, output_path: &str, output: &OutputState) -> (r:
    Result<OutputAction, BuildError>)
    ensures
        !input_exists ==> (r matches Err(BuildError::InputMissing { path }) && path@
            == input_path@),
        input_exists && output is File ==> (r matches Err(BuildError::OutputIsFile { path })
            && path@ == output_path@),
        input_exists && output is Missing ==> (r matches Ok(OutputAction::Create)),
        input_exists && output is Directory ==> (r matches Ok(OutputAction::Clear(v)) && names(v@)
            == removable(output->Directory_0@)),
{
    if !input_exists {
        return Err(BuildError::InputMissing { path: input_path.to_owned() });
    }
    match output {
        OutputState::Missing => Ok(OutputAction::Create),
        OutputState::File => Err(BuildError::OutputIsFile { path: output_path.to_owned() }),
        OutputState::Directory(entries) => {
            let mut v: Vec<String> = Vec::new();
            let n = entries.len();
            let mut i: usize = 0;
            while i < n
                invariant
                    i <= n == entries@.len(),
                    names(v@) == removable(entries@.take(i as int)),
                decreases n - i,
            {
                assert(entries@.take(i + 1).drop_last() =~= entries@.take(i as int));
                let name = &entries[i].name;
                if !(*name == GIT_NAME.to_owned() || *name == CNAME_NAME.to_owned()) {
                    v.push(name.clone());
                    assert(names(v@) =~= names(v@.drop_last()).push(name@));
                }
                i = i + 1;
            }
            assert(entries@.take(n as int) =~= entries@);
            Ok(OutputAction::Clear(v))
        },
    }
}

/// The lines of `s`, split at each `'\n'`, as `str::split` gives them.
pub open spec fn split_lines(s: Seq<char>) -> Seq<Seq<char>>
    decreases s.len(),
{
    if s.len() == 0 {
        seq![Seq::empty()]
    } else {
        let r = split_lines(s.drop_last());
        if s.last() == '\n' {
            r.push(Seq::empty())
        } else {
            r.update(r.len() - 1, r.last().push(s.last()))
        }
    }
}

/// Lines joined with `'\n'`.
pub open spec fn join_lines(ls: Seq<Seq<char>>) -> Seq<char>
    decreases ls.len(),
{
    if ls.len() == 0 {
        Seq::empty()
    } else if ls.len() == 1 {
        ls[0]
    } else {
        join_lines(ls.drop_last()) + seq!['\n'] + ls.last()
    }
}

pub open spec fn trim_lines(ls: Seq<Seq<char>>) -> Seq<Seq<char>> {
    ls.map_values(|l: Seq<char>| trim(l))
}

/// A template's source with each line trimmed.
pub open spec fn normalized_template(s: Seq<char>) -> Seq<char> {
    join_lines(trim_lines(split_lines(s)))
}

/// The text before the line in progress: the done lines, each ending in `'\n'`.
pub open spec fn done_prefix(done: Seq<Seq<char>>) -> Seq<char> {
    if done.len() == 0 {
        Seq::empty()
    } else {
        join_lines(trim_lines(done)) + seq!['\n']
    }
}

/// Trims every line of a template's source.
pub fn normalize_template(source: &str) -> (r: String)
    ensures
        r@ == normalized_template(source@),
{
    let cs = chars_of(source);
    let mut out = String::new();
    let ghost mut done: Seq<Seq<char>> = Seq::empty();
    let n = cs.len();
    let mut start: usize = 0;
    let mut i: usize = 0;
    assert(cs@.take(0) =~= Seq::<char>::empty());
    assert(cs@.subrange(0, 0) =~= Seq::<char>::empty());
    assert(done.push(Seq::<char>::empty()) =~= seq![Seq::<char>::empty()]);
    while i < n
        invariant
            start <= i <= n == cs@.len(),
            cs@ == source@,
            split_lines(cs@.take(i as int)) == done.push(cs@.subrange(start as int, i as int)),
            out@ == done_prefix(done),
        decreases n - i,
    {
        let ghost cur = cs@.subrange(start as int, i as int);
        assert(cs@.take(i + 1).drop_last() =~= cs@.take(i as int));
        assert(cs@.take(i + 1).last() == cs@[i as int]);
        if cs[i] == '\n' {
            let line = string_of(&cs, start, i);
            let t = trim_str(line.as_str());
            out.append(t.as_str());
            push_char(&mut out, '\n');
            proof {
                let nd = done.push(cur);
                assert(nd.drop_last() =~= done);
                assert(trim_lines(nd).drop_last() =~= trim_lines(done));
                if done.len() == 0 {
                    assert(trim_lines(nd) =~= seq![trim(cur)]);
                }
                assert(out@ =~= done_prefix(nd));
                done = nd;
                assert(cs@.subrange(i + 1, i + 1) =~= Seq::<char>::empty());
            }
            start = i + 1;
        } else {
            proof {
                assert(cs@.subrange(start as int, i + 1) =~= cur.push(cs@[i as int]));
                assert(done.push(cur).update(done.len() as int, cur.push(cs@[i as int]))
                    =~= done.push(cs@.subrange(start as int, i + 1)));
            }
        }
        i = i + 1;
    }
    let last = string_of(&cs, start, n);
    let t = trim_str(last.as_str());
    out.append(t.as_str());
    proof {
        let cur = cs@.subrange(start as int, n as int);
        let all = done.push(cur);
        assert(cs@.take(n as int) =~= source@);
        assert(all.drop_last() =~= done);
        assert(trim_lines(all).drop_last() =~= trim_lines(done));
        if done.len() == 0 {
            assert(trim_lines(all) =~= seq![trim(cur)]);
        }
        assert(out@ =~= join_lines(trim_lines(all)));
    }
    out
}

/// The name a template file registers under: its name without `.hbs`.
pub open spec fn template_name_of(file_name: Seq<char>) -> Seq<char> {
    strip_suffix(file_name, TEMPLATE_SUFFIX@)
}

/// The templates that files (name, source) give, later files replacing earlier ones.
pub open spec fn templates_of(files: Seq<(Seq<char>, Seq<char>)>) -> Map<Seq<char>, Seq<char>>
    decreases files.len(),
{
    if files.len() == 0 {
        Map::empty()
    } else {
        templates_of(files.drop_last()).insert(
            template_name_of(files.last().0),
            normalized_template(files.last().1),
        )
    }
}

pub open spec fn files_view(files: Seq<(String, String)>) -> Seq<(Seq<char>, Seq<char>)> {
    files.map_values(|f: (String, String)| (f.0@, f.1@))
}

/// Whether every file's normalized source compiles.
pub open spec fn all_compile(files: Seq<(Seq<char>, Seq<char>)>) -> bool {
    forall|i: int| 0 <= i < files.len() ==> template_compiles(normalized_template(#[trigger] files[i].1))
}

/// Whether file `i` is the first whose normalized source does not compile.
pub open spec fn first_invalid(files: Seq<(Seq<char>, Seq<char>)>, i: int) -> bool {
    &&& 0 <= i < files.len()
    &&& !template_compiles(normalized_template(files[i].1))
    &&& all_compile(files.take(i))
}

/// Compiles the template files, given as (file name, source), into a template set.
/// Fails on the first file whose source does not compile, naming its template; then
/// on a template whose partial calls cannot be read, or on calls that may come back
/// to where they started.
pub fn load_templates(files: &Vec<(String, String)>) -> (r: Result<TemplateSet, BuildError>)
    ensures
        r is Ok <==> all_compile(files_view(files@)) && partials_acyclic(
            templates_of(files_view(files@)),
        ),
        r matches Ok(ts) ==> ts.templates() == templates_of(files_view(files@)) && partials_acyclic(
            ts.templates(),
        ),
        r matches Err(BuildError::TemplateInvalid { .. }) <==> !all_compile(files_view(files@)),
        r matches Err(e) ==> (e is TemplateInvalid || e is TemplateUnsupported || e is PartialCycle),
        r matches Err(BuildError::TemplateInvalid { template_name }) ==> exists|i: int|
            first_invalid(files_view(files@), i) && template_name@ == template_name_of(
                #[trigger] files_view(files@)[i].0,
            ),
        r matches Err(BuildError::TemplateUnsupported { template_name }) ==> exists|i: int|
            0 <= i < files@.len() && template_name@ == template_name_of(
                #[trigger] files_view(files@)[i].0,
            ) && partial_calls(normalized_template(files_view(files@)[i].1)) is None,
{
    let ghost fv = files_view(files@);
    let mut ts = TemplateSet::new();
    assert(ts.templates() =~= templates_of(fv.take(0)));
    let n = files.len();
    let mut i: usize = 0;
    while i < n
        invariant
            i <= n == files@.len(),
            fv == files_view(files@),
            all_compile(fv.take(i as int)),
            ts.templates() == templates_of(fv.take(i as int)),
        decreases n - i,
    {
        let name = strip_suffix_str(files[i].0.as_str(), TEMPLATE_SUFFIX);
        let source = normalize_template(files[i].1.as_str());
        assert(fv.take(i + 1).drop_last() =~= fv.take(i as int));
        match ts.register(name.as_str(), source.as_str()) {
            Ok(()) => {},
            Err(e) => {
                assert(!template_compiles(normalized_template(fv[i as int].1)));
                assert(first_invalid(fv, i as int));
                assert(!all_compile(fv));
                assert(fv[i as int].0 == files@[i as int].0@);
                assert(first_invalid(files_view(files@), i as int) && (e matches BuildError::TemplateInvalid {
                    template_name,
                } && template_name@ == template_name_of(files_view(files@)[i as int].0)));
                return Err(e);
            },
        }
        assert(all_compile(fv.take(i + 1))) by {
            assert forall|j: int| 0 <= j < i + 1 implies template_compiles(
                normalized_template(#[trigger] fv.take(i + 1)[j].1),
            ) by {
                if j < i {
                    assert(fv.take(i + 1)[j] == fv.take(i as int)[j]);
                }
            }
        }
        i = i + 1;
    }
    assert(fv.take(n as int) =~= fv);
    let mut es: Vec<(bool, String, String)> = Vec::new();
    let mut k: usize = 0;
    while k < n
        invariant
            k <= n == files@.len(),
            fv == files_view(files@),
            all_compile(fv),
            ts.templates() == templates_of(fv),
            forall|k2: int| 0 <= k2 < k && is_last(fv, k2) ==> (#[trigger] partial_calls(normalized_template(fv[k2].1))) is Some,
            forall|u: PartialNode, c: Seq<char>|
                #[trigger] has_edge(es@, u, c) <==> exists|k2: int| 0 <= k2 < k && is_last(fv, k2) && #[trigger] file_calls(fv, k2, u, c),
        decreases n - k,
    {
        let name = strip_suffix_str(files[k].0.as_str(), TEMPLATE_SUFFIX);
        assert(fv[k as int].0 == files@[k as int].0@ && fv[k as int].1 == files@[k as int].1@);
        let mut last = true;
        let mut j: usize = k + 1;
        while j < n
            invariant
                k < j <= n == files@.len(),
                fv == files_view(files@),
                name@ == template_name_of(fv[k as int].0),
                last <==> forall|q: int| k < q < j ==> template_name_of(#[trigger] fv[q].0) != name@,
            decreases n - j,
        {
            let other = strip_suffix_str(files[j].0.as_str(), TEMPLATE_SUFFIX);
            assert(fv[j as int].0 == files@[j as int].0@);
            if other == name {
                last = false;
            }
            j = j + 1;
        }
        let ghost es0 = es@;
        if last {
            let source = normalize_template(files[k].1.as_str());
            match read_calls(source.as_str()) {
                None => {
                    assert(0 <= k < files@.len() && name@ == template_name_of(files_view(files@)[k as int].0)
                        && partial_calls(normalized_template(files_view(files@)[k as int].1)) is None);
                    proof {
                        lemma_last_registered(fv, k as int);
                    }
                    return Err(BuildError::TemplateUnsupported { template_name: name });
                },
                Some((main, inline)) => {
                    let mut a: usize = 0;
                    while a < main.len()
                        invariant
                            a <= main@.len(),
                            es@.len() == es0.len() + a,
                            forall|q: int| 0 <= q < es0.len() ==> es@[q] == es0[q],
                            forall|q: int| 0 <= q < a ==> #[trigger] es@[es0.len() + q] == (false, name, main@[q]),
                        decreases main@.len() - a,
                    {
                        es.push((false, name.clone(), main[a].clone()));
                        a = a + 1;
                    }
                    let ghost es1 = es@;
                    let mut b: usize = 0;
                    while b < inline.len()
                        invariant
                            b <= inline@.len(),
                            es@.len() == es1.len() + b,
                            forall|q: int| 0 <= q < es1.len() ==> es@[q] == es1[q],
                            forall|q: int| 0 <= q < b ==> #[trigger] es@[es1.len() + q] == (true, inline@[q].0, inline@[q].1),
                        decreases inline@.len() - b,
                    {
                        es.push((true, inline[b].0.clone(), inline[b].1.clone()));
                        b = b + 1;
                    }
                    proof {
                        let st = partial_calls(normalized_template(fv[k as int].1))->Some_0;
                        assert forall|u: PartialNode, c: Seq<char>|
                            #[trigger] has_edge(es@, u, c) <==> (has_edge(es0, u, c) || file_calls(fv, k as int, u, c)) by {
                            if has_edge(es@, u, c) {
                                let i = choose|i: int| 0 <= i < es@.len() && edge_src(#[trigger] es@[i]) == u && es@[i].2@ == c;
                                if i < es0.len() {
                                    assert(es0[i] == es@[i]);
                                } else if i < es1.len() {
                                    let q = i - es0.len();
                                    assert(es1[es0.len() + q] == (false, name, main@[q]));
                                    assert(es@[es0.len() + q] == es1[es0.len() + q]);
                                    assert(names_of(main@)[q] == main@[q]@);
                                } else {
                                    let q = i - es1.len();
                                    assert(es@[es1.len() + q] == (true, inline@[q].0, inline@[q].1));
                                    assert(pairs_of(inline@)[q] == (inline@[q].0@, inline@[q].1@));
                                }
                            }
                            if has_edge(es0, u, c) {
                                let i = choose|i: int| 0 <= i < es0.len() && edge_src(#[trigger] es0[i]) == u && es0[i].2@ == c;
                                assert(es@[i] == es0[i]);
                            }
                            if file_calls(fv, k as int, u, c) {
                                if u == PartialNode::Main(template_name_of(fv[k as int].0)) && st.main.contains(c) {
                                    let q = choose|q: int| 0 <= q < st.main.len() && st.main[q] == c;
                                    assert(names_of(main@)[q] == main@[q]@);
                                    assert(es1[es0.len() + q] == (false, name, main@[q]));
                                    assert(es@[es0.len() + q] == es1[es0.len() + q]);
                                    assert(edge_src(es@[es0.len() + q]) == u);
                                } else {
                                    let x = u->Inline_0;
                                    let q = choose|q: int| 0 <= q < st.inline.len() && st.inline[q] == (x, c);
                                    assert(pairs_of(inline@)[q] == (inline@[q].0@, inline@[q].1@));
                                    assert(es@[es1.len() + q] == (true, inline@[q].0, inline@[q].1));
                                    assert(edge_src(es@[es1.len() + q]) == u);
                                }
                            }
                        }
                    }
                },
            }
        }
        proof {
            assert forall|u: PartialNode, c: Seq<char>|
                #[trigger] has_edge(es@, u, c) <==> exists|k2: int| 0 <= k2 < k + 1 && is_last(fv, k2) && #[trigger] file_calls(fv, k2, u, c) by {
                if exists|k2: int| 0 <= k2 < k + 1 && is_last(fv, k2) && #[trigger] file_calls(fv, k2, u, c) {
                    let k2 = choose|k2: int| 0 <= k2 < k + 1 && is_last(fv, k2) && #[trigger] file_calls(fv, k2, u, c);
                    if k2 == k {
                        assert(is_last(fv, k as int) ==> last);
                    }
                }
                if !last {
                    assert(!is_last(fv, k as int));
                }
            }
        }
        k = k + 1;
    }
    let ok = edges_acyclic(&es);
    proof {
        lemma_edges_match_registry(fv, es@);
    }
    if !ok {
        return Err(BuildError::PartialCycle);
    }
    Ok(ts)
}

/// File `k` is the last one registered under its template name.
pub open spec fn is_last(files: Seq<(Seq<char>, Seq<char>)>, k: int) -> bool {
    &&& 0 <= k < files.len()
    &&& forall|j: int| k < j < files.len() ==> template_name_of(#[trigger] files[j].0) != template_name_of(files[k].0)
}

/// Body `u` of file `k`'s template calls `c`.
pub open spec fn file_calls(files: Seq<(Seq<char>, Seq<char>)>, k: int, u: PartialNode, c: Seq<char>) -> bool {
    partial_calls(normalized_template(files[k].1)) matches Some(st) && ((u == PartialNode::Main(
        template_name_of(files[k].0),
    ) && st.main.contains(c)) || (u matches PartialNode::Inline(x) && st.inline.contains((x, c))))
}

pub open spec fn has_edge(es: Seq<(bool, String, String)>, u: PartialNode, c: Seq<char>) -> bool {
    exists|i: int| 0 <= i < es.len() && edge_src(#[trigger] es[i]) == u && es[i].2@ == c
}

proof fn lemma_last_registered(files: Seq<(Seq<char>, Seq<char>)>, k: int)
    requires
        is_last(files, k),
    ensures
        templates_of(files).contains_key(template_name_of(files[k].0)),
        templates_of(files)[template_name_of(files[k].0)] == normalized_template(files[k].1),
    decreases files.len(),
{
    if k < files.len() - 1 {
        assert(files.drop_last()[k] == files[k]);
        assert forall|j: int| k < j < files.drop_last().len() implies template_name_of(
            #[trigger] files.drop_last()[j].0,
        ) != template_name_of(files.drop_last()[k].0) by {
            assert(files.drop_last()[j] == files[j]);
        }
        lemma_last_registered(files.drop_last(), k);
    }
}

proof fn lemma_registered_last(files: Seq<(Seq<char>, Seq<char>)>, t: Seq<char>) -> (k: int)
    requires
        templates_of(files).contains_key(t),
    ensures
        is_last(files, k),
        template_name_of(files[k].0) == t,
        normalized_template(files[k].1) == templates_of(files)[t],
    decreases files.len(),
{
    let last = files.last();
    if template_name_of(last.0) == t {
        (files.len() - 1) as int
    } else {
        let k = lemma_registered_last(files.drop_last(), t);
        assert(files.drop_last()[k] == files[k]);
        assert forall|j: int| k < j < files.len() implies template_name_of(#[trigger] files[j].0)
            != template_name_of(files[k].0) by {
            if j < files.len() - 1 {
                assert(files.drop_last()[j] == files[j]);
            }
        }
        k
    }
}

/// With the edges of the files that the registry keeps, a ranking fits the edges
/// exactly when it fits the registry's calls.
proof fn lemma_edges_match_registry(files: Seq<(Seq<char>, Seq<char>)>, es: Seq<(bool, String, String)>)
    requires
        forall|k: int| 0 <= k < files.len() && is_last(files, k) ==> (#[trigger] partial_calls(normalized_template(files[k].1))) is Some,
        forall|u: PartialNode, c: Seq<char>|
            #[trigger] has_edge(es, u, c) <==> exists|k: int| 0 <= k < files.len() && is_last(files, k) && #[trigger] file_calls(files, k, u, c),
    ensures
        partials_acyclic(templates_of(files)) == exists|rank: spec_fn(PartialNode) -> nat| edges_ranked(es, rank),
{
    let m = templates_of(files);
    assert forall|t: Seq<char>| m.contains_key(t) implies (#[trigger] partial_calls(m[t])) is Some by {
        let k = lemma_registered_last(files, t);
    }
    assert forall|u: PartialNode, c: Seq<char>| calls_in(m, u, c) <==> #[trigger] has_edge(es, u, c) by {
        if calls_in(m, u, c) {
            let t = choose|t: Seq<char>|
                #![trigger m[t]]
                m.contains_key(t) && (partial_calls(m[t]) matches Some(st) && ((u == PartialNode::Main(t)
                    && st.main.contains(c)) || (u matches PartialNode::Inline(x) && st.inline.contains(
                    (x, c),
                ))));
            let k = lemma_registered_last(files, t);
            assert(file_calls(files, k, u, c));
        }
        if has_edge(es, u, c) {
            let k = choose|k: int| 0 <= k < files.len() && is_last(files, k) && #[trigger] file_calls(files, k, u, c);
            lemma_last_registered(files, k);
            let t = template_name_of(files[k].0);
            assert(m.contains_key(t) && m[t] == normalized_template(files[k].1));
        }
    }
    assert forall|rank: spec_fn(PartialNode) -> nat| ranked(m, rank) <==> edges_ranked(es, rank) by {
        if ranked(m, rank) {
            assert forall|i: int| 0 <= i < es.len() implies rank(edge_src(#[trigger] es[i])) > rank(
                PartialNode::Main(es[i].2@),
            ) && rank(edge_src(es[i])) > rank(PartialNode::Inline(es[i].2@)) by {
                assert(has_edge(es, edge_src(es[i]), es[i].2@));
                assert(calls_in(m, edge_src(es[i]), es[i].2@));
            }
        }
        if edges_ranked(es, rank) {
            assert forall|u: PartialNode, c: Seq<char>| #[trigger] calls_in(m, u, c) implies rank(u) > rank(
                PartialNode::Main(c),
            ) && rank(u) > rank(PartialNode::Inline(c)) by {
                assert(has_edge(es, u, c));
                let i = choose|i: int| 0 <= i < es.len() && edge_src(#[trigger] es[i]) == u && es[i].2@ == c;
            }
        }
    }
}

} // verus!
