//! The set of compiled templates that one build renders with.

use crate::errors::BuildError;
use crate::partials::partials_acyclic;
use vstd::prelude::*;

verus! {

#[verifier::external_type_specification]
#[verifier::external_body]
pub struct ExRegistry<'reg>(handlebars::Handlebars<'reg>);

#[verifier::external_type_specification]
#[verifier::external_body]
pub struct ExTemplateError(handlebars::TemplateError);

/// The templates a registry holds, by name, each as the source it was compiled from.
pub uninterp spec fn registered_templates(h: handlebars::Handlebars<'static>) -> Map<Seq<char>, Seq<char>>;

/// Whether handlebars compiles a template source.
pub uninterp spec fn template_compiles(source: Seq<char>) -> bool;

/// What a strict handlebars registry renders for a template name and JSON data, given
/// the registered templates; `None` where rendering fails.
pub uninterp spec fn rendered_of(
    templates: Map<Seq<char>, Seq<char>>,
    name: Seq<char>,
    data: Seq<char>,
) -> Option<Seq<char>>;

/// Relies on `Handlebars::new` and `Handlebars::set_strict_mode`: a registry with no
/// templates, in which a reference to a missing field fails the render.
#[verifier::external_body]
fn new_registry() -> (r: handlebars::Handlebars<'static>)
    ensures
        registered_templates(r).dom().is_empty(),
{
    let mut h = handlebars::Handlebars::new();
    h.set_strict_mode(true);
    h
}

/// Relies on `Handlebars::register_template_string`: compiles `source` and, where it
/// compiles, registers it under `name`, replacing any template of that name.
#[verifier::external_body]
fn register_template_string(
    h: &mut handlebars::Handlebars<'static>,
    name: &str,
    source: &str,
) -> (r: Result<(), handlebars::TemplateError>)
    ensures
        r is Ok == template_compiles(source@),
        r is Ok ==> registered_templates(*final(h)) == registered_templates(*old(h)).insert(
            name@,
            source@,
        ),
        r is Err ==> registered_templates(*final(h)) == registered_templates(*old(h)),
{
    h.register_template_string(name, source)
}

/// Relies on `Handlebars::has_template`.
#[verifier::external_body]
fn registry_has_template(h: &handlebars::Handlebars<'static>, name: &str) -> (r: bool)
    ensures
        r == registered_templates(*h).contains_key(name@),
{
    h.has_template(name)
}

/// Relies on `Handlebars::render`, with `data` read by `serde_json::from_str` into the
/// JSON value it is handed; `None` where either fails. A name that is not registered
/// fails. Partial calls recurse without a bound, so no chain of them may come back to
/// where it started.
#[verifier::external_body]
fn registry_render(h: &handlebars::Handlebars<'static>, name: &str, data: &str) -> (r: Option<
    String,
>)
    requires
        partials_acyclic(registered_templates(*h)),
    ensures
        match r {
            Some(s) => rendered_of(registered_templates(*h), name@, data@) == Some(s@),
            None => rendered_of(registered_templates(*h), name@, data@) is None,
        },
        r is Some ==> registered_templates(*h).contains_key(name@),
{
    let value: serde_json::Value = serde_json::from_str(data).ok()?;
    h.render(name, &value).ok()
}

/// Compiled templates by name. Built fresh for each build and then only read.
pub struct TemplateSet {
    registry: handlebars::Handlebars<'static>,
}

impl TemplateSet {
    /// The registered templates, each as its source.
    pub closed spec fn templates(&self) -> Map<Seq<char>, Seq<char>> {
        registered_templates(self.registry)
    }

    pub fn new() -> (r: TemplateSet)
        ensures
            r.templates().dom().is_empty(),
            partials_acyclic(r.templates()),
    {
        let r = TemplateSet { registry: new_registry() };
        proof {
            crate::partials::lemma_no_templates_acyclic(r.templates());
        }
        r
    }

    /// Compiles `source` and registers it under `name`.
    pub(crate) fn register(&mut self, name: &str, source: &str) -> (r: Result<(), BuildError>)
        ensures
            r is Ok == template_compiles(source@),
            r is Ok ==> final(self).templates() == old(self).templates().insert(name@, source@),
            r is Err ==> final(self).templates() == old(self).templates(),
            match r {
                Err(BuildError::TemplateInvalid { template_name }) => template_name@ == name@,
                Err(_) => false,
                Ok(_) => true,
            },
    {
        match register_template_string(&mut self.registry, name, source) {
            Ok(()) => Ok(()),
            Err(_) => Err(BuildError::TemplateInvalid { template_name: name.to_owned() }),
        }
    }

    pub fn has_template(&self, name: &str) -> (r: bool)
        ensures
            r == self.templates().contains_key(name@),
    {
        registry_has_template(&self.registry, name)
    }

    /// Renders template `name` with the JSON `data`; `path` names the source in errors.
    pub fn render(&self, name: &str, data: &str, path: &str) -> (r: Result<String, BuildError>)
        requires
            partials_acyclic(self.templates()),
        ensures
            render_outcome(self.templates(), name@, data@, path@, r),
    {
        if !self.has_template(name) {
            return Err(
                BuildError::TemplateMissing { path: path.to_owned(), template_name: name.to_owned() },
            );
        }
        match registry_render(&self.registry, name, data) {
            Some(s) => Ok(s),
            None => Err(
                BuildError::Render(
                    crate::errors::RenderError { path: path.to_owned(), template_name: name.to_owned() },
                ),
            ),
        }
    }
}

/// What rendering `name` with `data` gives: a missing template, a render failure,
/// or the rendered text.
pub open spec fn render_outcome(
    templates: Map<Seq<char>, Seq<char>>,
    name: Seq<char>,
    data: Seq<char>,
    path: Seq<char>,
    r: Result<String, BuildError>,
) -> bool {
    if !templates.contains_key(name) {
        r is Err && r->Err_0.is_template_missing(path, name)
    } else {
        match rendered_of(templates, name, data) {
            Some(s) => r is Ok && r->Ok_0@ == s,
            None => r is Err && r->Err_0.is_render_failure(path, name),
        }
    }
}

/// Rendering is a function of the templates, the name and the data: two renders
/// of the same inputs agree, and where they succeed, give byte-identical text.
pub proof fn lemma_render_deterministic(
    templates: Map<Seq<char>, Seq<char>>,
    name: Seq<char>,
    data: Seq<char>,
    path: Seq<char>,
    a: Result<String, BuildError>,
    b: Result<String, BuildError>,
)
    requires
        render_outcome(templates, name, data, path, a),
        render_outcome(templates, name, data, path, b),
    ensures
        a is Ok <==> b is Ok,
        a is Ok ==> a->Ok_0@ == b->Ok_0@,
{
}

} // verus!
