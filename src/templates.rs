use vstd::prelude::*;

verus! {

pub const BASE_NAME: &'static str = "base";

pub const INDEX_NAME: &'static str = "index";

pub const PAGE_NAME: &'static str = "page";

pub const POSTS_NAME: &'static str = "posts";

pub const POST_NAME: &'static str = "post";

pub const NAV_NAME: &'static str = "nav";

pub const BASE_TEMPLATE: &'static str = r#"
<!doctype html>
<html lang="en">
  <head>
    <meta charset="utf-8">
    <meta name="viewport" content="width=device-width,initial-scale=1">
    <title>{{title}}</title>
    <link rel="stylesheet" href="/assets/style.css">
    <script type="text/javascript" src="/assets/script.js" async defer></script>
  </head>
  <body>
    <div id="container">
      {{> filling}}
      <footer>
      </footer>
    </div>
  </body>
</html>
"#;

pub const INDEX_TEMPLATE: &'static str = r#"
{{#*inline "filling"}}
<section>
  {{{contents}}}
  <ul>
    <li><a href="/about">About</a></li>
    <li><a href="/posts">Blog</a></li>
  </ul>
</section>
{{/inline}}
{{> base}}
"#;

pub const PAGE_TEMPLATE: &'static str = r#"
{{#*inline "filling"}}
{{> nav}}
<section>
  {{{contents}}}
</section>
{{/inline}}
{{> base}}
"#;

pub const POSTS_TEMPLATE: &'static str = r#"
{{#*inline "filling"}}
{{> nav}}
<section>
  <ul id="posts-list">
    {{#each entities}}
    <li class="posts-list-item">
      <div class="posts-list-item-title">{{this.title}}</div>
      <div class="posts-list-item-time">{{this.created_at}}</div>
    </li>
    {{/each}}
  </ul>
</section>
{{/inline}}
{{> base}}
"#;

pub const POST_TEMPLATE: &'static str = r#"
{{#*inline "filling"}}
{{> nav}}
<section>
  {{{contents}}}
</section>
{{/inline}}
{{> base}}
"#;

pub const NAV_TEMPLATE: &'static str = r#"
<nav>
  <a href="/">Home</a>
  {{#each path}}
    <span class="breadcrumb">></span>
    <a href="{{link}}">{{name}}</a>
  {{/each}}
</nav>
"#;

/// The templates a new site starts with.
#[derive(Clone, Copy, Debug, PartialEq, Eq)]
pub enum TemplateName {
    Base,
    Index,
    Page,
    Posts,
    Post,
    Nav,
}

impl TemplateName {
    /// The name under which the template is registered (and its file stem).
    pub open spec fn spec_name(self) -> Seq<char> {
        match self {
            TemplateName::Base => BASE_NAME@,
            TemplateName::Index => INDEX_NAME@,
            TemplateName::Page => PAGE_NAME@,
            TemplateName::Posts => POSTS_NAME@,
            TemplateName::Post => POST_NAME@,
            TemplateName::Nav => NAV_NAME@,
        }
    }

    /// The source text of the template.
    pub open spec fn source(self) -> Seq<char> {
        match self {
            TemplateName::Base => BASE_TEMPLATE@,
            TemplateName::Index => INDEX_TEMPLATE@,
            TemplateName::Page => PAGE_TEMPLATE@,
            TemplateName::Posts => POSTS_TEMPLATE@,
            TemplateName::Post => POST_TEMPLATE@,
            TemplateName::Nav => NAV_TEMPLATE@,
        }
    }

    pub fn template_str(&self) -> (r: &'static str)
        ensures
            r@ == self.source(),
    {
        match self {
            TemplateName::Base => BASE_TEMPLATE,
            TemplateName::Index => INDEX_TEMPLATE,
            TemplateName::Page => PAGE_TEMPLATE,
            TemplateName::Posts => POSTS_TEMPLATE,
            TemplateName::Post => POST_TEMPLATE,
            TemplateName::Nav => NAV_TEMPLATE,
        }
    }

    /// The lower-case name of the template.
    pub fn name(&self) -> (r: &'static str)
        ensures
            r@ == self.spec_name(),
    {
        match self {
            TemplateName::Base => BASE_NAME,
            TemplateName::Index => INDEX_NAME,
            TemplateName::Page => PAGE_NAME,
            TemplateName::Posts => POSTS_NAME,
            TemplateName::Post => POST_NAME,
            TemplateName::Nav => NAV_NAME,
        }
    }

    /// Every template, in declaration order.
    pub fn all() -> (r: Vec<TemplateName>)
        ensures
            r@ == seq![
                TemplateName::Base,
                TemplateName::Index,
                TemplateName::Page,
                TemplateName::Posts,
                TemplateName::Post,
                TemplateName::Nav,
            ],
    {
        vec![
            TemplateName::Base,
            TemplateName::Index,
            TemplateName::Page,
            TemplateName::Posts,
            TemplateName::Post,
            TemplateName::Nav,
        ]
    }
}

} // verus!
