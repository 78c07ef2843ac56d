use stoic::collection::{collection_breadcrumbs, collection_members, render_collection_index, sort_newest_first, str_less};
use stoic::dates::{date_from_parts, display_date_string, is_valid_date, iso_date_string};
use stoic::errors::BuildError;
use stoic::plan::{load_templates, normalize_template};
use stoic::registry::TemplateSet;
use stoic::render::{render_entity, render_index, render_page};
use stoic::templates::TemplateName;
use stoic::types::{Breadcrumb, Entity, EntryKind, SourceEntry};
use toml_datetime::Date;

const POST_MD: &str = r#"
<!--metadata
date = 2023-03-24
shortname = "title"
slug = " hey there "
-->
# Title
"#;

fn templates(files: &[(&str, &str)]) -> TemplateSet {
    let v: Vec<(String, String)> = files.iter().map(|(n, s)| (n.to_string(), s.to_string())).collect();
    load_templates(&v).unwrap()
}

fn entity(iso: &str) -> Entity {
    Entity {
        filename: format!("{iso}.html"),
        title: iso.to_string(),
        created_at_iso: iso.to_string(),
        created_at: String::new(),
    }
}

fn today() -> Date {
    Date { year: 2024, month: 1, day: 2 }
}

#[test]
fn index_lists_entities_newest_first() {
    let ts = templates(&[("posts.hbs", "{{#each entities}}{{this.created_at_iso}};{{/each}}")]);
    let out = render_collection_index(
        &ts,
        "posts",
        vec![entity("2023-01-01"), entity("2023-06-01"), entity("2022-12-31")],
        "out/posts/index.html",
    )
    .unwrap();
    assert_eq!(out, "2023-06-01;2023-01-01;2022-12-31;");
}

#[test]
fn sort_keeps_order_of_equal_dates() {
    let mut a = entity("2023-01-01");
    a.title = "a".to_string();
    let mut b = entity("2023-01-01");
    b.title = "b".to_string();
    let sorted = sort_newest_first(vec![a, entity("2020-05-05"), b, entity("2024-02-02")]);
    let titles: Vec<&str> = sorted.iter().map(|e| e.title.as_str()).collect();
    assert_eq!(titles, vec!["2024-02-02", "a", "b", "2020-05-05"]);
}

#[test]
fn strings_compare_lexicographically() {
    assert!(str_less("2022-12-31", "2023-01-01"));
    assert!(!str_less("2023-01-01", "2023-01-01"));
    assert!(str_less("abc", "abcd"));
    assert!(!str_less("b", "abc"));
}

#[test]
fn entity_renders_with_slug_date_and_breadcrumbs() {
    let ts = templates(&[(
        "post.hbs",
        "{{title}}|{{#each path}}{{name}}>{{link}};{{/each}}|{{{contents}}}",
    )]);
    let crumbs = vec![Breadcrumb { name: "Posts".to_string(), link: "posts".to_string() }];
    let out = render_entity(&ts, "a.md", "posts", &crumbs, "in/posts/a.md", POST_MD, today()).unwrap();
    assert_eq!(out.entity.filename, "hey_there.html");
    assert_eq!(out.entity.title, "Title");
    assert_eq!(out.entity.created_at_iso, "2023-03-24");
    assert_eq!(out.entity.created_at, "Mar 24, 2023");
    assert!(out.html.starts_with("Title|Posts>posts;title>posts/hey_there.html;|<!--metadata"));
}

#[test]
fn entity_without_front_matter_uses_file_name_and_today() {
    let ts = templates(&[("note.hbs", "{{#each path}}{{name}};{{/each}}")]);
    let out = render_entity(&ts, "first.md", "notes", &vec![], "in/notes/first.md", "# One\n", today()).unwrap();
    assert_eq!(out.entity.filename, "first.html");
    assert_eq!(out.entity.created_at_iso, "2024-01-02");
    assert_eq!(out.entity.created_at, "Jan 02, 2024");
    assert_eq!(out.html, "Jan 02, 2024;");
}

#[test]
fn entity_with_missing_template_fails() {
    let ts = templates(&[("posts.hbs", "x")]);
    let r = render_entity(&ts, "a.md", "posts", &vec![], "in/posts/a.md", POST_MD, today());
    match r {
        Err(BuildError::TemplateMissing { path, template_name }) => {
            assert_eq!(path, "in/posts/a.md");
            assert_eq!(template_name, "post");
        }
        other => panic!("unexpected {:?}", other),
    }
}

#[test]
fn render_failure_names_path_and_template() {
    let ts = templates(&[("page.hbs", "{{no_such_helper title}}")]);
    match render_page(&ts, "about.md", "in/about.md", "# About\n") {
        Err(BuildError::Render(e)) => {
            assert_eq!(e.path, "in/about.md");
            assert_eq!(e.template_name, "page");
        }
        other => panic!("unexpected {:?}", other),
    }
}

#[test]
fn page_falls_back_to_page_template() {
    let ts = templates(&[("page.hbs", "P:{{title}}:{{#each path}}{{link}}{{/each}}"), ("about.hbs", "A:{{title}}")]);
    let out = render_page(&ts, "contact.md", "in/contact.md", "# Contact\n").unwrap();
    assert_eq!(out.file_name, "contact.html");
    assert_eq!(out.html, "P:Contact:contact.html");
    let out = render_page(&ts, "about.md", "in/about.md", "# About me\n").unwrap();
    assert_eq!(out.html, "A:About me");
}

#[test]
fn site_index_renders_with_index_template() {
    let ts = templates(&[("index.hbs", "[{{title}}]{{{contents}}}")]);
    let out = render_index(&ts, "in/index.md", "# Home\n").unwrap();
    assert_eq!(out, "[Home]<h1>Home</h1>\n");
}

#[test]
fn rendering_twice_is_identical() {
    let ts = templates(&[("page.hbs", "{{title}} {{{contents}}}")]);
    let a = render_page(&ts, "x.md", "in/x.md", "# X\n\ntext\n").unwrap();
    let b = render_page(&ts, "x.md", "in/x.md", "# X\n\ntext\n").unwrap();
    assert_eq!(a.html, b.html);
    assert_eq!(a.file_name, b.file_name);
}

#[test]
fn template_lines_are_trimmed() {
    assert_eq!(normalize_template("  <a>  \n\t<b>\n"), "<a>\n<b>\n");
    assert_eq!(normalize_template(""), "");
    let ts = templates(&[("base.hbs", "  <p>{{title}}</p>  \n")]);
    assert!(ts.has_template("base"));
    assert!(!ts.has_template("base.hbs"));
}

#[test]
fn invalid_template_is_reported() {
    let v = vec![("bad.hbs".to_string(), "{{#if x}}unclosed".to_string())];
    match load_templates(&v) {
        Err(BuildError::TemplateInvalid { template_name }) => assert_eq!(template_name, "bad"),
        other => panic!("unexpected {:?}", other.map(|_| ())),
    }
}

#[test]
fn collection_breadcrumb_is_title_cased() {
    let c = collection_breadcrumbs("my_posts");
    assert_eq!(c.len(), 1);
    assert_eq!(c[0].name, "My Posts");
    assert_eq!(c[0].link, "my_posts");
}

#[test]
fn collection_members_are_markdown_files() {
    let entries = vec![
        SourceEntry { name: "a.md".to_string(), kind: EntryKind::File },
        SourceEntry { name: "img.png".to_string(), kind: EntryKind::File },
        SourceEntry { name: "sub.md".to_string(), kind: EntryKind::Directory },
        SourceEntry { name: "b.md".to_string(), kind: EntryKind::File },
    ];
    assert_eq!(collection_members(&entries), vec!["a.md".to_string(), "b.md".to_string()]);
}

#[test]
fn dates_format_as_iso_and_display() {
    let d = Date { year: 2023, month: 3, day: 4 };
    assert_eq!(iso_date_string(d), "2023-03-04");
    assert_eq!(display_date_string(d), "Mar 04, 2023");
    assert_eq!(iso_date_string(Date { year: 7, month: 12, day: 31 }), "0007-12-31");
    assert!(is_valid_date(Date { year: 2024, month: 2, day: 29 }));
    assert!(!is_valid_date(Date { year: 2023, month: 2, day: 29 }));
    assert!(!is_valid_date(Date { year: 2023, month: 13, day: 1 }));
    assert!(!is_valid_date(Date { year: 1900, month: 2, day: 29 }));
    assert!(is_valid_date(Date { year: 2000, month: 2, day: 29 }));
}

#[test]
fn dates_from_parts() {
    assert_eq!(date_from_parts(2024, 2, 29), Some(Date { year: 2024, month: 2, day: 29 }));
    assert_eq!(date_from_parts(2023, 2, 29), None);
    assert_eq!(date_from_parts(-1, 1, 1), None);
    assert_eq!(date_from_parts(70000, 1, 1), None);
    assert_eq!(date_from_parts(2023, 4, 31), None);
}

#[test]
fn invalid_front_matter_date_shows_today() {
    let ts = templates(&[("post.hbs", "x")]);
    let md = "<!--metadata\ndate = 2023-02-30\n-->\n# T\n";
    if let Ok(out) = render_entity(&ts, "t.md", "posts", &vec![], "in/posts/t.md", md, today()) {
        assert_eq!(out.entity.created_at, "Jan 02, 2024");
    }
}

fn load(files: &[(&str, &str)]) -> Result<TemplateSet, BuildError> {
    let v: Vec<(String, String)> = files.iter().map(|(n, s)| (n.to_string(), s.to_string())).collect();
    load_templates(&v)
}

#[test]
fn partial_cycle_is_rejected() {
    assert!(matches!(load(&[("a.hbs", "{{> b}}"), ("b.hbs", "{{> a}}")]), Err(BuildError::PartialCycle)));
    assert!(matches!(load(&[("a.hbs", "{{> a}}")]), Err(BuildError::PartialCycle)));
    assert!(matches!(
        load(&[("a.hbs", "{{#*inline \"x\"}}{{> a}}{{/inline}}{{> x}}")]),
        Err(BuildError::PartialCycle)
    ));
}

#[test]
fn unsupported_partial_forms_are_rejected() {
    match load(&[("a.hbs", "{{> @partial-block}}")]) {
        Err(BuildError::TemplateUnsupported { template_name }) => assert_eq!(template_name, "a"),
        other => panic!("unexpected {:?}", other.map(|_| ())),
    }
    assert!(matches!(load(&[("a.hbs", "{{> (lookup x)}}")]), Err(BuildError::TemplateUnsupported { .. })));
}

#[test]
fn comments_and_escapes_make_no_calls() {
    let ts = load(&[(
        "page.hbs",
        "{{!-- {{> page}} }} --}}{{! short {{> page}}<b>{{title}}</b>\\{{title}}",
    )])
    .unwrap();
    let out = render_page(&ts, "a.md", "in/a.md", "# T\n").unwrap();
    assert_eq!(out.html, "<b>T</b>{{title}}");
}

#[test]
fn only_the_last_template_of_a_name_counts() {
    let ts = load(&[("a.hbs", "{{> b}}"), ("b.hbs", "{{> a}}"), ("a", "plain")]).unwrap();
    assert!(ts.has_template("a"));
}

#[test]
fn scaffold_templates_load_and_list_entities() {
    let files: Vec<(String, String)> = TemplateName::all()
        .into_iter()
        .map(|t| (format!("{}.hbs", t.name()), t.template_str().to_string()))
        .collect();
    let ts = load_templates(&files).unwrap();
    let mut e = entity("2023-01-01");
    e.created_at = "Jan 01, 2023".to_string();
    let out = render_collection_index(&ts, "posts", vec![e], "out/posts/index.html").unwrap();
    assert!(out.contains("Jan 01, 2023"));
    assert!(out.contains("2023-01-01"));
}

#[test]
fn missing_field_fails_the_render() {
    let ts = templates(&[("page.hbs", "{{no_such_field}}")]);
    assert!(matches!(render_page(&ts, "a.md", "in/a.md", "# A\n"), Err(BuildError::Render(_))));
}

#[test]
fn years_above_four_digits_are_signed() {
    assert_eq!(display_date_string(Date { year: 10000, month: 1, day: 1 }), "Jan 01, +10000");
    assert_eq!(display_date_string(Date { year: 99, month: 12, day: 5 }), "Dec 05, 0099");
}
