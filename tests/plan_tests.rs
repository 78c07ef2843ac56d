use stoic::errors::BuildError;
use stoic::plan::{classify_input, plan_output, OutputAction, OutputState};
use stoic::text::{replace_str, strip_suffix_str, trim_str};
use stoic::types::{Entity, EntryKind, SourceEntry};
use stoic::watch::{next_action, WatchAction, WatchEvent};
use stoic::templates::TemplateName;

fn entry(name: &str, kind: EntryKind) -> SourceEntry {
    SourceEntry { name: name.to_string(), kind }
}

#[test]
fn output_that_is_a_file_is_rejected() {
    match plan_output("in", true, "out", &OutputState::File) {
        Err(BuildError::OutputIsFile { path }) => assert_eq!(path, "out"),
        other => panic!("unexpected {:?}", other),
    }
}

#[test]
fn missing_input_is_rejected_first() {
    match plan_output("in", false, "out", &OutputState::File) {
        Err(BuildError::InputMissing { path }) => assert_eq!(path, "in"),
        other => panic!("unexpected {:?}", other),
    }
}

#[test]
fn missing_output_is_created() {
    assert!(matches!(plan_output("in", true, "out", &OutputState::Missing), Ok(OutputAction::Create)));
}

#[test]
fn clearing_output_keeps_git_and_cname() {
    let state = OutputState::Directory(vec![
        entry(".git", EntryKind::Directory),
        entry("index.html", EntryKind::File),
        entry("CNAME", EntryKind::File),
        entry("posts", EntryKind::Directory),
    ]);
    match plan_output("in", true, "out", &state) {
        Ok(OutputAction::Clear(names)) => assert_eq!(names, vec!["index.html".to_string(), "posts".to_string()]),
        other => panic!("unexpected {:?}", other),
    }
}

#[test]
fn input_is_classified() {
    let entries = vec![
        entry("index.md", EntryKind::File),
        entry("about.md", EntryKind::File),
        entry("README.md", EntryKind::File),
        entry("notes.txt", EntryKind::File),
        entry("posts", EntryKind::Directory),
        entry("assets", EntryKind::Directory),
        entry("templates", EntryKind::Directory),
        entry(".git", EntryKind::Directory),
        entry("projects", EntryKind::Directory),
    ];
    let plan = classify_input(&entries);
    assert_eq!(plan.pages, vec!["about.md".to_string()]);
    assert_eq!(plan.collections, vec!["posts".to_string(), "projects".to_string()]);
    assert!(plan.has_index);
    assert!(!classify_input(&vec![entry("about.md", EntryKind::File)]).has_index);
}

#[test]
fn a_batch_of_changes_gives_one_rebuild() {
    assert_eq!(next_action(&WatchEvent::Changed { changes: 3 }), WatchAction::Rebuild);
    assert_eq!(next_action(&WatchEvent::Built { ok: true }), WatchAction::Reload);
    assert_eq!(next_action(&WatchEvent::Built { ok: false }), WatchAction::Report);
    assert_eq!(next_action(&WatchEvent::WatchFailed), WatchAction::Stop);
}

#[test]
fn text_helpers() {
    assert_eq!(replace_str("a.md.md", ".md", ".html"), "a.html.html");
    assert_eq!(replace_str(" hey there ", " ", "_"), "_hey_there_");
    assert_eq!(trim_str("\t hey there \n"), "hey there");
    assert_eq!(strip_suffix_str("posts", "s"), "post");
    assert_eq!(strip_suffix_str("news", "x"), "news");
}

#[test]
fn template_catalogue() {
    let names: Vec<&str> = TemplateName::all().iter().map(|t| t.name()).collect();
    assert_eq!(names, vec!["base", "index", "page", "posts", "post", "nav"]);
    assert!(TemplateName::Nav.template_str().contains("breadcrumb"));
}

#[test]
fn entity_json_escapes_text() {
    let e = Entity {
        filename: "a.html".to_string(),
        title: "Say \"hi\"\n".to_string(),
        created_at_iso: "2023-01-01".to_string(),
        created_at: "Jan 01, 2023".to_string(),
    };
    assert_eq!(
        e.to_json(),
        "{\"filename\":\"a.html\",\"title\":\"Say \\\"hi\\\"\\n\",\"created_at_iso\":\"2023-01-01\",\"created_at\":\"Jan 01, 2023\"}"
    );
}
