use stoic::markdown::md_to_html;

#[test]
fn converting_twice_gives_identical_output() {
    let md = "# Heading\n\nSome *text* with ~~strike~~ and a note[^1].\n\n[^1]: The note.\n";
    let a = md_to_html(md);
    let b = md_to_html(md);
    assert_eq!(a.1, b.1);
    assert_eq!(a.2, b.2);
    assert_eq!(a.0.is_some(), b.0.is_some());
}

#[test]
fn title_is_first_level_one_heading() {
    let (_, title, _) = md_to_html("intro\n\n## Sub\n\n# Title\n\n# Second\n");
    assert_eq!(title, "Title");
}

#[test]
fn no_level_one_heading_gives_empty_title() {
    let (_, title, html) = md_to_html("## Only a subheading\n\ntext\n");
    assert_eq!(title, "");
    assert_eq!(html, "<h2>Only a subheading</h2>\n<p>text</p>\n");
}

#[test]
fn front_matter_stays_in_html() {
    let md = "<!--metadata\nslug = \"a\"\n-->\n\n# T\n";
    let (metadata, _, html) = md_to_html(md);
    assert_eq!(metadata.unwrap().slug.as_deref(), Some("a"));
    assert!(html.starts_with("<!--metadata\nslug = \"a\"\n-->\n"));
}

#[test]
fn absent_front_matter_gives_none() {
    let (metadata, title, _) = md_to_html("# Plain\n\nbody\n");
    assert!(metadata.is_none());
    assert_eq!(title, "Plain");
}

#[test]
fn malformed_front_matter_gives_none() {
    let (metadata, title, _) = md_to_html("<!--metadata\nthis is = = not toml\n-->\n# Still\n");
    assert!(metadata.is_none());
    assert_eq!(title, "Still");
}

#[test]
fn wrongly_typed_front_matter_gives_none() {
    let (metadata, _, _) = md_to_html("<!--metadata\nslug = 42\n-->\n# X\n");
    assert!(metadata.is_none());
    let (metadata, _, _) = md_to_html("<!--metadata\ndate = \"2023-01-01\"\n-->\n# X\n");
    assert!(metadata.is_none());
}

#[test]
fn empty_front_matter_block_gives_empty_metadata() {
    let (metadata, _, _) = md_to_html("<!--metadata\n-->\n# X\n");
    let m = metadata.unwrap();
    assert!(m.slug.is_none() && m.shortname.is_none() && m.head_title.is_none() && m.date.is_none());
}

#[test]
fn unknown_front_matter_keys_are_ignored() {
    let (metadata, _, _) = md_to_html("<!--metadata\nshortname = \"s\"\nextra = 3\n-->\n# X\n");
    assert_eq!(metadata.unwrap().shortname.as_deref(), Some("s"));
}

#[test]
fn non_text_head_title_keeps_other_fields() {
    let (metadata, _, _) = md_to_html("<!--metadata\nslug = \"a\"\nhead_title = 1\n-->\n# X\n");
    let m = metadata.unwrap();
    assert_eq!(m.slug.as_deref(), Some("a"));
    assert!(m.head_title.is_none());
}
