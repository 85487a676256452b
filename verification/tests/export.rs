use tecindo::export::{export_name, export_name_for, export_source};

#[test]
fn the_source_opens_with_the_title() {
    assert_eq!(export_source("Plain", "Body\n"), "---\ntitle: \"Plain\"\n---\n\nBody\n");
    assert_eq!(export_source("", ""), "---\ntitle: \"\"\n---\n\n");
}

#[test]
fn quotes_and_backslashes_of_the_title_are_escaped() {
    assert_eq!(
        export_source("a \"b\" c\\d", "x"),
        "---\ntitle: \"a \\\"b\\\" c\\\\d\"\n---\n\nx"
    );
    let title = "\\\"";
    let expected = format!(
        "---\ntitle: \"{}\"\n---\n\n{}",
        title.replace('\\', "\\\\").replace('"', "\\\""),
        "c\"\\"
    );
    assert_eq!(export_source(title, "c\"\\"), expected);
}

#[test]
fn the_file_is_named_after_the_slug() {
    assert_eq!(export_name("Hello World!"), "hello-world.pdf");
    assert_eq!(export_name("???"), "document.pdf");
    assert_eq!(export_name(""), "document.pdf");
    assert_eq!(export_name_for("x"), "x.pdf");
    assert_eq!(export_name_for(""), "document.pdf");
}
