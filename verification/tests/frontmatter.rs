use axiom_core::knowledge::error::KnowledgeError;
use axiom_core::knowledge::frontmatter::split_frontmatter;

fn p() -> &'static str {
    "concepts/shell.method_vertical_axis.md"
}

#[test]
fn splits_toml_and_body() {
    let raw = "+++\nid = \"shell.a\"\n+++\n\nBody text.\n";
    let (toml, body) = split_frontmatter(p(), raw).unwrap();
    assert_eq!(toml, "id = \"shell.a\"\n");
    assert_eq!(body, "Body text.\n");
}

#[test]
fn trims_leading_blank_lines_from_body_but_preserves_internal_blank_lines() {
    let raw = "+++\nid = \"shell.a\"\n+++\n\n\nFirst paragraph.\n\nSecond paragraph.\n";
    let (_, body) = split_frontmatter(p(), raw).unwrap();
    assert_eq!(body, "First paragraph.\n\nSecond paragraph.\n");
}

#[test]
fn accepts_crlf_line_endings() {
    let raw = "+++\r\nid = \"shell.a\"\r\n+++\r\n\r\nBody.\r\n";
    let (toml, body) = split_frontmatter(p(), raw).unwrap();
    assert_eq!(toml, "id = \"shell.a\"\n");
    assert_eq!(body, "Body.\n");
}

#[test]
fn rejects_bom() {
    let raw = "\u{FEFF}+++\nid = \"shell.a\"\n+++\n\nBody.\n";
    assert!(matches!(
        split_frontmatter(p(), raw),
        Err(KnowledgeError::Bom { .. })
    ));
}

#[test]
fn rejects_missing_opening_delimiter() {
    let raw = "id = \"shell.a\"\n+++\n\nBody.\n";
    assert!(matches!(
        split_frontmatter(p(), raw),
        Err(KnowledgeError::MissingFrontmatterDelimiter { .. })
    ));
}

#[test]
fn rejects_leading_blank_line_before_opening_delimiter() {
    let raw = "\n+++\nid = \"shell.a\"\n+++\n\nBody.\n";
    assert!(matches!(
        split_frontmatter(p(), raw),
        Err(KnowledgeError::MissingFrontmatterDelimiter { .. })
    ));
}

#[test]
fn rejects_unterminated_frontmatter() {
    let raw = "+++\nid = \"shell.a\"\n";
    assert!(matches!(
        split_frontmatter(p(), raw),
        Err(KnowledgeError::UnterminatedFrontmatter { .. })
    ));
}

#[test]
fn frontmatter_errors_carry_the_path() {
    match split_frontmatter(p(), "+++\nid = 1\n") {
        Err(KnowledgeError::UnterminatedFrontmatter { path }) => assert_eq!(path, p()),
        other => panic!("unexpected result: {other:?}"),
    }
}

#[test]
fn empty_body_after_closing_delimiter_is_empty() {
    let (toml, body) = split_frontmatter(p(), "+++\na = 1\nb = 2\n+++\n").unwrap();
    assert_eq!(toml, "a = 1\nb = 2\n");
    assert_eq!(body, "");
}

#[test]
fn crlf_and_lf_files_read_alike() {
    let lf = "+++\nid = \"shell.a\"\ntitle = \"x\"\n+++\n\n\nBody line.\n\nMore.\n";
    let crlf = lf.replace('\n', "\r\n");
    assert_eq!(split_frontmatter(p(), lf).unwrap(), split_frontmatter(p(), &crlf).unwrap());
    let unterminated = "+++\nid = \"shell.a\"\n";
    assert!(matches!(
        split_frontmatter(p(), &unterminated.replace('\n', "\r\n")),
        Err(KnowledgeError::UnterminatedFrontmatter { .. })
    ));
}
