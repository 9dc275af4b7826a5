use tui::{extract_latest_changelog_section, inline_changelog_section, MAX_INLINE_CHANGELOG_CHARS};

#[test]
fn extract_latest_section_finds_first_version() {
    let content = "\n\
## [0.8.26] - 2026-05-09\n\
\n\
A security + polish release.\n\
\n\
### Fixed\n\
\n\
- Fixed something\n\
\n\
## [0.8.25] - 2026-05-09\n\
\n\
A stabilization release.\n";
    let section = extract_latest_changelog_section(content).expect("should find a section");
    assert!(section.contains("0.8.26"));
    assert!(section.contains("Fixed something"));
    assert!(!section.contains("0.8.25"));
}

#[test]
fn extract_latest_section_handles_0_8_29_style_fixture() {
    let content = "\n\
# Changelog\n\
\n\
## [0.8.29] - 2026-05-11\n\
\n\
Release candidate polish.\n\
\n\
### Added\n\
- New note-management command.\n\
\n\
## [0.8.28] - 2026-05-10\n\
\n\
Previous release.\n";
    let section = extract_latest_changelog_section(content).expect("should find a section");
    assert!(section.contains("0.8.29"));
    assert!(section.contains("2026-05-11"));
    assert!(section.contains("New note-management command"));
    assert!(!section.contains("0.8.28"));
}

#[test]
fn extract_latest_section_returns_none_for_empty_content() {
    assert!(extract_latest_changelog_section("").is_none());
}

#[test]
fn extract_latest_section_returns_none_for_no_version_headers() {
    let content = "# Just a heading\n\nSome text\n";
    assert!(extract_latest_changelog_section(content).is_none());
}

#[test]
fn extract_latest_section_handles_single_version() {
    let content = "\n## [0.8.26] - 2026-05-09\n\nOnly one version.\n";
    let section = extract_latest_changelog_section(content).expect("should find a section");
    assert!(section.contains("0.8.26"));
    assert!(section.contains("Only one version"));
}

#[test]
fn extract_latest_section_handles_subheadings() {
    let content = "\n\
## [0.8.26] - 2026-05-09\n\
\n\
### Added\n\
- New feature A\n\
\n\
### Fixed\n\
- Fixed bug B\n\
\n\
## [0.8.25] - 2026-05-09\n\
";
    let section = extract_latest_changelog_section(content).expect("should find a section");
    assert!(section.contains("New feature A"));
    assert!(section.contains("Fixed bug B"));
    assert!(!section.contains("0.8.25"));
}

#[test]
fn extract_latest_ignores_lines_before_first_version() {
    let content = "\n\
# Changelog\n\
\n\
Some intro text.\n\
\n\
## [0.8.26] - 2026-05-09\n\
\n\
Content\n\
";
    let section = extract_latest_changelog_section(content).expect("should find a section");
    assert!(section.contains("0.8.26"));
    assert!(!section.contains("Changelog"));
    assert!(!section.contains("intro text"));
}

#[test]
fn extract_returns_exact_trimmed_section() {
    let content = "# Changelog\n\n## [1.2.0] - 2026-01-02\n\n- one\n- two\n\n\n## [1.1.0]\n- old\n";
    assert_eq!(
        extract_latest_changelog_section(content),
        Some("## [1.2.0] - 2026-01-02\n\n- one\n- two".to_string())
    );
}

#[test]
fn extract_runs_to_end_of_text_without_next_heading() {
    let content = "## [2.0.0]\ntail line";
    assert_eq!(
        extract_latest_changelog_section(content),
        Some("## [2.0.0]\ntail line".to_string())
    );
}

#[test]
fn extract_accepts_indented_heading_and_trims_it() {
    let content = "intro\n   \t## [3.0.0] - x   \nbody\n  ## [2.9.9]\n";
    assert_eq!(
        extract_latest_changelog_section(content),
        Some("## [3.0.0] - x   \nbody".to_string())
    );
}

#[test]
fn extract_drops_carriage_returns_before_line_feeds() {
    let content = "## [1.0.0]\r\nfirst\r\nsecond\r\n## [0.9.0]\r\n";
    assert_eq!(
        extract_latest_changelog_section(content),
        Some("## [1.0.0]\nfirst\nsecond".to_string())
    );
}

#[test]
fn extract_keeps_carriage_return_not_before_line_feed() {
    let content = "## [1.0.0]\na\rb\n";
    assert_eq!(
        extract_latest_changelog_section(content),
        Some("## [1.0.0]\na\rb".to_string())
    );
}

#[test]
fn extract_requires_the_full_marker() {
    assert!(extract_latest_changelog_section("## 1.0.0\n##[1.0.0]\n# [1.0.0]\n").is_none());
    assert!(extract_latest_changelog_section("## [").is_some());
}

#[test]
fn extract_treats_unicode_white_space_as_white_space() {
    let content = "\u{3000}\u{00A0}## [4.0.0]\u{2028}\n";
    assert_eq!(extract_latest_changelog_section(content), Some("## [4.0.0]".to_string()));
}

#[test]
fn extract_ignores_whatever_precedes_the_first_heading() {
    let body = "## [5.0.0]\nnew\n## [4.0.0]\nold\n";
    let prefixed = format!("# Changelog\nnotes\n\n{body}");
    assert_eq!(
        extract_latest_changelog_section(&prefixed),
        extract_latest_changelog_section(body)
    );
}

#[test]
fn extracted_section_starts_with_marker_and_is_trimmed() {
    let content = "x\n\n  ## [7.1.0]  \n\n  text  \n\n## [7.0.0]\n";
    let s = extract_latest_changelog_section(content).unwrap();
    assert!(s.starts_with("## ["));
    assert_eq!(s.trim(), s);
    assert_eq!(s, "## [7.1.0]  \n\n  text");
}

#[test]
fn inline_keeps_short_section_whole() {
    assert_eq!(inline_changelog_section("## [1.0.0]\nshort"), "## [1.0.0]\nshort");
    let exact = "a".repeat(MAX_INLINE_CHANGELOG_CHARS);
    assert_eq!(inline_changelog_section(&exact), exact);
}

#[test]
fn inline_truncates_long_section_with_notice() {
    let long = "a".repeat(5000);
    let shown = inline_changelog_section(&long);
    let expected = format!(
        "{}\n\n[... 904 characters omitted from the bundled DeepSeek-TUI changelog]",
        "a".repeat(4096)
    );
    assert_eq!(shown, expected);
}

#[test]
fn inline_counts_characters_for_the_limit_and_the_notice() {
    let wide = "é".repeat(3000);
    assert_eq!(inline_changelog_section(&wide), wide);
    let full = "中".repeat(MAX_INLINE_CHANGELOG_CHARS);
    assert_eq!(inline_changelog_section(&full), full);
    let over = "é".repeat(4097);
    let expected = format!(
        "{}\n\n[... 1 characters omitted from the bundled DeepSeek-TUI changelog]",
        "é".repeat(4096)
    );
    assert_eq!(inline_changelog_section(&over), expected);
}

#[test]
fn inline_truncates_by_characters() {
    let wide = "é".repeat(5000);
    let shown = inline_changelog_section(&wide);
    let expected = format!(
        "{}\n\n[... 904 characters omitted from the bundled DeepSeek-TUI changelog]",
        "é".repeat(4096)
    );
    assert_eq!(shown, expected);
}

#[test]
fn extracting_again_gives_the_section_back() {
    let content = "# Changelog\n\n  ## [3.1.0] - 2026-02-03  \n\n- item  \n\t\n## [3.0.0]\n- old\n";
    let section = extract_latest_changelog_section(content).unwrap();
    assert_eq!(section, "## [3.1.0] - 2026-02-03  \n\n- item");
    assert_eq!(extract_latest_changelog_section(&section), Some(section.clone()));
}

#[test]
fn text_from_next_heading_on_is_excluded() {
    let changelog = "intro\n## [2.0.0]\nnew things\n";
    let rest = "  ## [1.0.0]\nold things\n## [0.1.0]\n";
    let joined = format!("{changelog}{rest}");
    assert_eq!(
        extract_latest_changelog_section(&joined),
        extract_latest_changelog_section(changelog)
    );
    assert_eq!(
        extract_latest_changelog_section(changelog),
        Some("## [2.0.0]\nnew things".to_string())
    );
}
