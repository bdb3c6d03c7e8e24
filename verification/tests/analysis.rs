use flowsight_agent::analysis::{parse_analysis, resolve_persisted_category, try_parse_analysis};

#[test]
fn parse_prefers_explicit_category_field() {
    let raw = "APP: X\nCATEGORY: debugging\n";
    let (_desc, cat) = parse_analysis(raw);
    assert_eq!(cat, "Debugging");
}

#[test]
fn parse_category_field_accepts_multiword_code_review() {
    let raw = "APP: Gh\nCATEGORY: Code Review\n";
    let (_desc, cat) = parse_analysis(raw);
    assert_eq!(cat, "CodeReview");
}

#[test]
fn parse_infers_debugging() {
    let raw = "VISIBLE: using the debugger and a breakpoint";
    let (_d, c) = parse_analysis(raw);
    assert_eq!(c, "Debugging");
}

#[test]
fn parse_infers_each_major_bucket() {
    let cases = [
        ("code review here", "CodeReview"),
        ("test suite green", "Testing"),
        ("writing code in editor", "Coding"),
        ("excel spreadsheet open", "Admin"),
        ("readme writing docs", "Documentation"),
        ("figma open", "Design"),
        ("jira board", "Planning"),
        ("zoom call", "Meeting"),
        ("slack message", "Communication"),
        ("stackoverflow page", "Research"),
        ("tutorial course", "Learning"),
        ("docker pipeline", "DevOps"),
        ("sql database supabase", "Database"),
        ("crm hubspot", "Sales"),
        ("settings configuration", "Admin"),
        ("chrome browser linkedin", "Browsing"),
        ("idle lock screen", "Idle"),
    ];
    for (text, expected) in cases {
        let (_, c) = parse_analysis(text);
        assert_eq!(c, expected, "text={text:?}");
    }
}

#[test]
fn parse_generic_editor_word_not_auto_coding() {
    let raw = "VISIBLE: drafting text in a generic editor window";
    let (_, c) = parse_analysis(raw);
    assert_ne!(c, "Coding");
}

#[test]
fn structured_description_strips_category_line() {
    let raw = "APP: VS\nCATEGORY: Coding\nVISIBLE: ok";
    let (d, c) = parse_analysis(raw);
    assert!(!d.to_uppercase().contains("CATEGORY:"));
    assert!(d.contains("VISIBLE:"));
    assert_eq!(c, "Coding");
}

#[test]
fn empty_lines_yield_no_analysis_available() {
    let (d, c) = parse_analysis("   \n  \n");
    assert_eq!(d, "No analysis available");
    assert_eq!(c, "General");
}

#[test]
fn category_field_maps_general_token() {
    let (_, c) = parse_analysis("noise\nCATEGORY: general\n");
    assert_eq!(c, "General");
}

#[test]
fn markdown_stripped_in_description() {
    let raw = "### APP: Test\n**VISIBLE**: x";
    let (d, _) = parse_analysis(raw);
    assert!(!d.contains("###"));
    assert!(!d.contains("**"));
}

#[test]
fn empty_or_whitespace_category_becomes_general() {
    assert_eq!(resolve_persisted_category(""), "General");
    assert_eq!(resolve_persisted_category("   "), "General");
    assert_eq!(resolve_persisted_category("\n\t"), "General");
    assert_eq!(resolve_persisted_category("Planning"), "Planning");
}

#[test]
fn category_at_end_is_parsed_and_stripped() {
    let raw = "Reviewing the sprint board and moving tickets.\nCATEGORY: Planning";
    let (d, c) = parse_analysis(raw);
    assert_eq!(c, "Planning");
    assert!(!d.to_uppercase().contains("CATEGORY"));
    assert!(d.contains("sprint board"));
}

#[test]
fn missing_category_infers_then_falls_back_to_general() {
    let (_, inferred) = parse_analysis("looking at the jira backlog");
    assert_eq!(inferred, "Planning");

    let (_, unknown) = parse_analysis("moved a couple of windows around");
    assert_eq!(unknown, "General");
    assert!(!unknown.trim().is_empty());
}

#[test]
fn category_inline_in_flattened_body_is_parsed_and_stripped() {
    let raw = "APP: VS WINDOW TITLE: foo VISIBLE CONTENT: editing a file CATEGORY: Planning NEXT STEP: commit";
    let (d, c) = parse_analysis(raw);
    assert_eq!(c, "Planning");
    assert!(!d.to_uppercase().contains("CATEGORY:"));
    assert!(d.to_uppercase().contains("VISIBLE CONTENT:"));
}

#[test]
fn blank_category_field_falls_back_to_infer() {
    let raw = "VISIBLE: using the debugger\nCATEGORY:   \n";
    let (_, c) = parse_analysis(raw);
    assert_eq!(c, "Debugging");
}

#[test]
fn category_with_space_before_colon() {
    let raw = "Editing tests.\nCATEGORY : Testing";
    let (d, c) = parse_analysis(raw);
    assert_eq!(c, "Testing");
    assert!(!d.to_uppercase().contains("CATEGORY"));
}

#[test]
fn category_codereview_in_body_stripped() {
    let raw = "APP: GitHub\nWINDOW TITLE: PR\nCURRENT ACTION: reviewing a pull request\nCATEGORY: CodeReview";
    let (d, c) = parse_analysis(raw);
    assert_eq!(c, "CodeReview");
    assert!(!d.to_uppercase().contains("CATEGORY:"));
    assert!(!d.to_uppercase().starts_with("APP:"));
    assert!(d.to_uppercase().contains("CURRENT ACTION:"));
}

// ---------------------------------------------------------------------------
// Further cases
// ---------------------------------------------------------------------------

#[test]
fn description_keeps_content_lines_in_order() {
    let raw = "APP: Terminal\nVISIBLE: cargo build output\nCURRENT ACTION: fixing errors\nCATEGORY: Debugging";
    let (d, c) = parse_analysis(raw);
    assert_eq!(d, "VISIBLE: cargo build output\nCURRENT ACTION: fixing errors");
    assert_eq!(c, "Debugging");
}

#[test]
fn boilerplate_only_is_kept_when_nothing_else() {
    let (d, c) = parse_analysis("APP: Finder\r\nWINDOW TITLE: Downloads\r\n");
    assert_eq!(d, "APP: Finder\nWINDOW TITLE: Downloads");
    assert_eq!(c, "General");
}

#[test]
fn unknown_field_value_drops_one_word() {
    let (d, c) = parse_analysis("Looking around CATEGORY: Gaming now");
    assert_eq!(d, "Looking around now");
    assert_eq!(c, "General");
}

#[test]
fn last_field_wins_for_the_category() {
    let (d, c) = parse_analysis("CATEGORY: Coding\nCATEGORY: Meeting");
    assert_eq!(c, "Meeting");
    assert_eq!(d, "No analysis available");
}

#[test]
fn three_word_label_phrase_is_removed_whole() {
    let (d, c) = parse_analysis("Work CATEGORY: code review x tail");
    assert_eq!(c, "CodeReview");
    assert_eq!(d, "Work x tail");
}

#[test]
fn field_value_line_ends_at_newline() {
    // White space after the colon, line feeds included, is skipped first.
    let (_, c) = parse_analysis("CATEGORY:\n  design  \n");
    assert_eq!(c, "Design");
    let (_, c1) = parse_analysis("CATEGORY: nothing\ndesign");
    assert_eq!(c1, "General");
    let (_, c2) = parse_analysis("CATEGORY: design\nmore text");
    assert_eq!(c2, "Design");
}

#[test]
fn spreadsheet_beats_editor_keywords() {
    let (_, c) = parse_analysis("VS Code next to a spreadsheet in Google Sheets");
    assert_eq!(c, "Admin");
}

#[test]
fn resolve_trims_surrounding_space() {
    assert_eq!(resolve_persisted_category("  Planning \n"), "Planning");
    assert_eq!(resolve_persisted_category("\u{3000}Idle\u{a0}"), "Idle");
}

#[test]
fn resolve_is_idempotent_on_examples() {
    for s in ["", "  ", " Coding ", "x y", "\tGeneral"] {
        let once = resolve_persisted_category(s);
        assert_eq!(resolve_persisted_category(&once), once);
    }
}

#[test]
fn misaligned_lowercase_offsets_are_reported() {
    // The Angstrom sign lowercases to a shorter encoding, so the byte offset
    // of the field in the lowercase text falls inside the following character.
    let raw = "\u{212B}\u{e9}category: design";
    assert!(try_parse_analysis(raw).is_none());
    assert!(try_parse_analysis("plain category: design").is_some());
}

#[test]
fn parse_category_is_always_an_allowed_label() {
    let allowed = flowsight_agent::analysis::ALLOWED_CATEGORIES;
    for raw in ["", "random", "CATEGORY: sales", "\u{212B} zoom", "category: nothing known"] {
        if let Some((_, c)) = try_parse_analysis(raw) {
            assert!(allowed.split(", ").any(|l| l == c), "{c}");
        }
    }
}

#[test]
fn boilerplate_is_recognized_in_any_case() {
    let (d, _) = parse_analysis("app: Finder\nwindow title: Downloads\nVISIBLE: files");
    assert_eq!(d, "VISIBLE: files");
}

#[test]
fn unicode_category_value_is_lowercased_before_lookup() {
    let (_, c) = parse_analysis("CATEGORY: DÉSIGN\nCATEGORY: ÍDLE");
    assert_eq!(c, "General");
    let (_, c) = parse_analysis("Category : MEETING");
    assert_eq!(c, "Meeting");
}

#[test]
fn category_ignores_ascii_letter_case() {
    let raw = "Reviewing a diff in the editor\nCategory: Code Review";
    let (_, c) = parse_analysis(raw);
    assert_eq!(c, "CodeReview");
    assert_eq!(parse_analysis(&raw.to_ascii_uppercase()).1, c);
    assert_eq!(parse_analysis(&raw.to_ascii_lowercase()).1, c);
    let inferred = "Stepping through a breakpoint in the DEBUGGER";
    assert_eq!(parse_analysis(inferred).1, "Debugging");
    assert_eq!(parse_analysis(&inferred.to_ascii_lowercase()).1, "Debugging");
}
