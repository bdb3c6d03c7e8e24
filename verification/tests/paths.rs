use flowsight_agent::paths::{
    agent_error_log_path, app_data_dir_in, auth_log_path, crash_log_path_or_fallback,
    db_path, db_path_or_fallback, download_candidate, is_stale_capture, llama_server_bin_name,
    llama_server_path, sanitize_pdf_filename, screenshots_tmp_path, server_log_path,
    stamped_download_name_at, write_probe_hint,
};

fn ok_dir() -> Result<String, String> {
    Ok("/home/u/.local/share/FlowSight".to_string())
}

#[test]
fn data_files_live_in_the_data_dir() {
    let d = ok_dir();
    assert_eq!(db_path(&d), Ok("/home/u/.local/share/FlowSight/dev-agent.db".to_string()));
    assert_eq!(server_log_path(&d), Ok("/home/u/.local/share/FlowSight/server.log".to_string()));
    assert_eq!(auth_log_path(&d), Ok("/home/u/.local/share/FlowSight/auth.log".to_string()));
    assert_eq!(
        agent_error_log_path(&d),
        Ok("/home/u/.local/share/FlowSight/agent_error.log".to_string())
    );
    assert_eq!(app_data_dir_in("/home/u/.local/share/"), "/home/u/.local/share/FlowSight");
    assert_eq!(screenshots_tmp_path("/x"), "/x/screenshots_tmp");
}

#[test]
fn errors_pass_through_and_fallbacks_use_bare_names() {
    let e: Result<String, String> = Err("No local data dir available".to_string());
    assert_eq!(db_path(&e), Err("No local data dir available".to_string()));
    assert_eq!(db_path_or_fallback(&e), "dev-agent.db");
    assert_eq!(crash_log_path_or_fallback(&e), "crash.log");
    assert_eq!(crash_log_path_or_fallback(&ok_dir()), "/home/u/.local/share/FlowSight/crash.log");
    assert_eq!(db_path_or_fallback(&ok_dir()), "/home/u/.local/share/FlowSight/dev-agent.db");
}

#[test]
fn llama_server_binary_per_platform() {
    assert_eq!(llama_server_bin_name(true), "llama-server.exe");
    assert_eq!(llama_server_bin_name(false), "llama-server");
    assert_eq!(llama_server_path("/opt/local_llm", false), "/opt/local_llm/bin/llama-server");
}

#[test]
fn write_probe_hint_per_platform() {
    assert!(write_probe_hint(true, false).contains("Controlled Folder Access"));
    assert!(write_probe_hint(false, true).contains("Full Disk Access"));
    assert_eq!(write_probe_hint(false, false), "");
}

#[test]
fn sanitize_keeps_safe_characters() {
    assert_eq!(sanitize_pdf_filename("  My Report (v2).pdf "), Ok("MyReportv2.pdf".to_string()));
    assert_eq!(sanitize_pdf_filename("week_12-summary.PDF"), Ok("week_12-summary.PDF".to_string()));
}

#[test]
fn sanitize_rejects_bad_names() {
    let err = Err("Invalid PDF filename".to_string());
    assert_eq!(sanitize_pdf_filename(""), err);
    assert_eq!(sanitize_pdf_filename("   "), err);
    assert_eq!(sanitize_pdf_filename("report.txt"), err);
    assert_eq!(sanitize_pdf_filename("é.pdf"), err);
    assert_eq!(sanitize_pdf_filename(".pdf"), err);
}

#[test]
fn sanitize_is_idempotent_on_examples() {
    for n in ["a b.pdf", "Résumé final.pdf", "x.PdF"] {
        if let Ok(s) = sanitize_pdf_filename(n) {
            assert_eq!(sanitize_pdf_filename(&s), Ok(s.clone()));
        }
    }
}

#[test]
fn download_candidates_in_order() {
    assert_eq!(download_candidate("report.pdf", 0).as_deref(), Some("report.pdf"));
    assert_eq!(download_candidate("report.pdf", 1).as_deref(), Some("report_2.pdf"));
    assert_eq!(download_candidate("report.pdf", 97).as_deref(), Some("report_98.pdf"));
    assert_eq!(download_candidate("report.pdf", 98).as_deref(), Some("report_99.pdf"));
    assert_eq!(download_candidate("report.pdf", 99), None);
    assert_eq!(download_candidate("REPORT.PDF", 9).as_deref(), Some("REPORT.PDF_10.pdf"));
}

#[test]
fn stamped_name_uses_six_digits() {
    assert_eq!(stamped_download_name_at("r.pdf", "134502"), "r_134502.pdf");
    assert_eq!(stamped_download_name_at("Notes.PDF", "000001"), "Notes.PDF_000001.pdf");
}

#[test]
fn only_old_captures_are_pruned() {
    assert!(is_stale_capture("capture_1.png", Some(10), 5));
    assert!(!is_stale_capture("capture_1.png", Some(5), 5));
    assert!(!is_stale_capture("capture_1.png", None, 5));
    assert!(!is_stale_capture("other.png", Some(100), 5));
}

#[test]
fn join_adds_exactly_one_separator() {
    assert_eq!(app_data_dir_in(""), "FlowSight");
    assert_eq!(app_data_dir_in("/data/"), "/data/FlowSight");
    assert_eq!(app_data_dir_in("/data"), "/data/FlowSight");
    assert_eq!(screenshots_tmp_path("rel"), "rel/screenshots_tmp");
    assert_eq!(db_path_or_fallback(&Ok("/d".to_string())), db_path(&Ok("/d".to_string())).unwrap());
    assert_eq!(llama_server_path("", true), "bin/llama-server.exe");
}
