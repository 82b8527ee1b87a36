use cargo_ui::diag::{diagnostic_from_line, summary_text, BuildRun};
use cargo_ui::text::{decimal_string, join};

fn compiler_line(level: &str, message: &str, rendered: Option<&str>) -> String {
    let rendered = match rendered {
        Some(r) => format!("\"{}\"", r),
        None => "null".to_string(),
    };
    format!(
        "{{\"reason\":\"compiler-message\",\"package_id\":\"p 0.1.0\",\"target\":{{\"name\":\"p\",\"kind\":[\"lib\"],\"src_path\":\"/p/src/lib.rs\"}},\"message\":{{\"message\":\"{}\",\"code\":null,\"level\":\"{}\",\"spans\":[],\"children\":[],\"rendered\":{}}}}}",
        message, level, rendered
    )
}

#[test]
fn compiler_error_is_level_one() {
    let d = diagnostic_from_line(compiler_line("error", "mismatched types", Some("error: mismatched types"))).unwrap();
    assert_eq!(d.level, 1);
    assert_eq!(d.short, "mismatched types");
    assert_eq!(d.expanded, "error: mismatched types");
}

#[test]
fn compiler_levels_map_to_numbers() {
    let level = |l: &str| diagnostic_from_line(compiler_line(l, "m", None)).unwrap().level;
    assert_eq!(level("warning"), 2);
    assert_eq!(level("note"), 3);
    assert_eq!(level("help"), 3);
    assert_eq!(level("failure-note"), 3);
    assert_eq!(level("error: internal compiler error"), 0);
}

#[test]
fn missing_rendering_is_empty() {
    let d = diagnostic_from_line(compiler_line("warning", "unused", None)).unwrap();
    assert_eq!(d.expanded, "");
}

#[test]
fn plain_text_is_kept_whole() {
    let d = diagnostic_from_line("   Compiling foo v0.1.0".to_string()).unwrap();
    assert_eq!(d.level, 0);
    assert_eq!(d.short, "   Compiling foo v0.1.0");
    assert_eq!(d.expanded, "");
}

#[test]
fn malformed_json_degrades_to_text() {
    let line = "{\"reason\": \"compiler-message\", ".to_string();
    let d = diagnostic_from_line(line.clone()).unwrap();
    assert_eq!(d.level, 0);
    assert_eq!(d.short, line);
}

#[test]
fn deeply_nested_line_degrades_to_text() {
    let line = format!("{{\"reason\":\"compiler-message\",\"x\":{}{}}}", "[".repeat(200_000), "]".repeat(200_000));
    let d = diagnostic_from_line(line.clone()).unwrap();
    assert_eq!(d.level, 0);
    assert_eq!(d.short, line);
}

#[test]
fn other_messages_are_dropped() {
    let line = "{\"reason\":\"build-finished\",\"success\":true}".to_string();
    assert!(diagnostic_from_line(line).is_none());
}

#[test]
fn summary_counts_errors_and_warnings() {
    let mut run = BuildRun::new();
    run.push_output_line(compiler_line("error", "e1", None));
    run.push_output_line(compiler_line("warning", "w1", None));
    run.push_output_line(compiler_line("error", "e2", None));
    run.push_output_line("{\"reason\":\"build-finished\",\"success\":false}".to_string());
    run.push_output_line("plain".to_string());
    assert_eq!(run.diagnostics.len(), 4);
    assert_eq!(run.error_count(), 2);
    assert_eq!(run.warning_count(), 1);
    assert_eq!(run.summary(), "2 errors; 1 warnings");
    assert!(run.keeps_pane_visible());
}

#[test]
fn summary_of_clean_run_is_check_mark() {
    let mut run = BuildRun::new();
    run.push_output_line("plain".to_string());
    assert_eq!(run.summary(), "\u{2705}");
    assert_eq!(summary_text(0, 0), "\u{2705}");
    assert!(!BuildRun::new().keeps_pane_visible());
}

#[test]
fn summary_text_exact() {
    assert_eq!(summary_text(0, 3), "0 errors; 3 warnings");
    assert_eq!(summary_text(12, 0), "12 errors; 0 warnings");
}

#[test]
fn decimal_and_join() {
    assert_eq!(decimal_string(0), "0");
    assert_eq!(decimal_string(907), "907");
    assert_eq!(decimal_string(usize::MAX), usize::MAX.to_string());
    assert_eq!(join(&vec!["a".to_string(), "b".to_string(), "c".to_string()], ","), "a,b,c");
    assert_eq!(join(&vec![], ","), "");
}
