use dotest::ui::config::Verbosity;
use dotest::ui::output::{
    churn_sidecar_dev_project_path, churn_sidecar_exe_name, plan_test_run, request_arguments,
    request_file_name, resolve_churn_sidecar_command, taskkill_arguments, LineSplitter,
    RunRequest, FILTER_TOO_LONG, MAX_FILTER_BYTES,
};

fn request(filter: Option<&str>) -> RunRequest {
    RunRequest {
        filter: filter.map(str::to_string),
        target_path: None,
        no_build: true,
        no_restore: false,
        verbosity: Verbosity::Normal,
    }
}

fn cut(chunks: &[&[u8]]) -> (Vec<String>, Option<String>) {
    let mut splitter = LineSplitter::new();
    let mut lines = Vec::new();
    for chunk in chunks {
        lines.extend(splitter.feed(chunk));
    }
    (lines, splitter.finish())
}

#[test]
fn every_line_ending_ends_one_line() {
    let (lines, rest) = cut(&[b"a\nb\rc\r\nd"]);
    assert_eq!(lines, vec!["a", "b", "c"]);
    assert_eq!(rest.as_deref(), Some("d"));
}

#[test]
fn empty_lines_are_lines() {
    let (lines, rest) = cut(&[b"\n\n\r\r\n"]);
    assert_eq!(lines, vec!["", "", "", ""]);
    assert_eq!(rest, None);
}

#[test]
fn chunks_do_not_matter() {
    let whole = cut(&["x\r\ny ✓\nz".as_bytes()]);
    let bytes = "x\r\ny ✓\nz".as_bytes();
    for at in 0..bytes.len() {
        assert_eq!(cut(&[&bytes[..at], &bytes[at..]]), whole);
    }
}

#[test]
fn valid_bytes_are_decoded() {
    let (lines, rest) = cut(&["é ✓ 𝄞\nü".as_bytes()]);
    assert_eq!(lines, vec!["é ✓ 𝄞"]);
    assert_eq!(rest.as_deref(), Some("ü"));
}

#[test]
fn invalid_bytes_are_replaced() {
    let (lines, _) = cut(&[b"a\xffb\n"]);
    assert_eq!(lines, vec!["a\u{fffd}b"]);
}

#[test]
fn plan_passes_filter_and_flags() {
    let plan = plan_test_run(&request(Some("FullyQualifiedName~A")));
    assert!(plan.warnings.is_empty());
    assert_eq!(
        plan.arguments,
        vec![
            "test",
            "--filter",
            "FullyQualifiedName~A",
            "--no-build",
            "--nologo",
            "-v",
            "m",
            "--logger",
            "console;verbosity=normal"
        ]
    );
}

#[test]
fn plan_leaves_an_empty_filter_out() {
    let mut r = request(Some(""));
    r.target_path = Some("a/b.csproj".to_string());
    r.no_build = false;
    r.no_restore = true;
    r.verbosity = Verbosity::Minimal;
    assert_eq!(
        plan_test_run(&r).arguments,
        vec!["test", "a/b.csproj", "--no-restore", "--nologo", "-v", "m", "--logger", "console"]
    );
    r.verbosity = Verbosity::Detailed;
    assert_eq!(plan_test_run(&r).arguments.last().unwrap(), "console;verbosity=detailed");
    r.filter = None;
    assert!(!plan_test_run(&r).arguments.contains(&"--filter".to_string()));
}

#[test]
fn plan_drops_a_filter_that_is_too_long() {
    let fits = "x".repeat(MAX_FILTER_BYTES);
    let plan = plan_test_run(&request(Some(&fits)));
    assert!(plan.warnings.is_empty());
    assert!(plan.arguments.contains(&fits));
    let long = "x".repeat(MAX_FILTER_BYTES + 1);
    let plan = plan_test_run(&request(Some(&long)));
    assert_eq!(plan.warnings, vec![FILTER_TOO_LONG.to_string(), String::new()]);
    assert!(!plan.arguments.contains(&"--filter".to_string()));
}

#[test]
fn filter_length_is_counted_in_bytes() {
    let wide = "✓".repeat(MAX_FILTER_BYTES / 3 + 1);
    assert_eq!(plan_test_run(&request(Some(&wide))).warnings.len(), 2);
}

#[test]
fn sidecar_next_to_the_program_is_preferred() {
    let call = resolve_churn_sidecar_command(
        false,
        Some("/opt/dotest-churn-sidecar".to_string()),
        Some("/src/Dotest.ChurnSidecar.csproj".to_string()),
    )
    .unwrap();
    assert_eq!(call.program, "/opt/dotest-churn-sidecar");
    assert!(call.arguments.is_empty());
}

#[test]
fn sidecar_falls_back_to_the_project() {
    let call =
        resolve_churn_sidecar_command(false, None, Some("p.csproj".to_string())).unwrap();
    assert_eq!(call.program, "dotnet");
    assert_eq!(call.arguments, vec!["run", "--project", "p.csproj", "-v", "q", "--"]);
}

#[test]
fn missing_sidecar_is_an_error() {
    let error = resolve_churn_sidecar_command(true, None, None).unwrap_err();
    assert_eq!(
        error,
        "Churn sidecar not found. Keep `dotest-churn-sidecar.exe` next to the `dotest` binary (release archive), or run from a source checkout."
    );
    assert_eq!(churn_sidecar_exe_name(false), "dotest-churn-sidecar");
    assert_eq!(
        churn_sidecar_dev_project_path(),
        vec!["dotest-churn-sidecar", "Dotest.ChurnSidecar.csproj"]
    );
}

#[test]
fn request_files_and_kill_arguments() {
    assert_eq!(request_file_name(12, 345), "dotest-churn-request-12-345.json");
    assert_eq!(request_arguments("/tmp/r.json"), vec!["--request-file", "/tmp/r.json"]);
    assert_eq!(taskkill_arguments(99), vec!["/F", "/T", "/PID", "99"]);
}
