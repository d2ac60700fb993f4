use m4b_pipeline::errors::ConvertError;
use m4b_pipeline::runner::{conversion_outcome, spawn_failure_error, tool_candidates};

fn strings(v: &[&str]) -> Vec<String> {
    v.iter().map(|s| s.to_string()).collect()
}

#[test]
fn candidates_start_with_the_bare_command() {
    let c = tool_candidates();
    assert_eq!(c[0], "ffmpeg");
    assert!(c.len() > 1);
}

#[test]
fn spawn_failure_names_the_last_candidate() {
    let candidates = strings(&["ffmpeg", "/usr/bin/ffmpeg", "/opt/homebrew/bin/ffmpeg"]);
    let causes = strings(&["not found", "permission denied", "no such file"]);
    let e = spawn_failure_error(&candidates, &causes);
    assert_eq!(
        e,
        ConvertError::ToolNotFound(
            "Failed to launch /opt/homebrew/bin/ffmpeg: no such file".to_string()
        )
    );
}

#[test]
fn spawn_failure_with_one_candidate() {
    let e = spawn_failure_error(&strings(&["ffmpeg"]), &strings(&["not found"]));
    assert_eq!(e, ConvertError::ToolNotFound("Failed to launch ffmpeg: not found".to_string()));
}

#[test]
fn success_report_without_cover() {
    let r = conversion_outcome(true, "", "out.m4b", 3, false).unwrap();
    assert_eq!(r, "Audiobook created successfully: out.m4b with 3 chapters");
}

#[test]
fn success_report_with_cover() {
    let r = conversion_outcome(true, "", "b.m4b", 12, true).unwrap();
    assert_eq!(r, "Audiobook created successfully: b.m4b with 12 chapters and cover art");
}

#[test]
fn failure_carries_the_diagnostic_text() {
    let diag = "frame=1 ...\nConversion failed: invalid stream\n";
    let e = conversion_outcome(false, diag, "out.m4b", 3, false).unwrap_err();
    assert_eq!(e, ConvertError::ToolExecution(diag.to_string()));
}
