//! The runner's decisions: which binary locations to try for the muxing
//! tool, how a failure to launch any of them is reported, and how the
//! tool's exit turns into the conversion's result.
//!
//! Launching, streaming, and waiting are the caller's I/O; the decisions
//! about their outcomes live here.

use crate::errors::ConvertError;
use crate::text;
use vstd::prelude::*;

verus! {

/// The ordered candidate locations tried for the muxing tool: the bare
/// command name resolved through the search path first, then the common
/// absolute install locations.
pub fn tool_candidates() -> (r: Vec<String>)
    ensures
        r.deep_view() == seq![
            "ffmpeg"@,
            "/usr/local/bin/ffmpeg"@,
            "/usr/bin/ffmpeg"@,
            "/opt/homebrew/bin/ffmpeg"@,
        ],
{
    let mut r: Vec<String> = Vec::new();
    let mut a = String::new();
    a.append("ffmpeg");
    r.push(a);
    let mut b = String::new();
    b.append("/usr/local/bin/ffmpeg");
    r.push(b);
    let mut c = String::new();
    c.append("/usr/bin/ffmpeg");
    r.push(c);
    let mut d = String::new();
    d.append("/opt/homebrew/bin/ffmpeg");
    r.push(d);
    proof {
        assert(r.deep_view() =~~= seq![
            "ffmpeg"@,
            "/usr/local/bin/ffmpeg"@,
            "/usr/bin/ffmpeg"@,
            "/opt/homebrew/bin/ffmpeg"@,
        ]);
    }
    r
}

/// The aggregated error when no candidate location could be spawned: it
/// names the last candidate tried and carries that attempt's cause.
pub open spec fn spec_spawn_failure_message(candidate: Seq<char>, cause: Seq<char>) -> Seq<char> {
    "Failed to launch "@ + candidate + ": "@ + cause
}

/// Builds the error reported when every candidate location failed to
/// spawn. The message names the failure of the last candidate tried, not
/// the first.
pub fn spawn_failure_error(candidates: &Vec<String>, causes: &Vec<String>) -> (r: ConvertError)
    requires
        candidates@.len() == causes@.len(),
        candidates@.len() > 0,
    ensures
        r matches ConvertError::ToolNotFound(m) && m@ == spec_spawn_failure_message(
            candidates@.last()@,
            causes@.last()@,
        ),
{
    let mut m = String::new();
    m.append("Failed to launch ");
    m.append(candidates[candidates.len() - 1].as_str());
    m.append(": ");
    m.append(causes[causes.len() - 1].as_str());
    ConvertError::ToolNotFound(m)
}

/// The success report: output path, chapter count, and whether cover art
/// was embedded.
pub open spec fn spec_success_message(output: Seq<char>, chapter_count: u64, has_cover: bool) -> Seq<
    char,
> {
    "Audiobook created successfully: "@ + output + " with "@ + text::spec_u64_digits(
        chapter_count as nat,
    ) + " chapters"@ + (if has_cover {
        " and cover art"@
    } else {
        Seq::<char>::empty()
    })
}

/// Turns the muxing tool's exit into the conversion's result.
///
/// A success status yields the success report; a failure status yields a
/// tool-execution error carrying the tool's captured diagnostic output
/// verbatim. No other outcome exists.
pub fn conversion_outcome(
    exit_ok: bool,
    diagnostics: &str,
    output_file: &str,
    chapter_count: u64,
    has_cover: bool,
) -> (r: Result<String, ConvertError>)
    ensures
        exit_ok ==> (r matches Ok(m) && m@ == spec_success_message(
            output_file@,
            chapter_count,
            has_cover,
        )),
        !exit_ok ==> (r matches Err(e) && (e matches ConvertError::ToolExecution(d) && d@
            == diagnostics@)),
{
    if exit_ok {
        let mut m = String::new();
        m.append("Audiobook created successfully: ");
        m.append(output_file);
        m.append(" with ");
        let n = text::u64_to_string(chapter_count);
        m.append(n.as_str());
        m.append(" chapters");
        if has_cover {
            m.append(" and cover art");
        } else {
            proof {
                assert(m@ + Seq::<char>::empty() =~= m@);
            }
        }
        Ok(m)
    } else {
        let mut d = String::new();
        d.append(diagnostics);
        Err(ConvertError::ToolExecution(d))
    }
}

} // verus!
