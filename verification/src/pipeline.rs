//! The conversion pipeline's synchronous core: validation, chapter
//! planning, descriptor rendering, and output path normalization, composed
//! into the plan the caller executes against the external tool.
//!
//! The caller probes durations first (a probe failure aborts the whole
//! conversion before any plan exists), prepares a plan here, writes the
//! descriptor to a transient file, builds the tool's arguments, runs the
//! tool, and reports the outcome; only the probing, the file writes, and
//! the process itself are the caller's I/O.

use crate::args;
use crate::chapters;
use crate::chapters::Chapter;
use crate::descriptor;
use crate::errors::ConvertError;
use vstd::prelude::*;

verus! {

/// Everything the caller needs to run the muxing tool: the planned
/// chapters, the rendered descriptor text, and the normalized output path.
#[derive(Debug)]
pub struct ConversionPlan {
    pub chapters: Vec<Chapter>,
    pub descriptor: String,
    pub output_file: String,
}

/// Rejects an empty input list before any probing or spawning happens.
pub fn validate_input_files(files: &Vec<String>) -> (r: Result<(), ConvertError>)
    ensures
        r is Ok <==> files@.len() > 0,
        r matches Err(e) ==> (e matches ConvertError::Validation(m) && m@
            == "No MP3 files provided"@),
{
    if files.len() == 0 {
        let mut m = String::new();
        m.append("No MP3 files provided");
        Err(ConvertError::Validation(m))
    } else {
        Ok(())
    }
}

/// Prepares a conversion: validates the request, plans the chapters from
/// the probed durations, renders the descriptor, and normalizes the output
/// path.
///
/// An empty input list is rejected outright; metadata carrying line breaks
/// is rejected when the descriptor is rendered; otherwise the plan holds
/// exactly the planned chapter tuples, their unique descriptor text — which
/// parses back to those very tuples — and the normalized output path.
pub fn prepare_conversion(
    files: &Vec<String>,
    durations_ms: &Vec<u64>,
    title: &Option<String>,
    author: &Option<String>,
    output_path: &str,
) -> (r: Result<ConversionPlan, ConvertError>)
    requires
        files@.len() == durations_ms@.len(),
        chapters::spec_sum_ms(durations_ms@) <= u64::MAX,
    ensures
        ({
            let triples = chapters::spec_planned_triples(files.deep_view(), durations_ms@);
            let tv = descriptor::spec_opt_view(*title);
            let av = descriptor::spec_opt_view(*author);
            let ok = descriptor::spec_descriptor_inputs_ok(tv, av, triples);
            &&& (files@.len() == 0 ==> (r matches Err(e) && (e matches ConvertError::Validation(m)
                && m@ == "No MP3 files provided"@)))
            &&& (files@.len() > 0 && ok ==> (r matches Ok(p) && {
                &&& descriptor::spec_chapters_view(p.chapters@) == triples
                &&& p.descriptor@ == descriptor::spec_descriptor(tv, av, triples)
                &&& descriptor::spec_parse_descriptor(p.descriptor@) == Some((tv, av, triples))
                &&& p.output_file@ == args::spec_normalize_output(output_path@)
            }))
            &&& (files@.len() > 0 && !ok ==> (r matches Err(e) && (e
                matches ConvertError::Validation(m) && m@
                == "Metadata values must not contain line breaks"@)))
        }),
{
    let ghost triples = chapters::spec_planned_triples(files.deep_view(), durations_ms@);
    if files.len() == 0 {
        let mut m = String::new();
        m.append("No MP3 files provided");
        return Err(ConvertError::Validation(m));
    }
    let chs = chapters::plan_chapters(files, durations_ms);
    proof {
        let fv = files.deep_view();
        assert forall|j: int| 0 <= j < files@.len() implies #[trigger] fv[j] == files@[j]@ by {
            assert(fv[j] =~= files@[j]@);
        }
        assert forall|i: int| 0 <= i < chs@.len() implies (#[trigger] chs@[i]).start_ms
            + chs@[i].duration_ms <= u64::MAX by {
            chapters::lemma_sum_ms_take_step(durations_ms@, i);
            chapters::lemma_sum_ms_prefix_le(durations_ms@, i + 1);
            chapters::lemma_sum_ms_prefix_le(durations_ms@, i);
        }
        assert(descriptor::spec_chapters_view(chs@) =~= triples) by {
            assert forall|i: int|
                0 <= i < chs@.len() implies descriptor::spec_chapters_view(chs@)[i] == triples[i] by {
                chapters::lemma_sum_ms_prefix_le(durations_ms@, i);
                assert(chs@[i].start_ms == chapters::spec_sum_ms(durations_ms@.take(i)));
            }
        }
    }
    let rendered = match descriptor::render_descriptor(title, author, &chs) {
        Ok(d) => d,
        Err(e) => {
            return Err(e);
        },
    };
    proof {
        let tv = descriptor::spec_opt_view(*title);
        let av = descriptor::spec_opt_view(*author);
        descriptor::lemma_descriptor_round_trip(tv, av, triples);
    }
    let out = args::normalize_output_path(output_path);
    Ok(ConversionPlan { chapters: chs, descriptor: rendered, output_file: out })
}

} // verus!
