//! The argument builder: the exact command-line vectors handed to the
//! external probing and muxing tools, and output path normalization.
//!
//! Building is pure: the argument vector is a function of the track list,
//! the descriptor path, the optional cover image path, and the output path
//! alone, with a fixed order — overwrite flag, one input pair per track in
//! input order, the descriptor input, the optional cover input, the concat
//! filter sized by the track count, metadata mapping from the descriptor
//! input's index, optional cover stream mapping, fixed audio codec flags,
//! and the output path last.

use crate::text;
use vstd::prelude::*;

verus! {

/// Whether `p` already carries the audiobook container extension.
pub open spec fn spec_ends_m4b(p: Seq<char>) -> bool {
    p.len() >= 4 && p[p.len() - 4] == '.' && p[p.len() - 3] == 'm' && p[p.len() - 2] == '4'
        && p[p.len() - 1] == 'b'
}

/// The output path with the container extension appended when missing.
pub open spec fn spec_normalize_output(p: Seq<char>) -> Seq<char> {
    if spec_ends_m4b(p) {
        p
    } else {
        p + ".m4b"@
    }
}

/// Appends the `.m4b` extension unless the path already ends with it.
pub fn normalize_output_path(p: &str) -> (r: String)
    ensures
        r@ == spec_normalize_output(p@),
{
    let v = text::chars_of(p);
    let n = v.len();
    if n >= 4 {
        if v[n - 4] == '.' && v[n - 3] == 'm' && v[n - 2] == '4' && v[n - 1] == 'b' {
            let mut r = String::new();
            r.append(p);
            return r;
        }
    }
    let mut r = String::new();
    r.append(p);
    r.append(".m4b");
    r
}

/// The probing tool's arguments for reading a file's duration.
pub open spec fn spec_probe_duration_args(file: Seq<char>) -> Seq<Seq<char>> {
    seq![
        "-i"@,
        file,
        "-show_entries"@,
        "format=duration"@,
        "-v"@,
        "quiet"@,
        "-of"@,
        "csv=p=0"@,
    ]
}

/// The probing tool's arguments for reading a file's title and artist tags.
pub open spec fn spec_probe_metadata_args(file: Seq<char>) -> Seq<Seq<char>> {
    seq![
        "-i"@,
        file,
        "-show_entries"@,
        "format_tags=title,artist,album_artist"@,
        "-v"@,
        "quiet"@,
        "-of"@,
        "csv=p=0"@,
    ]
}

/// The probing tool's arguments for detecting an embedded cover stream.
pub open spec fn spec_probe_cover_args(file: Seq<char>) -> Seq<Seq<char>> {
    seq!["-i"@, file, "-show_streams"@, "-select_streams"@, "v:0"@, "-v"@, "quiet"@, "-of"@, "csv=p=0"@]
}

/// The muxing tool's arguments for extracting the first embedded picture
/// of `file` into `out` as a still JPEG frame.
pub open spec fn spec_extract_cover_args(file: Seq<char>, out: Seq<char>) -> Seq<Seq<char>> {
    seq!["-i"@, file, "-an"@, "-vcodec"@, "mjpeg"@, "-vframes"@, "1"@, "-y"@, out]
}

fn push_lit(args: &mut Vec<String>, s: &str)
    ensures
        final(args)@.len() == old(args)@.len() + 1,
        final(args).deep_view() =~= old(args).deep_view().push(s@),
{
    let mut t = String::new();
    t.append(s);
    args.push(t);
    proof {
        assert(args.deep_view() =~~= old(args).deep_view().push(s@));
    }
}

fn push_string(args: &mut Vec<String>, s: String)
    ensures
        final(args)@.len() == old(args)@.len() + 1,
        final(args).deep_view() =~= old(args).deep_view().push(s@),
{
    let ghost sv = s@;
    args.push(s);
    proof {
        assert(args.deep_view() =~~= old(args).deep_view().push(sv));
    }
}

/// Builds the probing-tool argument vector for one file's duration.
pub fn probe_duration_args(file: &str) -> (r: Vec<String>)
    ensures
        r.deep_view() == spec_probe_duration_args(file@),
{
    let mut args: Vec<String> = Vec::new();
    push_lit(&mut args, "-i");
    push_lit(&mut args, file);
    push_lit(&mut args, "-show_entries");
    push_lit(&mut args, "format=duration");
    push_lit(&mut args, "-v");
    push_lit(&mut args, "quiet");
    push_lit(&mut args, "-of");
    push_lit(&mut args, "csv=p=0");
    proof {
        assert(args.deep_view() =~= spec_probe_duration_args(file@));
    }
    args
}

/// Builds the probing-tool argument vector for one file's tags.
pub fn probe_metadata_args(file: &str) -> (r: Vec<String>)
    ensures
        r.deep_view() == spec_probe_metadata_args(file@),
{
    let mut args: Vec<String> = Vec::new();
    push_lit(&mut args, "-i");
    push_lit(&mut args, file);
    push_lit(&mut args, "-show_entries");
    push_lit(&mut args, "format_tags=title,artist,album_artist");
    push_lit(&mut args, "-v");
    push_lit(&mut args, "quiet");
    push_lit(&mut args, "-of");
    push_lit(&mut args, "csv=p=0");
    proof {
        assert(args.deep_view() =~= spec_probe_metadata_args(file@));
    }
    args
}

/// Builds the probing-tool argument vector for cover-stream detection.
pub fn probe_cover_args(file: &str) -> (r: Vec<String>)
    ensures
        r.deep_view() == spec_probe_cover_args(file@),
{
    let mut args: Vec<String> = Vec::new();
    push_lit(&mut args, "-i");
    push_lit(&mut args, file);
    push_lit(&mut args, "-show_streams");
    push_lit(&mut args, "-select_streams");
    push_lit(&mut args, "v:0");
    push_lit(&mut args, "-v");
    push_lit(&mut args, "quiet");
    push_lit(&mut args, "-of");
    push_lit(&mut args, "csv=p=0");
    proof {
        assert(args.deep_view() =~= spec_probe_cover_args(file@));
    }
    args
}

/// Builds the muxing-tool argument vector for cover extraction.
pub fn extract_cover_args(file: &str, out: &str) -> (r: Vec<String>)
    ensures
        r.deep_view() == spec_extract_cover_args(file@, out@),
{
    let mut args: Vec<String> = Vec::new();
    push_lit(&mut args, "-i");
    push_lit(&mut args, file);
    push_lit(&mut args, "-an");
    push_lit(&mut args, "-vcodec");
    push_lit(&mut args, "mjpeg");
    push_lit(&mut args, "-vframes");
    push_lit(&mut args, "1");
    push_lit(&mut args, "-y");
    push_lit(&mut args, out);
    proof {
        assert(args.deep_view() =~= spec_extract_cover_args(file@, out@));
    }
    args
}

/// One `-i <path>` pair per track, in input order.
pub open spec fn spec_input_pairs(files: Seq<Seq<char>>) -> Seq<Seq<char>>
    decreases files.len(),
{
    if files.len() == 0 {
        Seq::empty()
    } else {
        seq!["-i"@, files[0]] + spec_input_pairs(files.drop_first())
    }
}

proof fn lemma_input_pairs_concat(a: Seq<Seq<char>>, b: Seq<Seq<char>>)
    ensures
        spec_input_pairs(a + b) == spec_input_pairs(a) + spec_input_pairs(b),
    decreases a.len(),
{
    if a.len() == 0 {
        assert(a + b =~= b);
        assert(Seq::<Seq<char>>::empty() + spec_input_pairs(b) =~= spec_input_pairs(b));
    } else {
        assert((a + b)[0] == a[0]);
        assert((a + b).drop_first() =~= a.drop_first() + b);
        lemma_input_pairs_concat(a.drop_first(), b);
        assert(spec_input_pairs(a + b) =~= spec_input_pairs(a) + spec_input_pairs(b));
    }
}

/// Every input-pair list has twice as many entries as tracks.
pub proof fn lemma_input_pairs_len(files: Seq<Seq<char>>)
    ensures
        spec_input_pairs(files).len() == 2 * files.len(),
    decreases files.len(),
{
    if files.len() > 0 {
        lemma_input_pairs_len(files.drop_first());
    }
}

/// The concat filter directive, sized by the number of audio inputs.
pub open spec fn spec_concat_filter(n: nat) -> Seq<char> {
    "concat=n="@ + text::spec_u64_digits(n) + ":v=0:a=1"@
}

/// The trailing flag group mapping the cover input's video stream as an
/// attached picture.
pub open spec fn spec_cover_map_args(cover_index: nat) -> Seq<Seq<char>> {
    seq![
        "-map"@,
        text::spec_u64_digits(cover_index) + ":v"@,
        "-c:v"@,
        "mjpeg"@,
        "-disposition:v"@,
        "attached_pic"@,
    ]
}

/// The full muxing-tool argument vector.
///
/// Order: overwrite flag; `-i` pairs for the tracks; the descriptor input;
/// the cover input when present; the concat filter over the track count;
/// metadata sourced from the descriptor input's index; cover stream mapping
/// when present; fixed AAC audio flags; the normalized output path.
pub open spec fn spec_mux_args(
    files: Seq<Seq<char>>,
    descriptor_path: Seq<char>,
    cover_path: Option<Seq<char>>,
    output: Seq<char>,
) -> Seq<Seq<char>> {
    seq!["-y"@] + spec_input_pairs(files) + seq!["-i"@, descriptor_path] + (match cover_path {
        Some(c) => seq!["-i"@, c],
        None => Seq::<Seq<char>>::empty(),
    }) + seq![
        "-filter_complex"@,
        spec_concat_filter(files.len()),
        "-map_metadata"@,
        text::spec_u64_digits(files.len()),
    ] + (match cover_path {
        Some(_) => spec_cover_map_args(files.len() + 1),
        None => Seq::<Seq<char>>::empty(),
    }) + seq!["-c:a"@, "aac"@, "-b:a"@, "64k"@, output]
}

/// Builds the muxing-tool argument vector for the given inputs.
///
/// The result is a pure function of its arguments; its length is exactly
/// `12 + 2 * files.len()` without a cover and `20 + 2 * files.len()` with
/// one: two entries per track, one descriptor input pair, one cover input
/// pair and six cover-mapping entries when a cover is present, and ten
/// fixed entries.
#[verifier::rlimit(100)]
pub fn build_mux_args(
    files: &Vec<String>,
    descriptor_path: &str,
    cover_path: &Option<String>,
    output: &str,
) -> (r: Vec<String>)
    requires
        files@.len() + 1 <= u64::MAX,
    ensures
        r.deep_view() == spec_mux_args(
            files.deep_view(),
            descriptor_path@,
            match *cover_path {
                Some(ref c) => Some(c@),
                None => None,
            },
            output@,
        ),
        r@.len() == 12 + 2 * files@.len() + (if cover_path is Some {
            8int
        } else {
            0int
        }),
{
    let ghost fv = files.deep_view();
    proof {
        assert forall|j: int| 0 <= j < files@.len() implies #[trigger] fv[j] == files@[j]@ by {
            assert(fv[j] =~= files@[j]@);
        }
    }
    let mut args: Vec<String> = Vec::new();
    push_lit(&mut args, "-y");
    proof {
        assert(args.deep_view() =~= seq!["-y"@] + spec_input_pairs(fv.take(0))) by {
            assert(fv.take(0) =~= Seq::<Seq<char>>::empty());
            assert(seq!["-y"@] + Seq::<Seq<char>>::empty() =~= seq!["-y"@]);
        }
    }
    let mut i: usize = 0;
    while i < files.len()
        invariant
            i <= files.len(),
            fv == files.deep_view(),
            fv.len() == files@.len(),
            forall|j: int| 0 <= j < files@.len() ==> #[trigger] fv[j] == files@[j]@,
            args.deep_view() == seq!["-y"@] + spec_input_pairs(fv.take(i as int)),
        decreases files.len() - i,
    {
        push_lit(&mut args, "-i");
        push_lit(&mut args, files[i].as_str());
        proof {
            assert(fv.take(i + 1) =~= fv.take(i as int) + seq![fv[i as int]]);
            lemma_input_pairs_concat(fv.take(i as int), seq![fv[i as int]]);
            assert(spec_input_pairs(seq![fv[i as int]]) =~= seq!["-i"@, fv[i as int]]) by {
                assert(seq![fv[i as int]][0] == fv[i as int]);
                assert(seq![fv[i as int]].drop_first() =~= Seq::<Seq<char>>::empty());
                assert(spec_input_pairs(Seq::<Seq<char>>::empty()) == Seq::<Seq<char>>::empty());
                assert(seq!["-i"@, fv[i as int]] + Seq::<Seq<char>>::empty() =~= seq![
                    "-i"@,
                    fv[i as int],
                ]);
            }
            assert(args.deep_view() =~= seq!["-y"@] + spec_input_pairs(fv.take(i + 1)));
        }
        i = i + 1;
    }
    proof {
        assert(fv.take(fv.len() as int) =~= fv);
        lemma_input_pairs_len(fv);
    }
    push_lit(&mut args, "-i");
    push_lit(&mut args, descriptor_path);
    match cover_path {
        Some(c) => {
            push_lit(&mut args, "-i");
            push_lit(&mut args, c.as_str());
        },
        None => {},
    }
    push_lit(&mut args, "-filter_complex");
    let mut filter = String::new();
    filter.append("concat=n=");
    let nstr = text::u64_to_string(files.len() as u64);
    filter.append(nstr.as_str());
    filter.append(":v=0:a=1");
    push_string(&mut args, filter);
    push_lit(&mut args, "-map_metadata");
    let idx = text::u64_to_string(files.len() as u64);
    push_string(&mut args, idx);
    match cover_path {
        Some(_) => {
            push_lit(&mut args, "-map");
            let mut m = String::new();
            let ci = text::u64_to_string((files.len() as u64) + 1);
            m.append(ci.as_str());
            m.append(":v");
            push_string(&mut args, m);
            push_lit(&mut args, "-c:v");
            push_lit(&mut args, "mjpeg");
            push_lit(&mut args, "-disposition:v");
            push_lit(&mut args, "attached_pic");
        },
        None => {},
    }
    push_lit(&mut args, "-c:a");
    push_lit(&mut args, "aac");
    push_lit(&mut args, "-b:a");
    push_lit(&mut args, "64k");
    push_lit(&mut args, output);
    proof {
        assert(args.deep_view() =~= spec_mux_args(
            fv,
            descriptor_path@,
            match *cover_path {
                Some(ref c) => Some(c@),
                None => None,
            },
            output@,
        ));
    }
    args
}

} // verus!
