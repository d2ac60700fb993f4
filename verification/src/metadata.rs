//! Reading the probing tool's tag report: an optional title and artist.
//!
//! The report is line-oriented `key=value` text. The artist resolution
//! policy prefers the `artist` tag and falls back to `album_artist` only
//! when no `artist` line has been seen; absence of both is not an error.

use crate::descriptor;
use crate::text;
use vstd::prelude::*;

verus! {

/// One folding step of the tag reader over the report's lines, carrying
/// the title and artist resolved so far.
pub open spec fn spec_meta_fold(
    lines: Seq<Seq<char>>,
    title: Option<Seq<char>>,
    artist: Option<Seq<char>>,
) -> (Option<Seq<char>>, Option<Seq<char>>)
    decreases lines.len(),
{
    if lines.len() == 0 {
        (title, artist)
    } else {
        let l = lines[0];
        let next_title = if text::spec_starts_with(l, "title="@) {
            Some(l.skip("title="@.len() as int))
        } else {
            title
        };
        let next_artist = if text::spec_starts_with(l, "title="@) {
            artist
        } else if text::spec_starts_with(l, "artist="@) {
            Some(l.skip("artist="@.len() as int))
        } else if text::spec_starts_with(l, "album_artist="@) && artist is None {
            Some(l.skip("album_artist="@.len() as int))
        } else {
            artist
        };
        spec_meta_fold(lines.drop_first(), next_title, next_artist)
    }
}

/// The (title, artist) pair the probing tool's report denotes.
pub open spec fn spec_extract_metadata(s: Seq<char>) -> (Option<Seq<char>>, Option<Seq<char>>) {
    spec_meta_fold(
        descriptor::spec_split_lines(text::spec_trim(s)),
        None,
        None,
    )
}

/// Reads the optional title and artist from the probing tool's report.
///
/// Later `title` and `artist` lines override earlier ones; an
/// `album_artist` line supplies the artist only while no `artist` line has
/// been seen.
pub fn extract_metadata(s: &str) -> (r: (Option<String>, Option<String>))
    ensures
        descriptor::spec_opt_view(r.0) == spec_extract_metadata(s@).0,
        descriptor::spec_opt_view(r.1) == spec_extract_metadata(s@).1,
{
    let chars = text::chars_of(s);
    let trimmed = text::trim_chars(&chars);
    let lines = descriptor::split_lines(&trimmed);
    let ghost dv = lines.deep_view();
    proof {
        assert forall|j: int| 0 <= j < lines@.len() implies #[trigger] dv[j] == lines@[j]@ by {
            assert(dv[j] =~= lines@[j]@);
        }
    }
    let title_key = text::chars_of("title=");
    let artist_key = text::chars_of("artist=");
    let album_key = text::chars_of("album_artist=");
    let mut title: Option<String> = None;
    let mut artist: Option<String> = None;
    let mut i: usize = 0;
    proof {
        assert(dv.skip(0) =~= dv);
    }
    while i < lines.len()
        invariant
            i <= lines.len(),
            dv == lines.deep_view(),
            dv.len() == lines@.len(),
            forall|j: int| 0 <= j < lines@.len() ==> #[trigger] dv[j] == lines@[j]@,
            title_key@ == "title="@,
            artist_key@ == "artist="@,
            album_key@ == "album_artist="@,
            spec_meta_fold(dv, None, None) == spec_meta_fold(
                dv.skip(i as int),
                descriptor::spec_opt_view(title),
                descriptor::spec_opt_view(artist),
            ),
        decreases lines.len() - i,
    {
        let l = &lines[i];
        proof {
            assert(dv.skip(i as int)[0] == dv[i as int]);
            assert(dv.skip(i as int).drop_first() =~= dv.skip(i + 1));
        }
        if text::starts_with(l, &title_key) {
            let v = text::subvec(l, title_key.len(), l.len());
            proof {
                assert(v@ =~= dv[i as int].skip("title="@.len() as int));
            }
            title = Some(text::string_from_chars(&v));
        } else if text::starts_with(l, &artist_key) {
            let v = text::subvec(l, artist_key.len(), l.len());
            proof {
                assert(v@ =~= dv[i as int].skip("artist="@.len() as int));
            }
            artist = Some(text::string_from_chars(&v));
        } else if text::starts_with(l, &album_key) && artist.is_none() {
            let v = text::subvec(l, album_key.len(), l.len());
            proof {
                assert(v@ =~= dv[i as int].skip("album_artist="@.len() as int));
            }
            artist = Some(text::string_from_chars(&v));
        }
        i = i + 1;
    }
    proof {
        assert(dv.skip(dv.len() as int) =~= Seq::<Seq<char>>::empty());
    }
    (title, artist)
}

} // verus!
