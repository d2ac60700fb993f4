//! The chapter planner: a pure function from the ordered track list and the
//! probed durations to the chapter list.
//!
//! Chapters are contiguous and non-overlapping by construction: the first
//! starts at zero and each subsequent chapter starts where the previous one
//! ends. Titles default to the source file's display name (basename with the
//! `.mp3` extension stripped); an empty display name falls back to a
//! synthetic `Chapter N` title, numbered from one in input order.

use crate::text;
use vstd::prelude::*;

verus! {

/// One chapter of the audiobook, with times in milliseconds.
#[derive(Debug, PartialEq, Eq)]
pub struct Chapter {
    pub title: String,
    pub start_ms: u64,
    pub duration_ms: u64,
}

impl Chapter {
    /// The chapter's exclusive end time.
    pub open spec fn spec_end_ms(&self) -> int {
        self.start_ms + self.duration_ms
    }

    /// Returns `start_ms + duration_ms`.
    pub fn end_ms(&self) -> (r: u64)
        requires
            self.spec_end_ms() <= u64::MAX,
        ensures
            r == self.spec_end_ms(),
    {
        self.start_ms + self.duration_ms
    }
}

/// The total of a list of millisecond durations.
pub open spec fn spec_sum_ms(d: Seq<u64>) -> int
    decreases d.len(),
{
    if d.len() == 0 {
        0int
    } else {
        spec_sum_ms(d.drop_last()) + d.last()
    }
}

/// A prefix sums to no more than the whole list.
pub proof fn lemma_sum_ms_prefix_le(d: Seq<u64>, i: int)
    requires
        0 <= i <= d.len(),
    ensures
        0 <= spec_sum_ms(d.take(i)) <= spec_sum_ms(d),
    decreases d.len(),
{
    if d.len() == 0 {
        assert(d.take(i) =~= d);
    } else if i == d.len() {
        assert(d.take(i) =~= d);
        lemma_sum_ms_prefix_le(d.drop_last(), d.len() - 1);
        assert(d.drop_last().take(d.len() - 1) =~= d.drop_last());
    } else {
        assert(d.take(i) =~= d.drop_last().take(i));
        lemma_sum_ms_prefix_le(d.drop_last(), i);
    }
}

/// Extending a prefix by one element adds that element's duration.
pub proof fn lemma_sum_ms_take_step(d: Seq<u64>, i: int)
    requires
        0 <= i < d.len(),
    ensures
        spec_sum_ms(d.take(i + 1)) == spec_sum_ms(d.take(i)) + d[i],
{
    assert(d.take(i + 1).drop_last() =~= d.take(i));
    assert(d.take(i + 1).last() == d[i]);
}

/// The part of `p` after its last path separator (`p` itself when it has
/// none).
pub open spec fn spec_after_last_slash(p: Seq<char>) -> Seq<char>
    decreases p.len(),
{
    if p.len() == 0 {
        p
    } else if p.last() == '/' {
        Seq::empty()
    } else {
        spec_after_last_slash(p.drop_last()).push(p.last())
    }
}

/// When `k` is the last separator position, the basename is everything
/// after it.
proof fn lemma_after_last_slash_suffix(p: Seq<char>, k: int)
    requires
        0 <= k < p.len(),
        p[k] == '/',
        forall|j: int| k < j < p.len() ==> p[j] != '/',
    ensures
        spec_after_last_slash(p) == p.skip(k + 1),
    decreases p.len(),
{
    if k == p.len() - 1 {
        assert(p.last() == '/');
        assert(p.skip(k + 1) =~= Seq::<char>::empty());
    } else {
        assert(p.last() != '/');
        lemma_after_last_slash_suffix(p.drop_last(), k);
        assert(p.drop_last().skip(k + 1).push(p.last()) =~= p.skip(k + 1));
    }
}

/// A path without separators is its own basename.
proof fn lemma_after_last_slash_none(p: Seq<char>)
    requires
        forall|j: int| 0 <= j < p.len() ==> p[j] != '/',
    ensures
        spec_after_last_slash(p) == p,
    decreases p.len(),
{
    if p.len() > 0 {
        lemma_after_last_slash_none(p.drop_last());
        assert(p.drop_last().push(p.last()) =~= p);
    }
}

/// `s` with a final `.mp3` extension removed.
pub open spec fn spec_strip_mp3(s: Seq<char>) -> Seq<char> {
    if s.len() >= 4 && s[s.len() - 4] == '.' && s[s.len() - 3] == 'm' && s[s.len() - 2] == 'p'
        && s[s.len() - 1] == '3' {
        s.take(s.len() - 4)
    } else {
        s
    }
}

/// The display name a track contributes as its default chapter title.
pub open spec fn spec_display_name(p: Seq<char>) -> Seq<char> {
    spec_strip_mp3(spec_after_last_slash(p))
}

/// The title of the chapter derived from path `p` at 1-based position
/// `index1`: the display name, or `Chapter N` when the display name is
/// empty.
pub open spec fn spec_chapter_title(p: Seq<char>, index1: u64) -> Seq<char> {
    if spec_display_name(p).len() == 0 {
        "Chapter "@ + text::spec_u64_digits(index1 as nat)
    } else {
        spec_display_name(p)
    }
}

fn after_last_slash(v: &Vec<char>) -> (r: Vec<char>)
    ensures
        r@ == spec_after_last_slash(v@),
{
    let mut k: usize = v.len();
    while k > 0
        invariant
            k <= v.len(),
            forall|j: int| k <= j < v@.len() ==> v@[j] != '/',
        decreases k,
    {
        if v[k - 1] == '/' {
            proof {
                lemma_after_last_slash_suffix(v@, k - 1);
                assert(v@.subrange(k as int, v@.len() as int) =~= v@.skip(k as int));
            }
            return text::subvec(v, k, v.len());
        }
        k = k - 1;
    }
    proof {
        lemma_after_last_slash_none(v@);
        assert(v@.subrange(0, v@.len() as int) =~= v@);
    }
    text::subvec(v, 0, v.len())
}

fn strip_mp3(v: &Vec<char>) -> (r: Vec<char>)
    ensures
        r@ == spec_strip_mp3(v@),
{
    if v.len() >= 4 {
        let n = v.len();
        if v[n - 4] == '.' && v[n - 3] == 'm' && v[n - 2] == 'p' && v[n - 1] == '3' {
            proof {
                assert(v@.subrange(0, v@.len() - 4) =~= v@.take(v@.len() - 4));
            }
            return text::subvec(v, 0, n - 4);
        }
        return text::subvec(v, 0, n);
    }
    proof {
        assert(v@.subrange(0, v@.len() as int) =~= v@);
    }
    text::subvec(v, 0, v.len())
}

/// The default title of the chapter at 1-based position `index1` derived
/// from source path `path`.
pub fn chapter_title(path: &str, index1: u64) -> (r: String)
    ensures
        r@ == spec_chapter_title(path@, index1),
{
    let chars = text::chars_of(path);
    let base = strip_mp3(&after_last_slash(&chars));
    if base.len() == 0 {
        let num = text::u64_to_string(index1);
        let mut t = String::new();
        t.append("Chapter ");
        t.append(num.as_str());
        t
    } else {
        text::string_from_chars(&base)
    }
}

/// The (start, duration, title) tuples the planner produces for the given
/// paths and durations: chapter `i` starts at the sum of the earlier
/// durations, lasts its own track's duration, and carries the track's
/// default title.
pub open spec fn spec_planned_triples(paths: Seq<Seq<char>>, durs: Seq<u64>) -> Seq<
    (u64, u64, Seq<char>),
> {
    Seq::new(
        paths.len(),
        |i: int|
            (
                spec_sum_ms(durs.take(i)) as u64,
                durs[i],
                spec_chapter_title(paths[i], (i + 1) as u64),
            ),
    )
}

/// Planned chapters are contiguous and non-overlapping: the first starts
/// at zero, each chapter's end is the running total of the durations up to
/// and including its own, and each subsequent chapter starts exactly where
/// the previous one ends.
pub proof fn lemma_chapters_contiguous(paths: Seq<Seq<char>>, durs: Seq<u64>, i: int)
    requires
        paths.len() == durs.len(),
        spec_sum_ms(durs) <= u64::MAX,
        0 <= i < paths.len(),
    ensures
        spec_planned_triples(paths, durs)[0].0 == 0,
        spec_planned_triples(paths, durs)[i].0 + spec_planned_triples(paths, durs)[i].1
            == spec_sum_ms(durs.take(i + 1)),
        i + 1 < paths.len() ==> spec_planned_triples(paths, durs)[i + 1].0 == spec_planned_triples(
            paths,
            durs,
        )[i].0 + spec_planned_triples(paths, durs)[i].1,
{
    assert(durs.take(0) =~= Seq::<u64>::empty());
    lemma_sum_ms_take_step(durs, i);
    lemma_sum_ms_prefix_le(durs, i);
    lemma_sum_ms_prefix_le(durs, i + 1);
}

/// Plans the chapter list for the given tracks and durations.
///
/// Chapter `i` carries the display-derived title of track `i`, the track's
/// own duration, and a start time equal to the sum of all earlier durations:
/// chapters are contiguous, non-overlapping, and in input order.
pub fn plan_chapters(paths: &Vec<String>, durations_ms: &Vec<u64>) -> (r: Vec<Chapter>)
    requires
        paths@.len() == durations_ms@.len(),
        spec_sum_ms(durations_ms@) <= u64::MAX,
    ensures
        r@.len() == paths@.len(),
        forall|i: int|
            0 <= i < r@.len() ==> {
                &&& (#[trigger] r@[i]).title@ == spec_chapter_title(paths@[i]@, (i + 1) as u64)
                &&& r@[i].duration_ms == durations_ms@[i]
                &&& r@[i].start_ms == spec_sum_ms(durations_ms@.take(i))
            },
{
    let mut r: Vec<Chapter> = Vec::new();
    let mut current: u64 = 0;
    let n = paths.len();
    let mut i: usize = 0;
    while i < n
        invariant
            paths@.len() == n,
            durations_ms@.len() == n,
            spec_sum_ms(durations_ms@) <= u64::MAX,
            i <= n,
            r@.len() == i,
            current == spec_sum_ms(durations_ms@.take(i as int)),
            forall|k: int|
                0 <= k < i ==> {
                    &&& (#[trigger] r@[k]).title@ == spec_chapter_title(paths@[k]@, (k + 1) as u64)
                    &&& r@[k].duration_ms == durations_ms@[k]
                    &&& r@[k].start_ms == spec_sum_ms(durations_ms@.take(k))
                },
        decreases n - i,
    {
        let title = chapter_title(paths[i].as_str(), (i as u64) + 1);
        let d = durations_ms[i];
        proof {
            lemma_sum_ms_take_step(durations_ms@, i as int);
            lemma_sum_ms_prefix_le(durations_ms@, i + 1);
        }
        r.push(Chapter { title, start_ms: current, duration_ms: d });
        current = current + d;
        i = i + 1;
    }
    r
}

/// Chapters follow their tracks under reordering: for input lists that are
/// permutations of one another (and whose tracks all have non-empty display
/// names, so that no position-numbered fallback title applies), the planned
/// chapter at position `i` of the permuted list carries exactly the title
/// and duration of the chapter planned for the original track now standing
/// at position `i`, and every start time is the sum of the durations that
/// precede the track in its own list.
pub proof fn lemma_plan_permutation(
    paths1: Seq<Seq<char>>,
    durs1: Seq<u64>,
    paths2: Seq<Seq<char>>,
    durs2: Seq<u64>,
    perm: Seq<int>,
    i: int,
)
    requires
        paths1.len() == durs1.len(),
        paths2.len() == durs2.len(),
        perm.len() == paths2.len(),
        paths2.len() == paths1.len(),
        forall|k: int| 0 <= k < perm.len() ==> 0 <= #[trigger] perm[k] < paths1.len(),
        forall|k: int| 0 <= k < perm.len() ==> #[trigger] paths2[k] == paths1[perm[k]],
        forall|k: int| 0 <= k < perm.len() ==> #[trigger] durs2[k] == durs1[perm[k]],
        forall|k: int| 0 <= k < paths1.len() ==> spec_display_name(#[trigger] paths1[k]).len() > 0,
        0 <= i < paths2.len(),
    ensures
        spec_chapter_title(paths2[i], (i + 1) as u64) == spec_chapter_title(
            paths1[perm[i]],
            (perm[i] + 1) as u64,
        ),
        durs2[i] == durs1[perm[i]],
{
}

} // verus!
