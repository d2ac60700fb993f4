//! The chapter/metadata descriptor grammar.
//!
//! The muxing tool consumes a plain-text descriptor: a fixed header line,
//! optional `key=value` global metadata lines, and one block per chapter
//! declaring a millisecond timebase, integer start/end offsets, and a title.
//! Characters that are structurally significant to that grammar are escaped
//! with a backslash; literal line breaks in metadata values are rejected
//! outright, since no value may span lines.
//!
//! Serialization is proved invertible: parsing a rendered descriptor yields
//! the chapter tuples it was rendered from.

use crate::chapters::Chapter;
use crate::errors::ConvertError;
use crate::text;
use vstd::prelude::*;

verus! {

/// Whether `v` may appear as a metadata value: it must not span lines.
pub open spec fn spec_value_ok(v: Seq<char>) -> bool {
    forall|i: int| 0 <= i < v.len() ==> #[trigger] v[i] != '\n' && v[i] != '\r'
}

/// Whether `c` must be escaped inside a metadata value.
pub open spec fn spec_needs_escape(c: char) -> bool {
    c == '\\' || c == '=' || c == ';' || c == '#'
}

/// The rendering of one value character.
pub open spec fn spec_escape_char(c: char) -> Seq<char> {
    if spec_needs_escape(c) {
        seq!['\\', c]
    } else {
        seq![c]
    }
}

/// A value with its structural characters escaped.
pub open spec fn spec_escape(s: Seq<char>) -> Seq<char>
    decreases s.len(),
{
    if s.len() == 0 {
        Seq::empty()
    } else {
        spec_escape_char(s[0]) + spec_escape(s.drop_first())
    }
}

/// The inverse reading: resolves backslash escapes; `None` for a dangling
/// final backslash.
pub open spec fn spec_unescape(s: Seq<char>) -> Option<Seq<char>>
    decreases s.len(),
{
    if s.len() == 0 {
        Some(Seq::empty())
    } else if s[0] == '\\' {
        if s.len() >= 2 {
            match spec_unescape(s.skip(2)) {
                Some(r) => Some(seq![s[1]] + r),
                None => None,
            }
        } else {
            None
        }
    } else {
        match spec_unescape(s.drop_first()) {
            Some(r) => Some(seq![s[0]] + r),
            None => None,
        }
    }
}

/// Escaping is invertible.
pub proof fn lemma_unescape_escape(s: Seq<char>)
    ensures
        spec_unescape(spec_escape(s)) == Some(s),
    decreases s.len(),
{
    if s.len() == 0 {
        assert(spec_escape(s) =~= Seq::<char>::empty());
    } else {
        lemma_unescape_escape(s.drop_first());
        let e = spec_escape(s);
        if spec_needs_escape(s[0]) {
            assert(e =~= seq!['\\', s[0]] + spec_escape(s.drop_first()));
            assert(e[0] == '\\');
            assert(e.len() >= 2);
            assert(e.skip(2) =~= spec_escape(s.drop_first()));
            assert(e[1] == s[0]);
            assert(seq![s[0]] + s.drop_first() =~= s);
        } else {
            assert(e =~= seq![s[0]] + spec_escape(s.drop_first()));
            assert(e[0] == s[0]);
            assert(e[0] != '\\');
            assert(e.drop_first() =~= spec_escape(s.drop_first()));
            assert(seq![s[0]] + s.drop_first() =~= s);
        }
    }
}

/// Escaping a single-line value never introduces a line break.
pub proof fn lemma_escape_line_free(s: Seq<char>)
    requires
        spec_value_ok(s),
    ensures
        forall|i: int| 0 <= i < spec_escape(s).len() ==> #[trigger] spec_escape(s)[i] != '\n',
    decreases s.len(),
{
    if s.len() > 0 {
        assert(spec_value_ok(s.drop_first())) by {
            assert(forall|i: int|
                0 <= i < s.drop_first().len() ==> #[trigger] s.drop_first()[i] == s[i + 1]);
        }
        lemma_escape_line_free(s.drop_first());
        let e = spec_escape(s);
        let h = spec_escape_char(s[0]);
        assert(s[0] != '\n');
        assert forall|i: int| 0 <= i < e.len() implies #[trigger] e[i] != '\n' by {
            if i < h.len() {
                assert(e[i] == h[i]);
            } else {
                assert(e[i] == spec_escape(s.drop_first())[i - h.len()]);
            }
        }
    }
}

/// Appending one character extends the escaped rendering.
pub proof fn lemma_escape_snoc(s: Seq<char>, c: char)
    ensures
        spec_escape(s.push(c)) == spec_escape(s) + spec_escape_char(c),
    decreases s.len(),
{
    if s.len() == 0 {
        assert(s.push(c)[0] == c);
        assert(s.push(c).drop_first() =~= Seq::<char>::empty());
        assert(spec_escape(Seq::<char>::empty()) == Seq::<char>::empty());
        assert(spec_escape(s.push(c)) =~= spec_escape(s) + spec_escape_char(c));
    } else {
        assert(s.push(c)[0] == s[0]);
        assert(s.push(c).drop_first() =~= s.drop_first().push(c));
        lemma_escape_snoc(s.drop_first(), c);
        assert(spec_escape(s.push(c)) =~= spec_escape(s) + spec_escape_char(c));
    }
}

/// Escapes a metadata value.
pub fn escape_value(v: &Vec<char>) -> (r: Vec<char>)
    ensures
        r@ == spec_escape(v@),
{
    let mut r: Vec<char> = Vec::new();
    proof {
        assert(v@.take(0) =~= Seq::<char>::empty());
        assert(r@ =~= spec_escape(v@.take(0)));
    }
    let mut i: usize = 0;
    while i < v.len()
        invariant
            i <= v.len(),
            r@ == spec_escape(v@.take(i as int)),
        decreases v.len() - i,
    {
        let c = v[i];
        if c == '\\' || c == '=' || c == ';' || c == '#' {
            r.push('\\');
            r.push(c);
        } else {
            r.push(c);
        }
        proof {
            lemma_escape_snoc(v@.take(i as int), c);
            assert(v@.take(i as int).push(c) =~= v@.take(i + 1));
            assert(r@ =~= spec_escape(v@.take(i as int)) + spec_escape_char(c));
        }
        i = i + 1;
    }
    proof {
        assert(v@.take(v@.len() as int) =~= v@);
    }
    r
}

/// Resolves backslash escapes in a metadata value.
pub fn unescape_value(v: &Vec<char>) -> (r: Option<Vec<char>>)
    ensures
        r matches Some(u) ==> spec_unescape(v@) == Some(u@),
        r is None ==> spec_unescape(v@) is None,
{
    let mut r: Vec<char> = Vec::new();
    let mut i: usize = 0;
    proof {
        assert(v@.skip(0) =~= v@);
        let su = spec_unescape(v@);
        if su is Some {
            assert(r@ + su->0 =~= su->0);
        }
    }
    while i < v.len()
        invariant
            i <= v.len(),
            match spec_unescape(v@.skip(i as int)) {
                Some(u) => spec_unescape(v@) matches Some(w) && w == r@ + u,
                None => spec_unescape(v@) is None,
            },
        decreases v.len() - i,
    {
        let c = v[i];
        proof {
            assert(v@.skip(i as int)[0] == v@[i as int]);
        }
        if c == '\\' {
            if i + 1 < v.len() {
                proof {
                    assert(v@.skip(i as int).len() >= 2);
                    assert(v@.skip(i as int).skip(2) =~= v@.skip(i + 2));
                    assert(v@.skip(i as int)[1] == v@[i + 1]);
                }
                let d = v[i + 1];
                proof {
                    let su = spec_unescape(v@.skip(i + 2));
                    if su is Some {
                        assert(r@ + (seq![d] + su->0) =~= (r@ + seq![d]) + su->0);
                    }
                }
                r.push(d);
                i = i + 2;
            } else {
                proof {
                    assert(v@.skip(i as int).len() == 1);
                    assert(spec_unescape(v@.skip(i as int)) is None);
                }
                return None;
            }
        } else {
            proof {
                assert(v@.skip(i as int).drop_first() =~= v@.skip(i + 1));
                let su = spec_unescape(v@.skip(i + 1));
                if su is Some {
                    assert(r@ + (seq![c] + su->0) =~= (r@ + seq![c]) + su->0);
                }
            }
            r.push(c);
            i = i + 1;
        }
    }
    proof {
        assert(v@.skip(v@.len() as int) =~= Seq::<char>::empty());
        assert(r@ + Seq::<char>::empty() =~= r@);
    }
    Some(r)
}

/// Whether a line holds no line-feed character.
pub open spec fn spec_line_free(l: Seq<char>) -> bool {
    forall|i: int| 0 <= i < l.len() ==> #[trigger] l[i] != '\n'
}

/// The length of the first line of `s`: the number of characters before
/// the first line feed, or all of `s`.
pub open spec fn spec_line_len(s: Seq<char>) -> nat
    decreases s.len(),
{
    if s.len() == 0 {
        0
    } else if s[0] == '\n' {
        0
    } else {
        1 + spec_line_len(s.drop_first())
    }
}

/// `s` split at line feeds; a trailing line feed terminates the last line.
pub open spec fn spec_split_lines(s: Seq<char>) -> Seq<Seq<char>>
    decreases s.len(),
{
    if s.len() == 0 {
        Seq::empty()
    } else {
        let l = spec_line_len(s);
        if l >= s.len() {
            seq![s]
        } else {
            seq![s.take(l as int)] + spec_split_lines(s.skip(l + 1 as int))
        }
    }
}

/// Lines joined with a terminating line feed after each.
pub open spec fn spec_join_lines(ls: Seq<Seq<char>>) -> Seq<char>
    decreases ls.len(),
{
    if ls.len() == 0 {
        Seq::empty()
    } else {
        ls[0] + seq!['\n'] + spec_join_lines(ls.drop_first())
    }
}

/// Appending one more line appends its text and a line feed.
pub proof fn lemma_join_snoc(ls: Seq<Seq<char>>, l: Seq<char>)
    ensures
        spec_join_lines(ls.push(l)) == spec_join_lines(ls) + l + seq!['\n'],
    decreases ls.len(),
{
    if ls.len() == 0 {
        assert(ls.push(l)[0] == l);
        assert(ls.push(l).drop_first() =~= Seq::<Seq<char>>::empty());
        assert(spec_join_lines(Seq::<Seq<char>>::empty()) == Seq::<char>::empty());
        assert(spec_join_lines(ls.push(l)) =~= spec_join_lines(ls) + l + seq!['\n']);
    } else {
        assert(ls.push(l)[0] == ls[0]);
        assert(ls.push(l).drop_first() =~= ls.drop_first().push(l));
        lemma_join_snoc(ls.drop_first(), l);
        assert(spec_join_lines(ls.push(l)) =~= spec_join_lines(ls) + l + seq!['\n']);
    }
}

/// The first line of a joined list is its first element.
proof fn lemma_line_len_of_terminated(l: Seq<char>, rest: Seq<char>)
    requires
        spec_line_free(l),
    ensures
        spec_line_len(l + seq!['\n'] + rest) == l.len(),
    decreases l.len(),
{
    let s = l + seq!['\n'] + rest;
    if l.len() == 0 {
        assert(s[0] == '\n');
    } else {
        assert(s[0] == l[0]);
        assert(s[0] != '\n');
        assert(s.drop_first() =~= l.drop_first() + seq!['\n'] + rest);
        assert(spec_line_free(l.drop_first())) by {
            assert(forall|i: int|
                0 <= i < l.drop_first().len() ==> #[trigger] l.drop_first()[i] == l[i + 1]);
        }
        lemma_line_len_of_terminated(l.drop_first(), rest);
    }
}

/// Splitting a joined list of line-free lines gives the lines back.
pub proof fn lemma_split_join(ls: Seq<Seq<char>>)
    requires
        forall|i: int| 0 <= i < ls.len() ==> spec_line_free(#[trigger] ls[i]),
    ensures
        spec_split_lines(spec_join_lines(ls)) == ls,
    decreases ls.len(),
{
    if ls.len() == 0 {
    } else {
        let l = ls[0];
        let rest = spec_join_lines(ls.drop_first());
        let s = spec_join_lines(ls);
        assert(s =~= l + seq!['\n'] + rest);
        lemma_line_len_of_terminated(l, rest);
        assert(spec_line_len(s) == l.len());
        assert(spec_line_len(s) < s.len());
        assert(s.take(l.len() as int) =~= l);
        assert(s.skip(l.len() + 1 as int) =~= rest);
        assert forall|i: int| 0 <= i < ls.drop_first().len() implies spec_line_free(
            #[trigger] ls.drop_first()[i],
        ) by {
            assert(ls.drop_first()[i] == ls[i + 1]);
        }
        lemma_split_join(ls.drop_first());
        assert(seq![l] + ls.drop_first() =~= ls);
    }
}

/// A numeral consists of digits only, so it stays on one line.
pub proof fn lemma_digits_value_chars(s: Seq<char>)
    requires
        text::spec_all_digits(s),
    ensures
        spec_line_free(s),
        spec_value_ok(s),
{
    assert forall|i: int| 0 <= i < s.len() implies #[trigger] s[i] != '\n' && s[i] != '\r' by {
        assert(text::spec_is_digit(s[i]));
    }
}

/// Joins lines into the terminated text form, one line feed after each.
pub fn join_lines(lines: &Vec<String>) -> (r: String)
    ensures
        r@ == spec_join_lines(lines.deep_view()),
{
    let ghost vs = lines.deep_view();
    let mut r = String::new();
    let mut i: usize = 0;
    proof {
        assert(vs.take(0) =~= Seq::<Seq<char>>::empty());
    }
    while i < lines.len()
        invariant
            i <= lines.len(),
            vs == lines.deep_view(),
            vs.len() == lines@.len(),
            forall|j: int| 0 <= j < lines@.len() ==> #[trigger] vs[j] == lines@[j]@,
            r@ == spec_join_lines(vs.take(i as int)),
        decreases lines.len() - i,
    {
        r.append(lines[i].as_str());
        r.append("\n");
        proof {
            reveal_strlit("\n");
            lemma_join_snoc(vs.take(i as int), vs[i as int]);
            assert(vs.take(i as int).push(vs[i as int]) =~= vs.take(i + 1));
            assert("\n"@ =~= seq!['\n']);
        }
        i = i + 1;
    }
    proof {
        assert(vs.take(vs.len() as int) =~= vs);
    }
    r
}

/// Whether `v` is free of line breaks.
pub fn value_ok(v: &Vec<char>) -> (r: bool)
    ensures
        r == spec_value_ok(v@),
{
    let mut i: usize = 0;
    while i < v.len()
        invariant
            i <= v.len(),
            forall|j: int| 0 <= j < i ==> #[trigger] v@[j] != '\n' && v@[j] != '\r',
        decreases v.len() - i,
    {
        if v[i] == '\n' || v[i] == '\r' {
            proof {
                assert(!spec_value_ok(v@)) by {
                    assert(v@[i as int] == '\n' || v@[i as int] == '\r');
                }
            }
            return false;
        }
        i = i + 1;
    }
    true
}

/// The view of an optional metadata value.
pub open spec fn spec_opt_view(o: Option<String>) -> Option<Seq<char>> {
    match o {
        Some(s) => Some(s@),
        None => None,
    }
}

/// The (start, duration, title) data of a planned chapter list.
pub open spec fn spec_chapters_view(cs: Seq<Chapter>) -> Seq<(u64, u64, Seq<char>)> {
    Seq::new(cs.len(), |i: int| (cs[i].start_ms, cs[i].duration_ms, cs[i].title@))
}

/// The six lines of one chapter block: a separating blank line, the section
/// marker, the declared millisecond timebase, integer start and end offsets,
/// and the title.
pub open spec fn spec_chapter_lines(ch: (u64, u64, Seq<char>)) -> Seq<Seq<char>> {
    seq![
        Seq::<char>::empty(),
        "[CHAPTER]"@,
        "TIMEBASE=1/1000"@,
        "START="@ + text::spec_u64_digits(ch.0 as nat),
        "END="@ + text::spec_u64_digits((ch.0 + ch.1) as nat),
        "title="@ + spec_escape(ch.2),
    ]
}

/// The blocks of all chapters, in order.
pub open spec fn spec_chapters_lines(chs: Seq<(u64, u64, Seq<char>)>) -> Seq<Seq<char>>
    decreases chs.len(),
{
    if chs.len() == 0 {
        Seq::empty()
    } else {
        spec_chapter_lines(chs[0]) + spec_chapters_lines(chs.drop_first())
    }
}

pub proof fn lemma_chapters_lines_concat(a: Seq<(u64, u64, Seq<char>)>, b: Seq<(u64, u64, Seq<char>)>)
    ensures
        spec_chapters_lines(a + b) == spec_chapters_lines(a) + spec_chapters_lines(b),
    decreases a.len(),
{
    if a.len() == 0 {
        assert(a + b =~= b);
        assert(Seq::<Seq<char>>::empty() + spec_chapters_lines(b) =~= spec_chapters_lines(b));
    } else {
        assert((a + b)[0] == a[0]);
        assert((a + b).drop_first() =~= a.drop_first() + b);
        lemma_chapters_lines_concat(a.drop_first(), b);
        assert(spec_chapters_lines(a + b) =~= spec_chapters_lines(a) + spec_chapters_lines(b));
    }
}

/// The optional global metadata lines: title, then author.
pub open spec fn spec_meta_lines(title: Option<Seq<char>>, author: Option<Seq<char>>) -> Seq<
    Seq<char>,
> {
    (match title {
        Some(t) => seq!["title="@ + spec_escape(t)],
        None => Seq::<Seq<char>>::empty(),
    }) + (match author {
        Some(a) => seq!["artist="@ + spec_escape(a)],
        None => Seq::<Seq<char>>::empty(),
    })
}

/// All lines of the descriptor for the given metadata and chapters.
pub open spec fn spec_descriptor_lines(
    title: Option<Seq<char>>,
    author: Option<Seq<char>>,
    chs: Seq<(u64, u64, Seq<char>)>,
) -> Seq<Seq<char>> {
    seq![";FFMETADATA1"@] + spec_meta_lines(title, author) + seq!["genre=Audiobook"@]
        + spec_chapters_lines(chs)
}

/// The full descriptor text.
pub open spec fn spec_descriptor(
    title: Option<Seq<char>>,
    author: Option<Seq<char>>,
    chs: Seq<(u64, u64, Seq<char>)>,
) -> Seq<char> {
    spec_join_lines(spec_descriptor_lines(title, author, chs))
}

/// Whether every metadata value stays on a single line, which the grammar
/// requires of descriptor inputs.
pub open spec fn spec_descriptor_inputs_ok(
    title: Option<Seq<char>>,
    author: Option<Seq<char>>,
    chs: Seq<(u64, u64, Seq<char>)>,
) -> bool {
    &&& (title matches Some(t) ==> spec_value_ok(t))
    &&& (author matches Some(a) ==> spec_value_ok(a))
    &&& forall|i: int| 0 <= i < chs.len() ==> spec_value_ok((#[trigger] chs[i]).2)
}


/// Parses the chapter blocks at the tail of a descriptor's line list:
/// each block is exactly six lines, and the block's chapter is
/// `(START, END - START, title)`.
pub open spec fn spec_parse_chapter_blocks(ls: Seq<Seq<char>>) -> Option<
    Seq<(u64, u64, Seq<char>)>,
>
    decreases ls.len(),
{
    if ls.len() == 0 {
        Some(Seq::empty())
    } else if ls.len() >= 6 && ls[0] == Seq::<char>::empty() && ls[1] == "[CHAPTER]"@ && ls[2]
        == "TIMEBASE=1/1000"@ && text::spec_starts_with(ls[3], "START="@) && text::spec_starts_with(
        ls[4],
        "END="@,
    ) && text::spec_starts_with(ls[5], "title="@) {
        let st = text::spec_parse_u64(ls[3].skip("START="@.len() as int));
        let en = text::spec_parse_u64(ls[4].skip("END="@.len() as int));
        let ti = spec_unescape(ls[5].skip("title="@.len() as int));
        if st is Some && en is Some && ti is Some && st->0 <= en->0 {
            match spec_parse_chapter_blocks(ls.skip(6)) {
                Some(rest) => Some(seq![(st->0, (en->0 - st->0) as u64, ti->0)] + rest),
                None => None,
            }
        } else {
            None
        }
    } else {
        None
    }
}

/// Parses a whole descriptor back into its global metadata and chapter
/// tuples; `None` for text outside the grammar.
pub open spec fn spec_parse_descriptor(s: Seq<char>) -> Option<
    (Option<Seq<char>>, Option<Seq<char>>, Seq<(u64, u64, Seq<char>)>),
> {
    let ls = spec_split_lines(s);
    if ls.len() == 0 || ls[0] != ";FFMETADATA1"@ {
        None
    } else {
        let r1 = ls.drop_first();
        let has_title = r1.len() > 0 && text::spec_starts_with(r1[0], "title="@);
        let r2 = if has_title {
            r1.drop_first()
        } else {
            r1
        };
        let has_author = r2.len() > 0 && text::spec_starts_with(r2[0], "artist="@);
        let r3 = if has_author {
            r2.drop_first()
        } else {
            r2
        };
        let tu = if has_title {
            spec_unescape(r1[0].skip("title="@.len() as int))
        } else {
            None
        };
        let au = if has_author {
            spec_unescape(r2[0].skip("artist="@.len() as int))
        } else {
            None
        };
        if r3.len() == 0 || r3[0] != "genre=Audiobook"@ {
            None
        } else if has_title && tu is None {
            None
        } else if has_author && au is None {
            None
        } else {
            match spec_parse_chapter_blocks(r3.drop_first()) {
                Some(chs) => Some(
                    (
                        if has_title {
                            Some(tu->0)
                        } else {
                            None
                        },
                        if has_author {
                            Some(au->0)
                        } else {
                            None
                        },
                        chs,
                    ),
                ),
                None => None,
            }
        }
    }
}

fn keyed_line(key: &str, value: &Vec<char>) -> (r: String)
    ensures
        r@ == key@ + spec_escape(value@),
{
    let escaped = escape_value(value);
    let mut l = String::new();
    l.append(key);
    let e = text::string_from_chars(&escaped);
    l.append(e.as_str());
    l
}

fn numbered_line(key: &str, n: u64) -> (r: String)
    ensures
        r@ == key@ + text::spec_u64_digits(n as nat),
{
    let mut l = String::new();
    l.append(key);
    let d = text::u64_to_string(n);
    l.append(d.as_str());
    l
}

/// Renders the descriptor for the given global metadata and chapter list.
///
/// Succeeds exactly when no metadata value carries a line break; the
/// rendered text is then the unique descriptor of those inputs. On failure
/// nothing is rendered and the error is a validation failure.
pub fn render_descriptor(
    title: &Option<String>,
    author: &Option<String>,
    chapters: &Vec<Chapter>,
) -> (r: Result<String, ConvertError>)
    requires
        forall|i: int|
            0 <= i < chapters@.len() ==> (#[trigger] chapters@[i]).start_ms
                + chapters@[i].duration_ms <= u64::MAX,
    ensures
        r is Ok <==> spec_descriptor_inputs_ok(
            spec_opt_view(*title),
            spec_opt_view(*author),
            spec_chapters_view(chapters@),
        ),
        r matches Ok(s) ==> s@ == spec_descriptor(
            spec_opt_view(*title),
            spec_opt_view(*author),
            spec_chapters_view(chapters@),
        ),
        r matches Err(e) ==> (e matches ConvertError::Validation(m) && m@
            == "Metadata values must not contain line breaks"@),
{
    let ghost gtitle = spec_opt_view(*title);
    let ghost gauthor = spec_opt_view(*author);
    let ghost gchs = spec_chapters_view(chapters@);

    let mut lines: Vec<String> = Vec::new();
    let mut header = String::new();
    header.append(";FFMETADATA1");
    lines.push(header);

    match title {
        Some(t) => {
            let tv = text::chars_of(t.as_str());
            if !value_ok(&tv) {
                let mut m = String::new();
                m.append("Metadata values must not contain line breaks");
                return Err(ConvertError::Validation(m));
            }
            lines.push(keyed_line("title=", &tv));
        },
        None => {},
    }
    match author {
        Some(a) => {
            let av = text::chars_of(a.as_str());
            if !value_ok(&av) {
                let mut m = String::new();
                m.append("Metadata values must not contain line breaks");
                return Err(ConvertError::Validation(m));
            }
            lines.push(keyed_line("artist=", &av));
        },
        None => {},
    }
    let mut genre = String::new();
    genre.append("genre=Audiobook");
    lines.push(genre);

    let ghost head = seq![";FFMETADATA1"@] + spec_meta_lines(gtitle, gauthor) + seq![
        "genre=Audiobook"@,
    ];
    proof {
        assert(lines.deep_view() =~~= head);
    }

    let mut i: usize = 0;
    while i < chapters.len()
        invariant
            i <= chapters.len(),
            gchs == spec_chapters_view(chapters@),
            gchs.len() == chapters@.len(),
            forall|k: int|
                0 <= k < chapters@.len() ==> (#[trigger] chapters@[k]).start_ms
                    + chapters@[k].duration_ms <= u64::MAX,
            forall|k: int|
                0 <= k < i ==> spec_value_ok((#[trigger] chapters@[k]).title@),
            lines.deep_view() == head + spec_chapters_lines(gchs.take(i as int)),
        decreases chapters.len() - i,
    {
        let ch = &chapters[i];
        let tv = text::chars_of(ch.title.as_str());
        if !value_ok(&tv) {
            proof {
                assert(!spec_descriptor_inputs_ok(gtitle, gauthor, gchs)) by {
                    assert(gchs[i as int].2 == chapters@[i as int].title@);
                    assert(!spec_value_ok(gchs[i as int].2));
                }
            }
            let mut m = String::new();
            m.append("Metadata values must not contain line breaks");
            return Err(ConvertError::Validation(m));
        }
        let mut blank = String::new();
        blank.append("");
        lines.push(blank);
        let mut marker = String::new();
        marker.append("[CHAPTER]");
        lines.push(marker);
        let mut tb = String::new();
        tb.append("TIMEBASE=1/1000");
        lines.push(tb);
        lines.push(numbered_line("START=", ch.start_ms));
        lines.push(numbered_line("END=", ch.start_ms + ch.duration_ms));
        lines.push(keyed_line("title=", &tv));
        proof {
            reveal_strlit("");
            assert(""@ =~= Seq::<char>::empty());
            assert(gchs.take(i + 1) =~= gchs.take(i as int) + seq![gchs[i as int]]);
            lemma_chapters_lines_concat(gchs.take(i as int), seq![gchs[i as int]]);
            assert(spec_chapters_lines(seq![gchs[i as int]]) =~= spec_chapter_lines(
                gchs[i as int],
            )) by {
                assert(seq![gchs[i as int]][0] == gchs[i as int]);
                assert(seq![gchs[i as int]].drop_first() =~= Seq::<(u64, u64, Seq<char>)>::empty());
                assert(spec_chapters_lines(Seq::<(u64, u64, Seq<char>)>::empty()) == Seq::<
                    Seq<char>,
                >::empty());
                assert(spec_chapter_lines(gchs[i as int])
                    + Seq::<Seq<char>>::empty() =~= spec_chapter_lines(gchs[i as int]));
            }
            assert(gchs[i as int].0 == chapters@[i as int].start_ms);
            assert(gchs[i as int].1 == chapters@[i as int].duration_ms);
            assert(gchs[i as int].2 == chapters@[i as int].title@);
            let dv2 = lines.deep_view();
            let base = head + spec_chapters_lines(gchs.take(i as int));
            let nl = spec_chapter_lines(gchs[i as int]);
            assert(dv2.len() == base.len() + 6);
            assert(dv2[base.len() as int] =~= nl[0]);
            assert(dv2[base.len() as int + 1] =~= nl[1]);
            assert(dv2[base.len() as int + 2] =~= nl[2]);
            assert(dv2[base.len() as int + 3] =~= nl[3]);
            assert(dv2[base.len() as int + 4] =~= nl[4]);
            assert(dv2[base.len() as int + 5] =~= nl[5]);
            assert(forall|k: int| 0 <= k < base.len() ==> dv2[k] == base[k]);
            assert(lines.deep_view() =~~= head + spec_chapters_lines(gchs.take(i + 1)));
        }
        i = i + 1;
    }
    proof {
        assert(gchs.take(gchs.len() as int) =~= gchs);
        assert(lines.deep_view() =~~= spec_descriptor_lines(gtitle, gauthor, gchs));
        assert(spec_descriptor_inputs_ok(gtitle, gauthor, gchs));
    }
    Ok(join_lines(&lines))
}

/// `spec_line_len` is the position of the first line feed, or the length.
proof fn lemma_line_len_at(s: Seq<char>, k: int)
    requires
        0 <= k <= s.len(),
        forall|j: int| 0 <= j < k ==> s[j] != '\n',
        k == s.len() || s[k] == '\n',
    ensures
        spec_line_len(s) == k,
    decreases k,
{
    if k == 0 {
    } else {
        assert(s[0] != '\n');
        assert forall|j: int| 0 <= j < k - 1 implies s.drop_first()[j] != '\n' by {
            assert(s.drop_first()[j] == s[j + 1]);
        }
        if k < s.len() {
            assert(s.drop_first()[k - 1] == s[k]);
        }
        lemma_line_len_at(s.drop_first(), k - 1);
    }
}

/// Splits text into its lines, as the descriptor grammar reads them.
pub fn split_lines(v: &Vec<char>) -> (r: Vec<Vec<char>>)
    ensures
        r.deep_view() == spec_split_lines(v@),
{
    let mut lines: Vec<Vec<char>> = Vec::new();
    let mut p: usize = 0;
    proof {
        assert(v@.skip(0) =~= v@);
        assert(lines.deep_view() + spec_split_lines(v@) =~= spec_split_lines(v@));
    }
    while p < v.len()
        invariant
            p <= v.len(),
            spec_split_lines(v@) =~= lines.deep_view() + spec_split_lines(v@.skip(p as int)),
        decreases v.len() - p,
    {
        let mut e: usize = p;
        while e < v.len() && v[e] != '\n'
            invariant
                p <= e <= v.len(),
                forall|j: int| p <= j < e ==> v@[j] != '\n',
            decreases v.len() - e,
        {
            e = e + 1;
        }
        let line = text::subvec(v, p, e);
        proof {
            let s = v@.skip(p as int);
            assert forall|j: int| 0 <= j < e - p implies s[j] != '\n' by {
                assert(s[j] == v@[j + p]);
            }
            if e < v.len() {
                assert(s[e - p] == v@[e as int]);
            }
            lemma_line_len_at(s, e - p);
            assert(line@ =~= s.take(e - p));
        }
        let ghost od = lines.deep_view();
        lines.push(line);
        proof {
            assert(lines.deep_view() =~~= od.push(line@));
        }
        if e < v.len() {
            proof {
                let s = v@.skip(p as int);
                assert(s.skip(e - p + 1) =~= v@.skip(e + 1));
                assert(spec_split_lines(s) == seq![s.take(e - p)] + spec_split_lines(
                    v@.skip(e + 1),
                ));
                assert(od + spec_split_lines(s) =~= lines.deep_view() + spec_split_lines(
                    v@.skip(e + 1),
                ));
                assert(spec_split_lines(v@) =~= lines.deep_view() + spec_split_lines(
                    v@.skip(e + 1),
                ));
            }
            p = e + 1;
        } else {
            proof {
                let s = v@.skip(p as int);
                assert(spec_line_len(s) >= s.len());
                assert(spec_split_lines(s) == seq![s]);
                assert(s.take(e - p) =~= s);
                assert(v@.skip(v@.len() as int) =~= Seq::<char>::empty());
                assert(spec_split_lines(Seq::<char>::empty()) == Seq::<Seq<char>>::empty());
                assert(od + spec_split_lines(s) =~= lines.deep_view() + spec_split_lines(
                    v@.skip(v@.len() as int),
                ));
                assert(spec_split_lines(v@) =~= lines.deep_view() + spec_split_lines(
                    v@.skip(v@.len() as int),
                ));
            }
            p = v.len();
        }
    }
    proof {
        assert(v@.skip(v@.len() as int) =~= Seq::<char>::empty());
        assert(lines.deep_view() + Seq::<Seq<char>>::empty() =~= lines.deep_view());
        assert(lines.deep_view() =~= spec_split_lines(v@));
    }
    lines
}



/// A parsed descriptor: the global metadata and the chapter list read back
/// from descriptor text.
#[derive(Debug, PartialEq, Eq)]
pub struct ParsedDescriptor {
    pub title: Option<String>,
    pub author: Option<String>,
    pub chapters: Vec<Chapter>,
}

/// Parses chapter blocks starting at line `base`.
fn parse_chapter_blocks(lines: &Vec<Vec<char>>, base: usize) -> (r: Option<Vec<Chapter>>)
    requires
        base <= lines@.len(),
    ensures
        match spec_parse_chapter_blocks(lines.deep_view().skip(base as int)) {
            Some(chs) => r matches Some(cv) && spec_chapters_view(cv@) == chs,
            None => r is None,
        },
{
    let ghost dv = lines.deep_view();
    let mut acc: Vec<Chapter> = Vec::new();
    let mut p: usize = base;
    let start_key = text::chars_of("START=");
    let end_key = text::chars_of("END=");
    let title_key = text::chars_of("title=");
    let marker = text::chars_of("[CHAPTER]");
    let timebase = text::chars_of("TIMEBASE=1/1000");
    proof {
        assert forall|j: int| 0 <= j < lines@.len() implies #[trigger] dv[j] == lines@[j]@ by {
            assert(dv[j] =~= lines@[j]@);
        }
    }
    while p < lines.len()
        invariant
            base <= p <= lines@.len(),
            dv == lines.deep_view(),
            dv.len() == lines@.len(),
            forall|j: int| 0 <= j < lines@.len() ==> #[trigger] dv[j] == lines@[j]@,
            start_key@ == "START="@,
            end_key@ == "END="@,
            title_key@ == "title="@,
            marker@ == "[CHAPTER]"@,
            timebase@ == "TIMEBASE=1/1000"@,
            match spec_parse_chapter_blocks(dv.skip(p as int)) {
                Some(rest) => spec_parse_chapter_blocks(dv.skip(base as int)) matches Some(whole)
                    && whole == spec_chapters_view(acc@) + rest,
                None => spec_parse_chapter_blocks(dv.skip(base as int)) is None,
            },
        decreases lines.len() - p,
    {
        let ghost tail = dv.skip(p as int);
        proof {
            assert(tail.len() == dv.len() - p);
            assert forall|k: int| 0 <= k < tail.len() implies #[trigger] tail[k] == dv[p + k] by {}
        }
        if lines.len() - p < 6 {
            proof {
                assert(tail.len() < 6 && tail.len() != 0);
                assert(spec_parse_chapter_blocks(tail) is None);
            }
            return None;
        }
        let ok_shape = lines[p].len() == 0 && text::chars_eq(&lines[p + 1], &marker) && text::chars_eq(
            &lines[p + 2],
            &timebase,
        ) && text::starts_with(&lines[p + 3], &start_key) && text::starts_with(&lines[p + 4], &end_key)
            && text::starts_with(&lines[p + 5], &title_key);
        proof {
            assert(tail[0] == lines@[p as int]@);
            assert(tail[1] == lines@[p + 1]@);
            assert(tail[2] == lines@[p + 2]@);
            assert(tail[3] == lines@[p + 3]@);
            assert(tail[4] == lines@[p + 4]@);
            assert(tail[5] == lines@[p + 5]@);
            if lines@[p as int]@.len() == 0 {
                assert(lines@[p as int]@ =~= Seq::<char>::empty());
            }
        }
        if !ok_shape {
            proof {
                assert(spec_parse_chapter_blocks(tail) is None);
            }
            return None;
        }
        let st_digits = text::subvec(&lines[p + 3], start_key.len(), lines[p + 3].len());
        let en_digits = text::subvec(&lines[p + 4], end_key.len(), lines[p + 4].len());
        let ti_chars = text::subvec(&lines[p + 5], title_key.len(), lines[p + 5].len());
        proof {
            reveal_strlit("START=");
            reveal_strlit("END=");
            reveal_strlit("title=");
            assert(st_digits@ =~= tail[3].skip("START="@.len() as int));
            assert(en_digits@ =~= tail[4].skip("END="@.len() as int));
            assert(ti_chars@ =~= tail[5].skip("title="@.len() as int));
        }
        let st = match text::parse_u64(&st_digits) {
            Some(x) => x,
            None => {
                proof {
                    assert(spec_parse_chapter_blocks(tail) is None);
                }
                return None;
            },
        };
        let en = match text::parse_u64(&en_digits) {
            Some(x) => x,
            None => {
                proof {
                    assert(spec_parse_chapter_blocks(tail) is None);
                }
                return None;
            },
        };
        if en < st {
            proof {
                assert(spec_parse_chapter_blocks(tail) is None);
            }
            return None;
        }
        let ti = match unescape_value(&ti_chars) {
            Some(x) => x,
            None => {
                proof {
                    assert(spec_parse_chapter_blocks(tail) is None);
                }
                return None;
            },
        };
        let title = text::string_from_chars(&ti);
        acc.push(Chapter { title, start_ms: st, duration_ms: en - st });
        proof {
            assert(tail.skip(6) =~= dv.skip(p + 6));
            assert(spec_chapters_view(acc@) =~= spec_chapters_view(acc@.drop_last()).push(
                (st, (en - st) as u64, ti@),
            ));
            let stv = text::spec_parse_u64(tail[3].skip("START="@.len() as int));
            let env = text::spec_parse_u64(tail[4].skip("END="@.len() as int));
            let tiv = spec_unescape(tail[5].skip("title="@.len() as int));
            assert(stv == Some(st) && env == Some(en) && tiv == Some(ti@));
            match spec_parse_chapter_blocks(dv.skip(p + 6)) {
                Some(rest2) => {
                    assert(spec_parse_chapter_blocks(tail) == Some(
                        seq![(st, (en - st) as u64, ti@)] + rest2,
                    ));
                    assert(spec_chapters_view(acc@.drop_last()) + (seq![(st, (en - st) as u64, ti@)]
                        + rest2) =~= spec_chapters_view(acc@) + rest2);
                },
                None => {
                    assert(spec_parse_chapter_blocks(tail) is None);
                },
            }
        }
        p = p + 6;
    }
    proof {
        assert(dv.skip(dv.len() as int) =~= Seq::<Seq<char>>::empty());
        assert(spec_parse_chapter_blocks(Seq::<Seq<char>>::empty()) == Some(
            Seq::<(u64, u64, Seq<char>)>::empty(),
        ));
        assert(spec_chapters_view(acc@) + Seq::<(u64, u64, Seq<char>)>::empty()
            =~= spec_chapters_view(acc@));
    }
    Some(acc)
}

/// Parses descriptor text back into metadata and chapters; `None` for text
/// outside the grammar.
pub fn parse_descriptor(s: &str) -> (r: Option<ParsedDescriptor>)
    ensures
        match spec_parse_descriptor(s@) {
            Some(d) => r matches Some(p) && spec_opt_view(p.title) == d.0 && spec_opt_view(
                p.author,
            ) == d.1 && spec_chapters_view(p.chapters@) == d.2,
            None => r is None,
        },
{
    let chars = text::chars_of(s);
    let lines = split_lines(&chars);
    let ghost dv = lines.deep_view();
    proof {
        assert forall|j: int| 0 <= j < lines@.len() implies #[trigger] dv[j] == lines@[j]@ by {
            assert(dv[j] =~= lines@[j]@);
        }
    }
    let header = text::chars_of(";FFMETADATA1");
    let genre = text::chars_of("genre=Audiobook");
    let title_key = text::chars_of("title=");
    let artist_key = text::chars_of("artist=");
    if lines.len() == 0 {
        return None;
    }
    if !text::chars_eq(&lines[0], &header) {
        proof {
            assert(dv[0] == lines@[0]@);
        }
        return None;
    }
    proof {
        assert(dv[0] == ";FFMETADATA1"@);
    }
    let mut idx: usize = 1;
    let ghost r1 = dv.drop_first();
    proof {
        assert(r1.len() == dv.len() - 1);
        assert forall|k: int| 0 <= k < r1.len() implies #[trigger] r1[k] == dv[k + 1] by {}
    }
    let ghost has_title = r1.len() > 0 && text::spec_starts_with(r1[0], "title="@);
    let mut title: Option<String> = None;
    if idx < lines.len() && text::starts_with(&lines[idx], &title_key) {
        proof {
            assert(r1[0] == lines@[1]@);
            assert(has_title);
        }
        let tv = text::subvec(&lines[idx], title_key.len(), lines[idx].len());
        proof {
            reveal_strlit("title=");
            assert(tv@ =~= r1[0].skip("title="@.len() as int));
        }
        match unescape_value(&tv) {
            Some(u) => {
                title = Some(text::string_from_chars(&u));
            },
            None => {
                return None;
            },
        }
        idx = idx + 1;
    } else {
        proof {
            if r1.len() > 0 {
                assert(r1[0] == lines@[1]@);
            }
            assert(!has_title);
        }
    }
    let ghost r2 = if has_title {
        r1.drop_first()
    } else {
        r1
    };
    proof {
        assert(r2 =~= dv.skip(idx as int));
        assert forall|k: int| 0 <= k < r2.len() implies #[trigger] r2[k] == dv[k + idx] by {}
    }
    let ghost has_author = r2.len() > 0 && text::spec_starts_with(r2[0], "artist="@);
    let mut author: Option<String> = None;
    if idx < lines.len() && text::starts_with(&lines[idx], &artist_key) {
        proof {
            assert(r2[0] == lines@[idx as int]@);
            assert(has_author);
        }
        let av = text::subvec(&lines[idx], artist_key.len(), lines[idx].len());
        proof {
            reveal_strlit("artist=");
            assert(av@ =~= r2[0].skip("artist="@.len() as int));
        }
        match unescape_value(&av) {
            Some(u) => {
                author = Some(text::string_from_chars(&u));
            },
            None => {
                return None;
            },
        }
        idx = idx + 1;
    } else {
        proof {
            if r2.len() > 0 {
                assert(r2[0] == lines@[idx as int]@);
            }
            assert(!has_author);
        }
    }
    let ghost r3 = if has_author {
        r2.drop_first()
    } else {
        r2
    };
    proof {
        assert(r3 =~= dv.skip(idx as int));
        assert forall|k: int| 0 <= k < r3.len() implies #[trigger] r3[k] == dv[k + idx] by {}
    }
    if idx >= lines.len() {
        return None;
    }
    if !text::chars_eq(&lines[idx], &genre) {
        proof {
            assert(r3[0] == lines@[idx as int]@);
        }
        return None;
    }
    proof {
        assert(r3[0] == "genre=Audiobook"@);
        assert(r3.drop_first() =~= dv.skip(idx + 1));
    }
    let chapters = match parse_chapter_blocks(&lines, idx + 1) {
        Some(c) => c,
        None => {
            return None;
        },
    };
    Some(ParsedDescriptor { title, author, chapters })
}

/// Every line a chapter block contributes stays on one line.
proof fn lemma_chapters_lines_line_free(chs: Seq<(u64, u64, Seq<char>)>)
    requires
        forall|i: int| 0 <= i < chs.len() ==> spec_value_ok((#[trigger] chs[i]).2),
    ensures
        forall|i: int|
            0 <= i < spec_chapters_lines(chs).len() ==> spec_line_free(
                #[trigger] spec_chapters_lines(chs)[i],
            ),
    decreases chs.len(),
{
    reveal_strlit("[CHAPTER]");
    reveal_strlit("TIMEBASE=1/1000");
    reveal_strlit("START=");
    reveal_strlit("END=");
    reveal_strlit("title=");
    if chs.len() > 0 {
        assert forall|i: int| 0 <= i < chs.drop_first().len() implies spec_value_ok(
            (#[trigger] chs.drop_first()[i]).2,
        ) by {
            assert(chs.drop_first()[i] == chs[i + 1]);
        }
        lemma_chapters_lines_line_free(chs.drop_first());
        let b = spec_chapter_lines(chs[0]);
        assert(spec_line_free(b[0]));
        assert(spec_line_free(b[1]));
        assert(spec_line_free(b[2]));
        assert(spec_line_free(b[3])) by {
            text::lemma_u64_digits_all_digits(chs[0].0 as nat);
            lemma_digits_value_chars(text::spec_u64_digits(chs[0].0 as nat));
            let l = b[3];
            assert forall|k: int| 0 <= k < l.len() implies #[trigger] l[k] != '\n' by {
                if k < "START="@.len() {
                    assert(l[k] == "START="@[k]);
                } else {
                    assert(l[k] == text::spec_u64_digits(chs[0].0 as nat)[k - "START="@.len()]);
                }
            }
        }
        assert(spec_line_free(b[4])) by {
            text::lemma_u64_digits_all_digits((chs[0].0 + chs[0].1) as nat);
            lemma_digits_value_chars(text::spec_u64_digits((chs[0].0 + chs[0].1) as nat));
            let l = b[4];
            assert forall|k: int| 0 <= k < l.len() implies #[trigger] l[k] != '\n' by {
                if k < "END="@.len() {
                    assert(l[k] == "END="@[k]);
                } else {
                    assert(l[k] == text::spec_u64_digits((chs[0].0 + chs[0].1) as nat)[k
                        - "END="@.len()]);
                }
            }
        }
        assert(spec_line_free(b[5])) by {
            lemma_escape_line_free(chs[0].2);
            let l = b[5];
            assert forall|k: int| 0 <= k < l.len() implies #[trigger] l[k] != '\n' by {
                if k < "title="@.len() {
                    assert(l[k] == "title="@[k]);
                } else {
                    assert(l[k] == spec_escape(chs[0].2)[k - "title="@.len()]);
                }
            }
        }
        assert forall|i: int| 0 <= i < spec_chapters_lines(chs).len() implies spec_line_free(
            #[trigger] spec_chapters_lines(chs)[i],
        ) by {
            if i < 6 {
                assert(spec_chapters_lines(chs)[i] == b[i]);
            } else {
                assert(spec_chapters_lines(chs)[i] == spec_chapters_lines(chs.drop_first())[i - 6]);
            }
        }
    }
}

/// Every line of a rendered descriptor stays on one line.
proof fn lemma_descriptor_lines_line_free(
    title: Option<Seq<char>>,
    author: Option<Seq<char>>,
    chs: Seq<(u64, u64, Seq<char>)>,
)
    requires
        spec_descriptor_inputs_ok(title, author, chs),
    ensures
        forall|i: int|
            0 <= i < spec_descriptor_lines(title, author, chs).len() ==> spec_line_free(
                #[trigger] spec_descriptor_lines(title, author, chs)[i],
            ),
{
    reveal_strlit(";FFMETADATA1");
    reveal_strlit("genre=Audiobook");
    reveal_strlit("title=");
    reveal_strlit("artist=");
    lemma_chapters_lines_line_free(chs);
    let ls = spec_descriptor_lines(title, author, chs);
    let meta = spec_meta_lines(title, author);
    assert(spec_line_free(";FFMETADATA1"@));
    assert(spec_line_free("genre=Audiobook"@));
    assert forall|i: int| 0 <= i < meta.len() implies spec_line_free(#[trigger] meta[i]) by {
        if title is Some {
            let t = title->0;
            lemma_escape_line_free(t);
            let l = "title="@ + spec_escape(t);
            assert(spec_line_free(l)) by {
                assert forall|k: int| 0 <= k < l.len() implies #[trigger] l[k] != '\n' by {
                    if k < "title="@.len() {
                        assert(l[k] == "title="@[k]);
                    } else {
                        assert(l[k] == spec_escape(t)[k - "title="@.len()]);
                    }
                }
            }
        }
        if author is Some {
            let a = author->0;
            lemma_escape_line_free(a);
            let l = "artist="@ + spec_escape(a);
            assert(spec_line_free(l)) by {
                assert forall|k: int| 0 <= k < l.len() implies #[trigger] l[k] != '\n' by {
                    if k < "artist="@.len() {
                        assert(l[k] == "artist="@[k]);
                    } else {
                        assert(l[k] == spec_escape(a)[k - "artist="@.len()]);
                    }
                }
            }
        }
    }
    assert forall|i: int| 0 <= i < ls.len() implies spec_line_free(#[trigger] ls[i]) by {
        if i == 0 {
            assert(ls[i] == ";FFMETADATA1"@);
        } else if i - 1 < meta.len() {
            assert(ls[i] == meta[i - 1]);
        } else if i - 1 == meta.len() {
            assert(ls[i] == "genre=Audiobook"@);
        } else {
            assert(ls[i] == spec_chapters_lines(chs)[i - 2 - meta.len()]);
        }
    }
}

/// Parsing the blocks rendered from a chapter list gives the list back.
proof fn lemma_parse_chapter_blocks_round(chs: Seq<(u64, u64, Seq<char>)>)
    requires
        forall|i: int| 0 <= i < chs.len() ==> (#[trigger] chs[i]).0 + chs[i].1 <= u64::MAX,
    ensures
        spec_parse_chapter_blocks(spec_chapters_lines(chs)) == Some(chs),
    decreases chs.len(),
{
    reveal_strlit("START=");
    reveal_strlit("END=");
    reveal_strlit("title=");
    if chs.len() == 0 {
    } else {
        assert forall|i: int| 0 <= i < chs.drop_first().len() implies (#[trigger] chs.drop_first()[i]).0
            + chs.drop_first()[i].1 <= u64::MAX by {
            assert(chs.drop_first()[i] == chs[i + 1]);
        }
        lemma_parse_chapter_blocks_round(chs.drop_first());
        let b = spec_chapter_lines(chs[0]);
        let ls = spec_chapters_lines(chs);
        let rest = spec_chapters_lines(chs.drop_first());
        assert(ls =~= b + rest);
        assert(ls.len() >= 6);
        assert(ls[0] == b[0]);
        assert(ls[1] == b[1]);
        assert(ls[2] == b[2]);
        assert(ls[3] == b[3]);
        assert(ls[4] == b[4]);
        assert(ls[5] == b[5]);
        let sd = text::spec_u64_digits(chs[0].0 as nat);
        let ed = text::spec_u64_digits((chs[0].0 + chs[0].1) as nat);
        assert(text::spec_starts_with(ls[3], "START="@)) by {
            assert(ls[3].take("START="@.len() as int) =~= "START="@);
        }
        assert(text::spec_starts_with(ls[4], "END="@)) by {
            assert(ls[4].take("END="@.len() as int) =~= "END="@);
        }
        assert(text::spec_starts_with(ls[5], "title="@)) by {
            assert(ls[5].take("title="@.len() as int) =~= "title="@);
        }
        assert(ls[3].skip("START="@.len() as int) =~= sd);
        assert(ls[4].skip("END="@.len() as int) =~= ed);
        assert(ls[5].skip("title="@.len() as int) =~= spec_escape(chs[0].2));
        text::lemma_u64_numeral_round_trip(chs[0].0);
        let endv: u64 = (chs[0].0 + chs[0].1) as u64;
        text::lemma_u64_numeral_round_trip(endv);
        lemma_unescape_escape(chs[0].2);
        assert(ls.skip(6) =~= rest);
        let st = text::spec_parse_u64(ls[3].skip("START="@.len() as int));
        let en = text::spec_parse_u64(ls[4].skip("END="@.len() as int));
        let ti = spec_unescape(ls[5].skip("title="@.len() as int));
        assert(st == Some(chs[0].0));
        assert(en == Some(endv));
        assert(ti == Some(chs[0].2));
        assert((st->0, (en->0 - st->0) as u64, ti->0) == chs[0]);
        assert(seq![chs[0]] + chs.drop_first() =~= chs);
    }
}

/// Serialization is invertible: parsing a rendered descriptor yields
/// exactly the global metadata and the (start, duration, title) chapter
/// tuples it was rendered from. The inputs only need what rendering itself
/// needs: single-line values and end offsets that fit the integer range.
pub proof fn lemma_descriptor_round_trip(
    title: Option<Seq<char>>,
    author: Option<Seq<char>>,
    chs: Seq<(u64, u64, Seq<char>)>,
)
    requires
        spec_descriptor_inputs_ok(title, author, chs),
        forall|i: int| 0 <= i < chs.len() ==> (#[trigger] chs[i]).0 + chs[i].1 <= u64::MAX,
    ensures
        spec_parse_descriptor(spec_descriptor(title, author, chs)) == Some((title, author, chs)),
{
    reveal_strlit(";FFMETADATA1");
    reveal_strlit("genre=Audiobook");
    reveal_strlit("title=");
    reveal_strlit("artist=");
    lemma_descriptor_lines_line_free(title, author, chs);
    lemma_split_join(spec_descriptor_lines(title, author, chs));
    let ls = spec_descriptor_lines(title, author, chs);
    let meta = spec_meta_lines(title, author);
    let chlines = spec_chapters_lines(chs);
    assert(ls[0] == ";FFMETADATA1"@);
    let r1 = ls.drop_first();
    assert(r1 =~= meta + seq!["genre=Audiobook"@] + chlines);
    assert(r1.len() > 0);
    if title is Some {
        let t = title->0;
        assert(meta[0] == "title="@ + spec_escape(t));
        assert(r1[0] == "title="@ + spec_escape(t));
        assert(text::spec_starts_with(r1[0], "title="@)) by {
            assert(r1[0].take("title="@.len() as int) =~= "title="@);
        }
        assert(r1[0].skip("title="@.len() as int) =~= spec_escape(t));
        lemma_unescape_escape(t);
    } else {
        if author is Some {
            let a = author->0;
            assert(r1[0] == "artist="@ + spec_escape(a));
            assert(r1[0][0] == 'a');
        } else {
            assert(r1[0] == "genre=Audiobook"@);
            assert(r1[0][0] == 'g');
        }
        assert(!text::spec_starts_with(r1[0], "title="@)) by {
            if text::spec_starts_with(r1[0], "title="@) {
                assert(r1[0].take("title="@.len() as int)[0] == r1[0][0]);
                assert("title="@[0] == 't');
            }
        }
    }
    let has_title = r1.len() > 0 && text::spec_starts_with(r1[0], "title="@);
    assert(has_title == (title is Some));
    let r2 = if has_title {
        r1.drop_first()
    } else {
        r1
    };
    let ameta = spec_meta_lines(None, author);
    assert(r2 =~= ameta + seq!["genre=Audiobook"@] + chlines);
    assert(r2.len() > 0);
    if author is Some {
        let a = author->0;
        assert(ameta[0] == "artist="@ + spec_escape(a));
        assert(r2[0] == "artist="@ + spec_escape(a));
        assert(text::spec_starts_with(r2[0], "artist="@)) by {
            assert(r2[0].take("artist="@.len() as int) =~= "artist="@);
        }
        assert(r2[0].skip("artist="@.len() as int) =~= spec_escape(a));
        lemma_unescape_escape(a);
    } else {
        assert(r2[0] == "genre=Audiobook"@);
        assert(r2[0][0] == 'g');
        assert(!text::spec_starts_with(r2[0], "artist="@)) by {
            if text::spec_starts_with(r2[0], "artist="@) {
                assert(r2[0].take("artist="@.len() as int)[0] == r2[0][0]);
                assert("artist="@[0] == 'a');
            }
        }
    }
    let has_author = r2.len() > 0 && text::spec_starts_with(r2[0], "artist="@);
    assert(has_author == (author is Some));
    let r3 = if has_author {
        r2.drop_first()
    } else {
        r2
    };
    assert(r3 =~= seq!["genre=Audiobook"@] + chlines);
    assert(r3[0] == "genre=Audiobook"@);
    assert(r3.drop_first() =~= chlines);
    lemma_parse_chapter_blocks_round(chs);
}

} // verus!
