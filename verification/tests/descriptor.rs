use m4b_pipeline::chapters::Chapter;
use m4b_pipeline::descriptor::{
    escape_value, parse_descriptor, render_descriptor, unescape_value,
};
use m4b_pipeline::errors::ConvertError;

fn chapter(title: &str, start_ms: u64, duration_ms: u64) -> Chapter {
    Chapter { title: title.to_string(), start_ms, duration_ms }
}

#[test]
fn renders_expected_text() {
    let chs = vec![chapter("a", 0, 10_000), chapter("b", 10_000, 20_500), chapter("c", 30_500, 5_250)];
    let text = render_descriptor(
        &Some("My Book".to_string()),
        &Some("Jane".to_string()),
        &chs,
    )
    .unwrap();
    let expected = ";FFMETADATA1\n\
                    title=My Book\n\
                    artist=Jane\n\
                    genre=Audiobook\n\
                    \n\
                    [CHAPTER]\n\
                    TIMEBASE=1/1000\n\
                    START=0\n\
                    END=10000\n\
                    title=a\n\
                    \n\
                    [CHAPTER]\n\
                    TIMEBASE=1/1000\n\
                    START=10000\n\
                    END=30500\n\
                    title=b\n\
                    \n\
                    [CHAPTER]\n\
                    TIMEBASE=1/1000\n\
                    START=30500\n\
                    END=35750\n\
                    title=c\n";
    assert_eq!(text, expected);
}

#[test]
fn renders_without_optional_metadata() {
    let chs = vec![chapter("only", 0, 1_000)];
    let text = render_descriptor(&None, &None, &chs).unwrap();
    assert!(text.starts_with(";FFMETADATA1\ngenre=Audiobook\n"));
}

#[test]
fn escapes_structural_characters() {
    let chs = vec![chapter("A=B;C#D\\E", 0, 1_000)];
    let text = render_descriptor(&None, &None, &chs).unwrap();
    assert!(text.contains("title=A\\=B\\;C\\#D\\\\E\n"));
}

#[test]
fn rejects_line_breaks_in_values() {
    let chs = vec![chapter("bad\ntitle", 0, 1_000)];
    let e = render_descriptor(&None, &None, &chs).unwrap_err();
    assert_eq!(
        e,
        ConvertError::Validation("Metadata values must not contain line breaks".to_string())
    );
    let good = vec![chapter("fine", 0, 1_000)];
    assert!(render_descriptor(&Some("a\rb".to_string()), &None, &good).is_err());
}

#[test]
fn round_trips_through_the_parser() {
    let chs = vec![
        chapter("We=ird; #Ti\\tle", 0, 10_000),
        chapter("plain", 10_000, 20_500),
    ];
    let text = render_descriptor(
        &Some("Book = Title; #1".to_string()),
        &Some("Au\\thor".to_string()),
        &chs,
    )
    .unwrap();
    let parsed = parse_descriptor(&text).expect("generated descriptor must parse");
    assert_eq!(parsed.title.as_deref(), Some("Book = Title; #1"));
    assert_eq!(parsed.author.as_deref(), Some("Au\\thor"));
    assert_eq!(parsed.chapters, chs);
}

#[test]
fn round_trips_without_metadata() {
    let chs = vec![chapter("x", 5, 7)];
    let text = render_descriptor(&None, &None, &chs).unwrap();
    let parsed = parse_descriptor(&text).unwrap();
    assert_eq!(parsed.title, None);
    assert_eq!(parsed.author, None);
    assert_eq!(parsed.chapters, chs);
}

#[test]
fn parser_rejects_text_outside_the_grammar() {
    assert!(parse_descriptor("nonsense").is_none());
    assert!(parse_descriptor("").is_none());
    assert!(parse_descriptor(";FFMETADATA1\n").is_none());
    assert!(parse_descriptor(";FFMETADATA1\ngenre=Audiobook\n\n[CHAPTER]\n").is_none());
    // END before START
    assert!(parse_descriptor(
        ";FFMETADATA1\ngenre=Audiobook\n\n[CHAPTER]\nTIMEBASE=1/1000\nSTART=10\nEND=5\ntitle=x\n"
    )
    .is_none());
}

#[test]
fn escape_and_unescape_are_inverse() {
    let value: Vec<char> = "a=b;c#d\\e plain".chars().collect();
    let escaped = escape_value(&value);
    let escaped_text: String = escaped.iter().collect();
    assert_eq!(escaped_text, "a\\=b\\;c\\#d\\\\e plain");
    let back = unescape_value(&escaped).unwrap();
    assert_eq!(back, value);
}

#[test]
fn unescape_rejects_dangling_backslash() {
    let bad: Vec<char> = "abc\\".chars().collect();
    assert!(unescape_value(&bad).is_none());
}
