use m4b_pipeline::descriptor::parse_descriptor;
use m4b_pipeline::errors::ConvertError;
use m4b_pipeline::pipeline::{prepare_conversion, validate_input_files};

fn strings(v: &[&str]) -> Vec<String> {
    v.iter().map(|s| s.to_string()).collect()
}

#[test]
fn empty_input_list_is_rejected_before_any_work() {
    let e = validate_input_files(&Vec::new()).unwrap_err();
    assert_eq!(e, ConvertError::Validation("No MP3 files provided".to_string()));

    let e = prepare_conversion(&Vec::new(), &Vec::new(), &None, &None, "out").unwrap_err();
    assert_eq!(e, ConvertError::Validation("No MP3 files provided".to_string()));
}

#[test]
fn non_empty_input_passes_validation() {
    assert!(validate_input_files(&strings(&["a.mp3"])).is_ok());
}

#[test]
fn prepares_a_full_plan() {
    let files = strings(&["one.mp3", "two.mp3"]);
    let durations: Vec<u64> = vec![10_000, 20_500];
    let plan = prepare_conversion(
        &files,
        &durations,
        &Some("My Book".to_string()),
        &None,
        "out",
    )
    .unwrap();
    assert_eq!(plan.output_file, "out.m4b");
    assert_eq!(plan.chapters.len(), 2);
    assert_eq!(plan.chapters[0].title, "one");
    assert_eq!(plan.chapters[0].start_ms, 0);
    assert_eq!(plan.chapters[1].title, "two");
    assert_eq!(plan.chapters[1].start_ms, 10_000);
    let expected = ";FFMETADATA1\n\
                    title=My Book\n\
                    genre=Audiobook\n\
                    \n\
                    [CHAPTER]\n\
                    TIMEBASE=1/1000\n\
                    START=0\n\
                    END=10000\n\
                    title=one\n\
                    \n\
                    [CHAPTER]\n\
                    TIMEBASE=1/1000\n\
                    START=10000\n\
                    END=30500\n\
                    title=two\n";
    assert_eq!(plan.descriptor, expected);

    let parsed = parse_descriptor(&plan.descriptor).expect("a plan's descriptor must parse");
    assert_eq!(parsed.title.as_deref(), Some("My Book"));
    assert_eq!(parsed.author, None);
    assert_eq!(parsed.chapters, plan.chapters);
}

#[test]
fn line_breaks_in_metadata_abort_preparation() {
    let files = strings(&["one.mp3"]);
    let durations: Vec<u64> = vec![1_000];
    let e = prepare_conversion(
        &files,
        &durations,
        &Some("bad\ntitle".to_string()),
        &None,
        "out",
    )
    .unwrap_err();
    assert_eq!(
        e,
        ConvertError::Validation("Metadata values must not contain line breaks".to_string())
    );
}
