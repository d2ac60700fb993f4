use m4b_pipeline::args::{
    build_mux_args, extract_cover_args, normalize_output_path, probe_cover_args,
    probe_duration_args, probe_metadata_args,
};

fn strings(v: &[&str]) -> Vec<String> {
    v.iter().map(|s| s.to_string()).collect()
}

#[test]
fn output_path_gains_extension() {
    assert_eq!(normalize_output_path("book"), "book.m4b");
}

#[test]
fn output_path_with_extension_is_unchanged() {
    assert_eq!(normalize_output_path("book.m4b"), "book.m4b");
    assert_eq!(normalize_output_path("dir/b.m4b"), "dir/b.m4b");
    assert_eq!(normalize_output_path("book.mp3"), "book.mp3.m4b");
}

#[test]
fn mux_args_without_cover() {
    let files = strings(&["one.mp3", "two.mp3"]);
    let args = build_mux_args(&files, "/tmp/meta.txt", &None, "out.m4b");
    let expected = vec![
        "-y",
        "-i",
        "one.mp3",
        "-i",
        "two.mp3",
        "-i",
        "/tmp/meta.txt",
        "-filter_complex",
        "concat=n=2:v=0:a=1",
        "-map_metadata",
        "2",
        "-c:a",
        "aac",
        "-b:a",
        "64k",
        "out.m4b",
    ];
    assert_eq!(args, strings(&expected));
    assert_eq!(args.len(), 12 + 2 * files.len());
}

#[test]
fn mux_args_with_cover() {
    let files = strings(&["a.mp3", "b.mp3", "c.mp3"]);
    let args = build_mux_args(
        &files,
        "/tmp/meta.txt",
        &Some("/tmp/cover.jpg".to_string()),
        "out.m4b",
    );
    let expected = vec![
        "-y",
        "-i",
        "a.mp3",
        "-i",
        "b.mp3",
        "-i",
        "c.mp3",
        "-i",
        "/tmp/meta.txt",
        "-i",
        "/tmp/cover.jpg",
        "-filter_complex",
        "concat=n=3:v=0:a=1",
        "-map_metadata",
        "3",
        "-map",
        "4:v",
        "-c:v",
        "mjpeg",
        "-disposition:v",
        "attached_pic",
        "-c:a",
        "aac",
        "-b:a",
        "64k",
        "out.m4b",
    ];
    assert_eq!(args, strings(&expected));
    assert_eq!(args.len(), 20 + 2 * files.len());
}

#[test]
fn single_track_indices() {
    let files = strings(&["solo.mp3"]);
    let args = build_mux_args(&files, "m.txt", &None, "o");
    assert_eq!(args[6], "concat=n=1:v=0:a=1");
    assert_eq!(args[8], "1");
    assert_eq!(args[args.len() - 1], "o");
}

#[test]
fn probe_arg_vectors() {
    assert_eq!(
        probe_duration_args("f.mp3"),
        strings(&["-i", "f.mp3", "-show_entries", "format=duration", "-v", "quiet", "-of", "csv=p=0"])
    );
    assert_eq!(
        probe_metadata_args("f.mp3"),
        strings(&[
            "-i",
            "f.mp3",
            "-show_entries",
            "format_tags=title,artist,album_artist",
            "-v",
            "quiet",
            "-of",
            "csv=p=0",
        ])
    );
    assert_eq!(
        probe_cover_args("f.mp3"),
        strings(&["-i", "f.mp3", "-show_streams", "-select_streams", "v:0", "-v", "quiet", "-of", "csv=p=0"])
    );
    assert_eq!(
        extract_cover_args("f.mp3", "/tmp/c.jpg"),
        strings(&["-i", "f.mp3", "-an", "-vcodec", "mjpeg", "-vframes", "1", "-y", "/tmp/c.jpg"])
    );
}
