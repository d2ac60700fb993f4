use m4b_pipeline::chapters::{plan_chapters, chapter_title, Chapter};

fn strings(v: &[&str]) -> Vec<String> {
    v.iter().map(|s| s.to_string()).collect()
}

#[test]
fn three_track_scenario() {
    let paths = strings(&["a.mp3", "b.mp3", "c.mp3"]);
    let durations: Vec<u64> = vec![10_000, 20_500, 5_250];
    let chs = plan_chapters(&paths, &durations);
    assert_eq!(chs.len(), 3);
    assert_eq!(chs[0].start_ms, 0);
    assert_eq!(chs[0].end_ms(), 10_000);
    assert_eq!(chs[1].start_ms, 10_000);
    assert_eq!(chs[1].end_ms(), 30_500);
    assert_eq!(chs[2].start_ms, 30_500);
    assert_eq!(chs[2].end_ms(), 35_750);
}

#[test]
fn start_times_are_prefix_sums() {
    let paths = strings(&["w.mp3", "x.mp3", "y.mp3", "z.mp3"]);
    let durations: Vec<u64> = vec![1, 2, 3, 4];
    let chs = plan_chapters(&paths, &durations);
    let mut acc: u64 = 0;
    for (i, ch) in chs.iter().enumerate() {
        assert_eq!(ch.start_ms, acc);
        assert_eq!(ch.duration_ms, durations[i]);
        acc += durations[i];
    }
}

#[test]
fn titles_come_from_basenames() {
    let paths = strings(&["/home/user/Book Part 1.mp3", "disc/02 - Intro.mp3", "plain"]);
    let durations: Vec<u64> = vec![5, 5, 5];
    let chs = plan_chapters(&paths, &durations);
    assert_eq!(chs[0].title, "Book Part 1");
    assert_eq!(chs[1].title, "02 - Intro");
    assert_eq!(chs[2].title, "plain");
}

#[test]
fn empty_display_name_falls_back_to_numbered_title() {
    let paths = strings(&["dir/", ""]);
    let durations: Vec<u64> = vec![7, 7];
    let chs = plan_chapters(&paths, &durations);
    assert_eq!(chs[0].title, "Chapter 1");
    assert_eq!(chs[1].title, "Chapter 2");
}

#[test]
fn chapter_title_strips_only_trailing_extension() {
    assert_eq!(chapter_title("a.mp3.mp3", 1), "a.mp3");
    assert_eq!(chapter_title("x/y/z.mp3", 9), "z");
    assert_eq!(chapter_title("noext", 1), "noext");
    assert_eq!(chapter_title(".mp3", 3), "Chapter 3");
}

#[test]
fn permuting_inputs_permutes_chapters() {
    let paths = strings(&["one.mp3", "two.mp3", "three.mp3"]);
    let durations: Vec<u64> = vec![100, 200, 300];
    let orig = plan_chapters(&paths, &durations);

    let paths_p = strings(&["three.mp3", "one.mp3", "two.mp3"]);
    let durations_p: Vec<u64> = vec![300, 100, 200];
    let perm = plan_chapters(&paths_p, &durations_p);

    // titles and durations follow their tracks; start times are recomputed
    let expect = |c: &Chapter, title: &str, dur: u64, start: u64| {
        assert_eq!(c.title, title);
        assert_eq!(c.duration_ms, dur);
        assert_eq!(c.start_ms, start);
    };
    expect(&orig[0], "one", 100, 0);
    expect(&perm[0], "three", 300, 0);
    expect(&perm[1], "one", 100, 300);
    expect(&perm[2], "two", 200, 400);
}
