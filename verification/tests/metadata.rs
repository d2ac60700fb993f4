use m4b_pipeline::metadata::extract_metadata;

#[test]
fn reads_title_and_artist() {
    let (t, a) = extract_metadata("title=My Book\nartist=Jane Doe\n");
    assert_eq!(t.as_deref(), Some("My Book"));
    assert_eq!(a.as_deref(), Some("Jane Doe"));
}

#[test]
fn album_artist_is_a_fallback() {
    let (t, a) = extract_metadata("album_artist=Fallback\n");
    assert_eq!(t, None);
    assert_eq!(a.as_deref(), Some("Fallback"));
}

#[test]
fn artist_beats_album_artist_in_either_order() {
    let (_, a) = extract_metadata("album_artist=Fallback\nartist=Primary\n");
    assert_eq!(a.as_deref(), Some("Primary"));
    let (_, a) = extract_metadata("artist=Primary\nalbum_artist=Fallback\n");
    assert_eq!(a.as_deref(), Some("Primary"));
}

#[test]
fn absence_is_not_an_error() {
    let (t, a) = extract_metadata("");
    assert_eq!(t, None);
    assert_eq!(a, None);
    let (t, a) = extract_metadata("codec=mp3\nbitrate=64k\n");
    assert_eq!(t, None);
    assert_eq!(a, None);
}

#[test]
fn values_keep_their_inner_equals_signs() {
    let (t, _) = extract_metadata("title=A=B\n");
    assert_eq!(t.as_deref(), Some("A=B"));
}
