use yapstack::platform::TargetOs;
use yapstack::stream::{
    audio_path_trusted, classify_request, content_type, is_allowed_audio_path, range_length,
    reply_head, requested_bytes, requested_path, ByteRange, StreamTarget,
};

fn bytes(s: &str) -> Option<Vec<u8>> {
    Some(s.as_bytes().to_vec())
}

#[test]
fn the_path_of_a_request_is_decoded() {
    assert_eq!(requested_path("/clip%20one.wav"), "clip one.wav");
    assert_eq!(requested_path("///a.wav"), "a.wav");
    assert_eq!(requested_path("/%2Ftmp%2fa.wav"), "/tmp/a.wav");
    assert_eq!(requested_path("/100%.wav"), "100%.wav");
    assert_eq!(requested_path("/%4"), "%4");
    assert_eq!(requested_path("/%G1%31"), "%G11");
    assert_eq!(requested_path("/%C3%A4.mp3"), "ä.mp3");
    assert_eq!(requested_path("/%ff.mp3"), "\u{fffd}.mp3");
}

#[test]
fn only_recordings_in_known_places_are_served() {
    let c = classify_request;
    assert_eq!(c("notes.txt", false, false), StreamTarget::Refused(400));
    assert_eq!(c("a.WAV", false, false), StreamTarget::Refused(400));
    assert_eq!(c("/x/a.wav", true, false), StreamTarget::Refused(403));
    assert_eq!(c("/x/a.wav", true, true), StreamTarget::Absolute);
    assert_eq!(c("a.wav", false, false), StreamTarget::InAudioDir);
    assert_eq!(c("x/a.wav", false, false), StreamTarget::Refused(400));
    assert_eq!(c("x\\a.wav", false, false), StreamTarget::Refused(400));
    assert_eq!(c("..a.mp3", false, false), StreamTarget::Refused(400));
}

#[test]
fn allowed_audio_path_rejects_outside_base() {
    assert!(!is_allowed_audio_path(
        &bytes("/tmp/dir/audio"),
        &bytes("/tmp/dir/outside.wav"),
        TargetOs::Linux
    ));
    assert!(!is_allowed_audio_path(
        &bytes("/tmp/dir/audio"),
        &bytes("/tmp/dir/audio2/clip.wav"),
        TargetOs::Linux
    ));
}

#[test]
fn allowed_audio_path_accepts_inside_base() {
    assert!(is_allowed_audio_path(
        &bytes("/tmp/dir/audio"),
        &bytes("/tmp/dir/audio/clip.wav"),
        TargetOs::Linux
    ));
    assert!(is_allowed_audio_path(
        &bytes("/"),
        &bytes("/clip.wav"),
        TargetOs::Linux
    ));
    assert!(is_allowed_audio_path(
        &bytes("\\\\?\\C:\\audio"),
        &bytes("\\\\?\\C:\\audio\\clip.wav"),
        TargetOs::Windows
    ));
}

#[test]
fn allowed_audio_path_fails_closed_when_base_missing() {
    assert!(!is_allowed_audio_path(
        &None,
        &bytes("/tmp/dir/outside.wav"),
        TargetOs::Linux
    ));
    assert!(!is_allowed_audio_path(
        &bytes("/tmp/dir"),
        &None,
        TargetOs::Linux
    ));
}

#[test]
fn any_trusted_directory_will_do() {
    let dirs = vec![None, bytes("/a"), bytes("/b")];
    assert!(audio_path_trusted(&dirs, &bytes("/b/x.wav"), TargetOs::Macos));
    assert!(!audio_path_trusted(&dirs, &bytes("/c/x.wav"), TargetOs::Macos));
    assert!(!audio_path_trusted(&dirs, &None, TargetOs::Macos));
}

#[test]
fn the_content_type_follows_the_extension() {
    assert_eq!(content_type("a.mp3", TargetOs::Linux), "audio/mpeg");
    assert_eq!(content_type("/x.mp3/a.wav", TargetOs::Linux), "audio/wav");
    assert_eq!(content_type(".mp3", TargetOs::Linux), "audio/wav");
}

#[test]
fn ranges_are_moved_into_the_file() {
    let part = |start, end| ByteRange::Part { start, end };
    let r = |h: &str| requested_bytes(Some(h), 100);
    assert_eq!(requested_bytes(None, 0), ByteRange::Whole);
    assert_eq!(r("items=0-1"), ByteRange::Whole);
    assert_eq!(r("bytes=0-"), part(0, 99));
    assert_eq!(r("bytes=10-19"), part(10, 19));
    assert_eq!(r("bytes=10"), part(10, 99));
    assert_eq!(r("bytes=10-500"), part(10, 99));
    assert_eq!(r("bytes=500-"), part(99, 99));
    assert_eq!(r("bytes=-5"), part(0, 5));
    assert_eq!(r("bytes=x-y"), part(0, 99));
    assert_eq!(r("bytes=20-10"), ByteRange::Unsatisfiable);
    assert_eq!(r("bytes=1-2-3"), part(1, 99));
}

#[test]
fn replies_say_what_follows() {
    let head = reply_head(ByteRange::Whole, 100);
    assert_eq!((head.status, head.content_length), (200, 100));
    assert!(head.content_range.is_none());
    let head = reply_head(ByteRange::Part { start: 10, end: 19 }, 100);
    assert_eq!((head.status, head.content_length), (206, 10));
    assert_eq!(head.content_range.as_deref(), Some("bytes 10-19/100"));
    assert_eq!(reply_head(ByteRange::Unsatisfiable, 100).status, 416);
}

#[test]
fn read_file_range_rejects_invalid_bounds() {
    assert_eq!(range_length(3, 1), None);
    assert_eq!(range_length(0, u64::MAX), None);
    assert_eq!(range_length(1, 3), Some(3));
}
