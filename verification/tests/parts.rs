use yapstack::labels::AudioExportFormatDto;
use yapstack::parts::{
    add_directory, body_bytes, list_audio_part_directories, mint_part_id, mp3_first_frame,
    parse_part_filename, PartKey, Reconciliation,
};
use yapstack::platform::TargetOs;
use yapstack::start::part_file_name;

#[test]
fn parse_part_filename_accepts_session_index_format() {
    let (sid, idx, fmt) = parse_part_filename("abc-def-123.0.wav").unwrap();
    assert_eq!(sid, "abc-def-123");
    assert_eq!(idx, 0);
    assert_eq!(fmt, "wav");

    let (sid, idx, fmt) = parse_part_filename("uuid.7.mp3").unwrap();
    assert_eq!(sid, "uuid");
    assert_eq!(idx, 7);
    assert_eq!(fmt, "mp3");
}

#[test]
fn parse_part_filename_rejects_legacy_dictation_shape() {
    assert!(parse_part_filename("abc.wav").is_none());
    assert!(parse_part_filename("notaudio.txt").is_none());
    assert!(parse_part_filename("noext").is_none());
}

#[test]
fn odd_part_names() {
    assert_eq!(
        parse_part_filename("a.3.MP3"),
        Some(("a".to_string(), 3, "mp3"))
    );
    assert_eq!(
        parse_part_filename("a.+3.wav"),
        Some(("a".to_string(), 3, "wav"))
    );
    assert_eq!(parse_part_filename("a.b.3.wav"), None);
    assert_eq!(parse_part_filename(".3.wav"), None);
    assert_eq!(parse_part_filename("a.4294967296.wav"), None);
    assert_eq!(
        parse_part_filename("a.4294967295.wav"),
        Some(("a".to_string(), u32::MAX, "wav"))
    );
    assert_eq!(parse_part_filename("a..wav"), None);
}

#[test]
fn a_part_name_reads_back() {
    let name = part_file_name("sess-x", 12, AudioExportFormatDto::Mp3);
    assert_eq!(name, "sess-x.12.mp3");
    assert_eq!(
        parse_part_filename(&name),
        Some(("sess-x".to_string(), 12, "mp3"))
    );
}

#[test]
fn files_without_a_row_are_recorded_once() {
    let mut walk = Reconciliation {
        parts: vec![PartKey {
            session_id: "sess-x".to_string(),
            part_index: 1,
        }],
        sessions: vec!["sess-x".to_string()],
        recovered: 0,
    };
    assert_eq!(walk.consider("sess-x.1.wav"), None);
    assert_eq!(walk.consider("ghost.0.wav"), None);
    assert_eq!(walk.consider("sess-x.wav"), None);
    let (sid, idx, fmt) = walk.consider("sess-x.0.wav").unwrap();
    assert_eq!(fmt, "wav");
    walk.record(sid, idx);
    assert_eq!(walk.recovered, 1);
    assert_eq!(walk.consider("sess-x.0.wav"), None);
    assert_eq!(walk.consider("sess-x.0.mp3"), None);
}

#[test]
fn directories_are_listed_once() {
    let os = TargetOs::Linux;
    let dirs = list_audio_part_directories(
        "/app/audio".to_string(),
        vec!["/a".to_string(), "/app/audio".to_string(), "/a".to_string()],
        vec!["/b".to_string(), "/a".to_string()],
        os,
    );
    assert_eq!(dirs, vec!["/app/audio", "/a", "/b"]);
    let mut dirs = dirs;
    add_directory(&mut dirs, "/b".to_string(), os);
    add_directory(&mut dirs, "/c".to_string(), os);
    assert_eq!(dirs.len(), 4);
}

#[test]
fn a_directory_is_one_however_it_is_written() {
    let dirs = list_audio_part_directories(
        "/app/audio/".to_string(),
        vec!["/x".to_string(), "/app//audio".to_string()],
        vec!["/x/".to_string(), "/./x/.".to_string(), "x".to_string()],
        TargetOs::Linux,
    );
    assert_eq!(dirs, vec!["/app/audio/", "/x", "x"]);
}

#[test]
fn part_ids_are_random_identifiers_of_version_four() {
    assert_eq!(
        mint_part_id("0123456789abcdef0123456789abcdef").unwrap(),
        "0123456789ab4def8123456789abcdef"
    );
    assert_eq!(
        &mint_part_id("ffffffffffffffffffffffffffffffff").unwrap()[16..17],
        "b"
    );
    assert_eq!(
        mint_part_id("abc"),
        Err("randomblob(16) hex must be 32 chars")
    );
    assert_eq!(
        mint_part_id(&"ä".repeat(16)),
        Err("part id not ascii hex")
    );
}

#[test]
fn the_first_frame_of_a_compressed_part() {
    // Version 1, layer 3, 128 kbit/s, 44.1 kHz.
    assert_eq!(
        mp3_first_frame(&[0xff, 0xfb, 0x90, 0x00]),
        Some((128_000, 44_100, 0))
    );
    // Version 2, 64 kbit/s, 24 kHz, behind a tag of five bytes.
    let mut data = vec![b'I', b'D', b'3', 4, 0, 0, 0, 0, 0, 5];
    data.extend([0u8; 5]);
    data.extend([0xff, 0xf3, 0x84, 0x00]);
    assert_eq!(mp3_first_frame(&data), Some((64_000, 24_000, 15)));
    // Version 2.5.
    assert_eq!(
        mp3_first_frame(&[0xff, 0xe3, 0x18, 0x00]),
        Some((8_000, 8_000, 0))
    );
    // The lengths of a tag are put together in groups of seven bits.
    let mut long = vec![b'I', b'D', b'3', 4, 0, 0, 0, 0, 1, 0];
    long.extend(vec![0u8; 128]);
    long.extend([0xff, 0xfb, 0x90, 0x00]);
    assert_eq!(mp3_first_frame(&long), Some((128_000, 44_100, 138)));

    assert_eq!(mp3_first_frame(&[0xff, 0xfb, 0x90]), None);
    assert_eq!(mp3_first_frame(&[0x00, 0xfb, 0x90, 0x00]), None);
    assert_eq!(mp3_first_frame(&[0xff, 0x1b, 0x90, 0x00]), None);
    assert_eq!(mp3_first_frame(&[0xff, 0xeb, 0x90, 0x00]), None);
    assert_eq!(mp3_first_frame(&[0xff, 0xf9, 0x90, 0x00]), None);
    assert_eq!(mp3_first_frame(&[0xff, 0xfb, 0x00, 0x00]), None);
    assert_eq!(mp3_first_frame(&[0xff, 0xfb, 0xf0, 0x00]), None);
    assert_eq!(mp3_first_frame(&[0xff, 0xfb, 0x9c, 0x00]), None);
    assert_eq!(body_bytes(1_000, 15), 985);
    assert_eq!(body_bytes(10, 15), 0);
}
