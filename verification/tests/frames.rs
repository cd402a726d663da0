use computeruse::frame::{
    check_size, is_complete_image, media_type, read_stable_frame, FrameIdentity, MAX_FRAME_BYTES,
};
use computeruse::frame_source::{FrameFile, FrameSearch, FrameStep};
use computeruse::path::{is_path_not_behind, is_same_path, sort_paths};
use computeruse::{Frame, FrameSequence, FrameSource};

#[test]
fn recognizes_supported_frame_types() {
    assert_eq!(media_type(b"frame.PNG"), Some("image/png"));
    assert_eq!(media_type(b"notes.txt"), None);
}

#[test]
fn rejects_incomplete_image_containers() {
    assert!(!is_complete_image(b"\x89PNG\r\n\x1a\npartial", "image/png"));
    assert!(!is_complete_image(b"\xff\xd8partial", "image/jpeg"));
    assert!(!is_complete_image(b"RIFF\x10\0\0\0WEBP", "image/webp"));
}

fn fake_png(marker: u8) -> Vec<u8> {
    let mut bytes = b"\x89PNG\r\n\x1a\n".to_vec();
    bytes.extend([marker; 4]);
    bytes.extend(b"\0\0\0\0IEND\0\0\0\0");
    bytes
}

/// A directory in memory, whose clock goes on with each write.
struct Directory {
    files: Vec<(Vec<u8>, Vec<u8>, i128)>,
    clock: i128,
}

impl Directory {
    fn new() -> Self {
        Directory { files: Vec::new(), clock: 1_000_000_000 }
    }

    fn write(&mut self, name: &str, bytes: Vec<u8>) {
        self.clock += 2_000_000;
        let path = [b"frames/", name.as_bytes()].concat();
        self.files.retain(|(existing, _, _)| *existing != path);
        self.files.push((path, bytes, self.clock));
    }

    fn identity(&self, path: &[u8]) -> FrameIdentity {
        let (_, bytes, modified) = self.file(path);
        FrameIdentity { len: bytes.len() as u64, modified: Some(*modified) }
    }

    fn file(&self, path: &[u8]) -> &(Vec<u8>, Vec<u8>, i128) {
        self.files.iter().find(|(existing, _, _)| existing == path).unwrap()
    }

    fn paths(&self) -> Vec<Vec<u8>> {
        self.files.iter().map(|(path, _, _)| path.clone()).collect()
    }

    fn list(&self) -> Vec<FrameFile> {
        self.files
            .iter()
            .map(|(path, _, _)| FrameFile { path: path.clone(), identity: self.identity(path) })
            .collect()
    }

    /// Whether a new frame is found at once.
    fn next(&self, source: &mut FrameSource) -> Result<bool, String> {
        let mut search = FrameSearch::new(0, 0);
        let mut step = search.listed(source, self.list());
        loop {
            step = match step {
                FrameStep::Read { path, identity } => {
                    assert_eq!(identity, self.identity(&path));
                    search.read(source, self.file(&path).1.clone(), self.identity(&path))
                }
                FrameStep::Clock => search.timed(0),
                FrameStep::Pause { .. } => unreachable!("there is no time to wait"),
                FrameStep::Found => return Ok(true),
                FrameStep::TimedOut => return Ok(false),
                FrameStep::Failed(message) => return Err(message),
            };
        }
    }
}

fn paths_of(source: &FrameSource) -> Vec<&str> {
    source
        .trajectory
        .iter()
        .map(|frame| std::str::from_utf8(&frame.path).unwrap())
        .collect()
}

#[test]
fn frame_source_starts_with_latest_bounded_trajectory() {
    let mut directory = Directory::new();
    for name in ["001.png", "002.png", "003.png"] {
        directory.write(name, fake_png(name.as_bytes()[0]));
    }

    let mut source = FrameSource::new(b"frames".to_vec(), true, 2).unwrap();
    assert!(directory.next(&mut source).unwrap());
    assert_eq!(paths_of(&source), ["frames/002.png", "frames/003.png"]);
    assert!(!directory.next(&mut source).unwrap());

    let changed = fake_png(b'x');
    directory.write("003.png", changed.clone());
    assert!(directory.next(&mut source).unwrap());
    assert_eq!(source.trajectory.back().unwrap().bytes, changed);
    assert_eq!(source.trajectory.len(), 2);
}

#[test]
fn frame_source_discards_frames_created_before_an_action_finishes() {
    let mut directory = Directory::new();
    directory.write("001.png", fake_png(b's'));

    let mut source = FrameSource::new(b"frames".to_vec(), true, 1).unwrap();
    source.discard_existing(directory.paths());
    directory.write("001.png", fake_png(b'x'));
    assert!(!directory.next(&mut source).unwrap());

    directory.write("002.png", fake_png(b'f'));
    assert!(directory.next(&mut source).unwrap());
    assert_eq!(source.trajectory.back().unwrap().path, b"frames/002.png");
}

#[test]
fn frame_sequence_processes_every_frame_in_filename_order() {
    let mut directory = Directory::new();
    for name in ["frame-0000000001.png", "frame-0000000000.png"] {
        directory.write(name, fake_png(name.as_bytes()[17]));
    }

    let mut source = FrameSequence::new(directory.paths(), 1).unwrap();
    for name in ["frames/frame-0000000000.png", "frames/frame-0000000001.png"] {
        let path = source.advance().unwrap();
        let identity = directory.identity(&path);
        source
            .load(&path, identity, directory.file(&path).1.clone(), identity)
            .unwrap();
        assert_eq!(source.trajectory.len(), 1);
        assert_eq!(source.trajectory.back().unwrap().path, name.as_bytes());
        assert_eq!(source.trajectory.back().unwrap().media_type, "image/png");
    }
    assert!(source.advance().is_none());
}

#[test]
fn whole_images_are_recognized() {
    assert!(is_complete_image(&fake_png(b'a'), "image/png"));
    assert!(is_complete_image(b"\xff\xd8whole\xff\xd9", "image/jpeg"));
    assert!(is_complete_image(b"RIFF\x04\0\0\0WEBP", "image/webp"));
    assert!(!is_complete_image(&fake_png(b'a'), "image/jpeg"));
    assert!(!is_complete_image(&fake_png(b'a'), "image/gif"));
    for (name, media) in [
        ("a.jpg", Some("image/jpeg")),
        ("a.JPEG", Some("image/jpeg")),
        ("dir.png/a.webp", Some("image/webp")),
        (".png", None),
        ("png", None),
        ("a.png/b", None),
    ] {
        assert_eq!(media_type(name.as_bytes()), media, "{name}");
    }
}

#[test]
fn data_urls_hold_the_bytes_in_base64() {
    for (bytes, text) in [
        (&b""[..], ""),
        (b"f", "Zg=="),
        (b"fo", "Zm8="),
        (b"foo", "Zm9v"),
        (b"foob", "Zm9vYg=="),
        (b"fooba", "Zm9vYmE="),
        (b"foobar", "Zm9vYmFy"),
        (b"\xff\xfb\xbf", "//u/"),
    ] {
        let frame = Frame {
            path: b"a.png".to_vec(),
            media_type: "image/png",
            bytes: bytes.to_vec(),
        };
        assert_eq!(frame.data_url(), format!("data:image/png;base64,{text}"));
    }
}

#[test]
fn frames_that_change_or_are_too_large_are_refused() {
    let bytes = fake_png(b'a');
    let identity = FrameIdentity { len: bytes.len() as u64, modified: Some(5) };
    let frame = read_stable_frame(b"a.png", identity, bytes.clone(), identity)
        .unwrap()
        .unwrap();
    assert_eq!((frame.path, frame.bytes), (b"a.png".to_vec(), bytes.clone()));
    let later = FrameIdentity { modified: Some(6), ..identity };
    assert!(read_stable_frame(b"a.png", identity, bytes.clone(), later).unwrap().is_none());
    assert!(
        read_stable_frame(b"a.png", identity, bytes[1..].to_vec(), identity)
            .unwrap()
            .is_none()
    );
    let large = FrameIdentity { len: MAX_FRAME_BYTES + 1, modified: None };
    assert_eq!(
        read_stable_frame(b"a\xff.png", large, bytes, large).unwrap_err(),
        "frame exceeds 20 MiB limit: a\u{fffd}.png"
    );
    assert!(check_size(b"a.png", MAX_FRAME_BYTES).is_ok());
}

#[test]
fn frames_that_cannot_be_had_are_reported() {
    assert_eq!(
        FrameSource::new(b"no".to_vec(), false, 1).err().unwrap(),
        "frame directory does not exist: no"
    );
    assert_eq!(
        FrameSource::new(b"frames".to_vec(), true, 0).err().unwrap(),
        "trajectory length must be greater than zero"
    );
    assert_eq!(
        FrameSequence::new(vec![b"a.png".to_vec()], 0).err().unwrap(),
        "trajectory length must be greater than zero"
    );
    assert_eq!(
        FrameSequence::new(Vec::new(), 1).err().unwrap(),
        "video contains no frames"
    );
    let mut source = FrameSequence::new(vec![b"a.png".to_vec()], 1).unwrap();
    let identity = FrameIdentity { len: 3, modified: None };
    assert_eq!(
        source.load(b"a.png", identity, b"abc".to_vec(), identity).unwrap_err(),
        "extracted frame is incomplete: a.png"
    );
    let mut directory = Directory::new();
    directory.write("large.png", vec![0; 20_971_521]);
    let mut source = FrameSource::new(b"frames".to_vec(), true, 1).unwrap();
    assert_eq!(
        directory.next(&mut source).unwrap_err(),
        "frame exceeds 20 MiB limit: frames/large.png"
    );
}

#[test]
fn waiting_for_a_frame_keeps_to_the_timeout() {
    let mut source = FrameSource::new(b"frames".to_vec(), true, 1).unwrap();
    let mut search = FrameSearch::new(1_000, 30_000_000);
    assert!(matches!(search.listed(&mut source, Vec::new()), FrameStep::Clock));
    assert!(matches!(search.timed(2_000), FrameStep::Pause { nanoseconds: 20_000_000 }));
    assert!(matches!(search.listed(&mut source, Vec::new()), FrameStep::Clock));
    assert!(matches!(search.timed(20_002_000), FrameStep::Pause { nanoseconds: 9_999_000 }));
    assert!(matches!(search.listed(&mut source, Vec::new()), FrameStep::Clock));
    assert!(matches!(search.timed(30_001_000), FrameStep::TimedOut));
}

#[test]
fn frames_after_input_show_what_came_of_it() {
    let mut directory = Directory::new();
    directory.write("old.png", fake_png(b'o'));
    let mut source = FrameSource::new(b"frames".to_vec(), true, 3).unwrap();
    assert!(directory.next(&mut source).unwrap());
    source.expect_feedback(directory.paths(), 2_000_000_000);
    assert!(source.trajectory.is_empty());

    // A file of before stays away, and so does one that was captured too soon.
    directory.clock = 2_150_000_000;
    directory.write("old.png", fake_png(b'n'));
    directory.write("soon.png", fake_png(b's'));
    assert!(!directory.next(&mut source).unwrap());

    // The time in its name tells when a frame was captured.
    directory.clock = 2_300_000_000;
    directory.write("frame-capture-2199999.png", fake_png(b'c'));
    assert!(!directory.next(&mut source).unwrap());
    directory.write("frame-capture-2200000.png", fake_png(b'd'));
    assert!(directory.next(&mut source).unwrap());
    assert_eq!(paths_of(&source), ["frames/frame-capture-2200000.png"]);
    directory.write("later.png", fake_png(b'l'));
    assert!(directory.next(&mut source).unwrap());
    assert_eq!(
        paths_of(&source),
        ["frames/frame-capture-2200000.png", "frames/later.png"]
    );
}

#[test]
fn paths_are_compared_by_their_parts() {
    assert!(is_same_path(b"a//b/", b"a/./b"));
    assert!(!is_same_path(b"/a", b"a"));
    assert!(!is_same_path(b"./a", b"a"));
    assert!(is_path_not_behind(b"a/b", b"a-b"));
    assert!(!is_path_not_behind(b"a-b", b"a/b"));
    assert_eq!(
        sort_paths(vec![b"a-b".to_vec(), b"a/c".to_vec(), b"a/b".to_vec()]),
        vec![b"a/b".to_vec(), b"a/c".to_vec(), b"a-b".to_vec()]
    );
}

#[test]
fn videos_give_the_frames_that_end_with_the_next_file() {
    let mut directory = Directory::new();
    for name in ["c.png", "a.png", "b.png"] {
        directory.write(name, fake_png(name.as_bytes()[0]));
    }
    let mut source = FrameSequence::new(directory.paths(), 2).unwrap();
    let shown: [&[&str]; 3] = [
        &["frames/a.png"],
        &["frames/a.png", "frames/b.png"],
        &["frames/b.png", "frames/c.png"],
    ];
    for expected in shown {
        let path = source.advance().unwrap();
        let identity = directory.identity(&path);
        source
            .load(&path, identity, directory.file(&path).1.clone(), identity)
            .unwrap();
        let paths: Vec<_> = source
            .trajectory
            .iter()
            .map(|frame| std::str::from_utf8(&frame.path).unwrap())
            .collect();
        assert_eq!(paths, expected);
    }
    assert!(source.advance().is_none());
    assert!(source.advance().is_none());
    assert_eq!(source.trajectory.len(), 2);
}

#[test]
fn large_frames_can_be_written_too() {
    let frame = Frame {
        path: b"a.png".to_vec(),
        media_type: "image/png",
        bytes: vec![0; 20_971_522],
    };
    let url = frame.data_url();
    assert_eq!(url.len(), "data:image/png;base64,".len() + 20_971_522usize.div_ceil(3) * 4);
    assert!(url.ends_with("AA=="));
}
