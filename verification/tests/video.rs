use computeruse::extraction::{DecodeRun, Extraction, ExtractionStep};
use computeruse::video::{
    extracted_frame_paths, is_extracted_frame, is_render_node, render_nodes, AccelerationMode,
    VideoAcceleration,
};
use computeruse::{extract_video_frames, extract_video_frames_sampled};

const FRAME: &[u8] = b"out/frame-0000000000.png";

/// A disk on which FFmpeg leaves one frame, and fails on hardware.
struct Disk {
    input: bool,
    files: Vec<Vec<u8>>,
    device_problem: Option<String>,
    software_fails: bool,
    invocations: Vec<Vec<String>>,
    cleanings: usize,
}

impl Disk {
    fn new() -> Self {
        Disk {
            input: true,
            files: Vec::new(),
            device_problem: None,
            software_fails: false,
            invocations: Vec::new(),
            cleanings: 0,
        }
    }

    fn extract(
        &mut self,
        mut extraction: Extraction,
        acceleration: VideoAcceleration,
    ) -> Result<Vec<Vec<u8>>, String> {
        let mut step = extraction.configured(acceleration);
        loop {
            step = match step {
                ExtractionStep::Configure => unreachable!("it was configured"),
                ExtractionStep::CheckInput => extraction.input_checked(self.input),
                ExtractionStep::CreateOutput => extraction.created(),
                ExtractionStep::ListOutput => extraction.listed(self.files.clone()),
                ExtractionStep::CheckDevice { .. } => {
                    extraction.device_checked(self.device_problem.clone())
                }
                ExtractionStep::Decode { arguments } => {
                    let arguments: Vec<String> = arguments
                        .into_iter()
                        .map(|argument| String::from_utf8(argument).unwrap())
                        .collect();
                    let hardware = arguments.contains(&"-hwaccel".to_string());
                    assert!(!self.files.contains(&FRAME.to_vec()));
                    self.invocations.push(arguments);
                    self.files.push(FRAME.to_vec());
                    let run = if hardware || self.software_fails {
                        let diagnostic: &[u8] = if hardware {
                            b"simulated unsupported profile\n"
                        } else {
                            b"simulated corrupt input\n"
                        };
                        DecodeRun::Failed {
                            status: "exit status: 1".into(),
                            diagnostic: diagnostic.to_vec(),
                        }
                    } else {
                        DecodeRun::Done { paths: self.files.clone() }
                    };
                    extraction.decoded(run)
                }
                ExtractionStep::Clean => {
                    self.cleanings += 1;
                    self.files.retain(|path| !is_extracted_frame(path));
                    extraction.cleaned()
                }
                ExtractionStep::Finished(outcome) => return outcome,
            };
        }
    }
}

fn whole() -> Extraction {
    extract_video_frames(b"input.mp4".to_vec(), b"out".to_vec())
}

fn acceleration(mode: AccelerationMode, devices: &[&str], explicit: bool) -> VideoAcceleration {
    VideoAcceleration {
        mode,
        devices: devices.iter().map(|device| device.as_bytes().to_vec()).collect(),
        explicit_device: explicit,
    }
}

#[test]
fn acceleration_modes_are_strictly_parsed() {
    assert_eq!(
        AccelerationMode::parse(None).unwrap(),
        AccelerationMode::Auto
    );
    assert_eq!(
        AccelerationMode::parse(Some("vaapi")).unwrap(),
        AccelerationMode::Vaapi
    );
    assert_eq!(
        AccelerationMode::parse(Some("off")).unwrap(),
        AccelerationMode::Off
    );
    assert!(AccelerationMode::parse(Some("gpu")).is_err());
}

#[test]
fn extracted_paths_only_include_numbered_png_frames() {
    let paths = [
        "frame-0000000002.png",
        "frame-0000000001.png",
        "frame-preview.png",
        "other.png",
    ]
    .map(|name| format!("video-paths/{name}").into_bytes());

    let paths = extracted_frame_paths(paths.to_vec());
    assert_eq!(paths.len(), 2);
    assert!(paths[0].ends_with(b"frame-0000000001.png"));
    assert!(paths[1].ends_with(b"frame-0000000002.png"));
}

#[test]
fn auto_cleans_failed_hardware_frames_and_retries_software_once() {
    let mut disk = Disk::new();
    disk.files.push(b"out/unrelated.txt".to_vec());
    let paths = disk
        .extract(
            whole(),
            acceleration(AccelerationMode::Auto, &["renderD128"], true),
        )
        .unwrap();

    assert_eq!(paths.len(), 1);
    assert!(disk.files.contains(&b"out/unrelated.txt".to_vec()));
    assert_eq!(disk.invocations.len(), 2);
    let first = &disk.invocations[0];
    let hardware = first.iter().position(|argument| argument == "-hwaccel").unwrap();
    assert_eq!(first[hardware + 1], "vaapi");
    let input_option = first.iter().position(|argument| argument == "-i").unwrap();
    assert!(hardware < input_option);
}

#[test]
fn forced_vaapi_cleans_partial_frames_without_software_retry() {
    let mut disk = Disk::new();
    let error = disk
        .extract(
            whole(),
            acceleration(AccelerationMode::Vaapi, &["renderD128"], true),
        )
        .unwrap_err();

    assert!(error.contains("VA-API decoding failed"));
    assert!(extracted_frame_paths(disk.files).is_empty());
    assert_eq!(disk.invocations.len(), 1);
}

#[test]
fn failed_software_decode_cleans_partial_frames() {
    let mut disk = Disk::new();
    disk.software_fails = true;
    disk.files.push(b"out/unrelated.txt".to_vec());
    let error = disk
        .extract(whole(), acceleration(AccelerationMode::Off, &[], false))
        .unwrap_err();

    assert!(error.contains("simulated corrupt input"));
    assert!(disk.files.contains(&b"out/unrelated.txt".to_vec()));
    assert!(extracted_frame_paths(disk.files).is_empty());
}

#[test]
fn sampled_extraction_limits_rate_and_frame_count() {
    let mut disk = Disk::new();
    let sample =
        extract_video_frames_sampled(b"input.mp4".to_vec(), b"out".to_vec(), 2, 50).unwrap();
    disk.extract(sample, acceleration(AccelerationMode::Off, &[], false))
        .unwrap();

    let invocation = disk.invocations[0].join("\n");
    assert!(invocation.contains("-vf\nfps=2"));
    assert!(invocation.contains("-frames:v\n50"));
    assert!(!invocation.contains("-vsync"));
}

#[test]
fn whole_videos_are_extracted_frame_by_frame() {
    let mut disk = Disk::new();
    disk.extract(whole(), acceleration(AccelerationMode::Off, &[], false))
        .unwrap();
    assert_eq!(
        disk.invocations,
        [[
            "-hide_banner",
            "-loglevel",
            "error",
            "-nostdin",
            "-n",
            "-i",
            "input.mp4",
            "-vsync",
            "0",
            "-start_number",
            "0",
            "out/frame-%010d.png",
        ]]
    );
    assert_eq!(disk.cleanings, 0);
}

#[test]
fn extraction_is_refused_before_anything_runs() {
    let sampled = |rate, count| {
        extract_video_frames_sampled(b"i".to_vec(), b"o".to_vec(), rate, count).err().unwrap()
    };
    assert_eq!(sampled(0, 0), "video sample rate must be greater than zero");
    assert_eq!(
        sampled(1, 0),
        "maximum sampled video frames must be greater than zero"
    );

    let mut disk = Disk::new();
    disk.input = false;
    let error = disk
        .extract(whole(), acceleration(AccelerationMode::Off, &[], false))
        .unwrap_err();
    assert_eq!(error, "video input does not exist or is not a file: input.mp4");
    assert!(disk.invocations.is_empty());

    let mut disk = Disk::new();
    disk.files.push(FRAME.to_vec());
    let error = disk
        .extract(whole(), acceleration(AccelerationMode::Off, &[], false))
        .unwrap_err();
    assert_eq!(error, "frame output directory already contains extracted frames: out");
    assert!(disk.invocations.is_empty());
    assert_eq!(disk.files, [FRAME.to_vec()]);
}

#[test]
fn devices_that_cannot_be_opened_are_passed_over_or_reported() {
    let mut disk = Disk::new();
    disk.device_problem = Some("permission denied".into());
    let paths = disk
        .extract(
            whole(),
            acceleration(AccelerationMode::Auto, &["renderD128"], false),
        )
        .unwrap();
    assert_eq!(paths, [FRAME.to_vec()]);
    assert_eq!(disk.invocations.len(), 1);

    let mut disk = Disk::new();
    disk.device_problem = Some("permission denied".into());
    let error = disk
        .extract(
            whole(),
            acceleration(AccelerationMode::Vaapi, &["renderD128"], false),
        )
        .unwrap_err();
    assert_eq!(error, "VA-API device renderD128 is unavailable: permission denied");
    assert!(disk.invocations.is_empty());
}

#[test]
fn names_tell_frames_and_devices() {
    assert!(is_extracted_frame(FRAME));
    for path in [
        "out/frame-.png",
        "out/frame-1.jpg",
        "out/frame-1.png.txt",
        "out/frame-1a.png",
        "frame-1.png/x",
    ] {
        assert!(!is_extracted_frame(path.as_bytes()), "{path}");
    }
    assert!(is_render_node(b"/dev/dri/renderD128"));
    assert!(!is_render_node(b"/dev/dri/card0"));
    assert_eq!(
        render_nodes(vec![
            b"/dev/dri/renderD129".to_vec(),
            b"/dev/dri/card0".to_vec(),
            b"/dev/dri/renderD128".to_vec(),
        ]),
        [b"/dev/dri/renderD128".to_vec(), b"/dev/dri/renderD129".to_vec()]
    );
    assert!(VideoAcceleration::needs_discovery(AccelerationMode::Auto, &None));
    assert!(!VideoAcceleration::needs_discovery(AccelerationMode::Off, &None));
    let chosen = VideoAcceleration::new(
        AccelerationMode::Vaapi,
        Some(b"/dev/dri/renderD130".to_vec()),
        vec![b"/dev/dri/renderD128".to_vec()],
    );
    assert_eq!(chosen.devices, [b"/dev/dri/renderD130".to_vec()]);
    assert!(chosen.explicit_device);
}
