//! The attempts in which a video is taken apart: on each device in turn, then in software.

use crate::bytes;
use crate::path::{self, lossy};
use crate::sort;
use crate::text::{self, append, chars_of, copy_text, join, string_of, trim};
use crate::video::{
    self, extracted_frame_paths, ffmpeg_arguments, AccelerationMode, FrameSelection,
    VideoAcceleration,
};
use vstd::prelude::*;

verus! {

/// What is to be done next to take a video apart.
#[derive(Debug)]
pub enum ExtractionStep {
    /// The devices that are tried are to be chosen.
    Configure,
    /// Whether the input is a file is to be found out.
    CheckInput,
    /// The output directory is to be created.
    CreateOutput,
    /// The output directory is to be listed.
    ListOutput,
    /// A device is to be opened.
    CheckDevice { device: Vec<u8> },
    /// FFmpeg is to be run.
    Decode { arguments: Vec<Vec<u8>> },
    /// The extracted frames in the output directory are to be removed.
    Clean,
    /// The frames are there, or could not be extracted.
    Finished(Result<Vec<Vec<u8>>, String>),
}

/// What came of running FFmpeg.
#[derive(Debug)]
pub enum DecodeRun {
    /// It could not be run, or what it wrote could not be listed.
    Broken { message: String },
    /// It failed with a status and a diagnostic.
    Failed { status: String, diagnostic: Vec<u8> },
    /// It succeeded, and these files are in the output directory.
    Done { paths: Vec<Vec<u8>> },
}

/// How far taking a video apart has come.
#[derive(Debug)]
pub enum ExtractionPhase {
    Configuring,
    Input,
    Creating,
    Listing,
    /// A device is opened.
    Device { index: usize },
    /// A device decodes.
    Hardware { index: usize },
    /// What a device left is removed.
    HardwareCleaning { index: usize, message: String },
    /// Software decodes.
    Software,
    /// What software left is removed.
    SoftwareCleaning { message: String },
    Over,
}

/// A video that is being taken apart.
pub struct Extraction {
    pub input: Vec<u8>,
    pub output: Vec<u8>,
    pub selection: FrameSelection,
    pub acceleration: VideoAcceleration,
    /// Why each device that was tried did not work.
    pub failures: Vec<String>,
    pub phase: ExtractionPhase,
}

/// What strings say.
pub open spec fn sayings(messages: Seq<String>) -> Seq<Seq<char>> {
    messages.map_values(|message: String| message@)
}

/// Messages, one a line.
pub open spec fn lines(messages: Seq<String>) -> Seq<char> {
    text::joined(sayings(messages), '\n')
}

/// Puts messages below each other.
fn join_lines(messages: &Vec<String>) -> (text: String)
    ensures
        text@ == lines(messages@),
{
    let mut fields: Vec<Vec<char>> = Vec::new();
    let mut index: usize = 0;
    while index < messages.len()
        invariant
            index <= messages.len(),
            text::views(fields@) == sayings(messages@.take(index as int)),
        decreases messages.len() - index,
    {
        let ghost earlier = fields@;
        fields.push(chars_of(messages[index].as_str()));
        assert(messages@.take(index + 1) == messages@.take(index as int).push(
            messages@[index as int],
        ));
        assert(text::views(fields@) =~= text::views(earlier).push(messages@[index as int]@));
        assert(sayings(messages@.take(index + 1)) =~= sayings(messages@.take(index as int)).push(
            messages@[index as int]@,
        ));
        index += 1;
    }
    assert(messages@.take(index as int) == messages@);
    string_of(&join(&fields, '\n'))
}

/// The frames among files.
pub open spec fn frames_in(paths: Seq<Vec<u8>>) -> Seq<Vec<u8>> {
    paths.filter(|path: Vec<u8>| video::extracted(path@))
}

/// Why a run of FFmpeg gave no frames.
pub open spec fn run_complaint(run: DecodeRun, input: Seq<u8>) -> Option<Seq<char>> {
    match run {
        DecodeRun::Broken { message } => Some(message@),
        DecodeRun::Failed { status, diagnostic } => Some(
            "ffmpeg could not decode video "@ + path::lossy_text(input) + " (status "@ + status@
                + "): "@ + text::trimmed(path::lossy_text(diagnostic@)),
        ),
        DecodeRun::Done { paths } => if frames_in(paths@).len() == 0 {
            Some("ffmpeg decoded no frames from "@ + path::lossy_text(input))
        } else {
            None
        },
    }
}

/// Whether paths are the frames among files, in order.
pub open spec fn gives(paths: Seq<Vec<u8>>, found: Seq<Vec<u8>>) -> bool {
    sort::sorted_from(path::entries(found), path::entries(frames_in(paths)))
}

/// What came of a run of FFmpeg.
fn judge_run(run: DecodeRun, input: &[u8]) -> (frames: Result<Vec<Vec<u8>>, String>)
    ensures
        match frames {
            Ok(found) => {
                &&& run_complaint(run, input@) is None
                &&& run matches DecodeRun::Done { paths } && gives(paths@, found@)
            },
            Err(message) => run_complaint(run, input@) == Some(message@),
        },
{
    match run {
        DecodeRun::Broken { message } => Err(message),
        DecodeRun::Failed { status, diagnostic } => {
            let shown: String = lossy(&diagnostic);
            let letters: Vec<char> = chars_of(shown.as_str());
            let trimmed: String = string_of(&trim(&letters));
            let m: String = append(
                copy_text("ffmpeg could not decode video "),
                lossy(input).as_str(),
            );
            let m: String = append(append(m, " (status "), status.as_str());
            Err(append(append(m, "): "), trimmed.as_str()))
        },
        DecodeRun::Done { paths } => {
            let frames: Vec<Vec<u8>> = extracted_frame_paths(paths);
            if frames.len() == 0 {
                return Err(
                    append(copy_text("ffmpeg decoded no frames from "), lossy(input).as_str()),
                );
            }
            Ok(frames)
        },
    }
}

/// Begins to take a video apart: every frame becomes a numbered image in a directory.
pub fn extract_video_frames(input: Vec<u8>, output: Vec<u8>) -> (extraction: Extraction)
    ensures
        extraction.input == input,
        extraction.output == output,
        extraction.selection.frames_per_second is None,
        extraction.selection.max_frames is None,
        extraction.failures@.len() == 0,
        extraction.phase is Configuring,
        extraction.wf(),
{
    Extraction::new(input, output, FrameSelection::default())
}

/// Begins to take a sample of a video: so many frames a second, and so many in all.
pub fn extract_video_frames_sampled(
    input: Vec<u8>,
    output: Vec<u8>,
    frames_per_second: u32,
    max_frames: usize,
) -> (extraction: Result<Extraction, String>)
    ensures
        if frames_per_second == 0 {
            extraction matches Err(message) && message@
                == "video sample rate must be greater than zero"@
        } else if max_frames == 0 {
            extraction matches Err(message) && message@
                == "maximum sampled video frames must be greater than zero"@
        } else {
            &&& extraction matches Ok(found)
            &&& found.input == input
            &&& found.output == output
            &&& found.selection == (FrameSelection {
                frames_per_second: Some(frames_per_second),
                max_frames: Some(max_frames),
            })
            &&& found.failures@.len() == 0
            &&& found.phase is Configuring
            &&& found.wf()
        },
{
    if frames_per_second == 0 {
        return Err(copy_text("video sample rate must be greater than zero"));
    }
    if max_frames == 0 {
        return Err(copy_text("maximum sampled video frames must be greater than zero"));
    }
    Ok(
        Extraction::new(
            input,
            output,
            FrameSelection {
                frames_per_second: Some(frames_per_second),
                max_frames: Some(max_frames),
            },
        ),
    )
}

/// Whether a step is a failure with a message.
pub open spec fn fails(step: ExtractionStep, said: Seq<char>) -> bool {
    step matches ExtractionStep::Finished(Err(message)) && message@ == said
}

/// Whether a step opens a device.
pub open spec fn opens(step: ExtractionStep, device: Seq<u8>) -> bool {
    step matches ExtractionStep::CheckDevice { device: asked } && asked@ == device
}

impl Extraction {
    /// A device is tried only where there is one and devices are not off, and software
    /// only where no device has to decode.
    pub open spec fn wf(self) -> bool {
        match self.phase {
            ExtractionPhase::Device { index } => self.tries_device(index),
            ExtractionPhase::Hardware { index } => self.tries_device(index),
            ExtractionPhase::HardwareCleaning { index, .. } => self.tries_device(index),
            ExtractionPhase::Software => self.acceleration.mode !is Vaapi,
            ExtractionPhase::SoftwareCleaning { .. } => self.acceleration.mode !is Vaapi,
            _ => true,
        }
    }

    /// Whether a device may be tried.
    pub open spec fn tries_device(self, index: usize) -> bool {
        index < self.acceleration.devices@.len() && self.acceleration.mode !is Off
    }

    /// Whether it is another that has come to a phase, for the same video.
    pub open spec fn follows(self, before: Extraction) -> bool {
        &&& self.input == before.input
        &&& self.output == before.output
        &&& self.selection == before.selection
        &&& self.acceleration == before.acceleration
    }

    /// Whether a step runs FFmpeg, on a device or in software.
    pub open spec fn decodes(self, step: ExtractionStep, device: Option<Seq<u8>>) -> bool {
        step matches ExtractionStep::Decode { arguments } && bytes::views(arguments@)
            == video::arguments(self.input@, self.output@, device, self.selection)
    }

    /// What follows when no device is left to be tried: an error where a device has to
    /// decode, else an attempt in software.
    pub open spec fn hardware_over(self, after: Extraction, step: ExtractionStep) -> bool {
        if self.acceleration.mode is Vaapi {
            &&& after.phase is Over
            &&& fails(
                step,
                "VA-API decoding failed for "@ + path::lossy_text(self.input@) + ":\n"@ + lines(
                    after.failures@,
                ),
            )
        } else {
            after.phase is Software && self.decodes(step, None)
        }
    }

    /// What follows when a device is to be tried, or none is left.
    pub open spec fn tries(self, index: int, after: Extraction, step: ExtractionStep) -> bool {
        if index < self.acceleration.devices@.len() {
            &&& after.phase == (ExtractionPhase::Device { index: index as usize })
            &&& opens(step, self.acceleration.devices@[index]@)
        } else {
            self.hardware_over(after, step)
        }
    }

    /// A video that is to be taken apart.
    fn new(input: Vec<u8>, output: Vec<u8>, selection: FrameSelection) -> (extraction: Extraction)
        ensures
            extraction.input == input,
            extraction.output == output,
            extraction.selection == selection,
            extraction.failures@.len() == 0,
            extraction.phase is Configuring,
            extraction.wf(),
    {
        Extraction {
            input,
            output,
            selection,
            acceleration: VideoAcceleration {
                mode: AccelerationMode::Off,
                devices: Vec::new(),
                explicit_device: false,
            },
            failures: Vec::new(),
            phase: ExtractionPhase::Configuring,
        }
    }

    /// Ends with a failure.
    fn fail(&mut self, message: String) -> (step: ExtractionStep)
        ensures
            fails(step, message@),
            final(self).phase is Over,
            final(self).follows(*old(self)),
            final(self).failures == old(self).failures,
    {
        self.phase = ExtractionPhase::Over;
        ExtractionStep::Finished(Err(message))
    }

    /// Runs FFmpeg in software.
    fn go_software(&mut self) -> (step: ExtractionStep)
        requires
            old(self).acceleration.mode !is Vaapi,
        ensures
            final(self).wf(),
            final(self).follows(*old(self)),
            final(self).failures == old(self).failures,
            final(self).phase is Software,
            old(self).decodes(step, None),
    {
        self.phase = ExtractionPhase::Software;
        ExtractionStep::Decode {
            arguments: ffmpeg_arguments(&self.input, &self.output, None, self.selection),
        }
    }

    /// Goes on to a device, or past the last.
    fn go_device(&mut self, index: usize) -> (step: ExtractionStep)
        requires
            old(self).acceleration.mode !is Off,
        ensures
            final(self).wf(),
            final(self).follows(*old(self)),
            final(self).failures == old(self).failures,
            old(self).tries(index as int, *final(self), step),
    {
        if index < self.acceleration.devices.len() {
            let device: Vec<u8> = bytes::copy_bytes(&self.acceleration.devices[index]);
            self.phase = ExtractionPhase::Device { index };
            return ExtractionStep::CheckDevice { device };
        }
        self.leave_hardware()
    }

    /// Goes past the devices.
    fn leave_hardware(&mut self) -> (step: ExtractionStep)
        ensures
            final(self).wf(),
            final(self).follows(*old(self)),
            final(self).failures == old(self).failures,
            old(self).hardware_over(*final(self), step),
    {
        if matches!(self.acceleration.mode, AccelerationMode::Vaapi) {
            let m: String = append(
                copy_text("VA-API decoding failed for "),
                lossy(&self.input).as_str(),
            );
            let m: String = append(append(m, ":\n"), join_lines(&self.failures).as_str());
            return self.fail(m);
        }
        self.go_software()
    }

    /// Takes in the devices that are tried.
    pub fn configured(&mut self, acceleration: VideoAcceleration) -> (step: ExtractionStep)
        requires
            old(self).wf(),
            old(self).phase is Configuring,
        ensures
            final(self).wf(),
            *final(self) == (Extraction {
                acceleration,
                phase: ExtractionPhase::Input,
                ..*old(self)
            }),
            step is CheckInput,
    {
        self.acceleration = acceleration;
        self.phase = ExtractionPhase::Input;
        ExtractionStep::CheckInput
    }

    /// Takes in whether the input is a file.
    pub fn input_checked(&mut self, is_file: bool) -> (step: ExtractionStep)
        requires
            old(self).wf(),
            old(self).phase is Input,
        ensures
            final(self).wf(),
            final(self).follows(*old(self)),
            final(self).failures == old(self).failures,
            if is_file {
                final(self).phase is Creating && step is CreateOutput
            } else {
                &&& final(self).phase is Over
                &&& fails(
                    step,
                    "video input does not exist or is not a file: "@ + path::lossy_text(
                        old(self).input@,
                    ),
                )
            },
    {
        if is_file {
            self.phase = ExtractionPhase::Creating;
            return ExtractionStep::CreateOutput;
        }
        let message: String = append(
            copy_text("video input does not exist or is not a file: "),
            lossy(&self.input).as_str(),
        );
        self.fail(message)
    }

    /// Takes in that the output directory is there.
    pub fn created(&mut self) -> (step: ExtractionStep)
        requires
            old(self).wf(),
            old(self).phase is Creating,
        ensures
            final(self).wf(),
            *final(self) == (Extraction { phase: ExtractionPhase::Listing, ..*old(self) }),
            step is ListOutput,
    {
        self.phase = ExtractionPhase::Listing;
        ExtractionStep::ListOutput
    }

    /// Takes in the files of the output directory. Frames that are there already are an
    /// error. Then the first device is tried, or software.
    pub fn listed(&mut self, paths: Vec<Vec<u8>>) -> (step: ExtractionStep)
        requires
            old(self).wf(),
            old(self).phase is Listing,
        ensures
            final(self).wf(),
            final(self).follows(*old(self)),
            if frames_in(paths@).len() > 0 {
                &&& final(self).phase is Over
                &&& fails(
                    step,
                    "frame output directory already contains extracted frames: "@
                        + path::lossy_text(old(self).output@),
                )
            } else if old(self).acceleration.mode is Off {
                &&& final(self).phase is Software
                &&& final(self).failures == old(self).failures
                &&& old(self).decodes(step, None)
            } else if old(self).acceleration.devices@.len() > 0 {
                &&& final(self).failures == old(self).failures
                &&& old(self).tries(0, *final(self), step)
            } else if old(self).acceleration.mode is Vaapi {
                &&& final(self).phase is Over
                &&& fails(
                    step,
                    "VA-API decoding required but no accessible VA-API render nodes found under /dev/dri"@,
                )
            } else {
                &&& sayings(final(self).failures@) == sayings(old(self).failures@).push(
                    "no accessible VA-API render nodes found under /dev/dri"@,
                )
                &&& final(self).phase is Software
                &&& old(self).decodes(step, None)
            },
    {
        let existing: Vec<Vec<u8>> = extracted_frame_paths(paths);
        if existing.len() > 0 {
            let message: String = append(
                copy_text("frame output directory already contains extracted frames: "),
                lossy(&self.output).as_str(),
            );
            return self.fail(message);
        }
        if matches!(self.acceleration.mode, AccelerationMode::Off) {
            return self.go_software();
        }
        if self.acceleration.devices.len() == 0 {
            if matches!(self.acceleration.mode, AccelerationMode::Vaapi) {
                return self.fail(
                    copy_text(
                        "VA-API decoding required but no accessible VA-API render nodes found under /dev/dri",
                    ),
                );
            }
            self.add_failure(
                copy_text("no accessible VA-API render nodes found under /dev/dri"),
            );
            return self.go_software();
        }
        self.go_device(0)
    }

    /// Notes why a device did not work.
    fn add_failure(&mut self, message: String)
        ensures
            final(self).follows(*old(self)),
            final(self).phase == old(self).phase,
            sayings(final(self).failures@) == sayings(old(self).failures@).push(message@),
    {
        let ghost earlier = self.failures@;
        self.failures.push(message);
        assert(sayings(self.failures@) =~= sayings(earlier).push(message@));
    }

    /// Takes in why a device could not be opened, if it could not. A device that cannot is
    /// passed over, and is the last where it was given; it is an error where a device has
    /// to decode.
    pub fn device_checked(&mut self, problem: Option<String>) -> (step: ExtractionStep)
        requires
            old(self).wf(),
            old(self).phase is Device,
        ensures
            final(self).wf(),
            final(self).follows(*old(self)),
            ({
                let index = old(self).phase->Device_index;
                let device = old(self).acceleration.devices@[index as int]@;
                match problem {
                    None => {
                        &&& final(self).phase == (ExtractionPhase::Hardware { index })
                        &&& final(self).failures == old(self).failures
                        &&& old(self).decodes(step, Some(device))
                    },
                    Some(why) => {
                        let message = "VA-API device "@ + path::lossy_text(device)
                            + " is unavailable: "@ + why@;
                        if old(self).acceleration.mode is Vaapi {
                            final(self).phase is Over && fails(step, message)
                        } else {
                            &&& sayings(final(self).failures@) == sayings(
                                old(self).failures@,
                            ).push(message)
                            &&& if old(self).acceleration.explicit_device {
                                old(self).hardware_over(*final(self), step)
                            } else {
                                old(self).tries(index + 1, *final(self), step)
                            }
                        }
                    },
                }
            }),
    {
        let index: usize = match self.phase {
            ExtractionPhase::Device { index } => index,
            _ => 0,
        };
        assert(index < self.acceleration.devices.len());
        match problem {
            None => {
                let arguments: Vec<Vec<u8>> = ffmpeg_arguments(
                    &self.input,
                    &self.output,
                    Some(&self.acceleration.devices[index]),
                    self.selection,
                );
                self.phase = ExtractionPhase::Hardware { index };
                ExtractionStep::Decode { arguments }
            },
            Some(why) => {
                let m: String = append(
                    copy_text("VA-API device "),
                    lossy(&self.acceleration.devices[index]).as_str(),
                );
                let message: String = append(append(m, " is unavailable: "), why.as_str());
                if matches!(self.acceleration.mode, AccelerationMode::Vaapi) {
                    return self.fail(message);
                }
                self.add_failure(message);
                if self.acceleration.explicit_device {
                    return self.leave_hardware();
                }
                self.go_device(index + 1)
            },
        }
    }

    /// Takes in what came of running FFmpeg. What a failed attempt left is to be removed
    /// before anything else.
    pub fn decoded(&mut self, run: DecodeRun) -> (step: ExtractionStep)
        requires
            old(self).wf(),
            old(self).phase is Hardware || old(self).phase is Software,
        ensures
            final(self).wf(),
            final(self).follows(*old(self)),
            final(self).failures == old(self).failures,
            match run_complaint(run, old(self).input@) {
                None => {
                    &&& final(self).phase is Over
                    &&& step matches ExtractionStep::Finished(Ok(found))
                    &&& run matches DecodeRun::Done { paths } && gives(paths@, found@)
                },
                Some(why) => {
                    &&& step is Clean
                    &&& match old(self).phase {
                        ExtractionPhase::Hardware { index } => {
                            final(self).phase matches ExtractionPhase::HardwareCleaning {
                                index: same,
                                message,
                            } && same == index && message@ == why
                        },
                        _ => {
                            final(self).phase matches ExtractionPhase::SoftwareCleaning {
                                message,
                            } && message@ == why
                        },
                    }
                },
            },
    {
        match judge_run(run, &self.input) {
            Ok(frames) => {
                self.phase = ExtractionPhase::Over;
                ExtractionStep::Finished(Ok(frames))
            },
            Err(message) => {
                match self.phase {
                    ExtractionPhase::Hardware { index } => {
                        self.phase = ExtractionPhase::HardwareCleaning { index, message };
                    },
                    _ => {
                        self.phase = ExtractionPhase::SoftwareCleaning { message };
                    },
                }
                ExtractionStep::Clean
            },
        }
    }

    /// Takes in that what a failed attempt left was removed: the next device is tried, or
    /// software once, which is the last attempt.
    pub fn cleaned(&mut self) -> (step: ExtractionStep)
        requires
            old(self).wf(),
            old(self).phase is HardwareCleaning || old(self).phase is SoftwareCleaning,
        ensures
            final(self).wf(),
            final(self).follows(*old(self)),
            match old(self).phase {
                ExtractionPhase::HardwareCleaning { index, message } => {
                    let device = old(self).acceleration.devices@[index as int]@;
                    &&& sayings(final(self).failures@) == sayings(old(self).failures@).push(
                        path::lossy_text(device) + ": "@ + message@,
                    )
                    &&& if old(self).acceleration.explicit_device {
                        old(self).hardware_over(*final(self), step)
                    } else {
                        old(self).tries(index + 1, *final(self), step)
                    }
                },
                ExtractionPhase::SoftwareCleaning { message } => {
                    &&& final(self).phase is Over
                    &&& fails(
                        step,
                        if old(self).failures@.len() == 0 {
                            message@
                        } else {
                            "software decoding failed after VA-API attempts:\n"@ + lines(
                                old(self).failures@,
                            ) + "\nsoftware: "@ + message@
                        },
                    )
                },
                _ => true,
            },
    {
        let mut phase: ExtractionPhase = ExtractionPhase::Over;
        std::mem::swap(&mut phase, &mut self.phase);
        match phase {
            ExtractionPhase::HardwareCleaning { index, message } => {
                assert(index < self.acceleration.devices.len());
                let m: String = append(lossy(&self.acceleration.devices[index]), ": ");
                self.add_failure(append(m, message.as_str()));
                if self.acceleration.explicit_device {
                    return self.leave_hardware();
                }
                self.go_device(index + 1)
            },
            ExtractionPhase::SoftwareCleaning { message } => {
                if self.failures.len() == 0 {
                    return self.fail(message);
                }
                let m: String = append(
                    copy_text("software decoding failed after VA-API attempts:\n"),
                    join_lines(&self.failures).as_str(),
                );
                let said: String = append(append(m, "\nsoftware: "), message.as_str());
                self.fail(said)
            },
            _ => ExtractionStep::Finished(Ok(Vec::new())),
        }
    }
}

/// Where a device has to decode, software never does: an extraction does not come to it,
/// and after the last device it fails.
pub proof fn law_required_device_is_never_replaced(
    extraction: Extraction,
    after: Extraction,
    step: ExtractionStep,
)
    requires
        extraction.wf(),
        extraction.acceleration.mode is Vaapi,
    ensures
        extraction.phase !is Software && extraction.phase !is SoftwareCleaning,
        extraction.hardware_over(after, step) ==> (step matches ExtractionStep::Finished(outcome)
            && outcome is Err),
{
}

/// Where devices are off, none is opened.
pub proof fn law_no_device_is_tried_where_they_are_off(extraction: Extraction)
    requires
        extraction.wf(),
        extraction.acceleration.mode is Off,
    ensures
        extraction.phase !is Device && extraction.phase !is Hardware,
        extraction.phase !is HardwareCleaning,
{
}

/// Where a device was given, no other takes its place: it is the only one.
pub proof fn law_given_device_is_the_only_one(
    extraction: Extraction,
    index: usize,
    mode: AccelerationMode,
    device: Vec<u8>,
    found: Vec<Vec<u8>>,
)
    requires
        extraction.tries_device(index),
        video::chosen(extraction.acceleration, mode, Some(device), found),
    ensures
        index == 0,
        extraction.acceleration.devices@[index as int] == device,
{
}

/// Only the frames that were extracted are given back, and removed after a failed attempt:
/// another file in the directory is none of them.
pub proof fn law_other_files_are_left_alone(paths: Seq<Vec<u8>>, found: Seq<Vec<u8>>, index: int)
    requires
        gives(paths, found),
        0 <= index < found.len(),
    ensures
        video::extracted(found[index]@),
        paths.contains(found[index]),
{
    let kept = frames_in(paths);
    let test = |path: Vec<u8>| video::extracted(path@);
    let entry = path::entries(found)[index];
    assert(path::entries(found).contains(entry));
    sort::law_sort_keeps_items(path::entries(found), path::entries(kept), entry);
    let at = path::entries(kept).index_of(entry);
    assert(path::entries(kept)[at] == entry);
    assert(kept[at] == found[index]);
    paths.lemma_filter_pred(test, at);
    assert(kept.contains(kept[at]));
    paths.lemma_filter_contains_rev(test, kept[at]);
}

/// A device decodes before the input is named.
pub proof fn law_device_comes_before_the_input(
    input: Seq<u8>,
    output: Seq<u8>,
    device: Seq<u8>,
    selection: FrameSelection,
)
    ensures
        ({
            let all = video::arguments(input, output, Some(device), selection);
            &&& all[5] == video::word("-hwaccel"@)
            &&& all[6] == video::word("vaapi"@)
            &&& all[7] == video::word("-hwaccel_device"@)
            &&& all[8] == device
            &&& all[9] == video::word("-i"@)
            &&& all[10] == input
        }),
{
}

/// A run of FFmpeg gave frames where it succeeded and one of the files is a frame; one that
/// could not be run says why.
pub proof fn law_run_gives_frames_or_a_reason(run: DecodeRun, input: Seq<u8>)
    ensures
        run_complaint(run, input) is None <==> (run matches DecodeRun::Done { paths } && exists|
            index: int,
        |
            0 <= index < paths@.len() && video::extracted((#[trigger] paths@[index])@)),
        run matches DecodeRun::Broken { message } ==> run_complaint(run, input) == Some(message@),
{
    if let DecodeRun::Done { paths } = run {
        let test = |path: Vec<u8>| video::extracted(path@);
        let kept = frames_in(paths@);
        if exists|index: int|
            0 <= index < paths@.len() && video::extracted((#[trigger] paths@[index])@) {
            let index = choose|index: int|
                0 <= index < paths@.len() && video::extracted((#[trigger] paths@[index])@);
            paths@.lemma_filter_contains(test, index);
        }
        if kept.len() > 0 {
            paths@.lemma_filter_pred(test, 0);
            assert(kept.contains(kept[0]));
            paths@.lemma_filter_contains_rev(test, kept[0]);
            let at = paths@.index_of(kept[0]);
            assert(video::extracted(paths@[at]@));
        }
    }
}

/// A run of FFmpeg that failed is told with the video, with its status and, at the end, with
/// what it said, without white space around that.
pub proof fn law_failed_run_is_told(status: String, diagnostic: Vec<u8>, input: Seq<u8>)
    ensures
        run_complaint(DecodeRun::Failed { status, diagnostic }, input) matches Some(said) && {
            &&& text::occurs(said, path::lossy_text(input))
            &&& text::occurs(said, status@)
            &&& text::ends(said, text::trimmed(path::lossy_text(diagnostic@)))
        },
{
    let said = run_complaint(DecodeRun::Failed { status, diagnostic }, input)->0;
    let told = text::trimmed(path::lossy_text(diagnostic@));
    let named = path::lossy_text(input);
    let first = "ffmpeg could not decode video "@;
    let before = first + named + " (status "@;
    text::lemma_part_occurs(before, status@, "): "@ + told);
    assert(said =~= before + status@ + ("): "@ + told));
    text::lemma_part_occurs(before + status@ + "): "@, told, Seq::empty());
    text::lemma_part_occurs(first, named, " (status "@ + status@ + "): "@ + told);
    assert(said =~= first + named + (" (status "@ + status@ + "): "@ + told));
}

/// Every frame among the files is given back, as often as it is there.
pub proof fn law_every_frame_is_given_back(paths: Seq<Vec<u8>>, found: Seq<Vec<u8>>, index: int)
    requires
        gives(paths, found),
        0 <= index < paths.len(),
        video::extracted(paths[index]@),
    ensures
        found.contains(paths[index]),
        found.len() == paths.filter(|path: Vec<u8>| video::extracted(path@)).len(),
{
    let kept = frames_in(paths);
    let test = |path: Vec<u8>| video::extracted(path@);
    paths.lemma_filter_contains(test, index);
    let place = kept.index_of(paths[index]);
    let entry = path::entries(kept)[place];
    assert(path::entries(kept).contains(entry));
    sort::law_sort_keeps_items(path::entries(found), path::entries(kept), entry);
    let at = path::entries(found).index_of(entry);
    assert(path::entries(found)[at] == entry);
    assert(found[at] == paths[index]);
    assert(path::entries(found).len() == found.len());
    assert(path::entries(kept).len() == kept.len());
}

/// The devices are tried one after the other, each by its own path; after the last comes
/// software, without a device, unless a device has to decode: then all that went wrong is
/// told.
pub proof fn law_devices_are_tried_in_turn(
    extraction: Extraction,
    index: int,
    after: Extraction,
    step: ExtractionStep,
)
    requires
        0 <= index,
        extraction.tries(index, after, step),
    ensures
        index < extraction.acceleration.devices@.len() ==> (
        step matches ExtractionStep::CheckDevice { device } && device@
            == extraction.acceleration.devices@[index]@),
        index >= extraction.acceleration.devices@.len() && extraction.acceleration.mode !is Vaapi
            ==> after.phase is Software && (step matches ExtractionStep::Decode { arguments }
            && bytes::views(arguments@) == video::arguments(
            extraction.input@,
            extraction.output@,
            None,
            extraction.selection,
        )),
        index >= extraction.acceleration.devices@.len() && extraction.acceleration.mode is Vaapi
            ==> after.phase is Over && (step matches ExtractionStep::Finished(Err(message))
            && text::ends(message@, lines(after.failures@))),
{
    if index >= extraction.acceleration.devices@.len() && extraction.acceleration.mode is Vaapi {
        let message = step->Finished_0->Err_0;
        text::law_text_is_made_of_parts(message@, lines(after.failures@));
    }
}

/// Messages stand one a line: where none of them has a line break, each line is one.
pub proof fn law_messages_stand_one_a_line(messages: Seq<String>)
    requires
        messages.len() > 0,
        forall|index: int|
            0 <= index < messages.len() ==> !(#[trigger] messages[index])@.contains('\n'),
    ensures
        text::split(lines(messages), '\n').len() == messages.len(),
        forall|index: int|
            0 <= index < messages.len() ==> #[trigger] text::split(lines(messages), '\n')[index]
                == messages[index]@,
{
    let all = sayings(messages);
    assert forall|index: int| 0 <= index < all.len() implies !(#[trigger] all[index]).contains(
        '\n',
    ) by {
        assert(all[index] == messages[index]@);
    }
    text::law_join_then_split(all, '\n');
}

/// FFmpeg is run on the same video, into the same directory and for the same frames, however
/// often it is tried, and on the device that is named.
pub proof fn law_attempts_are_for_the_same_video(
    before: Extraction,
    after: Extraction,
    step: ExtractionStep,
    device: Option<Seq<u8>>,
)
    requires
        after.follows(before),
        after.decodes(step, device),
    ensures
        step matches ExtractionStep::Decode { arguments } && bytes::views(arguments@)
            == video::arguments(before.input@, before.output@, device, before.selection),
        after.acceleration == before.acceleration,
{
}

} // verus!
