//! Taking a video apart into frames with FFmpeg, on a graphics device where one works.

use crate::bytes::{self, copy_bytes, has_prefix, has_suffix, part_of};
use crate::number::{self, append_number, to_decimal};
use crate::path::{self, file_name, sort_paths};
use crate::sort;
use crate::text::{self, append, copy_text, quoted, same_text, string_of};
use vstd::prelude::*;

verus! {

/// Which frames of a video are taken.
#[derive(Clone, Copy, Debug, Eq, PartialEq, Structural)]
pub struct FrameSelection {
    /// How many a second; where it is not given, all.
    pub frames_per_second: Option<u32>,
    /// How many at most.
    pub max_frames: Option<usize>,
}

impl Default for FrameSelection {
    /// Every frame is taken.
    fn default() -> (selection: Self)
        ensures
            selection.frames_per_second is None && selection.max_frames is None,
    {
        FrameSelection { frames_per_second: None, max_frames: None }
    }
}

/// Whether a graphics device decodes the video.
#[derive(Clone, Copy, Debug, Eq, PartialEq, Structural)]
pub enum AccelerationMode {
    /// Where one works, else software.
    Auto,
    /// Always.
    Vaapi,
    /// Never.
    Off,
}

impl AccelerationMode {
    /// The mode that a setting stands for.
    pub open spec fn meant(value: Seq<char>) -> Option<AccelerationMode> {
        if value == "auto"@ {
            Some(AccelerationMode::Auto)
        } else if value == "vaapi"@ {
            Some(AccelerationMode::Vaapi)
        } else if value == "off"@ {
            Some(AccelerationMode::Off)
        } else {
            None
        }
    }

    /// Reads the setting. Where it is not given, the mode is automatic.
    pub fn parse(value: Option<&str>) -> (mode: Result<AccelerationMode, String>)
        ensures
            match value {
                None => mode == Ok::<AccelerationMode, String>(AccelerationMode::Auto),
                Some(given) => match AccelerationMode::meant(given@) {
                    Some(found) => mode == Ok::<AccelerationMode, String>(found),
                    None => mode matches Err(message) && message@
                        == "invalid COMPUTERUSE_VIDEO_ACCEL value "@ + text::quoted_text(given@)
                        + "; expected auto, vaapi, or off"@,
                },
            },
    {
        let given: &str = match value {
            Some(given) => given,
            None => {
                return Ok(AccelerationMode::Auto);
            },
        };
        if same_text(given, "auto") {
            Ok(AccelerationMode::Auto)
        } else if same_text(given, "vaapi") {
            Ok(AccelerationMode::Vaapi)
        } else if same_text(given, "off") {
            Ok(AccelerationMode::Off)
        } else {
            let m: String = append(
                copy_text("invalid COMPUTERUSE_VIDEO_ACCEL value "),
                quoted(given).as_str(),
            );
            Err(append(m, "; expected auto, vaapi, or off"))
        }
    }
}

/// Which graphics devices are tried.
#[derive(Clone, Debug)]
pub struct VideoAcceleration {
    pub mode: AccelerationMode,
    pub devices: Vec<Vec<u8>>,
    /// Whether the device was given, so that no other is tried in its place.
    pub explicit_device: bool,
}

/// Whether the devices that are tried are none where software is wanted, the one that was
/// given, else those that were found.
pub open spec fn chosen(
    acceleration: VideoAcceleration,
    mode: AccelerationMode,
    explicit: Option<Vec<u8>>,
    found: Vec<Vec<u8>>,
) -> bool {
    &&& acceleration.mode == mode
    &&& acceleration.explicit_device == (explicit is Some)
    &&& acceleration.devices@ == match (mode, explicit) {
        (AccelerationMode::Off, _) => Seq::empty(),
        (_, Some(device)) => seq![device],
        (_, None) => found@,
    }
}

impl VideoAcceleration {
    /// Whether the devices of the machine have to be looked for.
    pub fn needs_discovery(mode: AccelerationMode, explicit: &Option<Vec<u8>>) -> (yes: bool)
        ensures
            yes == (mode !is Off && explicit is None),
    {
        !matches!(mode, AccelerationMode::Off) && explicit.is_none()
    }

    /// The devices to try: none where software is wanted, the one that was given, else
    /// those that were found.
    pub fn new(mode: AccelerationMode, explicit: Option<Vec<u8>>, found: Vec<Vec<u8>>) -> (acceleration:
        VideoAcceleration)
        ensures
            chosen(acceleration, mode, explicit, found),
    {
        let explicit_device: bool = explicit.is_some();
        let devices: Vec<Vec<u8>> = match (mode, explicit) {
            (AccelerationMode::Off, _) => Vec::new(),
            (_, Some(device)) => {
                let mut devices: Vec<Vec<u8>> = Vec::new();
                devices.push(device);
                devices
            },
            (_, None) => found,
        };
        VideoAcceleration { mode, devices, explicit_device }
    }
}

/// Whether a file is a frame that was extracted: its name is a number of ten digits between
/// `frame-` and `.png`.
pub open spec fn extracted(path: Seq<u8>) -> bool {
    match path::name_of(path) {
        Some(name) => {
            let start = bytes::encoded("frame-"@);
            let end = bytes::encoded(".png"@);
            &&& bytes::starts(name, start)
            &&& bytes::finishes(name, end)
            &&& name.len() == start.len() + 10 + end.len()
            &&& number::all_digit_bytes(name.subrange(start.len() as int, start.len() as int + 10))
        },
        None => false,
    }
}

/// Whether a file is a render node: its name is a number behind `renderD`.
pub open spec fn render_node(path: Seq<u8>) -> bool {
    match path::name_of(path) {
        Some(name) => {
            let start = bytes::encoded("renderD"@);
            &&& bytes::starts(name, start)
            &&& number::all_digit_bytes(name.skip(start.len() as int))
        },
        None => false,
    }
}

/// Decides whether bytes are digits only.
fn is_all_digits(bytes: &[u8]) -> (yes: bool)
    ensures
        yes == number::all_digit_bytes(bytes@),
{
    let mut index: usize = 0;
    while index < bytes.len()
        invariant
            index <= bytes.len(),
            forall|at: int| 0 <= at < index ==> 48 <= #[trigger] bytes@[at] <= 57,
        decreases bytes.len() - index,
    {
        if bytes[index] < 48 || bytes[index] > 57 {
            assert(!(48 <= bytes@[index as int] <= 57));
            return false;
        }
        index += 1;
    }
    true
}

/// Decides whether a file is a frame that was extracted.
pub fn is_extracted_frame(path: &[u8]) -> (yes: bool)
    ensures
        yes == extracted(path@),
{
    match file_name(path) {
        Some(name) => {
            let start: &[u8] = "frame-".as_bytes();
            let end: &[u8] = ".png".as_bytes();
            if !has_prefix(&name, start) || !has_suffix(&name, end) {
                return false;
            }
            let rest: usize = name.len() - start.len();
            if rest < 10 || rest - 10 != end.len() {
                return false;
            }
            let digits: Vec<u8> = part_of(&name, start.len(), start.len() + 10);
            is_all_digits(&digits)
        },
        None => false,
    }
}

/// Decides whether a file is a render node.
pub fn is_render_node(path: &[u8]) -> (yes: bool)
    ensures
        yes == render_node(path@),
{
    match file_name(path) {
        Some(name) => {
            let start: &[u8] = "renderD".as_bytes();
            if !has_prefix(&name, start) {
                return false;
            }
            let digits: Vec<u8> = part_of(&name, start.len(), name.len());
            assert(digits@ == name@.skip(start@.len() as int));
            is_all_digits(&digits)
        },
        None => false,
    }
}

/// The frames among files, in order.
pub fn extracted_frame_paths(paths: Vec<Vec<u8>>) -> (frames: Vec<Vec<u8>>)
    ensures
        sort::sorted_from(
            path::entries(frames@),
            path::entries(paths@.filter(|path: Vec<u8>| extracted(path@))),
        ),
        frames@.len() == paths@.filter(|path: Vec<u8>| extracted(path@)).len(),
{
    let ghost test = |path: Vec<u8>| extracted(path@);
    let mut kept: Vec<Vec<u8>> = Vec::new();
    proof {
        reveal(Seq::filter);
    }
    assert(paths@.take(0) == Seq::<Vec<u8>>::empty());
    for path in iter: paths
        invariant
            iter.seq() == paths@,
            test == (|path: Vec<u8>| extracted(path@)),
            kept@ == paths@.take(iter.index()).filter(test),
    {
        proof {
            reveal(Seq::filter);
            assert(paths@.take(iter.index() + 1).drop_last() == paths@.take(iter.index()));
            assert(paths@.take(iter.index() + 1).last() == path);
        }
        if is_extracted_frame(&path) {
            kept.push(path);
        }
    }
    assert(paths@.take(paths@.len() as int) == paths@);
    sort_paths(kept)
}

/// The render nodes among files, in order.
pub fn render_nodes(paths: Vec<Vec<u8>>) -> (nodes: Vec<Vec<u8>>)
    ensures
        sort::sorted_from(
            path::entries(nodes@),
            path::entries(paths@.filter(|path: Vec<u8>| render_node(path@))),
        ),
{
    let ghost test = |path: Vec<u8>| render_node(path@);
    let mut kept: Vec<Vec<u8>> = Vec::new();
    proof {
        reveal(Seq::filter);
    }
    assert(paths@.take(0) == Seq::<Vec<u8>>::empty());
    for path in iter: paths
        invariant
            iter.seq() == paths@,
            test == (|path: Vec<u8>| render_node(path@)),
            kept@ == paths@.take(iter.index()).filter(test),
    {
        proof {
            reveal(Seq::filter);
            assert(paths@.take(iter.index() + 1).drop_last() == paths@.take(iter.index()));
            assert(paths@.take(iter.index() + 1).last() == path);
        }
        if is_render_node(&path) {
            kept.push(path);
        }
    }
    assert(paths@.take(paths@.len() as int) == paths@);
    sort_paths(kept)
}

/// The path of a file in a directory.
pub open spec fn joined_path(directory: Seq<u8>, name: Seq<u8>) -> Seq<u8> {
    if directory.len() == 0 || directory.last() == 47 {
        directory + name
    } else {
        directory.push(47) + name
    }
}

/// The path of a file in a directory.
fn join_path(directory: &[u8], name: &[u8]) -> (path: Vec<u8>)
    ensures
        path@ == joined_path(directory@, name@),
{
    let mut path: Vec<u8> = copy_bytes(directory);
    if directory.len() > 0 && directory[directory.len() - 1] != 47 {
        path.push(47);
    }
    let ghost head = path@;
    let mut index: usize = 0;
    while index < name.len()
        invariant
            index <= name.len(),
            path@ == head + name@.take(index as int),
        decreases name.len() - index,
    {
        path.push(name[index]);
        index += 1;
    }
    assert(name@.take(index as int) == name@);
    path
}

/// The bytes of a text.
pub open spec fn word(text: Seq<char>) -> Seq<u8> {
    bytes::encoded(text)
}

/// What FFmpeg is given: options, where a device decodes that device before the input, which
/// frames are taken, and under which names they are written.
pub open spec fn arguments(
    input: Seq<u8>,
    output: Seq<u8>,
    device: Option<Seq<u8>>,
    selection: FrameSelection,
) -> Seq<Seq<u8>> {
    let options = seq![
        word("-hide_banner"@),
        word("-loglevel"@),
        word("error"@),
        word("-nostdin"@),
        word("-n"@),
    ];
    let hardware = match device {
        Some(path) => seq![
            word("-hwaccel"@),
            word("vaapi"@),
            word("-hwaccel_device"@),
            path,
        ],
        None => Seq::empty(),
    };
    let source = seq![word("-i"@), input];
    let rate = match selection.frames_per_second {
        Some(rate) => seq![word("-vf"@), word("fps="@ + number::decimal(rate as nat))],
        None => seq![word("-vsync"@), word("0"@)],
    };
    let limit = match selection.max_frames {
        Some(count) => seq![word("-frames:v"@), word(number::decimal(count as nat))],
        None => Seq::empty(),
    };
    let target = seq![
        word("-start_number"@),
        word("0"@),
        joined_path(output, word("frame-%010d.png"@)),
    ];
    options + hardware + source + rate + limit + target
}

/// Adds an argument.
fn add_bytes(arguments: &mut Vec<Vec<u8>>, bytes: &[u8])
    ensures
        bytes::views(final(arguments)@) == bytes::views(old(arguments)@).push(bytes@),
{
    let ghost earlier = arguments@;
    let copy: Vec<u8> = copy_bytes(bytes);
    arguments.push(copy);
    assert(bytes::views(arguments@) =~= bytes::views(earlier).push(bytes@));
}

/// Adds an argument.
fn add_word(arguments: &mut Vec<Vec<u8>>, text: &str)
    ensures
        bytes::views(final(arguments)@) == bytes::views(old(arguments)@).push(word(text@)),
{
    add_bytes(arguments, text.as_bytes())
}

/// What FFmpeg is given.
pub fn ffmpeg_arguments(
    input: &[u8],
    output: &[u8],
    device: Option<&Vec<u8>>,
    selection: FrameSelection,
) -> (list: Vec<Vec<u8>>)
    ensures
        bytes::views(list@) == arguments(
            input@,
            output@,
            match device {
                Some(path) => Some(path@),
                None => None,
            },
            selection,
        ),
{
    let mut list: Vec<Vec<u8>> = Vec::new();
    assert(bytes::views(list@) == Seq::<Seq<u8>>::empty());
    add_word(&mut list, "-hide_banner");
    add_word(&mut list, "-loglevel");
    add_word(&mut list, "error");
    add_word(&mut list, "-nostdin");
    add_word(&mut list, "-n");
    if let Some(path) = device {
        add_word(&mut list, "-hwaccel");
        add_word(&mut list, "vaapi");
        add_word(&mut list, "-hwaccel_device");
        add_bytes(&mut list, path);
    }
    add_word(&mut list, "-i");
    add_bytes(&mut list, input);
    match selection.frames_per_second {
        Some(rate) => {
            add_word(&mut list, "-vf");
            let filter: String = append_number(copy_text("fps="), rate as u128);
            add_word(&mut list, filter.as_str());
        },
        None => {
            add_word(&mut list, "-vsync");
            add_word(&mut list, "0");
        },
    }
    if let Some(count) = selection.max_frames {
        add_word(&mut list, "-frames:v");
        let digits: String = string_of(&to_decimal(count as u128));
        add_word(&mut list, digits.as_str());
    }
    add_word(&mut list, "-start_number");
    add_word(&mut list, "0");
    let pattern: Vec<u8> = join_path(output, "frame-%010d.png".as_bytes());
    add_bytes(&mut list, &pattern);
    let ghost given: Option<Seq<u8>> = match device {
        Some(path) => Some(path@),
        None => None,
    };
    assert(bytes::views(list@) =~= arguments(input@, output@, given, selection));
    list
}

/// The three settings are known by their words, and no other text is one.
pub proof fn law_settings_by_word(value: Seq<char>)
    ensures
        AccelerationMode::meant(value) == Some(AccelerationMode::Auto) <==> value == "auto"@,
        AccelerationMode::meant(value) == Some(AccelerationMode::Vaapi) <==> value == "vaapi"@,
        AccelerationMode::meant(value) == Some(AccelerationMode::Off) <==> value == "off"@,
{
    reveal_strlit("auto");
    reveal_strlit("vaapi");
    reveal_strlit("off");
    assert("auto"@.len() == 4 && "vaapi"@.len() == 5 && "off"@.len() == 3);
}

/// No device is tried where devices are off; the one that was given is tried alone; else
/// those that were found are tried, in order.
pub proof fn law_devices_to_be_tried(
    acceleration: VideoAcceleration,
    mode: AccelerationMode,
    explicit: Option<Vec<u8>>,
    found: Vec<Vec<u8>>,
)
    requires
        chosen(acceleration, mode, explicit, found),
    ensures
        acceleration.mode == mode,
        mode is Off ==> acceleration.devices@.len() == 0,
        mode !is Off && explicit is Some ==> acceleration.devices@ == seq![explicit->0],
        mode !is Off && explicit is None ==> acceleration.devices@ == found@,
        acceleration.explicit_device <==> explicit is Some,
{
}

/// The name of the frame with some digits for its number.
pub open spec fn frame_name(digits: Seq<u8>) -> Seq<u8> {
    bytes::encoded("frame-"@) + digits + bytes::encoded(".png"@)
}

/// A file is a frame that was extracted where its name is `frame-`, ten digits and `.png`,
/// and no other is.
pub proof fn law_extracted_frames_by_name(path: Seq<u8>, digits: Seq<u8>)
    ensures
        path::name_of(path) == Some(frame_name(digits)) ==> (extracted(path) <==> digits.len() == 10
            && number::all_digit_bytes(digits)),
        extracted(path) ==> exists|figures: Seq<u8>|
            path::name_of(path) == Some(#[trigger] frame_name(figures)),
{
    let start = bytes::encoded("frame-"@);
    let end = bytes::encoded(".png"@);
    let whole = frame_name(digits);
    assert(whole.take(start.len() as int) =~= start);
    assert(whole.skip(whole.len() - end.len()) =~= end);
    if digits.len() == 10 {
        assert(whole.subrange(start.len() as int, start.len() as int + 10) =~= digits);
    }
    if extracted(path) {
        let name = path::name_of(path)->0;
        let figures = name.subrange(start.len() as int, start.len() as int + 10);
        assert(name =~= name.take(start.len() as int) + figures + name.skip(
            name.len() - end.len(),
        ));
        assert(name == frame_name(figures));
    }
}

/// A file is a render node where its name is `renderD` and digits, and no other is.
pub proof fn law_render_nodes_by_name(path: Seq<u8>, rest: Seq<u8>)
    ensures
        path::name_of(path) == Some(bytes::encoded("renderD"@) + rest) ==> (render_node(path)
            <==> number::all_digit_bytes(rest)),
        render_node(path) ==> exists|digits: Seq<u8>|
            path::name_of(path) == Some(#[trigger] (bytes::encoded("renderD"@) + digits)),
{
    let start = bytes::encoded("renderD"@);
    let whole = start + rest;
    assert(whole.take(start.len() as int) =~= start);
    assert(whole.skip(start.len() as int) =~= rest);
    if render_node(path) {
        let name = path::name_of(path)->0;
        let digits = name.skip(start.len() as int);
        assert(name =~= start + digits);
    }
}

/// The frames of a video in one directory come in the order of their numbers.
pub proof fn law_frames_are_ordered_by_number(directory: Seq<u8>, left: Seq<u8>, right: Seq<u8>)
    requires
        left.len() == 10,
        right.len() == 10,
        number::all_digit_bytes(left),
        number::all_digit_bytes(right),
    ensures
        path::path_not_behind(
            path::within(directory, frame_name(left)),
            path::within(directory, frame_name(right)),
        ) <==> number::digit_bytes_value(left) <= number::digit_bytes_value(right),
{
    lemma_frame_name(left);
    lemma_frame_name(right);
    path::law_names_are_ordered_as_bytes(directory, frame_name(left), frame_name(right));
    let start = bytes::encoded("frame-"@);
    let end = bytes::encoded(".png"@);
    assert(frame_name(left) =~= start + (left + end));
    assert(frame_name(right) =~= start + (right + end));
    lemma_same_start(start, left + end, right + end);
    lemma_digits_ordered(left, right, end);
}

/// The name of a frame can be the name of a file.
proof fn lemma_frame_name(digits: Seq<u8>)
    requires
        number::all_digit_bytes(digits),
    ensures
        path::is_name(frame_name(digits)),
{
    reveal_strlit("frame-");
    reveal_strlit(".png");
    vstd::utf8::is_ascii_chars_encode_utf8("frame-"@);
    vstd::utf8::is_ascii_chars_encode_utf8(".png"@);
    let start = bytes::encoded("frame-"@);
    let end = bytes::encoded(".png"@);
    let name = frame_name(digits);
    assert forall|index: int| 0 <= index < name.len() implies #[trigger] name[index] != 47 by {
        if index < start.len() {
            assert(name[index] == start[index]);
            assert("frame-"@[index] as u8 == start[index]);
        } else if index < start.len() + digits.len() {
            assert(name[index] == digits[index - start.len()]);
        } else {
            let place = index - start.len() - digits.len();
            assert(name[index] == end[place]);
            assert(".png"@[place] as u8 == end[place]);
        }
    }
    assert(name.len() >= 10);
}

/// Bytes behind a common start are ordered as the whole is.
proof fn lemma_same_start(start: Seq<u8>, left: Seq<u8>, right: Seq<u8>)
    ensures
        bytes::not_behind(start + left, start + right) <==> bytes::not_behind(left, right),
    decreases start.len(),
{
    if start.len() == 0 {
        assert(start + left =~= left);
        assert(start + right =~= right);
    } else {
        let rest = start.drop_first();
        lemma_same_start(rest, left, right);
        assert((start + left)[0] == start[0] && (start + right)[0] == start[0]);
        assert((start + left).drop_first() =~= rest + left);
        assert((start + right).drop_first() =~= rest + right);
    }
}

/// As many digits are ordered as the numbers that they stand for.
proof fn lemma_digits_ordered(left: Seq<u8>, right: Seq<u8>, end: Seq<u8>)
    requires
        left.len() == right.len(),
        number::all_digit_bytes(left),
        number::all_digit_bytes(right),
    ensures
        bytes::not_behind(left + end, right + end) <==> number::digit_bytes_value(left)
            <= number::digit_bytes_value(right),
    decreases left.len(),
{
    if left.len() == 0 {
        assert(left + end =~= right + end);
        bytes::lemma_total(left + end, left + end);
        assert(left =~= right);
    } else {
        let first = left.drop_first();
        let second = right.drop_first();
        assert forall|index: int| 0 <= index < first.len() implies 48 <= #[trigger] first[index]
            <= 57 by {
            assert(first[index] == left[index + 1]);
        }
        assert forall|index: int| 0 <= index < second.len() implies 48 <= #[trigger] second[index]
            <= 57 by {
            assert(second[index] == right[index + 1]);
        }
        lemma_digits_ordered(first, second, end);
        lemma_first_digit(left);
        lemma_first_digit(right);
        assert((left + end)[0] == left[0] && (right + end)[0] == right[0]);
        assert((left + end).drop_first() =~= first + end);
        assert((right + end).drop_first() =~= second + end);
        let scale = power(first.len());
        if left[0] < right[0] {
            assert((left[0] - 48) * scale + scale <= (right[0] - 48) * scale) by (nonlinear_arith)
                requires
                    left[0] + 1 <= right[0],
                    scale >= 0,
            ;
        }
        if right[0] < left[0] {
            assert((right[0] - 48) * scale + scale <= (left[0] - 48) * scale) by (nonlinear_arith)
                requires
                    right[0] + 1 <= left[0],
                    scale >= 0,
            ;
        }
    }
}

/// A power of ten.
spec fn power(size: nat) -> int
    decreases size,
{
    if size == 0 {
        1
    } else {
        10 * power((size - 1) as nat)
    }
}

/// The first digit of a number counts for as much as there are digits behind it.
proof fn lemma_first_digit(digits: Seq<u8>)
    requires
        digits.len() > 0,
        number::all_digit_bytes(digits),
    ensures
        number::digit_bytes_value(digits) == (digits[0] - 48) * power((digits.len() - 1) as nat)
            + number::digit_bytes_value(digits.drop_first()),
        0 <= number::digit_bytes_value(digits.drop_first()) < power((digits.len() - 1) as nat),
    decreases digits.len(),
{
    let head = digits.drop_last();
    let rest = digits.drop_first();
    if digits.len() == 1 {
        assert(head =~= Seq::empty());
        assert(rest =~= Seq::empty());
        assert(number::digit_bytes_value(head) == 0);
        assert(number::digit_bytes_value(rest) == 0);
        assert(power(0) == 1);
    } else {
        assert forall|index: int| 0 <= index < head.len() implies 48 <= #[trigger] head[index]
            <= 57 by {
            assert(head[index] == digits[index]);
        }
        lemma_first_digit(head);
        assert(rest.drop_last() =~= head.drop_first());
        assert(rest.last() == digits.last());
        assert(48 <= digits[digits.len() - 1] <= 57);
        let scale = power((head.len() - 1) as nat);
        assert(power((digits.len() - 1) as nat) == 10 * scale);
        assert((digits[0] - 48) * (10 * scale) == 10 * ((digits[0] - 48) * scale))
            by (nonlinear_arith);
    }
}

/// What FFmpeg is given names the input behind `-i` and the pattern of the frames at the
/// end, numbered from zero. A rate is set where one is wanted, else every frame is taken,
/// and a limit is set only where there is one.
pub proof fn law_arguments_name_what_is_wanted(
    input: Seq<u8>,
    output: Seq<u8>,
    device: Option<Seq<u8>>,
    selection: FrameSelection,
)
    ensures
        ({
            let all = arguments(input, output, device, selection);
            let at: int = if device is Some {
                9
            } else {
                5
            };
            let limited: int = if selection.max_frames is Some {
                2
            } else {
                0
            };
            let end = at + 4 + limited;
            &&& all.len() == end + 3
            &&& all[0] == word("-hide_banner"@) && all[1] == word("-loglevel"@)
            &&& all[2] == word("error"@) && all[3] == word("-nostdin"@) && all[4] == word("-n"@)
            &&& device matches Some(path) ==> all[5] == word("-hwaccel"@) && all[6] == word(
                "vaapi"@,
            ) && all[7] == word("-hwaccel_device"@) && all[8] == path
            &&& all[at] == word("-i"@)
            &&& all[at + 1] == input
            &&& match selection.frames_per_second {
                Some(rate) => all[at + 2] == word("-vf"@) && all[at + 3] == word(
                    "fps="@ + number::decimal(rate as nat),
                ),
                None => all[at + 2] == word("-vsync"@) && all[at + 3] == word("0"@),
            }
            &&& selection.max_frames matches Some(count) ==> all[at + 4] == word("-frames:v"@)
                && all[at + 5] == word(number::decimal(count as nat))
            &&& all[end] == word("-start_number"@)
            &&& all[end + 1] == word("0"@)
            &&& all[end + 2] == joined_path(output, bytes::encoded("frame-%010d.png"@))
        }),
{
}

/// A file in a directory has its own name there, with one slash between them, whether the
/// directory ends with one or not.
pub proof fn law_file_is_in_the_directory(directory: Seq<u8>, name: Seq<u8>)
    requires
        directory.len() > 0,
        directory.last() != 47,
        path::is_name(name),
    ensures
        joined_path(directory, name) == path::within(directory, name),
        joined_path(directory.push(47u8), name) == path::within(directory, name),
        path::name_of(joined_path(directory, name)) == Some(name),
        joined_path(Seq::empty(), name) == name,
{
    path::law_path_ends_in_its_name(directory, name);
    assert(Seq::<u8>::empty() + name =~= name);
}

} // verus!
