//! Screenshots: which files are images, and when one is complete.

use crate::bytes::{self, copy_bytes, has_prefix, has_suffix, is_encoded, stands_at, to_lowered};
use crate::path::{self, extension, lossy};
use crate::text::{self, append, copy_text, same_text};
use vstd::prelude::*;

verus! {

/// The size above which a frame is refused, in bytes.
pub const MAX_FRAME_BYTES: u64 = 20_971_520;

/// The media type of the image that a path names, by its extension.
pub open spec fn media_of(path: Seq<u8>) -> Option<Seq<char>> {
    match path::extension_of(path) {
        Some(ending) => {
            let small = bytes::lowered(ending);
            if small == bytes::encoded("png"@) {
                Some("image/png"@)
            } else if small == bytes::encoded("jpg"@) || small == bytes::encoded("jpeg"@) {
                Some("image/jpeg"@)
            } else if small == bytes::encoded("webp"@) {
                Some("image/webp"@)
            } else {
                None
            }
        },
        None => None,
    }
}

/// The media type of the image that a path names.
pub fn media_type(path: &[u8]) -> (media: Option<&'static str>)
    ensures
        match media {
            Some(name) => media_of(path@) == Some(name@),
            None => media_of(path@) is None,
        },
{
    match extension(path) {
        Some(ending) => {
            let small: Vec<u8> = to_lowered(&ending);
            if is_encoded(&small, "png") {
                Some("image/png")
            } else if is_encoded(&small, "jpg") || is_encoded(&small, "jpeg") {
                Some("image/jpeg")
            } else if is_encoded(&small, "webp") {
                Some("image/webp")
            } else {
                None
            }
        },
        None => None,
    }
}

/// The bytes that a PNG image starts with.
pub open spec fn png_start() -> Seq<u8> {
    seq![0x89u8, 0x50, 0x4e, 0x47, 0x0d, 0x0a, 0x1a, 0x0a]
}

/// The empty chunk that ends a PNG image, without its checksum.
pub open spec fn png_end() -> Seq<u8> {
    seq![0u8, 0, 0, 0, 0x49, 0x45, 0x4e, 0x44]
}

/// A 32-bit number in bytes, the lowest first.
pub open spec fn little_endian(bytes: Seq<u8>, from: int) -> int {
    bytes[from] + bytes[from + 1] * 0x100 + bytes[from + 2] * 0x1_0000 + bytes[from + 3]
        * 0x100_0000
}

/// Whether bytes are a whole image of a media type, as far as its container tells.
pub open spec fn complete(bytes: Seq<u8>, media: Seq<char>) -> bool {
    if media == "image/png"@ {
        &&& bytes::starts(bytes, png_start())
        &&& bytes.len() >= 20
        &&& bytes.subrange(bytes.len() - 12, bytes.len() - 4) == png_end()
    } else if media == "image/jpeg"@ {
        &&& bytes::starts(bytes, seq![0xffu8, 0xd8])
        &&& bytes::finishes(bytes, seq![0xffu8, 0xd9])
    } else if media == "image/webp"@ {
        &&& bytes.len() >= 12
        &&& bytes::starts(bytes, seq![0x52u8, 0x49, 0x46, 0x46])
        &&& bytes.subrange(8, 12) == seq![0x57u8, 0x45, 0x42, 0x50]
        &&& little_endian(bytes, 4) + 8 == bytes.len()
    } else {
        false
    }
}

/// Decides whether bytes are a whole image of a media type.
pub fn is_complete_image(bytes: &[u8], media_type: &str) -> (yes: bool)
    ensures
        yes == complete(bytes@, media_type@),
{
    proof {
        reveal_strlit("image/png");
        reveal_strlit("image/jpeg");
        reveal_strlit("image/webp");
        assert("image/png"@.len() == 9);
        assert("image/jpeg"@[6] == 'j');
        assert("image/webp"@[6] == 'w');
    }
    if same_text(media_type, "image/png") {
        let start: [u8; 8] = [0x89, 0x50, 0x4e, 0x47, 0x0d, 0x0a, 0x1a, 0x0a];
        let end: [u8; 8] = [0, 0, 0, 0, 0x49, 0x45, 0x4e, 0x44];
        assert(start@ == png_start());
        assert(end@ == png_end());
        has_prefix(bytes, &start) && bytes.len() >= 20 && stands_at(bytes, bytes.len() - 12, &end)
    } else if same_text(media_type, "image/jpeg") {
        let start: [u8; 2] = [0xff, 0xd8];
        let end: [u8; 2] = [0xff, 0xd9];
        assert(start@ == seq![0xffu8, 0xd8]);
        assert(end@ == seq![0xffu8, 0xd9]);
        has_prefix(bytes, &start) && has_suffix(bytes, &end)
    } else if same_text(media_type, "image/webp") {
        let start: [u8; 4] = [0x52, 0x49, 0x46, 0x46];
        let form: [u8; 4] = [0x57, 0x45, 0x42, 0x50];
        assert(start@ == seq![0x52u8, 0x49, 0x46, 0x46]);
        assert(form@ == seq![0x57u8, 0x45, 0x42, 0x50]);
        bytes.len() >= 12 && has_prefix(bytes, &start) && stands_at(bytes, 8, &form) && (
        bytes[4] as u64) + (bytes[5] as u64) * 0x100 + (bytes[6] as u64) * 0x1_0000 + (
        bytes[7] as u64) * 0x100_0000 + 8 == bytes.len() as u64
    } else {
        false
    }
}

/// The character for six bits in base64.
pub open spec fn symbol(value: int) -> char {
    if value < 26 {
        (65 + value) as char
    } else if value < 52 {
        (97 + value - 26) as char
    } else if value < 62 {
        (48 + value - 52) as char
    } else if value == 62 {
        '+'
    } else {
        '/'
    }
}

/// Bytes in base64, as RFC 4648 has it: four characters for each three bytes, and
/// equals signs for those that are missing at the end.
pub open spec fn base64(bytes: Seq<u8>) -> Seq<char>
    decreases bytes.len(),
{
    if bytes.len() == 0 {
        Seq::empty()
    } else if bytes.len() == 1 {
        let value = bytes[0] * 0x10;
        seq![symbol(value / 0x40), symbol(value % 0x40), '=', '=']
    } else if bytes.len() == 2 {
        let value = bytes[0] * 0x400 + bytes[1] * 4;
        seq![symbol(value / 0x1000), symbol(value / 0x40 % 0x40), symbol(value % 0x40), '=']
    } else {
        let value = bytes[0] * 0x1_0000 + bytes[1] * 0x100 + bytes[2];
        seq![
            symbol(value / 0x4_0000),
            symbol(value / 0x1000 % 0x40),
            symbol(value / 0x40 % 0x40),
            symbol(value % 0x40),
        ] + base64(bytes.skip(3))
    }
}

/// `base64::engine::general_purpose::STANDARD.encode` writes bytes in base64 with the
/// standard alphabet and padding, as RFC 4648 has it. What it writes has to fit in
/// memory.
#[verifier::external_body]
fn encode_base64(bytes: &[u8]) -> (text: String)
    requires
        bytes@.len() / 3 * 4 + 4 <= isize::MAX,
    ensures
        text@ == base64(bytes@),
{
    base64::Engine::encode(&base64::engine::general_purpose::STANDARD, bytes)
}

/// An image that was read.
#[derive(Clone, Debug)]
pub struct Frame {
    pub path: Vec<u8>,
    pub media_type: &'static str,
    pub bytes: Vec<u8>,
}

impl Frame {
    /// A frame is within the size limit.
    pub open spec fn wf(self) -> bool {
        self.bytes@.len() <= MAX_FRAME_BYTES
    }

    /// What the image becomes in base64 fits in memory.
    pub open spec fn encodable(self) -> bool {
        self.bytes@.len() / 3 * 4 + 4 <= isize::MAX
    }

    /// The address that holds the image itself.
    pub open spec fn address(self) -> Seq<char> {
        "data:"@ + self.media_type@ + ";base64,"@ + base64(self.bytes@)
    }

    /// The address that holds the image itself.
    pub fn data_url(&self) -> (url: String)
        requires
            self.encodable(),
        ensures
            url@ == self.address(),
    {
        let url: String = append(append(copy_text("data:"), self.media_type), ";base64,");
        append(url, encode_base64(&self.bytes).as_str())
    }
}

/// A frame within the size limit can be written in base64.
pub proof fn law_frames_can_be_written(frame: Frame)
    requires
        frame.wf(),
    ensures
        frame.encodable(),
{
}

/// What tells one state of a file from another: its size, and when it was modified,
/// in nanoseconds from the Unix epoch.
#[derive(Clone, Copy, Debug, Eq, PartialEq, Structural)]
pub struct FrameIdentity {
    pub len: u64,
    pub modified: Option<i128>,
}

/// What is said of a frame that is too large.
pub open spec fn too_large(path: Seq<u8>) -> Seq<char> {
    "frame exceeds 20 MiB limit: "@ + path::lossy_text(path)
}

/// Refuses a frame above the size limit.
pub fn check_size(path: &[u8], len: u64) -> (outcome: Result<(), String>)
    ensures
        match outcome {
            Ok(_) => len <= MAX_FRAME_BYTES,
            Err(message) => len > MAX_FRAME_BYTES && message@ == too_large(path@),
        },
{
    if len > MAX_FRAME_BYTES {
        Err(append(copy_text("frame exceeds 20 MiB limit: "), lossy(path).as_str()))
    } else {
        Ok(())
    }
}

/// Whether a file was read while it did not change, and is a whole image.
pub open spec fn stable(
    path: Seq<u8>,
    before: FrameIdentity,
    bytes: Seq<u8>,
    after: FrameIdentity,
) -> bool {
    &&& before == after
    &&& bytes.len() == after.len
    &&& complete(bytes, media_of(path)->0)
}

/// What comes of reading a file as a frame: `before` and `after` tell its state
/// before and after its bytes were read. A file that changed meanwhile or is no whole
/// image is not a frame yet. One above the size limit is an error.
pub fn read_stable_frame(
    path: &[u8],
    before: FrameIdentity,
    bytes: Vec<u8>,
    after: FrameIdentity,
) -> (frame: Result<Option<Frame>, String>)
    requires
        media_of(path@) is Some,
    ensures
        match frame {
            Err(message) => (before.len > MAX_FRAME_BYTES || bytes@.len() > MAX_FRAME_BYTES)
                && message@ == too_large(path@),
            Ok(None) => {
                &&& before.len <= MAX_FRAME_BYTES && bytes@.len() <= MAX_FRAME_BYTES
                &&& !stable(path@, before, bytes@, after)
            },
            Ok(Some(found)) => {
                &&& before.len <= MAX_FRAME_BYTES && bytes@.len() <= MAX_FRAME_BYTES
                &&& stable(path@, before, bytes@, after)
                &&& found.path@ == path@
                &&& found.bytes == bytes
                &&& media_of(path@) == Some(found.media_type@)
                &&& found.wf()
            },
        },
{
    match check_size(path, before.len) {
        Ok(_) => {},
        Err(message) => {
            return Err(message);
        },
    }
    match check_size(path, bytes.len() as u64) {
        Ok(_) => {},
        Err(message) => {
            return Err(message);
        },
    }
    let media: &'static str = match media_type(path) {
        Some(media) => media,
        None => {
            return Ok(None);
        },
    };
    if before != after || bytes.len() as u64 != after.len || !is_complete_image(&bytes, media) {
        return Ok(None);
    }
    Ok(Some(Frame { path: copy_bytes(path), media_type: media, bytes }))
}

/// A file is an image of a type where its extension is one of that type, in letters of any
/// case, and of no type else.
pub proof fn law_images_by_extension(path: Seq<u8>)
    ensures
        path::extension_of(path) is None ==> media_of(path) is None,
        path::extension_of(path) matches Some(ending) ==> {
            let small = bytes::lowered(ending);
            &&& media_of(path) == Some("image/png"@) <==> small == bytes::encoded("png"@)
            &&& media_of(path) == Some("image/jpeg"@) <==> small == bytes::encoded("jpg"@) || small
                == bytes::encoded("jpeg"@)
            &&& media_of(path) == Some("image/webp"@) <==> small == bytes::encoded("webp"@)
            &&& media_of(path) is Some ==> media_of(path) == Some("image/png"@) || media_of(path)
                == Some("image/jpeg"@) || media_of(path) == Some("image/webp"@)
        },
{
    lemma_media_types();
    lemma_extensions();
}

/// The media types are different.
proof fn lemma_media_types()
    ensures
        "image/png"@ != "image/jpeg"@,
        "image/png"@ != "image/webp"@,
        "image/jpeg"@ != "image/webp"@,
{
    reveal_strlit("image/png");
    reveal_strlit("image/jpeg");
    reveal_strlit("image/webp");
    assert("image/png"@[6] == 'p');
    assert("image/jpeg"@[6] == 'j');
    assert("image/webp"@[6] == 'w');
}

/// The extensions are different.
proof fn lemma_extensions()
    ensures
        bytes::encoded("png"@) != bytes::encoded("jpg"@),
        bytes::encoded("png"@) != bytes::encoded("jpeg"@),
        bytes::encoded("png"@) != bytes::encoded("webp"@),
        bytes::encoded("jpg"@) != bytes::encoded("webp"@),
        bytes::encoded("jpeg"@) != bytes::encoded("webp"@),
{
    reveal_strlit("png");
    reveal_strlit("jpg");
    reveal_strlit("jpeg");
    reveal_strlit("webp");
    vstd::utf8::encode_utf8_decode_utf8("png"@);
    vstd::utf8::encode_utf8_decode_utf8("jpg"@);
    vstd::utf8::encode_utf8_decode_utf8("jpeg"@);
    vstd::utf8::encode_utf8_decode_utf8("webp"@);
    assert("png"@[0] == 'p' && "jpg"@[0] == 'j' && "jpeg"@[0] == 'j' && "webp"@[0] == 'w');
}

/// A PNG image is whole where its signature, anything, and an empty end chunk with its
/// checksum of four bytes follow each other, and only there.
pub proof fn law_whole_png(bytes: Seq<u8>, middle: Seq<u8>, checksum: Seq<u8>)
    requires
        checksum.len() == 4,
    ensures
        complete(
            seq![0x89u8, 'P' as u8, 'N' as u8, 'G' as u8, 13u8, 10u8, 26u8, 10u8] + middle + seq![
                0u8,
                0u8,
                0u8,
                0u8,
                'I' as u8,
                'E' as u8,
                'N' as u8,
                'D' as u8,
            ] + checksum,
            "image/png"@,
        ),
        complete(bytes, "image/png"@) ==> {
            let end = bytes.len() - 12;
            &&& bytes.len() >= 20
            &&& bytes[0] == 0x89
            &&& bytes[1] == 'P' as u8 && bytes[2] == 'N' as u8 && bytes[3] == 'G' as u8
            &&& bytes[4] == 13 && bytes[5] == 10 && bytes[6] == 26 && bytes[7] == 10
            &&& bytes[end] == 0 && bytes[end + 1] == 0
            &&& bytes[end + 2] == 0 && bytes[end + 3] == 0
            &&& bytes[end + 4] == 'I' as u8 && bytes[end + 5] == 'E' as u8
            &&& bytes[end + 6] == 'N' as u8 && bytes[end + 7] == 'D' as u8
        },
{
    lemma_media_types();
    let start = seq![0x89u8, 'P' as u8, 'N' as u8, 'G' as u8, 13u8, 10u8, 26u8, 10u8];
    let chunk = seq![0u8, 0u8, 0u8, 0u8, 'I' as u8, 'E' as u8, 'N' as u8, 'D' as u8];
    let whole = start + middle + chunk + checksum;
    assert(whole.take(8) =~= png_start());
    assert(whole.subrange(whole.len() - 12, whole.len() - 4) =~= png_end());
    if complete(bytes, "image/png"@) {
        let head = bytes.take(8);
        let end = bytes.len() - 12;
        let tail = bytes.subrange(end, bytes.len() - 4);
        assert forall|index: int| 0 <= index < 8 implies bytes[index] == #[trigger] head[index]
            && bytes[end + index] == tail[index] by {}
        assert(head[0] == 0x89 && head[1] == 0x50 && head[2] == 0x4e && head[3] == 0x47);
        assert(head[4] == 13 && head[5] == 10 && head[6] == 26 && head[7] == 10);
        assert(tail[0] == 0 && tail[1] == 0 && tail[2] == 0 && tail[3] == 0);
        assert(tail[4] == 0x49 && tail[5] == 0x45 && tail[6] == 0x4e && tail[7] == 0x44);
    }
}

/// A JPEG image is whole where the mark of its start, anything, and the mark of its end
/// follow each other, and only there.
pub proof fn law_whole_jpeg(bytes: Seq<u8>, middle: Seq<u8>)
    ensures
        complete(seq![0xffu8, 0xd8u8] + middle + seq![0xffu8, 0xd9u8], "image/jpeg"@),
        complete(bytes, "image/jpeg"@) ==> {
            &&& bytes.len() >= 4
            &&& bytes[0] == 0xff && bytes[1] == 0xd8
            &&& bytes[bytes.len() - 2] == 0xff && bytes[bytes.len() - 1] == 0xd9
        },
{
    lemma_media_types();
    let whole = seq![0xffu8, 0xd8u8] + middle + seq![0xffu8, 0xd9u8];
    assert(whole.take(2) =~= seq![0xffu8, 0xd8]);
    assert(whole.skip(whole.len() - 2) =~= seq![0xffu8, 0xd9]);
    if complete(bytes, "image/jpeg"@) {
        let size = bytes.len() as int;
        let head = bytes.take(2);
        let tail = bytes.skip(size - 2);
        assert(head[0] == bytes[0] && head[1] == bytes[1]);
        assert(tail[0] == bytes[size - 2] && tail[1] == bytes[size - 1]);
    }
}

/// A whole WebP image is a container of its form whose header tells how many bytes follow
/// it, the lowest byte of that number first.
pub proof fn law_whole_webp(bytes: Seq<u8>, low: u8, second: u8, third: u8, high: u8, rest: Seq<u8>)
    requires
        bytes == seq!['R' as u8, 'I' as u8, 'F' as u8, 'F' as u8, low, second, third, high]
            + seq!['W' as u8, 'E' as u8, 'B' as u8, 'P' as u8] + rest,
    ensures
        complete(bytes, "image/webp"@) <==> low + 256 * (second + 256 * (third + 256 * high))
            == rest.len() + 4,
{
    lemma_media_types();
    assert(bytes.take(4) =~= seq![0x52u8, 0x49, 0x46, 0x46]);
    assert(bytes.subrange(8, 12) =~= seq![0x57u8, 0x45, 0x42, 0x50]);
    assert(bytes[4] == low && bytes[5] == second && bytes[6] == third && bytes[7] == high);
}

/// What is not such a container is no whole WebP image, and bytes of another type are no
/// whole image at all.
pub proof fn law_no_other_image_is_whole(bytes: Seq<u8>, media: Seq<char>)
    ensures
        complete(bytes, "image/webp"@) ==> bytes.len() >= 12 && bytes[0] == 'R' as u8 && bytes[1]
            == 'I' as u8 && bytes[2] == 'F' as u8 && bytes[3] == 'F' as u8 && bytes[8] == 'W' as u8
            && bytes[9] == 'E' as u8 && bytes[10] == 'B' as u8 && bytes[11] == 'P' as u8,
        media != "image/png"@ && media != "image/jpeg"@ && media != "image/webp"@ ==> !complete(
            bytes,
            media,
        ),
{
    lemma_media_types();
    if complete(bytes, "image/webp"@) {
        let head = bytes.take(4);
        let form = bytes.subrange(8, 12);
        assert(head[0] == bytes[0] && head[1] == bytes[1] && head[2] == bytes[2] && head[3]
            == bytes[3]);
        assert(form[0] == bytes[8] && form[1] == bytes[9] && form[2] == bytes[10] && form[3]
            == bytes[11]);
    }
}

/// A file that changed while it was read is no frame, nor one that was read in part, nor
/// one that is no whole image of its type. Any other is.
pub proof fn law_frame_is_read_in_one_state(
    path: Seq<u8>,
    before: FrameIdentity,
    bytes: Seq<u8>,
    after: FrameIdentity,
)
    requires
        media_of(path) is Some,
    ensures
        before.len != after.len ==> !stable(path, before, bytes, after),
        before.modified != after.modified ==> !stable(path, before, bytes, after),
        bytes.len() != before.len ==> !stable(path, before, bytes, after),
        before == after && bytes.len() == before.len ==> (stable(path, before, bytes, after)
            <==> complete(bytes, media_of(path)->0)),
{
}

/// A frame is within the limit up to 20 MiB, and one beyond is told by its path.
pub proof fn law_size_limit(frame: Frame, path: Seq<u8>)
    ensures
        frame.wf() <==> frame.bytes@.len() <= 20 * 1024 * 1024,
        text::ends(too_large(path), path::lossy_text(path)),
{
    text::lemma_part_occurs(
        "frame exceeds 20 MiB limit: "@,
        path::lossy_text(path),
        Seq::empty(),
    );
}

/// The address of an image tells its type, and then holds the image.
pub proof fn law_address_holds_the_image(frame: Frame)
    ensures
        text::begins(frame.address(), "data:"@ + frame.media_type@ + ";base64,"@),
        text::ends(frame.address(), base64(frame.bytes@)),
        frame.address().len() == ("data:"@ + frame.media_type@ + ";base64,"@).len() + base64(
            frame.bytes@,
        ).len(),
{
    let start = "data:"@ + frame.media_type@ + ";base64,"@;
    assert(frame.address().take(start.len() as int) =~= start);
    text::lemma_part_occurs(start, base64(frame.bytes@), Seq::empty());
}

} // verus!
