//! Images that are attached to a message: what is accepted, what has to be
//! made smaller, and what the user is told about the rest.

use crate::binary64::{double_of, nearest, round_div, to_double, whole_of_quotient, whole_quotient};
use crate::decimal::{dec, hex, hex_text, u128_text, u64_text, usize_text};
use crate::json::{values, Json, JsonValue};
use crate::shell::store::AppStore;
use crate::table::Table;
use crate::text::{cat2, cat3, opt_view, owned, str_eq, views};
use base64::Engine;
use vstd::prelude::*;
use vstd::string::*;

verus! {

// ---------------------------------------------------------------------------
// Types
// ---------------------------------------------------------------------------
/// What the host accepts.
#[derive(Debug, Clone, Copy, PartialEq, Eq, Structural)]
pub struct ImageAttachmentLimits {
    pub max_images_per_message: usize,
    pub max_message_image_bytes: u64,
    pub max_image_bytes: u64,
    /// The longest edge, in pixels.
    pub max_image_dimension: u32,
}

/// The media types that are accepted.
#[derive(Debug, Clone, Copy, PartialEq, Eq, Structural)]
pub enum ImageMediaType {
    Png,
    Jpeg,
    Webp,
    Gif,
}

impl ImageMediaType {
    /// The name of the media type.
    pub open spec fn name(self) -> Seq<char> {
        match self {
            ImageMediaType::Png => "image/png"@,
            ImageMediaType::Jpeg => "image/jpeg"@,
            ImageMediaType::Webp => "image/webp"@,
            ImageMediaType::Gif => "image/gif"@,
        }
    }

    /// The name of the media type.
    pub fn as_str(self) -> (r: &'static str)
        ensures
            r@ == self.name(),
    {
        match self {
            ImageMediaType::Png => "image/png",
            ImageMediaType::Jpeg => "image/jpeg",
            ImageMediaType::Webp => "image/webp",
            ImageMediaType::Gif => "image/gif",
        }
    }

    /// The media type of a name; none where the name is not accepted.
    pub fn parse(s: &str) -> (r: Option<ImageMediaType>)
        ensures
            match r {
                Some(m) => m.name() == s@,
                None => forall|m: ImageMediaType| #[trigger] m.name() != s@,
            },
    {
        if str_eq(s, "image/png") {
            Some(ImageMediaType::Png)
        } else if str_eq(s, "image/jpeg") {
            Some(ImageMediaType::Jpeg)
        } else if str_eq(s, "image/webp") {
            Some(ImageMediaType::Webp)
        } else if str_eq(s, "image/gif") {
            Some(ImageMediaType::Gif)
        } else {
            None
        }
    }
}

/// An image that waits to be sent.
#[derive(Debug, PartialEq, Eq)]
pub struct DraftImage {
    pub id: String,
    pub bytes: Vec<u8>,
    pub media_type: String,
    pub name: Option<String>,
}

/// The content of a draft.
#[verifier::ext_equal]
pub struct DraftValue {
    pub id: Seq<char>,
    pub bytes: Seq<u8>,
    pub media_type: Seq<char>,
    pub name: Option<Seq<char>>,
}

impl View for DraftImage {
    type V = DraftValue;

    open spec fn view(&self) -> DraftValue {
        DraftValue {
            id: self.id@,
            bytes: self.bytes@,
            media_type: self.media_type@,
            name: opt_view(self.name),
        }
    }
}

pub open spec fn draft_values(v: Seq<DraftImage>) -> Seq<DraftValue> {
    v.map_values(|d: DraftImage| d@)
}

/// An image that can be shown.
#[derive(Debug, PartialEq, Eq)]
pub struct Picture {
    pub bytes: Vec<u8>,
    pub media_type: String,
}

/// What the user is told about images that were refused.
#[derive(Debug, PartialEq, Eq)]
pub struct AttachmentToast {
    pub text: String,
}

/// The images of the window.
pub struct AttachmentsStore {
    pub draft_images: Vec<DraftImage>,
    /// The images of sent messages, by their ids.
    pub image_cache: Table<Picture>,
    /// The image that fills the window, with its id.
    pub lightbox: Option<(String, Picture)>,
    pub attachment_toast: Option<AttachmentToast>,
}

impl AttachmentsStore {
    /// No image is cached twice.
    pub open spec fn wf(self) -> bool {
        self.image_cache.wf()
    }

    /// No image is drafted, cached or shown, and no refusal is.
    pub open spec fn is_fresh(self) -> bool {
        &&& self.draft_images@.len() == 0
        &&& self.image_cache@ == Map::<Seq<char>, Picture>::empty()
        &&& self.lightbox is None
        &&& self.attachment_toast is None
    }

    /// No image.
    pub fn new() -> (r: AttachmentsStore)
        ensures
            r.wf(),
            r.is_fresh(),
    {
        let image_cache: Table<Picture> = Table::new();
        AttachmentsStore {
            draft_images: Vec::new(),
            image_cache,
            lightbox: None,
            attachment_toast: None,
        }
    }
}

// ---------------------------------------------------------------------------
// Texts
// ---------------------------------------------------------------------------
/// The bytes of a megabyte.
pub const MB: u64 = 1_048_576;

/// The bytes of a kilobyte.
pub const KB: u64 = 1024;

/// A size: megabytes with one digit behind the point, or none where the
/// fraction is within a twentieth of a whole one; else kilobytes, else bytes.
pub open spec fn size_text(bytes: u64) -> Seq<char> {
    if bytes >= MB {
        let n = double_of(bytes as nat);
        let fraction = n % (MB as nat);
        if 20 * fraction < MB || 20 * fraction >= 19 * MB {
            dec(nearest(n, MB as nat)) + "MB"@
        } else {
            let tenths = nearest(10 * n, MB as nat);
            dec(tenths / 10) + "."@ + dec(tenths % 10) + "MB"@
        }
    } else if bytes >= KB {
        dec(nearest(bytes as nat, KB as nat)) + "KB"@
    } else {
        dec(bytes as nat) + "B"@
    }
}

/// See [`size_text`].
pub fn image_size_text(bytes: u64) -> (r: String)
    ensures
        r@ == size_text(bytes),
{
    if bytes >= MB {
        let n = to_double(bytes);
        let fraction: u128 = n % (MB as u128);
        if 20 * fraction < MB as u128 || 20 * fraction >= 19 * (MB as u128) {
            let t = u128_text(round_div(n, MB as u128));
            cat2(t.as_str(), "MB")
        } else {
            let tenths = round_div(10 * n, MB as u128);
            let whole = u128_text(tenths / 10);
            let digit = u128_text(tenths % 10);
            let t = cat3(whole.as_str(), ".", digit.as_str());
            cat2(t.as_str(), "MB")
        }
    } else if bytes >= KB {
        let t = u128_text(round_div(bytes as u128, KB as u128));
        cat2(t.as_str(), "KB")
    } else {
        let t = u64_text(bytes);
        cat2(t.as_str(), "B")
    }
}

/// What the user is told about a reason for refusal.
pub open spec fn reject_text(reason: Seq<char>, limits: ImageAttachmentLimits) -> Seq<char> {
    if reason == "TOO_MANY_IMAGES"@ {
        "一条消息最多添加 "@ + dec(limits.max_images_per_message as nat) + " 张图片"@
    } else if reason == "IMAGES_TOO_LARGE"@ {
        "图片总大小超过 "@ + size_text(limits.max_message_image_bytes)
            + ",请移除部分图片"@
    } else if reason == "UNSUPPORTED_IMAGE_TYPE"@ {
        "仅支持 PNG、JPG、WebP、GIF 格式的图片"@
    } else if reason == "IMAGE_TOO_LARGE"@ {
        "单张图片不能超过 "@ + size_text(limits.max_image_bytes)
    } else if reason == "IMAGE_TOO_MANY_PIXELS"@ {
        "图片分辨率过大,请压缩后重试"@
    } else if reason == "IMAGE_DIMENSION_TOO_LARGE"@ {
        "图片宽高不能超过 "@ + dec(limits.max_image_dimension as nat)
            + "px,请缩小后重试"@
    } else if reason == "INVALID_IMAGE_BASE64"@ || reason == "INVALID_IMAGE"@ || reason
        == "IMAGE_TYPE_MISMATCH"@ {
        "图片编码无效"@
    } else if reason == "MODEL_DOES_NOT_SUPPORT_IMAGES"@ {
        "当前模型不支持图片,请切换支持图片的模型"@
    } else {
        "图片发送失败,请重新添加图片后再试"@
    }
}

/// See [`reject_text`].
pub fn image_reject_text(reason: &str, limits: &ImageAttachmentLimits) -> (r: String)
    ensures
        r@ == reject_text(reason@, *limits),
{
    if str_eq(reason, "TOO_MANY_IMAGES") {
        let n = usize_text(limits.max_images_per_message);
        cat3("一条消息最多添加 ", n.as_str(), " 张图片")
    } else if str_eq(reason, "IMAGES_TOO_LARGE") {
        let n = image_size_text(limits.max_message_image_bytes);
        cat3("图片总大小超过 ", n.as_str(), ",请移除部分图片")
    } else if str_eq(reason, "UNSUPPORTED_IMAGE_TYPE") {
        owned("仅支持 PNG、JPG、WebP、GIF 格式的图片")
    } else if str_eq(reason, "IMAGE_TOO_LARGE") {
        let n = image_size_text(limits.max_image_bytes);
        cat2("单张图片不能超过 ", n.as_str())
    } else if str_eq(reason, "IMAGE_TOO_MANY_PIXELS") {
        owned("图片分辨率过大,请压缩后重试")
    } else if str_eq(reason, "IMAGE_DIMENSION_TOO_LARGE") {
        let n = u64_text(limits.max_image_dimension as u64);
        cat3("图片宽高不能超过 ", n.as_str(), "px,请缩小后重试")
    } else if str_eq(reason, "INVALID_IMAGE_BASE64") || str_eq(reason, "INVALID_IMAGE") || str_eq(
        reason,
        "IMAGE_TYPE_MISMATCH",
    ) {
        owned("图片编码无效")
    } else if str_eq(reason, "MODEL_DOES_NOT_SUPPORT_IMAGES") {
        owned("当前模型不支持图片,请切换支持图片的模型")
    } else {
        owned("图片发送失败,请重新添加图片后再试")
    }
}

// ---------------------------------------------------------------------------
// Formats
// ---------------------------------------------------------------------------
/// Whether bytes start with others.
pub open spec fn begins(bytes: Seq<u8>, with: Seq<u8>) -> bool {
    with.len() <= bytes.len() && bytes.take(with.len() as int) == with
}

/// The media type that the first bytes of a file show.
pub open spec fn media_of(bytes: Seq<u8>) -> Option<ImageMediaType> {
    if begins(bytes, seq![0x89u8, 0x50, 0x4e, 0x47, 0x0d, 0x0a, 0x1a, 0x0a]) {
        Some(ImageMediaType::Png)
    } else if begins(bytes, seq![0xffu8, 0xd8, 0xff]) {
        Some(ImageMediaType::Jpeg)
    } else if begins(bytes, seq![0x47u8, 0x49, 0x46, 0x38, 0x39, 0x61]) || begins(
        bytes,
        seq![0x47u8, 0x49, 0x46, 0x38, 0x37, 0x61],
    ) {
        Some(ImageMediaType::Gif)
    } else if bytes.len() >= 12 && begins(bytes, seq![0x52u8, 0x49, 0x46, 0x46])
        && bytes.subrange(8, 12) == seq![0x57u8, 0x45, 0x42, 0x50] {
        Some(ImageMediaType::Webp)
    } else {
        None
    }
}

/// Calls `image::guess_format`, which compares the first bytes with the
/// signatures of the formats: that of PNG, that of JPEG, the two of GIF, and
/// "RIFF", four bytes and "WEBP". Every other format, and none, is no accepted
/// media type.
#[verifier::external_body]
fn guess_media(bytes: &[u8]) -> (r: Option<ImageMediaType>)
    ensures
        r == media_of(bytes@),
{
    match image::guess_format(bytes).ok()? {
        image::ImageFormat::Png => Some(ImageMediaType::Png),
        image::ImageFormat::Jpeg => Some(ImageMediaType::Jpeg),
        image::ImageFormat::WebP => Some(ImageMediaType::Webp),
        image::ImageFormat::Gif => Some(ImageMediaType::Gif),
        _ => None,
    }
}

/// A decoded image of the `image` crate.
#[verifier::external_type_specification]
#[verifier::external_body]
pub struct ExDynamicImage(image::DynamicImage);

/// The width and the height of a decoded image.
pub uninterp spec fn size_of_image(img: image::DynamicImage) -> (u32, u32);

/// The colour type and the samples of a decoded image, as bytes.
pub uninterp spec fn samples_of_image(img: image::DynamicImage) -> Seq<u8>;

/// The size that `DynamicImage::resize` scales an image of a size to, so that
/// it fits within a width and a height.
pub uninterp spec fn fitted_size(size: (u32, u32), width: u32, height: u32) -> (u32, u32);

/// The size of the image that `image::load_from_memory` decodes from bytes;
/// nothing where it fails.
pub uninterp spec fn decoded_size(bytes: Seq<u8>) -> Option<(u32, u32)>;

/// Calls `image::load_from_memory`. Whether it succeeds, and what size the
/// image has, depend on the bytes alone. Nothing is said of the samples: the
/// decoder of JPEG computes them with what the processor offers.
#[verifier::external_body]
fn load_image(bytes: &[u8]) -> (r: Option<image::DynamicImage>)
    ensures
        match r {
            Some(i) => decoded_size(bytes@) == Some(size_of_image(i)),
            None => decoded_size(bytes@) is None,
        },
{
    image::load_from_memory(bytes).ok()
}

/// Calls `DynamicImage::width` and `DynamicImage::height`.
#[verifier::external_body]
fn image_size(img: &image::DynamicImage) -> (r: (u32, u32))
    ensures
        r == size_of_image(*img),
{
    (img.width(), img.height())
}

/// Calls `DynamicImage::resize` with the Lanczos filter. The size depends on
/// that of the image and on the given edges: it keeps the ratio of the edges,
/// stays within the given ones, and reaches one of them. Nothing is said of
/// the samples: the filter is computed in floating point with the sine of the
/// machine.
#[verifier::external_body]
fn resize_image(img: &image::DynamicImage, width: u32, height: u32) -> (r: image::DynamicImage)
    requires
        width > 0,
        height > 0,
    ensures
        size_of_image(r) == fitted_size(size_of_image(*img), width, height),
        size_of_image(r).0 <= width,
        size_of_image(r).1 <= height,
        size_of_image(*img).0 > 0 && size_of_image(*img).1 > 0 ==> size_of_image(r).0 == width
            || size_of_image(r).1 == height,
{
    img.resize(width, height, image::imageops::FilterType::Lanczos3)
}

/// What `DynamicImage::write_to` writes of an image of a size, a colour type
/// and samples in the format of a media type; nothing where it fails.
pub uninterp spec fn encoded_image(
    size: (u32, u32),
    samples: Seq<u8>,
    media_type: ImageMediaType,
) -> Option<Seq<u8>>;

/// Calls `DynamicImage::write_to` in the format of a media type. What it
/// writes depends on the size, the colour type and the samples of the image,
/// and on the format.
#[verifier::external_body]
fn encode_image(img: &image::DynamicImage, media_type: ImageMediaType) -> (r: Option<Vec<u8>>)
    ensures
        bytes_value(r) == encoded_image(size_of_image(*img), samples_of_image(*img), media_type),
{
    let mut buf = std::io::Cursor::new(Vec::new());
    let format = match media_type {
        ImageMediaType::Png => image::ImageFormat::Png,
        ImageMediaType::Jpeg => image::ImageFormat::Jpeg,
        ImageMediaType::Webp => image::ImageFormat::WebP,
        ImageMediaType::Gif => image::ImageFormat::Gif,
    };
    img.write_to(&mut buf, format).ok()?;
    Some(buf.into_inner())
}

/// What a `JpegEncoder` of a quality writes of an image of a size, a colour
/// type and samples; nothing where it fails.
pub uninterp spec fn jpeg_image(size: (u32, u32), samples: Seq<u8>, quality: u8) -> Option<Seq<u8>>;

/// Calls `DynamicImage::write_with_encoder` with a `JpegEncoder` of a quality.
/// What it writes depends on the size, the colour type and the samples of the
/// image, and on the quality.
#[verifier::external_body]
fn encode_jpeg_quality(img: &image::DynamicImage, quality: u8) -> (r: Option<Vec<u8>>)
    requires
        1 <= quality <= 100,
    ensures
        bytes_value(r) == jpeg_image(size_of_image(*img), samples_of_image(*img), quality),
{
    let mut buf = std::io::Cursor::new(Vec::new());
    let encoder = image::codecs::jpeg::JpegEncoder::new_with_quality(&mut buf, quality);
    img.write_with_encoder(encoder).ok()?;
    Some(buf.into_inner())
}

/// Bytes, where there are any.
pub open spec fn bytes_value(b: Option<Vec<u8>>) -> Option<Seq<u8>> {
    match b {
        Some(v) => Some(v@),
        None => None,
    }
}

// ---------------------------------------------------------------------------
// Compression
// ---------------------------------------------------------------------------
/// The shorter edge that belongs to the longest allowed one, computed in
/// binary64 and cut to whole pixels, one at least.
pub open spec fn scaled_edge(short: u32, long: u32, max_edge: u32) -> u32 {
    let e = whole_quotient((short * max_edge) as nat, long as nat);
    if e < 1 {
        1
    } else if e > u32::MAX {
        u32::MAX
    } else {
        e as u32
    }
}

/// The size that an image with a too long edge is scaled to.
pub open spec fn target_size_of(width: u32, height: u32, max_edge: u32) -> (u32, u32) {
    if width >= height {
        (max_edge, scaled_edge(height, width, max_edge))
    } else {
        (scaled_edge(width, height, max_edge), max_edge)
    }
}

fn scale_edge(short: u32, long: u32, max_edge: u32) -> (r: u32)
    requires
        long > 0,
    ensures
        r == scaled_edge(short, long, max_edge),
        r > 0,
{
    assert(short * max_edge <= 0xffff_ffff * 0xffff_ffff) by (nonlinear_arith)
        requires
            short <= 0xffff_ffff,
            max_edge <= 0xffff_ffff,
    ;
    let product: u64 = short as u64 * max_edge as u64;
    let e = whole_of_quotient(product, long);
    if e < 1 {
        1
    } else if e > u32::MAX as u128 {
        u32::MAX
    } else {
        e as u32
    }
}

/// See [`target_size_of`].
pub fn target_size(width: u32, height: u32, max_edge: u32) -> (r: (u32, u32))
    requires
        max_edge > 0,
        width > 0 || height > 0,
    ensures
        r == target_size_of(width, height, max_edge),
        r.0 > 0,
        r.1 > 0,
{
    if width >= height {
        (max_edge, scale_edge(height, width, max_edge))
    } else {
        (scale_edge(width, height, max_edge), max_edge)
    }
}

/// The first encoding that fits: the first attempt is in the media type of the
/// image, the others are JPEG.
pub open spec fn first_fitting(
    attempts: Seq<Option<Seq<u8>>>,
    media_type: ImageMediaType,
    max_bytes: u64,
) -> Option<(Seq<u8>, ImageMediaType)>
    decreases attempts.len(),
{
    if attempts.len() == 0 {
        None
    } else {
        match first_fitting(attempts.drop_last(), media_type, max_bytes) {
            Some(r) => Some(r),
            None => match attempts.last() {
                Some(b) if b.len() <= max_bytes => Some(
                    (
                        b,
                        if attempts.len() == 1 {
                            media_type
                        } else {
                            ImageMediaType::Jpeg
                        },
                    ),
                ),
                _ => None,
            },
        }
    }
}

pub open spec fn attempt_values(v: Seq<Option<Vec<u8>>>) -> Seq<Option<Seq<u8>>> {
    v.map_values(|a: Option<Vec<u8>>| bytes_value(a))
}

pub open spec fn packed_value(p: Option<(Vec<u8>, ImageMediaType)>) -> Option<
    (Seq<u8>, ImageMediaType),
> {
    match p {
        Some(x) => Some((x.0@, x.1)),
        None => None,
    }
}

/// See [`first_fitting`].
pub fn pick_encoding(
    attempts: &Vec<Option<Vec<u8>>>,
    media_type: ImageMediaType,
    max_bytes: u64,
) -> (r: Option<(Vec<u8>, ImageMediaType)>)
    ensures
        packed_value(r) == first_fitting(attempt_values(attempts@), media_type, max_bytes),
{
    let ghost all = attempt_values(attempts@);
    let mut i: usize = 0;
    assert(all.take(0) =~= Seq::<Option<Seq<u8>>>::empty());
    while i < attempts.len()
        invariant
            i <= attempts@.len(),
            all == attempt_values(attempts@),
            first_fitting(all.take(i as int), media_type, max_bytes) is None,
        decreases attempts@.len() - i,
    {
        assert(all.take(i + 1).drop_last() =~= all.take(i as int));
        if let Some(b) = &attempts[i] {
            assert(all[i as int] == Some(b@));
            if b.len() as u64 <= max_bytes {
                let kind = if i == 0 {
                    media_type
                } else {
                    ImageMediaType::Jpeg
                };
                let out = copy_bytes(b);
                proof {
                    lemma_first_fitting_stays(all, i + 1, media_type, max_bytes);
                }
                return Some((out, kind));
            }
        }
        i = i + 1;
    }
    assert(all.take(i as int) =~= all);
    None
}

proof fn lemma_first_fitting_stays(
    all: Seq<Option<Seq<u8>>>,
    n: int,
    media_type: ImageMediaType,
    max_bytes: u64,
)
    requires
        0 <= n <= all.len(),
        first_fitting(all.take(n), media_type, max_bytes) is Some,
    ensures
        first_fitting(all, media_type, max_bytes) == first_fitting(
            all.take(n),
            media_type,
            max_bytes,
        ),
    decreases all.len() - n,
{
    if n < all.len() {
        assert(all.take(n + 1).drop_last() =~= all.take(n));
        lemma_first_fitting_stays(all, n + 1, media_type, max_bytes);
    } else {
        assert(all.take(n) =~= all);
    }
}

fn copy_bytes(v: &Vec<u8>) -> (r: Vec<u8>)
    ensures
        r@ == v@,
{
    let mut out: Vec<u8> = Vec::new();
    let mut i: usize = 0;
    while i < v.len()
        invariant
            i <= v@.len(),
            out@ == v@.take(i as int),
        decreases v@.len() - i,
    {
        out.push(v[i]);
        assert(v@.take(i + 1) =~= v@.take(i as int).push(v@[i as int]));
        i = i + 1;
    }
    assert(v@.take(i as int) =~= v@);
    out
}

/// The longest edge that is allowed.
pub open spec fn max_edge(limits: ImageAttachmentLimits) -> u32 {
    if limits.max_image_dimension < 1 {
        1
    } else {
        limits.max_image_dimension
    }
}

/// The encodings that are tried one after the other: in the media type of the
/// image, then as JPEG of ever lower quality.
pub open spec fn tries(size: (u32, u32), samples: Seq<u8>, media_type: ImageMediaType) -> Seq<
    Option<Seq<u8>>,
> {
    seq![
        encoded_image(size, samples, media_type),
        jpeg_image(size, samples, 85),
        jpeg_image(size, samples, 70),
        jpeg_image(size, samples, 55),
        jpeg_image(size, samples, 40),
    ]
}

/// What comes of an image that has to be encoded anew.
pub open spec fn encoded_anew(
    size: (u32, u32),
    samples: Seq<u8>,
    media_type: ImageMediaType,
    max_bytes: u64,
) -> Option<(Seq<u8>, ImageMediaType)> {
    first_fitting(tries(size, samples, media_type), media_type, max_bytes)
}

/// A decoded image: its size, and its colour type and samples as bytes.
pub type Decoded = ((u32, u32), Seq<u8>);

/// The content of an image that may have been decoded.
pub open spec fn decoded_value(img: Option<image::DynamicImage>) -> Option<Decoded> {
    match img {
        Some(i) => Some((size_of_image(i), samples_of_image(i))),
        None => None,
    }
}

/// What holds of a compression, where it is known what the image decodes to:
/// an animation is never compressed; what does not decode cannot be; what is
/// within the limits stays as it is. Anything else is encoded anew, where an
/// edge that is too long is scaled first, to the size that fits.
pub open spec fn compressed_from(
    decoded: Option<Decoded>,
    bytes: Seq<u8>,
    media_type: ImageMediaType,
    limits: ImageAttachmentLimits,
    r: Option<(Seq<u8>, ImageMediaType)>,
) -> bool {
    if media_type == ImageMediaType::Gif {
        r is None
    } else {
        match decoded {
            None => r is None,
            Some(img) => {
                let (width, height) = img.0;
                let edge = max_edge(limits);
                if width > edge || height > edge {
                    let within = target_size_of(width, height, edge);
                    let size = fitted_size(img.0, within.0, within.1);
                    exists|samples: Seq<u8>|
                        r == #[trigger] encoded_anew(
                            size,
                            samples,
                            media_type,
                            limits.max_image_bytes,
                        )
                } else if bytes.len() > limits.max_image_bytes {
                    r == encoded_anew(img.0, img.1, media_type, limits.max_image_bytes)
                } else {
                    r == Some((bytes, media_type))
                }
            },
        }
    }
}

/// Whether bytes may decode to an image, or to none: its size is theirs,
/// while its samples may be any.
pub open spec fn may_decode_to(bytes: Seq<u8>, decoded: Option<Decoded>) -> bool {
    match decoded {
        Some(d) => decoded_size(bytes) == Some(d.0),
        None => decoded_size(bytes) is None,
    }
}

/// What holds of a compression whatever samples the image decodes to.
pub open spec fn compressed(
    bytes: Seq<u8>,
    media_type: ImageMediaType,
    limits: ImageAttachmentLimits,
    r: Option<(Seq<u8>, ImageMediaType)>,
) -> bool {
    exists|decoded: Option<Decoded>| #[trigger]
        compressed_from(decoded, bytes, media_type, limits, r) && may_decode_to(bytes, decoded)
}

proof fn lemma_first_fitting(
    attempts: Seq<Option<Seq<u8>>>,
    media_type: ImageMediaType,
    max_bytes: u64,
)
    ensures
        first_fitting(attempts, media_type, max_bytes) matches Some(p) ==> p.0.len() <= max_bytes
            && (p.1 == media_type || p.1 == ImageMediaType::Jpeg),
    decreases attempts.len(),
{
    if attempts.len() > 0 {
        lemma_first_fitting(attempts.drop_last(), media_type, max_bytes);
    }
}

/// What compression returns is within the limit of bytes, in its own media
/// type or as JPEG.
pub proof fn law_compressed_images_fit(
    bytes: Seq<u8>,
    media_type: ImageMediaType,
    limits: ImageAttachmentLimits,
    r: Option<(Seq<u8>, ImageMediaType)>,
)
    requires
        compressed(bytes, media_type, limits, r),
    ensures
        r matches Some(p) ==> p.0.len() <= limits.max_image_bytes && (p.1 == media_type || p.1
            == ImageMediaType::Jpeg),
{
    let decoded = choose|decoded: Option<Decoded>| #[trigger]
        compressed_from(decoded, bytes, media_type, limits, r) && may_decode_to(bytes, decoded);
    if let Some(img) = decoded {
        let edge = max_edge(limits);
        if img.0.0 > edge || img.0.1 > edge {
            let within = target_size_of(img.0.0, img.0.1, edge);
            let size = fitted_size(img.0, within.0, within.1);
            if media_type != ImageMediaType::Gif {
                let samples = choose|samples: Seq<u8>|
                    r == #[trigger] encoded_anew(
                        size,
                        samples,
                        media_type,
                        limits.max_image_bytes,
                    );
                lemma_first_fitting(
                    tries(size, samples, media_type),
                    media_type,
                    limits.max_image_bytes,
                );
            }
        } else {
            lemma_first_fitting(
                tries(img.0, img.1, media_type),
                media_type,
                limits.max_image_bytes,
            );
        }
    }
}

/// Makes an image fit: an edge that is too long is scaled to the longest
/// allowed one; what still has too many bytes is encoded as JPEG of ever lower
/// quality.
pub fn compress_to_limits(
    bytes: &Vec<u8>,
    media_type: ImageMediaType,
    limits: &ImageAttachmentLimits,
) -> (r: Option<(Vec<u8>, ImageMediaType)>)
    ensures
        compressed(bytes@, media_type, *limits, packed_value(r)),
        media_type == ImageMediaType::Gif ==> r is None,
{
    if media_type == ImageMediaType::Gif {
        proof {
            let any = match decoded_size(bytes@) {
                Some(size) => Some((size, Seq::<u8>::empty())),
                None => None,
            };
            assert(compressed_from(any, bytes@, media_type, *limits, None));
        }
        return None;
    }
    let decoded = load_image(bytes.as_slice());
    let ghost value = decoded_value(decoded);
    let r = compress_decoded(decoded, bytes, media_type, limits);
    assert(compressed_from(value, bytes@, media_type, *limits, packed_value(r)));
    r
}

/// Makes an image fit that was decoded before, or could not be.
pub fn compress_decoded(
    decoded: Option<image::DynamicImage>,
    bytes: &Vec<u8>,
    media_type: ImageMediaType,
    limits: &ImageAttachmentLimits,
) -> (r: Option<(Vec<u8>, ImageMediaType)>)
    ensures
        compressed_from(decoded_value(decoded), bytes@, media_type, *limits, packed_value(r)),
{
    if media_type == ImageMediaType::Gif {
        return None;
    }
    let img = match decoded {
        Some(i) => i,
        None => {
            return None;
        },
    };
    let (width, height) = image_size(&img);
    let edge: u32 = if limits.max_image_dimension < 1 {
        1
    } else {
        limits.max_image_dimension
    };
    let over_dim = width > edge || height > edge;
    let over_bytes = bytes.len() as u64 > limits.max_image_bytes;
    if !over_dim && !over_bytes {
        return Some((copy_bytes(bytes), media_type));
    }
    let img = if over_dim {
        let (w, h) = target_size(width, height, edge);
        resize_image(&img, w, h)
    } else {
        img
    };
    let ghost size = size_of_image(img);
    let ghost samples = samples_of_image(img);
    let ghost all = tries(size, samples, media_type);
    let mut attempts: Vec<Option<Vec<u8>>> = Vec::new();
    attempts.push(encode_image(&img, media_type));
    assert(attempt_values(attempts@) =~= all.take(1));
    let mut picked = pick_encoding(&attempts, media_type, limits.max_image_bytes);
    let mut step: usize = 0;
    while step < 4 && picked.is_none()
        invariant
            step <= 4,
            size == size_of_image(img),
            samples == samples_of_image(img),
            all == tries(size, samples, media_type),
            attempt_values(attempts@) == all.take(step + 1),
            packed_value(picked) == first_fitting(
                all.take(step + 1),
                media_type,
                limits.max_image_bytes,
            ),
        decreases 4 - step,
    {
        let q: u8 = if step == 0 {
            85
        } else if step == 1 {
            70
        } else if step == 2 {
            55
        } else {
            40
        };
        let ghost before = attempt_values(attempts@);
        let a = encode_jpeg_quality(&img, q);
        assert(bytes_value(a) == all[step + 1]);
        attempts.push(a);
        assert(attempt_values(attempts@) =~= before.push(bytes_value(a)));
        assert(all.take(step + 2) =~= before.push(all[step + 1]));
        picked = pick_encoding(&attempts, media_type, limits.max_image_bytes);
        step = step + 1;
    }
    proof {
        if picked is Some {
            lemma_first_fitting_stays(all, step + 1, media_type, limits.max_image_bytes);
        } else {
            assert(all.take(step + 1) =~= all);
        }
        assert(packed_value(picked) == encoded_anew(
            size,
            samples,
            media_type,
            limits.max_image_bytes,
        ));
    }
    picked
}

// ---------------------------------------------------------------------------
// Intake
// ---------------------------------------------------------------------------
/// The bytes of a number of images.
pub open spec fn total_bytes(images: Seq<Seq<u8>>) -> nat
    decreases images.len(),
{
    if images.len() == 0 {
        0
    } else {
        total_bytes(images.drop_last()) + images.last().len()
    }
}

/// Whether an image is put through compression: every one but an animation
/// that is small enough.
pub open spec fn is_packed(bytes: Seq<u8>, media_type: ImageMediaType, max_bytes: u64) -> bool {
    bytes.len() > max_bytes || media_type != ImageMediaType::Gif
}

/// What becomes of one image: what compression made of it; else itself, where
/// it is small enough.
pub open spec fn settled_one(
    bytes: Seq<u8>,
    media_type: ImageMediaType,
    packed: Option<(Seq<u8>, ImageMediaType)>,
    max_bytes: u64,
) -> Option<(Seq<u8>, ImageMediaType)> {
    if is_packed(bytes, media_type, max_bytes) && packed is Some {
        packed
    } else if bytes.len() > max_bytes {
        None
    } else {
        Some((bytes, media_type))
    }
}

/// What becomes of the images; nothing where one of them is too large.
pub open spec fn settled(
    files: Seq<Seq<u8>>,
    media: Seq<ImageMediaType>,
    packed: Seq<Option<(Seq<u8>, ImageMediaType)>>,
    max_bytes: u64,
) -> Option<Seq<(Seq<u8>, ImageMediaType)>>
    decreases files.len(),
{
    if files.len() == 0 {
        Some(Seq::empty())
    } else {
        let n = files.len() - 1;
        match settled(files.drop_last(), media, packed, max_bytes) {
            None => None,
            Some(init) => match settled_one(files[n], media[n], packed[n], max_bytes) {
                None => None,
                Some(one) => Some(init.push(one)),
            },
        }
    }
}

/// The verdict on a batch of images.
pub enum Verdict {
    Accepted(Seq<(Seq<u8>, ImageMediaType)>),
    Refused(Seq<char>),
}

/// The verdict on a batch, in this order: the formats, the number, the size of
/// each, the size of all.
pub open spec fn verdict(
    limits: ImageAttachmentLimits,
    drafts: Seq<DraftValue>,
    files: Seq<Seq<u8>>,
    media: Seq<Option<ImageMediaType>>,
    packed: Seq<Option<(Seq<u8>, ImageMediaType)>>,
) -> Verdict {
    if exists|i: int| 0 <= i < media.len() && (#[trigger] media[i]) is None {
        Verdict::Refused("UNSUPPORTED_IMAGE_TYPE"@)
    } else if drafts.len() + files.len() > limits.max_images_per_message {
        Verdict::Refused("TOO_MANY_IMAGES"@)
    } else {
        match settled(
            files,
            media.map_values(|m: Option<ImageMediaType>| m.unwrap()),
            packed,
            limits.max_image_bytes,
        ) {
            None => Verdict::Refused("IMAGE_TOO_LARGE"@),
            Some(images) => if total_bytes(drafts.map_values(|d: DraftValue| d.bytes))
                + total_bytes(images.map_values(|x: (Seq<u8>, ImageMediaType)| x.0))
                > limits.max_message_image_bytes {
                Verdict::Refused("IMAGES_TOO_LARGE"@)
            } else {
                Verdict::Accepted(images)
            },
        }
    }
}

/// The drafts of accepted images, with ids made of the stamps.
pub open spec fn drafts_of(images: Seq<(Seq<u8>, ImageMediaType)>, stamps: Seq<u128>) -> Seq<
    DraftValue,
> {
    Seq::new(
        images.len(),
        |i: int|
            DraftValue {
                id: "draft-"@ + hex(stamps[i] as nat),
                bytes: images[i].0,
                media_type: images[i].1.name(),
                name: None,
            },
    )
}

/// What a verdict does: the drafts of accepted images are added; of refused
/// ones the user is told, and no draft changes.
pub open spec fn judged(a: AppStore, b: AppStore, accepted: bool, v: Verdict, stamps: Seq<u128>) -> bool {
    match v {
        Verdict::Accepted(images) => {
            &&& accepted
            &&& draft_values(b.attachments.draft_images@) == draft_values(
                a.attachments.draft_images@,
            ) + drafts_of(images, stamps)
            &&& b == (AppStore {
                attachments: AttachmentsStore {
                    draft_images: b.attachments.draft_images,
                    ..a.attachments
                },
                ..a
            })
        },
        Verdict::Refused(reason) => {
            &&& !accepted
            &&& b.attachments.attachment_toast matches Some(t) && t.text@ == reject_text(
                reason,
                a.image_limits,
            )
            &&& b == (AppStore {
                attachments: AttachmentsStore {
                    attachment_toast: b.attachments.attachment_toast,
                    ..a.attachments
                },
                ..a
            })
        },
    }
}

pub open spec fn file_values(v: Seq<Vec<u8>>) -> Seq<Seq<u8>> {
    v.map_values(|f: Vec<u8>| f@)
}

pub open spec fn packed_values(v: Seq<Option<(Vec<u8>, ImageMediaType)>>) -> Seq<
    Option<(Seq<u8>, ImageMediaType)>,
> {
    v.map_values(|p: Option<(Vec<u8>, ImageMediaType)>| packed_value(p))
}

/// Adds the bytes of images, up to a limit: nothing where they exceed it.
fn add_bytes(start: u64, images: &Vec<(Vec<u8>, ImageMediaType)>, limit: u64) -> (r: Option<u64>)
    requires
        start <= limit,
    ensures
        ({
            let sum = start + total_bytes(
                images@.map_values(|x: (Vec<u8>, ImageMediaType)| x.0@),
            );
            match r {
                Some(n) => n == sum && sum <= limit,
                None => sum > limit,
            }
        }),
{
    let ghost all = images@.map_values(|x: (Vec<u8>, ImageMediaType)| x.0@);
    let mut sum: u64 = start;
    let mut i: usize = 0;
    assert(all.take(0) =~= Seq::<Seq<u8>>::empty());
    while i < images.len()
        invariant
            i <= images@.len(),
            all == images@.map_values(|x: (Vec<u8>, ImageMediaType)| x.0@),
            sum <= limit,
            sum == start + total_bytes(all.take(i as int)),
        decreases images@.len() - i,
    {
        assert(all.take(i + 1).drop_last() =~= all.take(i as int));
        assert(all.take(i + 1).last() == images@[i as int].0@);
        let n: u64 = images[i].0.len() as u64;
        if n > limit - sum {
            proof {
                lemma_total_grows(all, i + 1);
            }
            return None;
        }
        sum = sum + n;
        i = i + 1;
    }
    assert(all.take(i as int) =~= all);
    Some(sum)
}

proof fn lemma_total_grows(images: Seq<Seq<u8>>, n: int)
    requires
        0 <= n <= images.len(),
    ensures
        total_bytes(images.take(n)) <= total_bytes(images),
    decreases images.len() - n,
{
    if n < images.len() {
        assert(images.take(n + 1).drop_last() =~= images.take(n));
        lemma_total_grows(images, n + 1);
    } else {
        assert(images.take(n) =~= images);
    }
}

fn add_draft_bytes(drafts: &Vec<DraftImage>, limit: u64) -> (r: Option<u64>)
    ensures
        ({
            let sum = total_bytes(draft_values(drafts@).map_values(|d: DraftValue| d.bytes));
            match r {
                Some(n) => n == sum && sum <= limit,
                None => sum > limit,
            }
        }),
{
    let ghost all = draft_values(drafts@).map_values(|d: DraftValue| d.bytes);
    let mut sum: u64 = 0;
    let mut i: usize = 0;
    assert(all.take(0) =~= Seq::<Seq<u8>>::empty());
    while i < drafts.len()
        invariant
            i <= drafts@.len(),
            all == draft_values(drafts@).map_values(|d: DraftValue| d.bytes),
            sum <= limit,
            sum == total_bytes(all.take(i as int)),
        decreases drafts@.len() - i,
    {
        assert(all.take(i + 1).drop_last() =~= all.take(i as int));
        assert(all.take(i + 1).last() == drafts@[i as int].bytes@);
        let n: u64 = drafts[i].bytes.len() as u64;
        if n > limit - sum {
            proof {
                lemma_total_grows(all, i + 1);
            }
            return None;
        }
        sum = sum + n;
        i = i + 1;
    }
    assert(all.take(i as int) =~= all);
    Some(sum)
}

/// What becomes of the images of a batch.
fn settle(
    files: &Vec<Vec<u8>>,
    media: &Vec<ImageMediaType>,
    packed: &Vec<Option<(Vec<u8>, ImageMediaType)>>,
    max_bytes: u64,
) -> (r: Option<Vec<(Vec<u8>, ImageMediaType)>>)
    requires
        media@.len() == files@.len(),
        packed@.len() == files@.len(),
    ensures
        ({
            let want = settled(file_values(files@), media@, packed_values(packed@), max_bytes);
            match r {
                Some(v) => want == Some(
                    v@.map_values(|x: (Vec<u8>, ImageMediaType)| (x.0@, x.1)),
                ),
                None => want is None,
            }
        }),
{
    let ghost fs = file_values(files@);
    let ghost ps = packed_values(packed@);
    let mut out: Vec<(Vec<u8>, ImageMediaType)> = Vec::new();
    let mut i: usize = 0;
    assert(fs.take(0) =~= Seq::<Seq<u8>>::empty());
    assert(out@.map_values(|x: (Vec<u8>, ImageMediaType)| (x.0@, x.1)) =~= Seq::empty());
    while i < files.len()
        invariant
            i <= files@.len(),
            media@.len() == files@.len(),
            packed@.len() == files@.len(),
            fs == file_values(files@),
            ps == packed_values(packed@),
            settled(fs.take(i as int), media@, ps, max_bytes) == Some(
                out@.map_values(|x: (Vec<u8>, ImageMediaType)| (x.0@, x.1)),
            ),
        decreases files@.len() - i,
    {
        let ghost before = out@;
        assert(fs.take(i + 1).drop_last() =~= fs.take(i as int));
        assert(fs.take(i + 1)[i as int] == files@[i as int]@);
        assert(ps[i as int] == packed_value(packed@[i as int]));
        let too_large = files[i].len() as u64 > max_bytes;
        let tried = too_large || media[i] != ImageMediaType::Gif;
        let one = if tried {
            match &packed[i] {
                Some(p) => Some((copy_bytes(&p.0), p.1)),
                None => if too_large {
                    None
                } else {
                    Some((copy_bytes(&files[i]), media[i]))
                },
            }
        } else {
            Some((copy_bytes(&files[i]), media[i]))
        };
        assert(packed_value(one) == settled_one(
            fs[i as int],
            media@[i as int],
            ps[i as int],
            max_bytes,
        ));
        match one {
            Some(x) => {
                out.push(x);
                assert(out@.map_values(|x: (Vec<u8>, ImageMediaType)| (x.0@, x.1))
                    =~= before.map_values(|x: (Vec<u8>, ImageMediaType)| (x.0@, x.1)).push(
                    (x.0@, x.1),
                ));
            },
            None => {
                proof {
                    lemma_settled_none(fs, i + 1, media@, ps, max_bytes);
                }
                return None;
            },
        }
        i = i + 1;
    }
    assert(fs.take(i as int) =~= fs);
    Some(out)
}

proof fn lemma_settled_none(
    files: Seq<Seq<u8>>,
    n: int,
    media: Seq<ImageMediaType>,
    packed: Seq<Option<(Seq<u8>, ImageMediaType)>>,
    max_bytes: u64,
)
    requires
        0 <= n <= files.len(),
        settled(files.take(n), media, packed, max_bytes) is None,
    ensures
        settled(files, media, packed, max_bytes) is None,
    decreases files.len() - n,
{
    if n < files.len() {
        assert(files.take(n + 1).drop_last() =~= files.take(n));
        lemma_settled_none(files, n + 1, media, packed, max_bytes);
    } else {
        assert(files.take(n) =~= files);
    }
}

impl AppStore {
    /// What the user is told about a reason for refusal.
    pub fn attachment_error_text(&self, reason: &str) -> (r: String)
        ensures
            r@ == reject_text(reason@, self.image_limits),
    {
        image_reject_text(reason, &self.image_limits)
    }

    fn refuse(&mut self, reason: &str)
        requires
            old(self).wf(),
        ensures
            final(self).wf(),
            forall|stamps: Seq<u128>| #[trigger]
                judged(*old(self), *final(self), false, Verdict::Refused(reason@), stamps),
    {
        let text = self.attachment_error_text(reason);
        self.attachments.attachment_toast = Some(AttachmentToast { text });
    }

    /// Judges a batch of images whose media types are known and whose
    /// compression has been tried, and does what the verdict says.
    pub fn admit_images(
        &mut self,
        files: &Vec<Vec<u8>>,
        media: &Vec<Option<ImageMediaType>>,
        packed: &Vec<Option<(Vec<u8>, ImageMediaType)>>,
        stamps: &Vec<u128>,
    ) -> (accepted: bool)
        requires
            old(self).wf(),
            media@.len() == files@.len(),
            packed@.len() == files@.len(),
            stamps@.len() == files@.len(),
        ensures
            final(self).wf(),
            judged(
                *old(self),
                *final(self),
                accepted,
                verdict(
                    old(self).image_limits,
                    draft_values(old(self).attachments.draft_images@),
                    file_values(files@),
                    media@,
                    packed_values(packed@),
                ),
                stamps@,
            ),
    {
        let limits = self.image_limits;
        let ghost drafts = draft_values(self.attachments.draft_images@);
        let ghost ms = media@.map_values(|m: Option<ImageMediaType>| m.unwrap());
        let mut known: Vec<ImageMediaType> = Vec::new();
        let mut i: usize = 0;
        while i < media.len()
            invariant
                i <= media@.len(),
                known@.len() == i,
                ms == media@.map_values(|m: Option<ImageMediaType>| m.unwrap()),
                forall|k: int| 0 <= k < i ==> (#[trigger] media@[k]) is Some,
                forall|k: int| 0 <= k < i ==> #[trigger] known@[k] == ms[k],
                self.wf(),
                *self == *old(self),
            decreases media@.len() - i,
        {
            match media[i] {
                Some(m) => {
                    known.push(m);
                },
                None => {
                    assert(media@[i as int] is None);
                    self.refuse("UNSUPPORTED_IMAGE_TYPE");
                    return false;
                },
            }
            i = i + 1;
        }
        assert(known@ =~= ms);
        let count = self.attachments.draft_images.len();
        assert(drafts.len() == count);
        if count > limits.max_images_per_message || files.len() > limits.max_images_per_message
            - count {
            self.refuse("TOO_MANY_IMAGES");
            return false;
        }
        let images = match settle(files, &known, packed, limits.max_image_bytes) {
            Some(v) => v,
            None => {
                self.refuse("IMAGE_TOO_LARGE");
                return false;
            },
        };
        let ghost accepted = images@.map_values(|x: (Vec<u8>, ImageMediaType)| (x.0@, x.1));
        proof {
            assert(accepted.map_values(|x: (Seq<u8>, ImageMediaType)| x.0) =~= images@.map_values(
                |x: (Vec<u8>, ImageMediaType)| x.0@,
            ));
            lemma_settled_len(
                file_values(files@),
                ms,
                packed_values(packed@),
                limits.max_image_bytes,
            );
            assert(images@.len() == accepted.len());
            assert(file_values(files@).len() == files@.len());
        }
        let limit: u64 = limits.max_message_image_bytes;
        let fits = match add_draft_bytes(&self.attachments.draft_images, limit) {
            Some(start) => add_bytes(start, &images, limit).is_some(),
            None => false,
        };
        if !fits {
            self.refuse("IMAGES_TOO_LARGE");
            return false;
        }
        let ghost want = drafts_of(accepted, stamps@);
        let mut k: usize = 0;
        assert(drafts =~= drafts + want.take(0));
        while k < images.len()
            invariant
                k <= images@.len(),
                images@.len() == stamps@.len(),
                self.wf(),
                accepted == images@.map_values(|x: (Vec<u8>, ImageMediaType)| (x.0@, x.1)),
                want == drafts_of(accepted, stamps@),
                draft_values(self.attachments.draft_images@) == drafts + want.take(k as int),
                *self == (AppStore {
                    attachments: AttachmentsStore {
                        draft_images: self.attachments.draft_images,
                        ..old(self).attachments
                    },
                    ..*old(self)
                }),
            decreases images@.len() - k,
        {
            let ghost before = self.attachments.draft_images@;
            let stamp = hex_text(stamps[k]);
            let draft = DraftImage {
                id: cat2("draft-", stamp.as_str()),
                bytes: copy_bytes(&images[k].0),
                media_type: owned(images[k].1.as_str()),
                name: None,
            };
            let ghost value = draft@;
            self.attachments.draft_images.push(draft);
            proof {
                assert(accepted[k as int] == (images@[k as int].0@, images@[k as int].1));
                assert(value =~= want[k as int]);
                assert(draft_values(self.attachments.draft_images@) =~= draft_values(before).push(
                    value,
                ));
                assert(want.take(k + 1) =~= want.take(k as int).push(want[k as int]));
                assert((drafts + want.take(k as int)).push(value) =~= drafts + want.take(k + 1));
            }
            k = k + 1;
        }
        assert(want.take(k as int) =~= want);
        true
    }

    /// Takes in a batch of images, all or none. The stamps make the ids of the
    /// drafts.
    pub fn intake_images(&mut self, files: &Vec<Vec<u8>>, stamps: &Vec<u128>) -> (accepted: bool)
        requires
            old(self).wf(),
            stamps@.len() == files@.len(),
        ensures
            final(self).wf(),
            ({
                let fs = file_values(files@);
                let media = fs.map_values(|f: Seq<u8>| media_of(f));
                exists|packed: Seq<Option<(Seq<u8>, ImageMediaType)>>| #[trigger]
                    all_compressed(fs, packed, old(self).image_limits) && judged(
                        *old(self),
                        *final(self),
                        accepted,
                        verdict(
                            old(self).image_limits,
                            draft_values(old(self).attachments.draft_images@),
                            fs,
                            media,
                            packed,
                        ),
                        stamps@,
                    )
            }),
    {
        let limits = self.image_limits;
        let ghost fs = file_values(files@);
        let ghost want = fs.map_values(|f: Seq<u8>| media_of(f));
        let mut media: Vec<Option<ImageMediaType>> = Vec::new();
        let mut packed: Vec<Option<(Vec<u8>, ImageMediaType)>> = Vec::new();
        let mut i: usize = 0;
        while i < files.len()
            invariant
                i <= files@.len(),
                media@.len() == i,
                packed@.len() == i,
                fs == file_values(files@),
                forall|k: int| 0 <= k < i ==> #[trigger] media@[k] == media_of(fs[k]),
                forall|k: int|
                    0 <= k < i ==> one_compressed(
                        fs[k],
                        packed_value(#[trigger] packed@[k]),
                        limits,
                    ),
            decreases files@.len() - i,
        {
            assert(fs[i as int] == files@[i as int]@);
            let m = guess_media(files[i].as_slice());
            let p = match m {
                Some(kind) => if files[i].len() as u64 > limits.max_image_bytes || kind
                    != ImageMediaType::Gif {
                    compress_to_limits(&files[i], kind, &limits)
                } else {
                    None
                },
                None => None,
            };
            media.push(m);
            packed.push(p);
            i = i + 1;
        }
        proof {
            assert(media@ =~= want);
            let ps = packed_values(packed@);
            assert(all_compressed(fs, ps, limits)) by {
                assert forall|k: int| 0 <= k < fs.len() implies one_compressed(
                    fs[k],
                    #[trigger] ps[k],
                    limits,
                ) by {
                    assert(ps[k] == packed_value(packed@[k]));
                }
            }
        }
        self.admit_images(files, &media, &packed, stamps)
    }

    /// Removes the drafts with an id.
    pub fn remove_draft_image(&mut self, id: &str)
        requires
            old(self).wf(),
        ensures
            final(self).wf(),
            draft_values(final(self).attachments.draft_images@) == drafts_without(
                draft_values(old(self).attachments.draft_images@),
                id@,
            ),
            *final(self) == (AppStore {
                attachments: AttachmentsStore {
                    draft_images: final(self).attachments.draft_images,
                    ..old(self).attachments
                },
                ..*old(self)
            }),
    {
        let ghost all = draft_values(self.attachments.draft_images@);
        let mut kept: Vec<DraftImage> = Vec::new();
        let mut i: usize = 0;
        assert(all.take(0) =~= Seq::<DraftValue>::empty());
        assert(draft_values(kept@) =~= Seq::<DraftValue>::empty());
        while i < self.attachments.draft_images.len()
            invariant
                i <= self.attachments.draft_images@.len(),
                all == draft_values(self.attachments.draft_images@),
                draft_values(kept@) == drafts_without(all.take(i as int), id@),
            decreases self.attachments.draft_images@.len() - i,
        {
            let ghost before = kept@;
            let d = &self.attachments.draft_images[i];
            assert(all.take(i + 1).drop_last() =~= all.take(i as int));
            assert(all.take(i + 1).last() == d@);
            if !str_eq(d.id.as_str(), id) {
                kept.push(copy_draft(d));
                assert(draft_values(kept@) =~= draft_values(before).push(d@));
            }
            i = i + 1;
        }
        assert(all.take(i as int) =~= all);
        self.attachments.draft_images = kept;
    }

    /// The image with an id: the first draft, else the cached one.
    pub open spec fn picture(self, key: Seq<char>) -> Option<(Seq<u8>, Seq<char>)> {
        match first_draft(draft_values(self.attachments.draft_images@), key) {
            Some(d) => Some((d.bytes, d.media_type)),
            None => if self.attachments.image_cache@.dom().contains(key) {
                let p = self.attachments.image_cache@[key];
                Some((p.bytes@, p.media_type@))
            } else {
                None
            },
        }
    }

    /// Fills the window with an image. An id that no image has changes
    /// nothing.
    pub fn open_lightbox(&mut self, key: &str)
        requires
            old(self).wf(),
        ensures
            final(self).wf(),
            match old(self).picture(key@) {
                Some(p) => {
                    &&& final(self).attachments.lightbox matches Some(l) && l.0@ == key@
                        && l.1.bytes@ == p.0 && l.1.media_type@ == p.1
                    &&& *final(self) == (AppStore {
                        attachments: AttachmentsStore {
                            lightbox: final(self).attachments.lightbox,
                            ..old(self).attachments
                        },
                        ..*old(self)
                    })
                },
                None => *final(self) == *old(self),
            },
    {
        let found = match find_draft(&self.attachments.draft_images, key) {
            Some(d) => Some(
                Picture {
                    bytes: copy_bytes(&d.bytes),
                    media_type: owned(d.media_type.as_str()),
                },
            ),
            None => match self.attachments.image_cache.get(key) {
                Some(p) => Some(
                    Picture {
                        bytes: copy_bytes(&p.bytes),
                        media_type: owned(p.media_type.as_str()),
                    },
                ),
                None => None,
            },
        };
        if let Some(p) = found {
            self.attachments.lightbox = Some((owned(key), p));
        }
    }

    /// Closes the image that fills the window.
    pub fn close_lightbox(&mut self)
        requires
            old(self).wf(),
        ensures
            final(self).wf(),
            *final(self) == (AppStore {
                attachments: AttachmentsStore { lightbox: None, ..old(self).attachments },
                ..*old(self)
            }),
    {
        self.attachments.lightbox = None;
    }

    /// Whether an image of a sent message has to be read from the host.
    pub fn ensure_image_loaded(&self, attachment_id: &str) -> (needed: bool)
        requires
            self.wf(),
        ensures
            needed == !self.attachments.image_cache@.dom().contains(attachment_id@),
    {
        !self.attachments.image_cache.contains_key(attachment_id)
    }

    /// Takes over an image that the host sent as a text over the standard
    /// base64 alphabet, see [`AppStore::keep_picture`].
    pub fn image_loaded(&mut self, attachment_id: &str, reply: &Json)
        requires
            old(self).wf(),
        ensures
            final(self).wf(),
            picture_kept(
                *old(self),
                *final(self),
                attachment_id@,
                standard_bytes(crate::json::text_field(reply.value(), "data"@)),
                reply.value(),
            ),
    {
        let data = reply.text_or_empty("data");
        let bytes = decode_standard(data.as_str());
        self.keep_picture(attachment_id, bytes, reply);
    }

    /// Takes over the bytes of an image that the host sent; what did not
    /// decode, or is of no accepted media type, changes nothing.
    pub fn keep_picture(&mut self, attachment_id: &str, bytes: Option<Vec<u8>>, reply: &Json)
        requires
            old(self).wf(),
        ensures
            final(self).wf(),
            picture_kept(
                *old(self),
                *final(self),
                attachment_id@,
                bytes_value(bytes),
                reply.value(),
            ),
    {
        let bytes = match bytes {
            Some(b) => b,
            None => {
                return ;
            },
        };
        let name = match reply.get("attachment") {
            Some(a) => a.text_or_empty("mediaType"),
            None => {
                let e = String::new();
                assert(e@ =~= crate::json::text_field(JsonValue::Null, "mediaType"@));
                e
            },
        };
        let media = match ImageMediaType::parse(name.as_str()) {
            Some(m) => m,
            None => {
                return ;
            },
        };
        let picture = Picture { bytes, media_type: owned(media.as_str()) };
        self.attachments.image_cache.insert(attachment_id, picture);
    }

    /// The images of a message that are cached.
    pub open spec fn cached_ids(self, blocks: Seq<JsonValue>) -> Seq<Seq<char>>
        decreases blocks.len(),
    {
        if blocks.len() == 0 {
            Seq::empty()
        } else {
            let init = self.cached_ids(blocks.drop_last());
            match attachment_id_of(blocks.last()) {
                Some(id) if self.attachments.image_cache@.dom().contains(id) => init.push(id),
                _ => init,
            }
        }
    }

    /// How the images of a message are shown: one alone large, several as
    /// tiles; nothing where none is cached. Returns whether it is one alone,
    /// and the ids.
    pub fn message_images(&self, blocks: &Vec<Json>) -> (r: Option<(bool, Vec<String>)>)
        requires
            self.wf(),
        ensures
            match r {
                Some(g) => g.0 == (blocks@.len() == 1) && views(g.1@) == self.cached_ids(
                    values(blocks@),
                ) && g.1@.len() > 0,
                None => self.cached_ids(values(blocks@)).len() == 0,
            },
    {
        let ghost all = values(blocks@);
        let mut ids: Vec<String> = Vec::new();
        let mut i: usize = 0;
        assert(all.take(0) =~= Seq::<JsonValue>::empty());
        assert(views(ids@) =~= Seq::<Seq<char>>::empty());
        while i < blocks.len()
            invariant
                self.wf(),
                i <= blocks@.len(),
                all == values(blocks@),
                views(ids@) == self.cached_ids(all.take(i as int)),
            decreases blocks@.len() - i,
        {
            let ghost before = ids@;
            assert(all.take(i + 1).drop_last() =~= all.take(i as int));
            assert(all.take(i + 1).last() == blocks@[i as int].value());
            if let Some(id) = block_attachment(&blocks[i]) {
                if self.attachments.image_cache.contains_key(id.as_str()) {
                    ids.push(id);
                    assert(views(ids@) =~= views(before).push(id@));
                }
            }
            i = i + 1;
        }
        assert(all.take(i as int) =~= all);
        assert(views(ids@).len() == ids@.len());
        if ids.len() == 0 {
            None
        } else {
            Some((blocks.len() == 1, ids))
        }
    }
}

/// Whether the compression of one image was tried as it has to be.
pub open spec fn one_compressed(
    bytes: Seq<u8>,
    packed: Option<(Seq<u8>, ImageMediaType)>,
    limits: ImageAttachmentLimits,
) -> bool {
    match media_of(bytes) {
        Some(m) if is_packed(bytes, m, limits.max_image_bytes) => compressed(
            bytes,
            m,
            limits,
            packed,
        ),
        _ => packed is None,
    }
}

/// Whether the compression of all images was tried as it has to be.
pub open spec fn all_compressed(
    files: Seq<Seq<u8>>,
    packed: Seq<Option<(Seq<u8>, ImageMediaType)>>,
    limits: ImageAttachmentLimits,
) -> bool {
    &&& packed.len() == files.len()
    &&& forall|k: int|
        0 <= k < files.len() ==> one_compressed(files[k], #[trigger] packed[k], limits)
}

proof fn lemma_settled_len(
    files: Seq<Seq<u8>>,
    media: Seq<ImageMediaType>,
    packed: Seq<Option<(Seq<u8>, ImageMediaType)>>,
    max_bytes: u64,
)
    ensures
        settled(files, media, packed, max_bytes) matches Some(v) ==> v.len() == files.len(),
    decreases files.len(),
{
    if files.len() > 0 {
        lemma_settled_len(files.drop_last(), media, packed, max_bytes);
    }
}

/// The drafts without those of an id.
pub open spec fn drafts_without(drafts: Seq<DraftValue>, id: Seq<char>) -> Seq<DraftValue>
    decreases drafts.len(),
{
    if drafts.len() == 0 {
        drafts
    } else if drafts.last().id == id {
        drafts_without(drafts.drop_last(), id)
    } else {
        drafts_without(drafts.drop_last(), id).push(drafts.last())
    }
}

/// The first draft with an id.
pub open spec fn first_draft(drafts: Seq<DraftValue>, id: Seq<char>) -> Option<DraftValue>
    decreases drafts.len(),
{
    if drafts.len() == 0 {
        None
    } else if drafts[0].id == id {
        Some(drafts[0])
    } else {
        first_draft(drafts.skip(1), id)
    }
}

fn find_draft<'a>(drafts: &'a Vec<DraftImage>, id: &str) -> (r: Option<&'a DraftImage>)
    ensures
        match r {
            Some(d) => first_draft(draft_values(drafts@), id@) == Some(d@),
            None => first_draft(draft_values(drafts@), id@) is None,
        },
{
    let ghost all = draft_values(drafts@);
    let mut i: usize = 0;
    assert(all.skip(0) =~= all);
    while i < drafts.len()
        invariant
            i <= drafts@.len(),
            all == draft_values(drafts@),
            first_draft(all, id@) == first_draft(all.skip(i as int), id@),
        decreases drafts@.len() - i,
    {
        assert(all.skip(i as int)[0] == drafts@[i as int]@);
        assert(all.skip(i as int).skip(1) =~= all.skip(i + 1));
        if str_eq(drafts[i].id.as_str(), id) {
            return Some(&drafts[i]);
        }
        i = i + 1;
    }
    None
}

fn copy_draft(d: &DraftImage) -> (r: DraftImage)
    ensures
        r@ == d@,
{
    DraftImage {
        id: owned(d.id.as_str()),
        bytes: copy_bytes(&d.bytes),
        media_type: owned(d.media_type.as_str()),
        name: crate::text::owned_opt(&d.name),
    }
}

/// The id of the attachment of a content block.
pub open spec fn attachment_id_of(block: JsonValue) -> Option<Seq<char>> {
    block.field("attachment"@).field("attachmentId"@).as_text()
}

/// See [`attachment_id_of`].
pub fn block_attachment(block: &Json) -> (r: Option<String>)
    ensures
        opt_view(r) == attachment_id_of(block.value()),
{
    match block.get("attachment") {
        Some(a) => a.text_at("attachmentId"),
        None => None,
    }
}

/// What `base64`'s `STANDARD.decode` makes of a text; nothing where it fails.
pub uninterp spec fn standard_bytes(text: Seq<char>) -> Option<Seq<u8>>;

/// `base64`'s `STANDARD.decode`: the bytes of a padded text over the standard
/// alphabet, or nothing where the text is not valid.
#[verifier::external_body]
fn decode_standard(text: &str) -> (r: Option<Vec<u8>>)
    ensures
        bytes_value(r) == standard_bytes(text@),
{
    base64::engine::general_purpose::STANDARD.decode(text).ok()
}

/// The image in a reply of the host: its bytes and its media type.
pub open spec fn sent_picture(bytes: Option<Seq<u8>>, reply: JsonValue) -> Option<
    (Seq<u8>, Seq<char>),
> {
    let name = crate::json::text_field(reply.field("attachment"@), "mediaType"@);
    match bytes {
        Some(b) => if exists|m: ImageMediaType| #[trigger] m.name() == name {
            Some((b, name))
        } else {
            None
        },
        None => None,
    }
}

/// What a reply of the host does: its image is cached under an id; without one
/// nothing changes.
pub open spec fn picture_kept(
    a: AppStore,
    b: AppStore,
    id: Seq<char>,
    bytes: Option<Seq<u8>>,
    reply: JsonValue,
) -> bool {
    match sent_picture(bytes, reply) {
        Some(p) => {
            let cache = b.attachments.image_cache@;
            &&& cache.dom() == a.attachments.image_cache@.dom().insert(id)
            &&& cache[id].bytes@ == p.0
            &&& cache[id].media_type@ == p.1
            &&& forall|k: Seq<char>|
                k != id && a.attachments.image_cache@.dom().contains(k) ==> #[trigger] cache[k]
                    == a.attachments.image_cache@[k]
            &&& b == (AppStore {
                attachments: AttachmentsStore {
                    image_cache: b.attachments.image_cache,
                    ..a.attachments
                },
                ..a
            })
        },
        None => b == a,
    }
}

/// A refused batch changes no draft: a batch is taken in as a whole or not at
/// all.
pub proof fn law_refused_batch_changes_nothing(
    a: AppStore,
    b: AppStore,
    v: Verdict,
    stamps: Seq<u128>,
)
    requires
        judged(a, b, false, v, stamps),
    ensures
        b.attachments.draft_images@ == a.attachments.draft_images@,
{
}

/// The drafts stay within the limits of a message.
pub proof fn law_drafts_stay_within_limits(
    a: AppStore,
    b: AppStore,
    files: Seq<Seq<u8>>,
    media: Seq<Option<ImageMediaType>>,
    packed: Seq<Option<(Seq<u8>, ImageMediaType)>>,
    stamps: Seq<u128>,
)
    requires
        judged(
            a,
            b,
            true,
            verdict(
                a.image_limits,
                draft_values(a.attachments.draft_images@),
                files,
                media,
                packed,
            ),
            stamps,
        ),
    ensures
        b.attachments.draft_images@.len() <= a.image_limits.max_images_per_message,
        total_bytes(draft_values(b.attachments.draft_images@).map_values(|d: DraftValue| d.bytes))
            <= a.image_limits.max_message_image_bytes,
{
    let drafts = draft_values(a.attachments.draft_images@);
    let ms = media.map_values(|m: Option<ImageMediaType>| m.unwrap());
    lemma_settled_len(files, ms, packed, a.image_limits.max_image_bytes);
    let images = settled(files, ms, packed, a.image_limits.max_image_bytes).unwrap();
    let added = drafts_of(images, stamps);
    assert(draft_values(b.attachments.draft_images@) == drafts + added);
    assert(draft_values(b.attachments.draft_images@).len() == b.attachments.draft_images@.len());
    let x = drafts.map_values(|d: DraftValue| d.bytes);
    let y = images.map_values(|i: (Seq<u8>, ImageMediaType)| i.0);
    assert((drafts + added).map_values(|d: DraftValue| d.bytes) =~= x + y);
    lemma_total_concat(x, y);
}

proof fn lemma_total_concat(x: Seq<Seq<u8>>, y: Seq<Seq<u8>>)
    ensures
        total_bytes(x + y) == total_bytes(x) + total_bytes(y),
    decreases y.len(),
{
    if y.len() == 0 {
        assert(x + y =~= x);
    } else {
        assert((x + y).drop_last() =~= x + y.drop_last());
        assert((x + y).last() == y.last());
        lemma_total_concat(x, y.drop_last());
    }
}

/// An image that decodes, and is within both limits, comes back unchanged.
pub proof fn law_image_within_limits_is_unchanged(
    bytes: Seq<u8>,
    media_type: ImageMediaType,
    limits: ImageAttachmentLimits,
    r: Option<(Seq<u8>, ImageMediaType)>,
)
    requires
        compressed(bytes, media_type, limits, r),
        media_type != ImageMediaType::Gif,
        bytes.len() <= limits.max_image_bytes,
        decoded_size(bytes) matches Some(size) && size.0 <= max_edge(limits) && size.1 <= max_edge(
            limits,
        ),
    ensures
        r == Some((bytes, media_type)),
{
}

/// What does not decode, and an animation, cannot be compressed.
pub proof fn law_undecodable_image_is_not_compressed(
    bytes: Seq<u8>,
    media_type: ImageMediaType,
    limits: ImageAttachmentLimits,
    r: Option<(Seq<u8>, ImageMediaType)>,
)
    requires
        compressed(bytes, media_type, limits, r),
        decoded_size(bytes) is None || media_type == ImageMediaType::Gif,
    ensures
        r is None,
{
}

/// An image with an edge that is too long is encoded at the size that fits
/// within the longest allowed edge, in its own media type or, where that has
/// too many bytes, as JPEG of the first quality that does not.
pub proof fn law_long_edges_are_scaled(
    bytes: Seq<u8>,
    media_type: ImageMediaType,
    limits: ImageAttachmentLimits,
    r: Option<(Seq<u8>, ImageMediaType)>,
    size: (u32, u32),
)
    requires
        compressed(bytes, media_type, limits, r),
        media_type != ImageMediaType::Gif,
        decoded_size(bytes) == Some(size),
        size.0 > max_edge(limits) || size.1 > max_edge(limits),
    ensures
        ({
            let within = target_size_of(size.0, size.1, max_edge(limits));
            exists|samples: Seq<u8>|
                r == #[trigger] encoded_anew(
                    fitted_size(size, within.0, within.1),
                    samples,
                    media_type,
                    limits.max_image_bytes,
                )
        }),
{
}

/// An image that is small enough, and that decodes to an accepted size or not
/// at all, is taken in byte for byte.
pub proof fn law_small_image_is_kept(
    bytes: Seq<u8>,
    media_type: ImageMediaType,
    limits: ImageAttachmentLimits,
    packed: Option<(Seq<u8>, ImageMediaType)>,
)
    requires
        media_of(bytes) == Some(media_type),
        one_compressed(bytes, packed, limits),
        bytes.len() <= limits.max_image_bytes,
        decoded_size(bytes) matches Some(size) ==> size.0 <= max_edge(limits) && size.1
            <= max_edge(limits),
    ensures
        settled_one(bytes, media_type, packed, limits.max_image_bytes) == Some(
            (bytes, media_type),
        ),
{
}

proof fn lemma_settled(
    files: Seq<Seq<u8>>,
    media: Seq<ImageMediaType>,
    packed: Seq<Option<(Seq<u8>, ImageMediaType)>>,
    max_bytes: u64,
)
    ensures
        match settled(files, media, packed, max_bytes) {
            Some(v) => v.len() == files.len() && forall|i: int|
                0 <= i < files.len() ==> settled_one(
                    #[trigger] files[i],
                    media[i],
                    packed[i],
                    max_bytes,
                ) == Some(v[i]),
            None => exists|i: int|
                0 <= i < files.len() && settled_one(
                    #[trigger] files[i],
                    media[i],
                    packed[i],
                    max_bytes,
                ) is None,
        },
    decreases files.len(),
{
    if files.len() > 0 {
        let init = files.drop_last();
        let n = files.len() - 1;
        lemma_settled(init, media, packed, max_bytes);
        match settled(init, media, packed, max_bytes) {
            None => {
                let i = choose|i: int|
                    0 <= i < init.len() && settled_one(
                        #[trigger] init[i],
                        media[i],
                        packed[i],
                        max_bytes,
                    ) is None;
                assert(files[i] == init[i]);
            },
            Some(w) => {
                match settled_one(files[n], media[n], packed[n], max_bytes) {
                    None => {
                        assert(settled_one(files[n], media[n], packed[n], max_bytes) is None);
                    },
                    Some(one) => {
                        let v = w.push(one);
                        assert forall|i: int| 0 <= i < files.len() implies settled_one(
                            #[trigger] files[i],
                            media[i],
                            packed[i],
                            max_bytes,
                        ) == Some(v[i]) by {
                            if i < n {
                                assert(files[i] == init[i]);
                            }
                        }
                    },
                }
            },
        }
    }
}

/// A batch is refused where an image is of no accepted format; else where the
/// message would have too many images; else where an image has too many bytes and
/// could not be made smaller; else where all images together have too many bytes.
/// Any other batch is accepted, each image as compression left it, or as it was.
pub proof fn law_batches_are_judged(
    limits: ImageAttachmentLimits,
    drafts: Seq<DraftValue>,
    files: Seq<Seq<u8>>,
    media: Seq<Option<ImageMediaType>>,
    packed: Seq<Option<(Seq<u8>, ImageMediaType)>>,
)
    requires
        media.len() == files.len(),
        packed.len() == files.len(),
        forall|i: int|
            0 <= i < files.len() ==> ((#[trigger] packed[i]) is Some ==> media[i]
                != Some(ImageMediaType::Gif)),
    ensures
        ({
            let v = verdict(limits, drafts, files, media, packed);
            let unknown = exists|i: int| 0 <= i < media.len() && (#[trigger] media[i]) is None;
            let many = drafts.len() + files.len() > limits.max_images_per_message;
            let large = exists|i: int|
                0 <= i < files.len() && (#[trigger] files[i]).len() > limits.max_image_bytes
                    && packed[i] is None;
            &&& unknown ==> v == Verdict::Refused("UNSUPPORTED_IMAGE_TYPE"@)
            &&& !unknown && many ==> v == Verdict::Refused("TOO_MANY_IMAGES"@)
            &&& !unknown && !many && large ==> v == Verdict::Refused("IMAGE_TOO_LARGE"@)
            &&& !unknown && !many && !large ==> {
                let images = Seq::new(
                    files.len(),
                    |i: int|
                        match packed[i] {
                            Some(p) => p,
                            None => (files[i], media[i]->0),
                        },
                );
                if total_bytes(drafts.map_values(|d: DraftValue| d.bytes)) + total_bytes(
                    images.map_values(|x: (Seq<u8>, ImageMediaType)| x.0),
                ) > limits.max_message_image_bytes {
                    v == Verdict::Refused("IMAGES_TOO_LARGE"@)
                } else {
                    v == Verdict::Accepted(images)
                }
            }
        }),
{
    let ms = media.map_values(|m: Option<ImageMediaType>| m.unwrap());
    let max = limits.max_image_bytes;
    lemma_settled(files, ms, packed, max);
    let unknown = exists|i: int| 0 <= i < media.len() && (#[trigger] media[i]) is None;
    if !unknown {
        assert forall|i: int| 0 <= i < files.len() implies settled_one(
            #[trigger] files[i],
            ms[i],
            packed[i],
            max,
        ) == (match packed[i] {
            Some(p) => Some(p),
            None => if files[i].len() > max {
                None
            } else {
                Some((files[i], media[i]->0))
            },
        }) by {
            assert(!(media[i] is None));
            assert(packed[i] is Some ==> media[i] != Some(ImageMediaType::Gif));
        }
        match settled(files, ms, packed, max) {
            Some(v) => {
                let images = Seq::new(
                    files.len(),
                    |i: int|
                        match packed[i] {
                            Some(p) => p,
                            None => (files[i], media[i]->0),
                        },
                );
                assert forall|i: int| 0 <= i < files.len() implies !(files[i].len() > max
                    && packed[i] is None) && v[i] == images[i] by {
                    assert(settled_one(files[i], ms[i], packed[i], max) == Some(v[i]));
                }
                assert(v =~= images);
            },
            None => {
                let i = choose|i: int|
                    0 <= i < files.len() && settled_one(
                        #[trigger] files[i],
                        ms[i],
                        packed[i],
                        max,
                    ) is None;
                assert(files[i].len() > max && packed[i] is None);
            },
        }
    }
}

/// The bytes of images are counted image by image.
pub proof fn law_bytes_add_up(images: Seq<Seq<u8>>, next: Seq<u8>)
    ensures
        total_bytes(Seq::<Seq<u8>>::empty()) == 0,
        total_bytes(images.push(next)) == total_bytes(images) + next.len(),
{
    assert(images.push(next).drop_last() =~= images);
}

/// Accepted images become drafts behind those that were there, with their bytes
/// and their media types; of a refused batch the user is told why.
pub proof fn law_accepted_images_become_drafts(
    s: &mut AppStore,
    files: &Vec<Vec<u8>>,
    media: &Vec<Option<ImageMediaType>>,
    packed: &Vec<Option<(Vec<u8>, ImageMediaType)>>,
    stamps: &Vec<u128>,
    accepted: bool,
    i: int,
)
    requires
        call_ensures(AppStore::admit_images, (s, files, media, packed, stamps), accepted),
    ensures
        ({
            let v = verdict(
                old(s).image_limits,
                draft_values(old(s).attachments.draft_images@),
                file_values(files@),
                media@,
                packed_values(packed@),
            );
            let was = old(s).attachments.draft_images@;
            let now = final(s).attachments.draft_images@;
            match v {
                Verdict::Accepted(images) => {
                    &&& accepted
                    &&& now.len() == was.len() + images.len()
                    &&& 0 <= i < was.len() ==> now[i]@ == was[i]@
                    &&& 0 <= i < images.len() ==> {
                        let d = now[was.len() + i]@;
                        &&& d.bytes == images[i].0
                        &&& d.media_type == images[i].1.name()
                        &&& d.id == "draft-"@ + hex(stamps@[i] as nat)
                        &&& d.name is None
                    }
                },
                Verdict::Refused(reason) => {
                    &&& !accepted
                    &&& now == was
                    &&& final(s).attachments.attachment_toast matches Some(t) && t.text@
                        == reject_text(reason, old(s).image_limits)
                },
            }
        }),
{
    let was = s.attachments.draft_images@;
    let now = final(s).attachments.draft_images@;
    let v = verdict(
        s.image_limits,
        draft_values(s.attachments.draft_images@),
        file_values(files@),
        media@,
        packed_values(packed@),
    );
    if let Verdict::Accepted(images) = v {
        let sum = draft_values(was) + drafts_of(images, stamps@);
        assert(draft_values(now) == sum);
        assert(draft_values(now).len() == now.len());
        if 0 <= i < was.len() {
            assert(draft_values(now)[i] == sum[i]);
        }
        if 0 <= i < images.len() {
            assert(draft_values(now)[was.len() + i] == sum[was.len() + i]);
        }
    }
}

/// The first encoding that is small enough is taken: the first one is of the media
/// type of the image, and the others are JPEG.
pub proof fn law_first_small_encoding_is_taken(
    attempts: Seq<Option<Seq<u8>>>,
    media_type: ImageMediaType,
    max_bytes: u64,
    k: int,
)
    requires
        0 <= k <= attempts.len(),
        forall|i: int|
            0 <= i < k ==> ((#[trigger] attempts[i]) is None || attempts[i]->0.len() > max_bytes),
        k < attempts.len() ==> attempts[k] is Some && attempts[k]->0.len() <= max_bytes,
    ensures
        first_fitting(attempts, media_type, max_bytes) == (if k < attempts.len() {
            Some(
                (
                    attempts[k]->0,
                    if k == 0 {
                        media_type
                    } else {
                        ImageMediaType::Jpeg
                    },
                ),
            )
        } else {
            None
        }),
    decreases attempts.len(),
{
    if attempts.len() > 0 {
        let init = attempts.drop_last();
        let n = attempts.len() - 1;
        assert forall|i: int| 0 <= i < k && i < n implies ((#[trigger] init[i]) is None
            || init[i]->0.len() > max_bytes) by {
            assert(init[i] == attempts[i]);
        }
        if k <= n {
            if k < n {
                assert(init[k] == attempts[k]);
            }
            law_first_small_encoding_is_taken(init, media_type, max_bytes, k);
        } else {
            assert(attempts[n] is None || attempts[n]->0.len() > max_bytes);
            law_first_small_encoding_is_taken(init, media_type, max_bytes, n);
        }
    }
}

/// An image is first encoded in its own media type, then as JPEG of quality 85, 70,
/// 55 and 40, until it is small enough.
pub proof fn law_qualities_are_tried_in_turn(
    size: (u32, u32),
    samples: Seq<u8>,
    media_type: ImageMediaType,
    max_bytes: u64,
)
    ensures
        ({
            let r = encoded_anew(size, samples, media_type, max_bytes);
            let own = encoded_image(size, samples, media_type);
            let a = jpeg_image(size, samples, 85);
            let b = jpeg_image(size, samples, 70);
            let c = jpeg_image(size, samples, 55);
            let d = jpeg_image(size, samples, 40);
            let fits = |e: Option<Seq<u8>>| e is Some && e->0.len() <= max_bytes;
            r == (if fits(own) {
                Some((own->0, media_type))
            } else if fits(a) {
                Some((a->0, ImageMediaType::Jpeg))
            } else if fits(b) {
                Some((b->0, ImageMediaType::Jpeg))
            } else if fits(c) {
                Some((c->0, ImageMediaType::Jpeg))
            } else if fits(d) {
                Some((d->0, ImageMediaType::Jpeg))
            } else {
                None
            })
        }),
{
    let t = tries(size, samples, media_type);
    let fits = |e: Option<Seq<u8>>| e is Some && e->0.len() <= max_bytes;
    let k: int = if fits(t[0]) {
        0
    } else if fits(t[1]) {
        1
    } else if fits(t[2]) {
        2
    } else if fits(t[3]) {
        3
    } else if fits(t[4]) {
        4
    } else {
        5
    };
    law_first_small_encoding_is_taken(t, media_type, max_bytes, k);
}

/// Files are known by their first bytes, whatever follows.
pub proof fn law_formats_are_known_by_their_first_bytes(rest: Seq<u8>, a: u8, b: u8, c: u8, d: u8)
    ensures
        media_of(seq![0x89u8, 0x50, 0x4e, 0x47, 0x0d, 0x0a, 0x1a, 0x0a] + rest) == Some(
            ImageMediaType::Png,
        ),
        media_of(seq![0xffu8, 0xd8, 0xff] + rest) == Some(ImageMediaType::Jpeg),
        media_of(seq![0x47u8, 0x49, 0x46, 0x38, 0x39, 0x61] + rest) == Some(ImageMediaType::Gif),
        media_of(seq![0x47u8, 0x49, 0x46, 0x38, 0x37, 0x61] + rest) == Some(ImageMediaType::Gif),
        media_of(seq![0x52u8, 0x49, 0x46, 0x46, a, b, c, d, 0x57, 0x45, 0x42, 0x50] + rest) == Some(
            ImageMediaType::Webp,
        ),
{
    let png = seq![0x89u8, 0x50, 0x4e, 0x47, 0x0d, 0x0a, 0x1a, 0x0a];
    let jpg = seq![0xffu8, 0xd8, 0xff];
    let g9 = seq![0x47u8, 0x49, 0x46, 0x38, 0x39, 0x61];
    let g7 = seq![0x47u8, 0x49, 0x46, 0x38, 0x37, 0x61];
    let riff = seq![0x52u8, 0x49, 0x46, 0x46];
    let webp = seq![0x52u8, 0x49, 0x46, 0x46, a, b, c, d, 0x57, 0x45, 0x42, 0x50];
    assert((png + rest).take(8) =~= png);
    lemma_first_byte(jpg + rest, png);
    assert((jpg + rest).take(3) =~= jpg);
    lemma_first_byte(g9 + rest, png);
    lemma_first_byte(g9 + rest, jpg);
    assert((g9 + rest).take(6) =~= g9);
    lemma_first_byte(g7 + rest, png);
    lemma_first_byte(g7 + rest, jpg);
    assert((g7 + rest).take(6) =~= g7);
    let w = webp + rest;
    lemma_first_byte(w, png);
    lemma_first_byte(w, jpg);
    lemma_first_byte(w, g9);
    lemma_first_byte(w, g7);
    assert(w.take(4) =~= riff);
    assert(w.subrange(8, 12) =~= seq![0x57u8, 0x45, 0x42, 0x50]);
}

proof fn lemma_first_byte(bytes: Seq<u8>, with: Seq<u8>)
    requires
        bytes.len() > 0,
        with.len() > 0,
        bytes[0] != with[0],
    ensures
        !begins(bytes, with),
{
    if begins(bytes, with) {
        assert(bytes.take(with.len() as int)[0] == bytes[0]);
    }
}

/// Removing drafts takes those of an id and leaves the others in their order; the
/// first draft of an id is the one that is found.
pub proof fn law_drafts_are_known_by_their_ids(drafts: Seq<DraftValue>, id: Seq<char>)
    ensures
        drafts_without(drafts, id) == drafts.filter(|d: DraftValue| d.id != id),
        forall|k: int|
            #![trigger drafts[k]]
            0 <= k < drafts.len() && drafts[k].id == id && (forall|i: int|
                0 <= i < k ==> (#[trigger] drafts[i]).id != id) ==> first_draft(drafts, id) == Some(
                drafts[k],
            ),
        (forall|i: int| 0 <= i < drafts.len() ==> (#[trigger] drafts[i]).id != id) ==> first_draft(
            drafts,
            id,
        ) is None,
{
    lemma_drafts_filter(drafts, id);
    assert forall|k: int|
        #![trigger drafts[k]]
        0 <= k < drafts.len() && drafts[k].id == id && (forall|i: int|
            0 <= i < k ==> (#[trigger] drafts[i]).id != id) implies first_draft(drafts, id) == Some(
        drafts[k],
    ) by {
        lemma_first_draft(drafts, id, k);
    }
    if forall|i: int| 0 <= i < drafts.len() ==> (#[trigger] drafts[i]).id != id {
        lemma_first_draft(drafts, id, drafts.len() as int);
    }
}

proof fn lemma_drafts_filter(drafts: Seq<DraftValue>, id: Seq<char>)
    ensures
        drafts_without(drafts, id) == drafts.filter(|d: DraftValue| d.id != id),
    decreases drafts.len(),
{
    reveal(Seq::filter);
    if drafts.len() > 0 {
        lemma_drafts_filter(drafts.drop_last(), id);
    } else {
        assert(drafts =~= drafts.filter(|d: DraftValue| d.id != id));
    }
}

proof fn lemma_first_draft(drafts: Seq<DraftValue>, id: Seq<char>, k: int)
    requires
        0 <= k <= drafts.len(),
        forall|i: int| 0 <= i < k ==> (#[trigger] drafts[i]).id != id,
        k < drafts.len() ==> drafts[k].id == id,
    ensures
        first_draft(drafts, id) == (if k < drafts.len() {
            Some(drafts[k])
        } else {
            None
        }),
    decreases k,
{
    if k > 0 {
        assert(drafts[0].id != id);
        let rest = drafts.skip(1);
        assert forall|i: int| 0 <= i < k - 1 implies (#[trigger] rest[i]).id != id by {
            assert(rest[i] == drafts[i + 1]);
        }
        lemma_first_draft(rest, id, k - 1);
    }
}

/// A picture that the host sent is the one that its id shows from then on, and no
/// other picture changes.
pub proof fn law_loaded_pictures_are_shown(
    a: AppStore,
    b: AppStore,
    id: Seq<char>,
    bytes: Seq<u8>,
    reply: JsonValue,
    name: Seq<char>,
    other: Seq<char>,
)
    requires
        picture_kept(a, b, id, Some(bytes), reply),
        reply.field("attachment"@).get("mediaType"@) == Some(JsonValue::Str(name)),
        name == "image/png"@ || name == "image/jpeg"@ || name == "image/webp"@ || name
            == "image/gif"@,
        first_draft(draft_values(a.attachments.draft_images@), id) is None,
    ensures
        b.picture(id) == Some((bytes, name)),
        other != id ==> b.picture(other) == a.picture(other),
{
    assert(ImageMediaType::Png.name() == name || ImageMediaType::Jpeg.name() == name
        || ImageMediaType::Webp.name() == name || ImageMediaType::Gif.name() == name);
}

/// Sizes are told in bytes, in kilobytes rounded to the nearest, or in megabytes.
pub proof fn law_sizes_are_told_in_their_unit(n: u64)
    requires
        0 < n < 1024,
    ensures
        size_text(n) == dec(n as nat) + "B"@,
        size_text((n * 1024) as u64) == dec(n as nat) + "KB"@,
{
    let b = (n * 1024) as u64;
    assert(b == n * 1024);
    assert(b < 1_048_576);
    assert(nearest(b as nat, 1024) == n) by {
        lemma_nearest_exact(n as nat);
    }
}

proof fn lemma_nearest_exact(n: nat)
    ensures
        nearest(n * 1024, 1024) == n,
{
}

/// A picture is opened large where it is there, and closed again; nothing else
/// changes.
pub proof fn law_pictures_are_opened_large(
    s: &mut AppStore,
    t: &mut AppStore,
    u: &AppStore,
    key: &str,
    needed: bool,
)
    requires
        call_ensures(AppStore::open_lightbox, (s, key), ()),
        call_ensures(AppStore::close_lightbox, (t,), ()),
        call_ensures(AppStore::ensure_image_loaded, (u, key), needed),
    ensures
        old(s).picture(key@) is None ==> *final(s) == *old(s),
        old(s).picture(key@) matches Some(p) ==> (final(s).attachments.lightbox matches Some(l)
            && l.0@ == key@ && l.1.bytes@ == p.0),
        final(s).attachments.draft_images == old(s).attachments.draft_images,
        final(t).attachments.lightbox is None,
        final(t).attachments.draft_images == old(t).attachments.draft_images,
        needed <==> !u.attachments.image_cache@.contains_key(key@),
{
}

proof fn lemma_cached_ids(s: AppStore, blocks: Seq<JsonValue>, id: Seq<char>)
    ensures
        s.cached_ids(blocks).contains(id) <==> s.attachments.image_cache@.contains_key(id) && exists|
            i: int,
        |
            0 <= i < blocks.len() && attachment_id_of(#[trigger] blocks[i]) == Some(id),
    decreases blocks.len(),
{
    if blocks.len() > 0 {
        let init = blocks.drop_last();
        let a = s.cached_ids(init);
        let b = s.cached_ids(blocks);
        lemma_cached_ids(s, init, id);
        if a.contains(id) {
            let k = choose|k: int| 0 <= k < a.len() && a[k] == id;
            assert(b[k] == id);
            let i = choose|i: int|
                0 <= i < init.len() && attachment_id_of(#[trigger] init[i]) == Some(id);
            assert(blocks[i] == init[i]);
        }
        if b.contains(id) && !a.contains(id) {
            let k = choose|k: int| 0 <= k < b.len() && b[k] == id;
            assert(k < a.len() ==> a[k] == id);
            assert(attachment_id_of(blocks[blocks.len() - 1]) == Some(id));
        }
        if s.attachments.image_cache@.contains_key(id) && exists|i: int|
            0 <= i < blocks.len() && attachment_id_of(#[trigger] blocks[i]) == Some(id) {
            let i = choose|i: int|
                0 <= i < blocks.len() && attachment_id_of(#[trigger] blocks[i]) == Some(id);
            if i < blocks.len() - 1 {
                assert(init[i] == blocks[i]);
                assert(a.contains(id));
            } else {
                assert(b.last() == id);
            }
        }
    } else {
        assert(!s.cached_ids(blocks).contains(id));
    }
}

/// A message shows those of its images that are there; one that is alone in
/// its message is shown large.
pub proof fn law_messages_show_their_images(
    s: &AppStore,
    blocks: &Vec<Json>,
    i: int,
    id: Seq<char>,
    r: Option<(bool, Vec<String>)>,
)
    requires
        call_ensures(AppStore::message_images, (s, blocks), r),
        0 <= i < blocks@.len(),
        attachment_id_of(blocks@[i].value()) == Some(id),
    ensures
        s.attachments.image_cache@.contains_key(id) ==> (r matches Some(g) && views(g.1@).contains(
            id,
        )),
        !s.attachments.image_cache@.contains_key(id) ==> (r matches Some(g) ==> !views(
            g.1@,
        ).contains(id)),
        r matches Some(g) ==> (g.0 <==> blocks@.len() == 1) && g.1@.len() > 0,
{
    let v = values(blocks@);
    assert(v[i] == blocks@[i].value());
    lemma_cached_ids(*s, v, id);
    if s.attachments.image_cache@.contains_key(id) {
        assert(attachment_id_of(v[i]) == Some(id));
        assert(s.cached_ids(v).contains(id));
    }
}

/// A picture that the host sends is kept in the bytes that its data spells.
pub proof fn law_sent_pictures_are_kept(s: &mut AppStore, id: &str, reply: &Json)
    requires
        call_ensures(AppStore::image_loaded, (s, id, reply), ()),
    ensures
        picture_kept(
            *old(s),
            *final(s),
            id@,
            standard_bytes(crate::json::text_field(reply.value(), "data"@)),
            reply.value(),
        ),
{
}

proof fn lemma_some_reasons()
    ensures
        "TOO_MANY_IMAGES"@.len() == 15 && "TOO_MANY_IMAGES"@[0] == 'T',
        "IMAGES_TOO_LARGE"@.len() == 16 && "IMAGES_TOO_LARGE"@[0] == 'I',
        "UNSUPPORTED_IMAGE_TYPE"@.len() == 22 && "UNSUPPORTED_IMAGE_TYPE"@[0] == 'U',
        "IMAGE_TOO_LARGE"@.len() == 15 && "IMAGE_TOO_LARGE"@[0] == 'I',
        "IMAGE_TOO_MANY_PIXELS"@.len() == 21 && "IMAGE_TOO_MANY_PIXELS"@[0] == 'I',
{
    reveal_strlit("TOO_MANY_IMAGES");
    reveal_strlit("IMAGES_TOO_LARGE");
    reveal_strlit("UNSUPPORTED_IMAGE_TYPE");
    reveal_strlit("IMAGE_TOO_LARGE");
    reveal_strlit("IMAGE_TOO_MANY_PIXELS");
}

proof fn lemma_other_reasons()
    ensures
        "IMAGE_DIMENSION_TOO_LARGE"@.len() == 25 && "IMAGE_DIMENSION_TOO_LARGE"@[0] == 'I',
        "INVALID_IMAGE_BASE64"@.len() == 20 && "INVALID_IMAGE_BASE64"@[0] == 'I',
        "INVALID_IMAGE"@.len() == 13 && "INVALID_IMAGE"@[0] == 'I',
        "IMAGE_TYPE_MISMATCH"@.len() == 19 && "IMAGE_TYPE_MISMATCH"@[0] == 'I',
        "MODEL_DOES_NOT_SUPPORT_IMAGES"@.len() == 29 && "MODEL_DOES_NOT_SUPPORT_IMAGES"@[0] == 'M',
{
    reveal_strlit("IMAGE_DIMENSION_TOO_LARGE");
    reveal_strlit("INVALID_IMAGE_BASE64");
    reveal_strlit("INVALID_IMAGE");
    reveal_strlit("IMAGE_TYPE_MISMATCH");
    reveal_strlit("MODEL_DOES_NOT_SUPPORT_IMAGES");
}

/// A refusal names the limit that it is about: the number of images, the size
/// of all, the size of one or the length of an edge; what is wrong with an
/// image or a model is said in words.
pub proof fn law_refusals_name_their_limit(reason: &str, limits: &ImageAttachmentLimits, r: String)
    requires
        call_ensures(image_reject_text, (reason, limits), r),
    ensures
        reason@ == "TOO_MANY_IMAGES"@ ==> r@ == "一条消息最多添加 "@ + dec(
            limits.max_images_per_message as nat,
        ) + " 张图片"@,
        reason@ == "IMAGES_TOO_LARGE"@ ==> r@ == "图片总大小超过 "@ + size_text(
            limits.max_message_image_bytes,
        ) + ",请移除部分图片"@,
        reason@ == "IMAGE_TOO_LARGE"@ ==> r@ == "单张图片不能超过 "@ + size_text(
            limits.max_image_bytes,
        ),
        reason@ == "IMAGE_DIMENSION_TOO_LARGE"@ ==> r@ == "图片宽高不能超过 "@ + dec(
            limits.max_image_dimension as nat,
        ) + "px,请缩小后重试"@,
        reason@ == "UNSUPPORTED_IMAGE_TYPE"@ ==> r@
            == "仅支持 PNG、JPG、WebP、GIF 格式的图片"@,
        reason@ == "IMAGE_TOO_MANY_PIXELS"@ ==> r@ == "图片分辨率过大,请压缩后重试"@,
        reason@ == "INVALID_IMAGE_BASE64"@ || reason@ == "INVALID_IMAGE"@ || reason@
            == "IMAGE_TYPE_MISMATCH"@ ==> r@ == "图片编码无效"@,
        reason@ == "MODEL_DOES_NOT_SUPPORT_IMAGES"@ ==> r@
            == "当前模型不支持图片,请切换支持图片的模型"@,
        reason@.len() == 0 ==> r@ == "图片发送失败,请重新添加图片后再试"@,
{
    lemma_some_reasons();
    lemma_other_reasons();
}

} // verus!
