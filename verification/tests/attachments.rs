use dsh_desktop::attachments::{
    block_attachment, compress_decoded, compress_to_limits, image_reject_text, image_size_text, pick_encoding,
    target_size, DraftImage, ImageAttachmentLimits, ImageMediaType,
};
use dsh_desktop::json::{Json, Number};
use dsh_desktop::shell::state::HostInfo;
use dsh_desktop::shell::store::AppStore;

fn convert(v: &serde_json::Value) -> Json {
    match v {
        serde_json::Value::Null => Json::Null,
        serde_json::Value::Bool(b) => Json::Bool(*b),
        serde_json::Value::Number(n) => Json::Number(if let Some(u) = n.as_u64() {
            Number::Unsigned(u)
        } else if let Some(i) = n.as_i64() {
            Number::Negative(i)
        } else {
            Number::Float(n.as_f64().unwrap().to_bits())
        }),
        serde_json::Value::String(s) => Json::Str(s.clone()),
        serde_json::Value::Array(a) => Json::Array(a.iter().map(convert).collect()),
        serde_json::Value::Object(o) => {
            Json::Object(o.iter().map(|(k, v)| (k.clone(), convert(v))).collect())
        }
    }
}

fn json(text: &str) -> Json {
    convert(&serde_json::from_str(text).unwrap())
}

fn limits() -> ImageAttachmentLimits {
    ImageAttachmentLimits {
        max_images_per_message: 20,
        max_message_image_bytes: 20 * 1_048_576,
        max_image_bytes: 3_670_016,
        max_image_dimension: 4096,
    }
}

fn store(limits: ImageAttachmentLimits) -> AppStore {
    let info = HostInfo {
        version: "1".into(),
        model: None,
        presets: Vec::new(),
        workspaces: Vec::new(),
    };
    AppStore::new(info, Vec::new(), limits, Json::Null)
}

fn picture(width: u32, height: u32, format: image::ImageFormat) -> Vec<u8> {
    let img = image::DynamicImage::ImageRgb8(image::RgbImage::from_fn(width, height, |x, y| {
        image::Rgb([(x * 37 + y * 11) as u8, (x * y) as u8, (x ^ y) as u8])
    }));
    let mut buf = std::io::Cursor::new(Vec::new());
    img.write_to(&mut buf, format).unwrap();
    buf.into_inner()
}

#[test]
fn image_reject_text_maps_all_reasons() {
    let limits = limits();
    assert_eq!(
        image_reject_text("IMAGE_DIMENSION_TOO_LARGE", &limits),
        "图片宽高不能超过 4096px,请缩小后重试"
    );
    assert_eq!(
        image_reject_text("IMAGE_TOO_MANY_PIXELS", &limits),
        "图片分辨率过大,请压缩后重试"
    );
    assert_eq!(
        image_reject_text("IMAGE_TOO_LARGE", &limits),
        "单张图片不能超过 3.5MB"
    );
    assert_eq!(
        image_reject_text("TOO_MANY_IMAGES", &limits),
        "一条消息最多添加 20 张图片"
    );
    assert_eq!(
        image_reject_text("UNKNOWN", &limits),
        "图片发送失败,请重新添加图片后再试"
    );
    assert_eq!(
        store(limits).attachment_error_text("IMAGES_TOO_LARGE"),
        "图片总大小超过 20MB,请移除部分图片"
    );
}

#[test]
fn sizes_are_short() {
    assert_eq!(image_size_text(0), "0B");
    assert_eq!(image_size_text(1023), "1023B");
    assert_eq!(image_size_text(1024), "1KB");
    assert_eq!(image_size_text(1536), "2KB");
    assert_eq!(image_size_text(1_048_576), "1MB");
    assert_eq!(image_size_text(1_572_864), "1.5MB");
    assert_eq!(image_size_text(2_097_151), "2MB");
}

#[test]
fn media_types_have_names() {
    for (m, name) in [
        (ImageMediaType::Png, "image/png"),
        (ImageMediaType::Jpeg, "image/jpeg"),
        (ImageMediaType::Webp, "image/webp"),
        (ImageMediaType::Gif, "image/gif"),
    ] {
        assert_eq!(m.as_str(), name);
        assert_eq!(ImageMediaType::parse(name), Some(m));
    }
    assert_eq!(ImageMediaType::parse("image/bmp"), None);
}

#[test]
fn scaling_keeps_the_ratio() {
    assert_eq!(target_size(8000, 4000, 4096), (4096, 2048));
    assert_eq!(target_size(4000, 8000, 4096), (2048, 4096));
    assert_eq!(target_size(100_000, 1, 4096), (4096, 1));
}

#[test]
fn the_first_encoding_that_fits_is_taken() {
    let attempts = vec![Some(vec![0; 9]), None, Some(vec![1; 3]), Some(vec![2; 1])];
    assert_eq!(
        pick_encoding(&attempts, ImageMediaType::Png, 9),
        Some((vec![0; 9], ImageMediaType::Png))
    );
    assert_eq!(
        pick_encoding(&attempts, ImageMediaType::Png, 3),
        Some((vec![1; 3], ImageMediaType::Jpeg))
    );
    assert_eq!(pick_encoding(&attempts, ImageMediaType::Png, 0), None);
}

#[test]
fn images_within_the_limits_stay() {
    let png = picture(20, 10, image::ImageFormat::Png);
    assert_eq!(
        compress_to_limits(&png, ImageMediaType::Png, &limits()),
        Some((png.clone(), ImageMediaType::Png))
    );
    assert_eq!(compress_to_limits(&png, ImageMediaType::Gif, &limits()), None);
    assert_eq!(
        compress_to_limits(&vec![1, 2, 3], ImageMediaType::Png, &limits()),
        None
    );
}

#[test]
fn long_edges_are_scaled() {
    let small = ImageAttachmentLimits {
        max_image_dimension: 16,
        ..limits()
    };
    let png = picture(64, 32, image::ImageFormat::Png);
    let (bytes, media) = compress_to_limits(&png, ImageMediaType::Png, &small).unwrap();
    assert_eq!(media, ImageMediaType::Png);
    let img = image::load_from_memory(&bytes).unwrap();
    assert_eq!((img.width(), img.height()), (16, 8));
}

#[test]
fn heavy_images_become_jpeg() {
    let png = picture(200, 200, image::ImageFormat::Png);
    let tight = ImageAttachmentLimits {
        max_image_bytes: png.len() as u64 - 1,
        ..limits()
    };
    let decoded = image::load_from_memory(&png).unwrap();
    let mut again = std::io::Cursor::new(Vec::new());
    decoded
        .write_to(&mut again, image::ImageFormat::Png)
        .unwrap();
    let again = again.into_inner();
    let (bytes, media) = compress_to_limits(&png, ImageMediaType::Png, &tight).unwrap();
    assert!(bytes.len() < png.len());
    if again.len() < png.len() {
        assert_eq!((bytes, media), (again, ImageMediaType::Png));
    } else {
        assert_eq!(media, ImageMediaType::Jpeg);
        let mut buf = std::io::Cursor::new(Vec::new());
        let encoder = image::codecs::jpeg::JpegEncoder::new_with_quality(&mut buf, 85);
        decoded.write_with_encoder(encoder).unwrap();
        assert_eq!(bytes, buf.into_inner());
    }
    let none = ImageAttachmentLimits {
        max_image_bytes: 1,
        ..limits()
    };
    assert_eq!(compress_to_limits(&png, ImageMediaType::Png, &none), None);
}

#[test]
fn files_are_known_by_their_first_bytes() {
    let mut s = store(limits());
    let files = vec![
        picture(4, 4, image::ImageFormat::Png),
        picture(4, 4, image::ImageFormat::Jpeg),
        picture(4, 4, image::ImageFormat::WebP),
        picture(4, 4, image::ImageFormat::Gif),
    ];
    assert!(s.intake_images(&files, &vec![1, 2, 3, 4]));
    let types: Vec<&str> = s
        .attachments
        .draft_images
        .iter()
        .map(|d| d.media_type.as_str())
        .collect();
    assert_eq!(types, ["image/png", "image/jpeg", "image/webp", "image/gif"]);
    let ids: Vec<&String> = s.attachments.draft_images.iter().map(|d| &d.id).collect();
    assert_ne!(ids[0], ids[1]);
    assert!(s.attachments.attachment_toast.is_none());
}

#[test]
fn a_refused_batch_changes_nothing_but_the_toast() {
    let mut s = store(ImageAttachmentLimits {
        max_images_per_message: 1,
        ..limits()
    });
    let png = picture(4, 4, image::ImageFormat::Png);
    assert!(!s.intake_images(&vec![png.clone(), png.clone()], &vec![1, 2]));
    assert!(s.attachments.draft_images.is_empty());
    assert_eq!(
        s.attachments.attachment_toast.as_ref().unwrap().text,
        "一条消息最多添加 1 张图片"
    );
    assert!(!s.intake_images(&vec![vec![1, 2, 3]], &vec![1]));
    assert_eq!(
        s.attachments.attachment_toast.as_ref().unwrap().text,
        "仅支持 PNG、JPG、WebP、GIF 格式的图片"
    );
    assert!(s.intake_images(&vec![png.clone()], &vec![1]));
    assert_eq!(s.attachments.draft_images.len(), 1);
    assert!(!s.intake_images(&vec![png], &vec![2]));
    assert_eq!(s.attachments.draft_images.len(), 1);
}

#[test]
fn too_many_bytes_are_refused() {
    let png = picture(30, 30, image::ImageFormat::Png);
    let mut s = store(ImageAttachmentLimits {
        max_message_image_bytes: png.len() as u64,
        ..limits()
    });
    assert!(s.intake_images(&vec![png.clone()], &vec![1]));
    assert!(!s.intake_images(&vec![png], &vec![2]));
    assert!(s
        .attachments
        .attachment_toast
        .as_ref()
        .unwrap()
        .text
        .starts_with("图片总大小超过"));
}

#[test]
fn judged_batches_need_no_decoding() {
    let mut s = store(limits());
    let ok = s.admit_images(
        &vec![vec![1, 2]],
        &vec![Some(ImageMediaType::Png)],
        &vec![Some((vec![9], ImageMediaType::Jpeg))],
        &vec![255],
    );
    assert!(ok);
    assert_eq!(s.attachments.draft_images[0].bytes, vec![9]);
    assert_eq!(s.attachments.draft_images[0].media_type, "image/jpeg");
}

#[test]
fn drafts_are_removed_and_shown() {
    let mut s = store(limits());
    s.attachments.draft_images.push(DraftImage {
        id: "a".into(),
        bytes: vec![1],
        media_type: "image/png".into(),
        name: None,
    });
    s.open_lightbox("a");
    assert_eq!(s.attachments.lightbox.as_ref().unwrap().0, "a");
    s.close_lightbox();
    assert!(s.attachments.lightbox.is_none());
    s.remove_draft_image("a");
    assert!(s.attachments.draft_images.is_empty());
}

#[test]
fn images_of_messages_are_loaded_once() {
    let mut s = store(limits());
    assert!(s.ensure_image_loaded("x"));
    s.image_loaded("x", &json(r#"{"data":"AQID","attachment":{"mediaType":"image/png"}}"#));
    assert!(!s.ensure_image_loaded("x"));
    assert_eq!(s.attachments.image_cache.get("x").unwrap().bytes, vec![1, 2, 3]);
    s.image_loaded("y", &json(r#"{"data":"***","attachment":{"mediaType":"image/png"}}"#));
    assert!(s.ensure_image_loaded("y"));
    let reply = json(r#"{"attachment":{"mediaType":"image/gif"}}"#);
    s.keep_picture("z", Some(vec![7]), &reply);
    assert_eq!(s.attachments.image_cache.get("z").unwrap().media_type, "image/gif");
    s.keep_picture("y", Some(vec![7]), &json(r#"{"attachment":{"mediaType":"text/plain"}}"#));
    s.keep_picture("y", None, &reply);
    assert!(s.ensure_image_loaded("y"));
    let blocks = vec![
        json(r#"{"attachment":{"attachmentId":"x"}}"#),
        json(r#"{"attachment":{"attachmentId":"y"}}"#),
    ];
    assert_eq!(s.message_images(&blocks), Some((false, vec!["x".to_string()])));
    assert_eq!(s.message_images(&Vec::new()), None);
}

#[test]
fn attachments_of_blocks() {
    assert_eq!(block_attachment(&json(r#"{"type":"text","text":"x"}"#)), None);
    assert_eq!(
        block_attachment(&json(r#"{"attachment":{"attachmentId":"x"}}"#)).as_deref(),
        Some("x")
    );
}

#[test]
fn decoded_images_are_scaled_to_the_size_that_fits() {
    let small = ImageAttachmentLimits {
        max_image_dimension: 40,
        ..limits()
    };
    let png = picture(50, 33, image::ImageFormat::Png);
    let decoded = image::load_from_memory(&png).unwrap();
    let (w, h) = target_size(50, 33, 40);
    assert_eq!((w, h), (40, 26));
    let want = decoded.resize(w, h, image::imageops::FilterType::Lanczos3);
    let (bytes, media) =
        compress_decoded(Some(decoded), &png, ImageMediaType::Png, &small).unwrap();
    assert_eq!(media, ImageMediaType::Png);
    let img = image::load_from_memory(&bytes).unwrap();
    assert_eq!((img.width(), img.height()), (want.width(), want.height()));
    assert!(img.width() == w || img.height() == h);
    assert_eq!(compress_decoded(None, &png, ImageMediaType::Png, &small), None);
}
