use pig_core::json::{parse_json, Json};
use pig_core::media::{
    base64_encode, changed_picture, compress_image_for_model, compression_note,
    encode_image_for_model, examine_pasted, image_dimensions, kept_name, needs_scaling, part_asked,
    pasted_name, plan_media, read_media, sniff_image, CompressedImage, Part,
};

fn json(text: &str) -> Json {
    parse_json(text).expect("JSON")
}

fn png(w: u32, h: u32) -> Vec<u8> {
    let mut out = std::io::Cursor::new(Vec::new());
    image::DynamicImage::new_rgb8(w, h).write_to(&mut out, image::ImageFormat::Png).unwrap();
    out.into_inner()
}

fn jpeg(w: u32, h: u32) -> Vec<u8> {
    let mut out = std::io::Cursor::new(Vec::new());
    image::DynamicImage::new_rgb8(w, h).write_to(&mut out, image::ImageFormat::Jpeg).unwrap();
    out.into_inner()
}

#[test]
fn pictures_are_known_by_their_first_bytes() {
    assert_eq!(sniff_image(&png(1, 1)), Some("image/png"));
    assert_eq!(sniff_image(&jpeg(1, 1)), Some("image/jpeg"));
    assert_eq!(sniff_image(b"GIF87a..."), Some("image/gif"));
    assert_eq!(sniff_image(b"GIF89a"), Some("image/gif"));
    assert_eq!(sniff_image(b"RIFF....WEBPVP8 "), Some("image/webp"));
    assert_eq!(sniff_image(b"RIFF....WAVE"), None);
    assert_eq!(sniff_image(b""), None);
}

#[test]
fn base64_is_the_usual_one() {
    assert_eq!(base64_encode(b""), "");
    assert_eq!(base64_encode(b"f"), "Zg==");
    assert_eq!(base64_encode(b"fo"), "Zm8=");
    assert_eq!(base64_encode(b"foo"), "Zm9v");
    assert_eq!(base64_encode(b"foobar"), "Zm9vYmFy");
    assert_eq!(base64_encode(&[0xFB, 0xFF, 0xFE]), "+//+");
}

#[test]
fn sizes_are_read_without_decoding() {
    assert_eq!(image_dimensions(&png(3, 2)), Some((3, 2)));
    assert_eq!(image_dimensions(b"no picture"), None);
    assert!(needs_scaling(2001, 1) && needs_scaling(1, 2001));
    assert!(!needs_scaling(2000, 2000));
}

#[test]
fn a_small_picture_keeps_its_size_and_kind() {
    let c = compress_image_for_model(&png(3, 2), "", (9, 9)).unwrap();
    assert_eq!((c.width, c.height, c.media_type.as_str()), (3, 2, "image/png"));
    assert_eq!(image_dimensions(&c.bytes), Some((3, 2)));
    let c = compress_image_for_model(&jpeg(3, 2), "", (9, 9)).unwrap();
    assert_eq!(c.media_type, "image/jpeg");
    assert_eq!(sniff_image(&c.bytes), Some("image/jpeg"));
}

#[test]
fn a_large_picture_is_scaled() {
    let c = compress_image_for_model(&png(4000, 1000), "image/png", (2000, 500)).unwrap();
    assert_eq!((c.width, c.height), (2000, 500));
    assert_eq!(image_dimensions(&c.bytes), Some((2000, 500)));
}

#[test]
fn what_is_no_picture_is_refused() {
    let e = compress_image_for_model(b"text", "", (1, 1)).unwrap_err();
    assert_eq!(e, "不是可识别的图片（支持 PNG/JPEG/GIF/WebP）");
    let e = examine_pasted(b"text", "image/png").unwrap_err();
    assert!(e.starts_with("图片解析失败: "), "{e}");
    let cut = &png(40, 40)[..40];
    let e = examine_pasted(cut, "image/png").unwrap_err();
    assert!(e.starts_with("图片解码失败: ") || e.starts_with("图片解析失败: "), "{e}");
}

#[test]
fn a_part_without_pixels_cannot_be_encoded() {
    let none = Part { x: 0, y: 0, width: 0, height: 0 };
    let e = encode_image_for_model(&png(3, 3), none, false, "image/png", (1, 1)).unwrap_err();
    assert!(e.starts_with("图片编码失败: "), "{e}");
    assert!(e.contains("Zero width not allowed"), "{e}");
    let e = encode_image_for_model(&jpeg(3, 3), none, false, "image/jpeg", (1, 1)).unwrap_err();
    assert!(e.starts_with("图片编码失败: "), "{e}");
    assert!(e.contains("Invalid image size"), "{e}");
    let some = Part { x: 1, y: 1, width: 2, height: 1 };
    let c = encode_image_for_model(&jpeg(3, 3), some, false, "image/jpeg", (1, 1)).unwrap();
    assert_eq!(image_dimensions(&c.bytes), Some((2, 1)));
}

#[test]
fn a_region_is_cut_to_the_picture() {
    let (p, note) = part_asked(&json("{}"), 10, 8).unwrap();
    assert_eq!(p, Part { x: 0, y: 0, width: 10, height: 8 });
    assert_eq!(note, "");
    let region = json(r#"{"region": {"x": 4, "y": 2, "width": 100, "height": 3}}"#);
    let (p, note) = part_asked(&region, 10, 8).unwrap();
    assert_eq!(p, Part { x: 4, y: 2, width: 6, height: 3 });
    assert_eq!(note, "，裁剪 (4,2)→(10,5)");
    let region = json(r#"{"region": {"x": 40, "y": 2, "width": 1, "height": 1}}"#);
    let e = part_asked(&region, 10, 8).unwrap_err();
    assert_eq!(e, "裁剪区域（x=40, y=2, 1×1）与图片（10×8）不相交");
}

#[test]
fn a_picture_is_read_for_the_model() {
    let bytes = png(30, 20);
    let args = json(r#"{"region": {"x": 1, "y": 1, "width": 10, "height": 5}}"#);
    let plan = plan_media(&args, &bytes).unwrap();
    let (report, image) = read_media(&plan, "p.png", &bytes, (1, 1)).unwrap();
    assert!(
        report.starts_with("已读取图片 p.png（原始 30×20，裁剪 (1,1)→(11,6) → 输出 10×5，image/png，"),
        "{report}"
    );
    assert_eq!((image.width, image.height), (10, 5));
    assert_eq!(image.media_type, "image/png");
    let plan = plan_media(&json(r#"{"full_resolution": true}"#), &png(2100, 1)).unwrap();
    let (_, image) = read_media(&plan, "p.png", &png(2100, 1), (1, 1)).unwrap();
    assert_eq!((image.width, image.height), (2100, 1));
    let e = plan_media(&json("{}"), b"no").unwrap_err();
    assert!(e.ends_with("视频暂不支持"), "{e}");
}

#[test]
fn a_pasted_picture_that_changes_is_told_of() {
    let sent = CompressedImage {
        bytes: vec![0; 2048],
        media_type: "image/jpeg".to_string(),
        width: 10,
        height: 5,
    };
    let was = changed_picture(b"no picture", "image/gif", &sent).unwrap();
    assert_eq!((was.mime.as_str(), was.width, was.height), ("image/gif", 0, 0));
    assert_eq!(
        compression_note(2, &was, &sent, Some("/m/3.orig.gif")),
        "\n[图片 2 已压缩以适应模型限制：原始 0×0 image/gif → 发送 10×5 image/jpeg（2KB），细节可能丢失；原图已存到 /m/3.orig.gif，需要看清细节（例如小字）可用 ReadMediaFile 对该路径用 region 裁剪查看]"
    );
    assert!(compression_note(2, &was, &sent, None).ends_with("；原图未保留]"));
    assert_eq!(kept_name(3, "image/png"), "3.png");
    assert_eq!(kept_name(3, "image/jpeg"), "3.jpg");
    assert_eq!(pasted_name(3, "image/webp"), "3.orig.webp");
    let same = CompressedImage { width: 0, height: 0, media_type: "image/gif".to_string(), ..sent };
    assert!(changed_picture(b"no picture", "image/gif", &same).is_none());
}
