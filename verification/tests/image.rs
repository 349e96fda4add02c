use goose::image::{
    ensure_image_size, finish_image, image_source, load_image, mime_type, route_source,
    validate_crop, CropParams, ImageAnswer, ImageFacts, ImageKind, ImageReadParams, ImageSource,
    ImageTool, MAX_IMAGE_BYTES,
};

fn png(width: u32, height: u32) -> Vec<u8> {
    let picture = image::RgbaImage::new(width, height);
    let mut out = std::io::Cursor::new(Vec::new());
    picture.write_to(&mut out, image::ImageFormat::Png).unwrap();
    out.into_inner()
}

fn crop(x: u32, y: u32, width: u32, height: u32) -> CropParams {
    CropParams { x, y, width, height }
}

#[test]
fn sources_are_told_apart() {
    assert_eq!(image_source("https://example.com/a.png"), ImageSource::Download);
    assert_eq!(image_source("http://example.com/a.png"), ImageSource::Download);
    assert_eq!(image_source("file:///tmp/a.png"), ImageSource::File(b"/tmp/a.png".to_vec()));
    assert_eq!(
        image_source("file:///tmp/%FF%20a.png"),
        ImageSource::File(b"/tmp/\xff a.png".to_vec())
    );
    assert_eq!(
        image_source("file://elsewhere/a.png"),
        ImageSource::Refused("invalid file URL".to_string())
    );
    assert_eq!(image_source("pictures/a.png"), ImageSource::Path);
    assert_eq!(image_source("data:image/png;base64,AA"), ImageSource::Path);
    assert_eq!(
        image_source("  "),
        ImageSource::Refused("source cannot be empty".to_string())
    );
    assert_eq!(
        route_source("file://x", Some("file".to_string()), None),
        ImageSource::Refused("invalid file URL".to_string())
    );
}

#[test]
fn images_are_loaded() {
    let bytes = png(4, 3);
    let i = load_image(&bytes, None).unwrap();
    assert_eq!(i.mime_type, "image/png");
    assert_eq!((i.width, i.height), (4, 3));
    assert_eq!(i.bytes_len, bytes.len());
    assert!(!i.cropped);
    assert!(i.data.starts_with("iVBORw0KGgo"));
}

#[test]
fn parts_of_images_are_loaded() {
    let i = load_image(&png(4, 3), Some(crop(1, 1, 2, 2))).unwrap();
    assert!(i.cropped);
    assert_eq!((i.width, i.height), (2, 2));
    assert_eq!((i.original_width, i.original_height), (4, 3));
    assert!(i.summary("a.png").ends_with(" Cropped from 4x3 to 2x2."));
}

#[test]
fn crops_lie_inside() {
    assert_eq!(validate_crop(&crop(0, 0, 4, 3), 4, 3), Ok(()));
    assert_eq!(
        validate_crop(&crop(0, 0, 0, 3), 4, 3),
        Err("crop width and height must be greater than zero".to_string())
    );
    assert_eq!(
        validate_crop(&crop(u32::MAX, 0, 1, 1), 4, 3),
        Err("crop rectangle is out of bounds".to_string())
    );
    assert_eq!(
        validate_crop(&crop(1, 2, 4, 3), 4, 3),
        Err("crop rectangle 4x3 at 1,2 exceeds image bounds 4x3".to_string())
    );
    assert!(load_image(&png(4, 3), Some(crop(1, 2, 4, 3))).is_err());
}

#[test]
fn other_bytes_are_refused() {
    let unsupported =
        "unsupported image format; supported formats are png, jpeg, gif, and webp".to_string();
    assert_eq!(load_image(&b"plain text".to_vec(), None), Err(unsupported.clone()));
    assert_eq!(mime_type(ImageKind::Other), Err(unsupported));
    assert_eq!(mime_type(ImageKind::WebP), Ok("image/webp".to_string()));
    let mut broken = png(4, 3);
    broken.truncate(20);
    assert!(load_image(&broken, None).unwrap_err().starts_with("failed to decode image: "));
}

#[test]
fn images_have_a_largest_size() {
    assert_eq!(ensure_image_size(MAX_IMAGE_BYTES), Ok(()));
    assert_eq!(
        ensure_image_size(MAX_IMAGE_BYTES + 1),
        Err("image is too large: 20971521 bytes exceeds 20971520 byte limit".to_string())
    );
}

#[test]
fn facts_decide_one_after_the_other() {
    let facts = |part: Result<Vec<u8>, String>| ImageFacts {
        kind: Some(ImageKind::Jpeg),
        size: Ok((10, 10)),
        part,
    };
    let i = finish_image(&vec![1, 2, 3], None, facts(Err(String::new()))).unwrap();
    assert_eq!(i.data, "AQID");
    assert_eq!(i.mime_type, "image/jpeg");
    let i = finish_image(&vec![1, 2, 3], Some(crop(0, 0, 1, 1)), facts(Ok(vec![255, 254]))).unwrap();
    assert_eq!(i.data, "//4=");
    assert_eq!(i.mime_type, "image/png");
    assert_eq!(
        finish_image(&vec![1], Some(crop(0, 0, 1, 1)), facts(Err("full".to_string()))),
        Err("failed to encode cropped image: full".to_string())
    );
}

#[test]
fn the_tool_answers_with_the_image() {
    let tool = ImageTool::new();
    let params = ImageReadParams { source: "a.png".to_string(), crop: None };
    match tool.answer(&params, load_image(&png(4, 3), None)) {
        ImageAnswer::Image { text, mime_type, structured, .. } => {
            assert!(text.starts_with("Loaded image from a.png ("));
            assert!(text.ends_with(", image/png, 4x3)."));
            assert_eq!(mime_type, "image/png");
            assert_eq!(structured.get_str("source"), Some("a.png"));
            assert_eq!(structured.get("width").and_then(|w| w.as_u64()), Some(4));
        }
        _ => panic!("no image"),
    }
    assert_eq!(
        tool.answer(&params, Err("gone".to_string())),
        ImageAnswer::Error("Error: gone".to_string())
    );
}
