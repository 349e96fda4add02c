//! Reading images for the model.

use crate::json::{lemma_lookup_at, Json, Member, Number, NumberTree, Tree};
use crate::text::{
    begins, cat, cat5, decimal, decimal_of, has_text, lemma_has_text, str_eq, text_opt, trim, trimmed,
};
use base64::Engine;
use vstd::prelude::*;
use vstd::string::*;

verus! {

broadcast use {crate::json::lemma_array_view, crate::json::lemma_object_view};

/// The most bytes that an image may have.
pub const MAX_IMAGE_BYTES: u64 = 20971520;

/// An image to read: a path or an address, and the part of it that is wanted.
#[derive(Debug, PartialEq, Eq)]
pub struct ImageReadParams {
    pub source: String,
    pub crop: Option<CropParams>,
}

/// A rectangle of an image, in pixels from its upper left corner.
#[derive(Clone, Copy, PartialEq, Eq, Structural, Debug)]
pub struct CropParams {
    pub x: u32,
    pub y: u32,
    pub width: u32,
    pub height: u32,
}

/// How an image is stored.
#[derive(Clone, Copy, PartialEq, Eq, Structural, Debug)]
pub enum ImageKind {
    Png,
    Jpeg,
    Gif,
    WebP,
    /// Another way, which is not read.
    Other,
}

// ---------------------------------------------------------------------------
// Outside calls
// ---------------------------------------------------------------------------

/// The scheme of an address; nothing where a text is none.
pub uninterp spec fn scheme_of(source: Seq<char>) -> Option<Seq<char>>;

/// `url::Url::parse` and `Url::scheme`: whether a text is an address, and its scheme, depend on
/// the text alone.
#[verifier::external_body]
fn url_scheme(source: &str) -> (r: Option<String>)
    ensures
        text_opt(r) == scheme_of(source@),
{
    url::Url::parse(source).ok().map(|u| u.scheme().to_string())
}

/// The path of the file that an address names, in bytes; nothing where it names none.
pub uninterp spec fn file_of(source: Seq<char>) -> Option<Seq<u8>>;

/// `url::Url::parse` and `Url::to_file_path`: whether an address names a file, and the bytes of its
/// path, depend on the address alone, on a Unix system. A path need not be Unicode text.
#[verifier::external_body]
fn url_file_path(source: &str) -> (r: Option<Vec<u8>>)
    ensures
        bytes_opt(r) == file_of(source@),
{
    let url = url::Url::parse(source).ok()?;
    let path = url.to_file_path().ok()?;
    Some(path.as_os_str().as_encoded_bytes().to_vec())
}

pub open spec fn bytes_opt(o: Option<Vec<u8>>) -> Option<Seq<u8>> {
    match o {
        Some(v) => Some(v@),
        None => None,
    }
}

/// How some bytes store an image; nothing where they do not look like one.
pub uninterp spec fn kind_guessed(bytes: Seq<u8>) -> Option<ImageKind>;

/// `image::guess_format`: the guess depends on the bytes alone.
#[verifier::external_body]
fn guess_kind(bytes: &Vec<u8>) -> (r: Option<ImageKind>)
    ensures
        r == kind_guessed(bytes@),
{
    match image::guess_format(bytes) {
        Ok(image::ImageFormat::Png) => Some(ImageKind::Png),
        Ok(image::ImageFormat::Jpeg) => Some(ImageKind::Jpeg),
        Ok(image::ImageFormat::Gif) => Some(ImageKind::Gif),
        Ok(image::ImageFormat::WebP) => Some(ImageKind::WebP),
        Ok(_) => Some(ImageKind::Other),
        Err(_) => None,
    }
}

/// The width and the height of the image that some bytes store, or why they store none.
pub uninterp spec fn image_size(bytes: Seq<u8>, kind: ImageKind) -> Result<(u32, u32), Seq<char>>;

pub open spec fn size_model(r: Result<(u32, u32), String>) -> Result<(u32, u32), Seq<char>> {
    match r {
        Ok(s) => Ok(s),
        Err(e) => Err(e@),
    }
}

/// `image::load_from_memory_with_format` and `GenericImageView::dimensions`: whether the bytes
/// can be decoded, the image's size, and the text of the error depend on the bytes and on the
/// way of storing alone.
#[verifier::external_body]
fn decode_size(bytes: &Vec<u8>, kind: ImageKind) -> (r: Result<(u32, u32), String>)
    requires
        kind != ImageKind::Other,
    ensures
        size_model(r) == image_size(bytes@, kind),
{
    let format = match kind {
        ImageKind::Png => image::ImageFormat::Png,
        ImageKind::Jpeg => image::ImageFormat::Jpeg,
        ImageKind::Gif => image::ImageFormat::Gif,
        ImageKind::WebP => image::ImageFormat::WebP,
        ImageKind::Other => image::ImageFormat::Tga,
    };
    let decoded = image::load_from_memory_with_format(bytes, format).map_err(|e| e.to_string())?;
    Ok((decoded.width(), decoded.height()))
}

/// A part of an image, stored as PNG, or why it could not be.
pub uninterp spec fn cropped_png(bytes: Seq<u8>, kind: ImageKind, crop: CropParams) -> Result<
    Seq<u8>,
    Seq<char>,
>;

pub open spec fn bytes_model(r: Result<Vec<u8>, String>) -> Result<Seq<u8>, Seq<char>> {
    match r {
        Ok(v) => Ok(v@),
        Err(e) => Err(e@),
    }
}

/// `DynamicImage::crop_imm` and `DynamicImage::write_to`: the bytes of the part depend on the
/// bytes of the image, on the way of storing and on the rectangle alone.
#[verifier::external_body]
fn crop_to_png(bytes: &Vec<u8>, kind: ImageKind, crop: CropParams) -> (r: Result<Vec<u8>, String>)
    requires
        kind != ImageKind::Other,
    ensures
        bytes_model(r) == cropped_png(bytes@, kind, crop),
{
    let format = match kind {
        ImageKind::Png => image::ImageFormat::Png,
        ImageKind::Jpeg => image::ImageFormat::Jpeg,
        ImageKind::Gif => image::ImageFormat::Gif,
        ImageKind::WebP => image::ImageFormat::WebP,
        ImageKind::Other => image::ImageFormat::Tga,
    };
    let decoded = image::load_from_memory_with_format(bytes, format).map_err(|e| e.to_string())?;
    let part = decoded.crop_imm(crop.x, crop.y, crop.width, crop.height);
    let mut out = std::io::Cursor::new(Vec::new());
    part.write_to(&mut out, image::ImageFormat::Png).map_err(|e| e.to_string())?;
    Ok(out.into_inner())
}

/// The character for six bits.
pub open spec fn base64_char(n: int) -> char {
    if n < 26 {
        ('A' as int + n) as char
    } else if n < 52 {
        ('a' as int + n - 26) as char
    } else if n < 62 {
        ('0' as int + n - 52) as char
    } else if n == 62 {
        '+'
    } else {
        '/'
    }
}

/// Bytes as text: each three of them as four characters of six bits, the last of them filled up.
pub open spec fn base64_of(b: Seq<u8>) -> Seq<char>
    decreases b.len(),
{
    if b.len() == 0 {
        Seq::empty()
    } else if b.len() == 1 {
        seq![base64_char(b[0] as int / 4), base64_char((b[0] as int % 4) * 16), '=', '=']
    } else if b.len() == 2 {
        seq![
            base64_char(b[0] as int / 4),
            base64_char((b[0] as int % 4) * 16 + b[1] as int / 16),
            base64_char((b[1] as int % 16) * 4),
            '=',
        ]
    } else {
        seq![
            base64_char(b[0] as int / 4),
            base64_char((b[0] as int % 4) * 16 + b[1] as int / 16),
            base64_char((b[1] as int % 16) * 4 + b[2] as int / 64),
            base64_char(b[2] as int % 64),
        ] + base64_of(b.skip(3))
    }
}

/// `base64::Engine::encode` of `base64::prelude::BASE64_STANDARD`: bytes in the standard
/// alphabet, with padding.
#[verifier::external_body]
fn encode_base64(bytes: &Vec<u8>) -> (r: String)
    ensures
        r@ == base64_of(bytes@),
{
    base64::prelude::BASE64_STANDARD.encode(bytes)
}

// ---------------------------------------------------------------------------
// Where the image is
// ---------------------------------------------------------------------------

/// Where the bytes of an image come from.
#[derive(Debug, PartialEq, Eq)]
pub enum ImageSource {
    /// From nowhere: the source is refused, with this error.
    Refused(String),
    /// From the net.
    Download,
    /// From the file with this path, in bytes.
    File(Vec<u8>),
    /// From the file whose path the source is.
    Path,
}

#[verifier::ext_equal]
pub enum SourceModel {
    Refused(Seq<char>),
    Download,
    File(Seq<u8>),
    Path,
}

impl ImageSource {
    pub open spec fn view(&self) -> SourceModel {
        match self {
            ImageSource::Refused(e) => SourceModel::Refused(e@),
            ImageSource::Download => SourceModel::Download,
            ImageSource::File(p) => SourceModel::File(p@),
            ImageSource::Path => SourceModel::Path,
        }
    }
}

/// Where the bytes of an image come from, by the scheme of its source and the path of the file
/// that it names.
pub open spec fn source_by(
    source: Seq<char>,
    scheme: Option<Seq<char>>,
    file: Option<Seq<u8>>,
) -> SourceModel {
    if trimmed(source).len() == 0 {
        SourceModel::Refused("source cannot be empty"@)
    } else {
        match scheme {
            Some(s) => if s == "http"@ || s == "https"@ {
                SourceModel::Download
            } else if s == "file"@ {
                match file {
                    Some(p) => SourceModel::File(p),
                    None => SourceModel::Refused("invalid file URL"@),
                }
            } else {
                SourceModel::Path
            },
            None => SourceModel::Path,
        }
    }
}

/// Where the bytes of an image come from, by the scheme of its source and the path of the file
/// that it names.
pub fn route_source(source: &str, scheme: Option<String>, file: Option<Vec<u8>>) -> (r: ImageSource)
    ensures
        r@ == source_by(source@, text_opt(scheme), bytes_opt(file)),
{
    let bare = trim(source);
    if bare.as_str().is_empty() {
        return ImageSource::Refused("source cannot be empty".to_owned());
    }
    match scheme {
        Some(s) => if str_eq(s.as_str(), "http") || str_eq(s.as_str(), "https") {
            ImageSource::Download
        } else if str_eq(s.as_str(), "file") {
            match file {
                Some(p) => ImageSource::File(p),
                None => ImageSource::Refused("invalid file URL".to_owned()),
            }
        } else {
            ImageSource::Path
        },
        None => ImageSource::Path,
    }
}

/// Where the bytes of an image come from.
pub fn image_source(source: &str) -> (r: ImageSource)
    ensures
        r@ == source_by(source@, scheme_of(source@), file_of(source@)),
{
    let scheme = url_scheme(source);
    let file = url_file_path(source);
    route_source(source, scheme, file)
}

// ---------------------------------------------------------------------------
// Checks
// ---------------------------------------------------------------------------

/// The error where an image has too many bytes.
pub open spec fn size_error(len: u64) -> Option<Seq<char>> {
    if len > MAX_IMAGE_BYTES {
        Some(
            "image is too large: "@ + decimal(len as nat) + " bytes exceeds "@ + decimal(
                MAX_IMAGE_BYTES as nat,
            ) + " byte limit"@,
        )
    } else {
        None
    }
}

/// Whether an image has few enough bytes.
pub fn ensure_image_size(len: u64) -> (r: Result<(), String>)
    ensures
        match size_error(len) {
            Some(m) => r matches Err(e) && e@ == m,
            None => r is Ok,
        },
{
    if len > MAX_IMAGE_BYTES {
        let n = decimal_of(len);
        let limit = decimal_of(MAX_IMAGE_BYTES);
        Err(
            cat5(
                "image is too large: ",
                n.as_str(),
                " bytes exceeds ",
                limit.as_str(),
                " byte limit",
            ),
        )
    } else {
        Ok(())
    }
}

/// The error where a rectangle does not lie inside an image.
pub open spec fn crop_error(crop: CropParams, width: u32, height: u32) -> Option<Seq<char>> {
    if crop.width == 0 || crop.height == 0 {
        Some("crop width and height must be greater than zero"@)
    } else if crop.x + crop.width > u32::MAX || crop.y + crop.height > u32::MAX {
        Some("crop rectangle is out of bounds"@)
    } else if crop.x + crop.width > width || crop.y + crop.height > height {
        Some(
            "crop rectangle "@ + decimal(crop.width as nat) + "x"@ + decimal(crop.height as nat)
                + " at "@ + decimal(crop.x as nat) + ","@ + decimal(crop.y as nat)
                + " exceeds image bounds "@ + decimal(width as nat) + "x"@ + decimal(
                height as nat,
            ),
        )
    } else {
        None
    }
}

/// Whether a rectangle lies inside an image.
pub fn validate_crop(crop: &CropParams, image_width: u32, image_height: u32) -> (r: Result<
    (),
    String,
>)
    ensures
        match crop_error(*crop, image_width, image_height) {
            Some(m) => r matches Err(e) && e@ == m,
            None => r is Ok,
        },
{
    if crop.width == 0 || crop.height == 0 {
        return Err("crop width and height must be greater than zero".to_owned());
    }
    let right = match crop.x.checked_add(crop.width) {
        Some(n) => n,
        None => {
            return Err("crop rectangle is out of bounds".to_owned());
        },
    };
    let bottom = match crop.y.checked_add(crop.height) {
        Some(n) => n,
        None => {
            return Err("crop rectangle is out of bounds".to_owned());
        },
    };
    if right > image_width || bottom > image_height {
        let w = decimal_of(crop.width as u64);
        let h = decimal_of(crop.height as u64);
        let x = decimal_of(crop.x as u64);
        let y = decimal_of(crop.y as u64);
        let iw = decimal_of(image_width as u64);
        let ih = decimal_of(image_height as u64);
        let mut text = cat5("crop rectangle ", w.as_str(), "x", h.as_str(), " at ");
        text.append(x.as_str());
        text.append(",");
        text.append(y.as_str());
        text.append(" exceeds image bounds ");
        text.append(iw.as_str());
        text.append("x");
        text.append(ih.as_str());
        return Err(text);
    }
    Ok(())
}

/// A rectangle that is accepted lies inside the image and is not empty.
pub proof fn law_accepted_crops_lie_inside(crop: CropParams, width: u32, height: u32)
    ensures
        crop_error(crop, width, height) is None <==> (0 < crop.width && 0 < crop.height && crop.x
            + crop.width <= width && crop.y + crop.height <= height),
{
}

/// What an image is called that is stored in a way that is read.
pub open spec fn mime_of(kind: ImageKind) -> Option<Seq<char>> {
    match kind {
        ImageKind::Png => Some("image/png"@),
        ImageKind::Jpeg => Some("image/jpeg"@),
        ImageKind::Gif => Some("image/gif"@),
        ImageKind::WebP => Some("image/webp"@),
        ImageKind::Other => None,
    }
}

pub open spec fn unsupported() -> Seq<char> {
    "unsupported image format; supported formats are png, jpeg, gif, and webp"@
}

/// What an image is called that is stored in a way that is read.
pub fn mime_type(kind: ImageKind) -> (r: Result<String, String>)
    ensures
        match mime_of(kind) {
            Some(m) => r matches Ok(s) && s@ == m,
            None => r matches Err(e) && e@ == unsupported(),
        },
{
    match kind {
        ImageKind::Png => Ok("image/png".to_owned()),
        ImageKind::Jpeg => Ok("image/jpeg".to_owned()),
        ImageKind::Gif => Ok("image/gif".to_owned()),
        ImageKind::WebP => Ok("image/webp".to_owned()),
        ImageKind::Other => Err(
            "unsupported image format; supported formats are png, jpeg, gif, and webp".to_owned(),
        ),
    }
}

// ---------------------------------------------------------------------------
// The image
// ---------------------------------------------------------------------------

/// An image, ready for the model.
#[derive(Debug, PartialEq, Eq)]
pub struct LoadedImage {
    pub data: String,
    pub mime_type: String,
    pub bytes_len: usize,
    pub width: u32,
    pub height: u32,
    pub original_width: u32,
    pub original_height: u32,
    pub cropped: bool,
}

#[verifier::ext_equal]
pub struct ImageModel {
    pub data: Seq<char>,
    pub mime_type: Seq<char>,
    pub bytes_len: nat,
    pub width: u32,
    pub height: u32,
    pub original_width: u32,
    pub original_height: u32,
    pub cropped: bool,
}

/// A line on an image.
pub open spec fn image_summary(i: ImageModel, source: Seq<char>) -> Seq<char> {
    "Loaded image from "@ + source + " ("@ + decimal(i.bytes_len) + " bytes, "@ + i.mime_type
        + ", "@ + decimal(i.width as nat) + "x"@ + decimal(i.height as nat) + ")."@ + (if i.cropped {
        " Cropped from "@ + decimal(i.original_width as nat) + "x"@ + decimal(
            i.original_height as nat,
        ) + " to "@ + decimal(i.width as nat) + "x"@ + decimal(i.height as nat) + "."@
    } else {
        Seq::empty()
    })
}

impl LoadedImage {
    pub open spec fn view(&self) -> ImageModel {
        ImageModel {
            data: self.data@,
            mime_type: self.mime_type@,
            bytes_len: self.bytes_len as nat,
            width: self.width,
            height: self.height,
            original_width: self.original_width,
            original_height: self.original_height,
            cropped: self.cropped,
        }
    }

    /// A line on the image.
    pub fn summary(&self, source: &str) -> (r: String)
        ensures
            r@ == image_summary(self@, source@),
    {
        let bytes = decimal_of(self.bytes_len as u64);
        let w = decimal_of(self.width as u64);
        let h = decimal_of(self.height as u64);
        let mut text = cat5("Loaded image from ", source, " (", bytes.as_str(), " bytes, ");
        text.append(self.mime_type.as_str());
        text.append(", ");
        text.append(w.as_str());
        text.append("x");
        text.append(h.as_str());
        text.append(").");
        if self.cropped {
            let ow = decimal_of(self.original_width as u64);
            let oh = decimal_of(self.original_height as u64);
            let mut note = cat5(" Cropped from ", ow.as_str(), "x", oh.as_str(), " to ");
            note.append(w.as_str());
            note.append("x");
            note.append(h.as_str());
            note.append(".");
            text.append(note.as_str());
            assert(text@ =~= image_summary(self@, source@));
        } else {
            assert(text@ =~= image_summary(self@, source@));
        }
        text
    }
}

/// What is known of an image once the outside was asked: how it is stored, its size, and the
/// wanted part of it.
#[derive(Debug, PartialEq, Eq)]
pub struct ImageFacts {
    pub kind: Option<ImageKind>,
    pub size: Result<(u32, u32), String>,
    pub part: Result<Vec<u8>, String>,
}

/// The image, from its bytes and what is known of it. What is known is looked at one after the
/// other, so that what comes after an error does not matter.
pub open spec fn loaded_image(
    bytes: Seq<u8>,
    crop: Option<CropParams>,
    kind: Option<ImageKind>,
    size: Result<(u32, u32), Seq<char>>,
    part: Result<Seq<u8>, Seq<char>>,
) -> Result<ImageModel, Seq<char>> {
    match size_error(bytes.len() as u64) {
        Some(e) => Err(e),
        None => match kind {
            None => Err(unsupported()),
            Some(k) => match mime_of(k) {
                None => Err(unsupported()),
                Some(mime) => match size {
                    Err(e) => Err("failed to decode image: "@ + e),
                    Ok((w, h)) => match crop {
                        None => Ok(
                            ImageModel {
                                data: base64_of(bytes),
                                mime_type: mime,
                                bytes_len: bytes.len(),
                                width: w,
                                height: h,
                                original_width: w,
                                original_height: h,
                                cropped: false,
                            },
                        ),
                        Some(c) => cropped_image(c, w, h, part),
                    },
                },
            },
        },
    }
}

/// A part of an image.
pub open spec fn cropped_image(
    c: CropParams,
    w: u32,
    h: u32,
    part: Result<Seq<u8>, Seq<char>>,
) -> Result<ImageModel, Seq<char>> {
    match crop_error(c, w, h) {
        Some(e) => Err(e),
        None => match part {
            Err(e) => Err("failed to encode cropped image: "@ + e),
            Ok(p) => match size_error(p.len() as u64) {
                Some(e) => Err(e),
                None => Ok(
                    ImageModel {
                        data: base64_of(p),
                        mime_type: "image/png"@,
                        bytes_len: p.len(),
                        width: c.width,
                        height: c.height,
                        original_width: w,
                        original_height: h,
                        cropped: true,
                    },
                ),
            },
        },
    }
}

pub open spec fn image_model(r: Result<LoadedImage, String>) -> Result<ImageModel, Seq<char>> {
    match r {
        Ok(i) => Ok(i@),
        Err(e) => Err(e@),
    }
}

fn finish_crop(
    c: CropParams,
    w: u32,
    h: u32,
    part: Result<Vec<u8>, String>,
) -> (r: Result<LoadedImage, String>)
    ensures
        image_model(r) == cropped_image(c, w, h, bytes_model(part)),
{
    if let Err(e) = validate_crop(&c, w, h) {
        return Err(e);
    }
    let p = match part {
        Ok(p) => p,
        Err(e) => {
            return Err(cat("failed to encode cropped image: ", e.as_str()));
        },
    };
    if let Err(e) = ensure_image_size(p.len() as u64) {
        return Err(e);
    }
    Ok(
        LoadedImage {
            data: encode_base64(&p),
            mime_type: "image/png".to_owned(),
            bytes_len: p.len(),
            width: c.width,
            height: c.height,
            original_width: w,
            original_height: h,
            cropped: true,
        },
    )
}

/// The image, from its bytes and what is known of it.
pub fn finish_image(bytes: &Vec<u8>, crop: Option<CropParams>, facts: ImageFacts) -> (r: Result<
    LoadedImage,
    String,
>)
    ensures
        image_model(r) == loaded_image(
            bytes@,
            crop,
            facts.kind,
            size_model(facts.size),
            bytes_model(facts.part),
        ),
{
    if let Err(e) = ensure_image_size(bytes.len() as u64) {
        return Err(e);
    }
    let kind = match facts.kind {
        Some(k) => k,
        None => {
            return Err(
                "unsupported image format; supported formats are png, jpeg, gif, and webp".to_owned(),
            );
        },
    };
    let mime = match mime_type(kind) {
        Ok(m) => m,
        Err(e) => {
            return Err(e);
        },
    };
    let (w, h) = match facts.size {
        Ok(s) => s,
        Err(e) => {
            return Err(cat("failed to decode image: ", e.as_str()));
        },
    };
    match crop {
        None => Ok(
            LoadedImage {
                data: encode_base64(bytes),
                mime_type: mime,
                bytes_len: bytes.len(),
                width: w,
                height: h,
                original_width: w,
                original_height: h,
                cropped: false,
            },
        ),
        Some(c) => finish_crop(c, w, h, facts.part),
    }
}

/// The image that some bytes hold, or the wanted part of it.
pub fn load_image(bytes: &Vec<u8>, crop: Option<CropParams>) -> (r: Result<LoadedImage, String>)
    ensures
        image_model(r) == loaded_image(
            bytes@,
            crop,
            kind_guessed(bytes@),
            image_size(bytes@, kind_guessed(bytes@)->0),
            cropped_png(bytes@, kind_guessed(bytes@)->0, crop->0),
        ),
{
    if let Err(e) = ensure_image_size(bytes.len() as u64) {
        return Err(e);
    }
    let kind = guess_kind(bytes);
    let facts = match kind {
        None => ImageFacts { kind, size: Err(String::new()), part: Err(String::new()) },
        Some(k) => {
            if mime_type(k).is_err() {
                ImageFacts { kind, size: Err(String::new()), part: Err(String::new()) }
            } else {
                let size = decode_size(bytes, k);
                let part = match (&size, crop) {
                    (Ok((w, h)), Some(c)) => if validate_crop(&c, *w, *h).is_ok() {
                        crop_to_png(bytes, k, c)
                    } else {
                        Err(String::new())
                    },
                    _ => Err(String::new()),
                };
                ImageFacts { kind, size, part }
            }
        },
    };
    finish_image(bytes, crop, facts)
}

// ---------------------------------------------------------------------------
// The tool
// ---------------------------------------------------------------------------

/// The tool that reads images.
#[derive(Debug, PartialEq, Eq)]
pub struct ImageTool;

/// The answer of the tool: a line on the image, the image, and what is known of it as data; or an
/// error.
#[derive(Debug, PartialEq, Eq)]
pub enum ImageAnswer {
    Image { text: String, data: String, mime_type: String, structured: Json },
    Error(String),
}

pub open spec fn number(n: nat) -> Tree {
    Tree::Number(NumberTree::Unsigned(n as u64))
}

/// A rectangle as data.
pub open spec fn crop_tree(crop: Option<CropParams>) -> Tree {
    match crop {
        Some(c) => Tree::Object(
            seq![
                ("x"@, number(c.x as nat)),
                ("y"@, number(c.y as nat)),
                ("width"@, number(c.width as nat)),
                ("height"@, number(c.height as nat)),
            ],
        ),
        None => Tree::Null,
    }
}

/// What is known of an image, as data.
pub open spec fn image_tree(i: ImageModel, source: Seq<char>, crop: Option<CropParams>) -> Tree {
    Tree::Object(
        seq![
            ("source"@, Tree::Str(source)),
            ("mimeType"@, Tree::Str(i.mime_type)),
            ("width"@, number(i.width as nat)),
            ("height"@, number(i.height as nat)),
            ("bytes"@, number(i.bytes_len)),
            ("originalWidth"@, number(i.original_width as nat)),
            ("originalHeight"@, number(i.original_height as nat)),
            ("crop"@, crop_tree(crop)),
        ],
    )
}

fn put(ms: &mut Vec<Member>, key: &str, value: Json)
    ensures
        crate::json::members(final(ms)@) == crate::json::members(old(ms)@).push((key@, value@)),
{
    let ghost before = crate::json::members(ms@);
    let ghost vm = value@;
    ms.push(Member { key: key.to_owned(), value });
    assert(crate::json::members(ms@) =~= before.push((key@, vm)));
}

fn number_json(n: u64) -> (r: Json)
    ensures
        r@ == number(n as nat),
{
    Json::Number(Number::Unsigned(n))
}

fn crop_json(crop: Option<CropParams>) -> (r: Json)
    ensures
        r@ == crop_tree(crop),
{
    match crop {
        Some(c) => {
            let mut ms: Vec<Member> = Vec::new();
            assert(crate::json::members(ms@) =~= Seq::empty());
            put(&mut ms, "x", number_json(c.x as u64));
            put(&mut ms, "y", number_json(c.y as u64));
            put(&mut ms, "width", number_json(c.width as u64));
            put(&mut ms, "height", number_json(c.height as u64));
            let r = Json::Object(ms);
            assert(r@->Object_0 =~= crop_tree(crop)->Object_0);
            r
        },
        None => Json::Null,
    }
}

fn image_json(i: &LoadedImage, source: &str, crop: Option<CropParams>) -> (r: Json)
    ensures
        r@ == image_tree(i@, source@, crop),
{
    let mut ms: Vec<Member> = Vec::new();
    assert(crate::json::members(ms@) =~= Seq::empty());
    put(&mut ms, "source", Json::Str(source.to_owned()));
    put(&mut ms, "mimeType", Json::Str(i.mime_type.clone()));
    put(&mut ms, "width", number_json(i.width as u64));
    put(&mut ms, "height", number_json(i.height as u64));
    put(&mut ms, "bytes", number_json(i.bytes_len as u64));
    put(&mut ms, "originalWidth", number_json(i.original_width as u64));
    put(&mut ms, "originalHeight", number_json(i.original_height as u64));
    put(&mut ms, "crop", crop_json(crop));
    let r = Json::Object(ms);
    assert(r@->Object_0 =~= image_tree(i@, source@, crop)->Object_0);
    r
}

impl ImageTool {
    pub fn new() -> (r: ImageTool)
        ensures
            r == ImageTool,
    {
        ImageTool
    }

    /// The answer of the tool, once the image was loaded or could not be.
    pub fn answer(&self, params: &ImageReadParams, loaded: Result<LoadedImage, String>) -> (r:
        ImageAnswer)
        ensures
            match loaded {
                Ok(i) => r matches ImageAnswer::Image { text, data, mime_type, structured } && text@
                    == image_summary(i@, params.source@) && data@ == i@.data && mime_type@
                    == i@.mime_type && structured@ == image_tree(i@, params.source@, params.crop),
                Err(e) => r matches ImageAnswer::Error(t) && t@ == "Error: "@ + e@,
            },
    {
        match loaded {
            Ok(i) => {
                let text = i.summary(params.source.as_str());
                let structured = image_json(&i, params.source.as_str(), params.crop);
                ImageAnswer::Image { text, data: i.data, mime_type: i.mime_type, structured }
            },
            Err(e) => ImageAnswer::Error(cat("Error: ", e.as_str())),
        }
    }
}

/// Where images are read from: addresses of the web are downloaded, addresses of files name their
/// file, and everything else is a path. An empty source is refused, and so is an address of a file
/// that names none.
pub proof fn law_where_images_come_from(
    source: Seq<char>,
    scheme: Option<Seq<char>>,
    file: Option<Seq<u8>>,
)
    ensures
        ({
            let from = source_by(source, scheme, file);
            let empty = trimmed(source).len() == 0;
            let web = scheme == Some("http"@) || scheme == Some("https"@);
            &&& from is Download <==> !empty && web
            &&& from is Path <==> !empty && !web && scheme != Some("file"@)
            &&& from is Refused <==> empty || (scheme == Some("file"@) && file is None)
            &&& from matches SourceModel::File(p) ==> scheme == Some("file"@) && file == Some(p)
            &&& !empty && scheme == Some("file"@) && file is Some ==> from == SourceModel::File(
                file->0,
            )
        }),
{
    reveal_strlit("http");
    reveal_strlit("https");
    reveal_strlit("file");
    assert("http"@[0] != "file"@[0]);
    assert("https"@.len() != "file"@.len());
}

/// An image that is not cropped is handed on whole, under its own type and size.
pub proof fn law_whole_images_are_handed_on(
    bytes: Seq<u8>,
    kind: ImageKind,
    width: u32,
    height: u32,
    part: Result<Seq<u8>, Seq<char>>,
)
    requires
        bytes.len() <= 20971520,
        kind != ImageKind::Other,
    ensures
        loaded_image(bytes, None, Some(kind), Ok((width, height)), part) matches Ok(i) && {
            &&& i.data == base64_of(bytes)
            &&& Some(i.mime_type) == mime_of(kind)
            &&& i.bytes_len == bytes.len()
            &&& i.width == width && i.height == height
            &&& i.original_width == width && i.original_height == height
            &&& !i.cropped
        },
{
}

/// A part of an image that lies inside it is handed on as PNG, with its own size, and with that of
/// the image it was cut from.
pub proof fn law_cropped_images_are_their_part(
    bytes: Seq<u8>,
    kind: ImageKind,
    width: u32,
    height: u32,
    crop: CropParams,
    part: Seq<u8>,
)
    requires
        bytes.len() <= 20971520,
        part.len() <= 20971520,
        kind != ImageKind::Other,
        0 < crop.width,
        0 < crop.height,
        crop.x + crop.width <= width,
        crop.y + crop.height <= height,
    ensures
        loaded_image(bytes, Some(crop), Some(kind), Ok((width, height)), Ok(part)) matches Ok(i)
            && {
            &&& i.data == base64_of(part)
            &&& i.mime_type == "image/png"@
            &&& i.bytes_len == part.len()
            &&& i.width == crop.width && i.height == crop.height
            &&& i.original_width == width && i.original_height == height
            &&& i.cropped
        },
{
    law_accepted_crops_lie_inside(crop, width, height);
}

/// What is refused: an image of more bytes than twenty megabytes, one that is stored in another way
/// than those that are read, one that cannot be decoded, a part that does not lie inside it, and a
/// part that cannot be stored or is too large itself.
pub proof fn law_which_images_are_refused(
    bytes: Seq<u8>,
    crop: Option<CropParams>,
    kind: Option<ImageKind>,
    size: Result<(u32, u32), Seq<char>>,
    part: Result<Seq<u8>, Seq<char>>,
)
    requires
        bytes.len() <= u64::MAX,
        part matches Ok(p) ==> p.len() <= u64::MAX,
    ensures
        loaded_image(bytes, crop, kind, size, part) is Err <==> {
            ||| bytes.len() > 20971520
            ||| kind is None
            ||| kind == Some(ImageKind::Other)
            ||| size is Err
            ||| (crop matches Some(c) && (crop_error(c, (size->Ok_0).0, (size->Ok_0).1) is Some
                || part is Err || part->Ok_0.len() > 20971520))
        },
        bytes.len() > 20971520 ==> loaded_image(bytes, crop, kind, size, part) == Err::<
            ImageModel,
            Seq<char>,
        >(size_error(bytes.len() as u64)->0),
        bytes.len() <= 20971520 ==> (kind matches Some(k) ==> (size matches Err(e) ==> (k
            != ImageKind::Other ==> loaded_image(bytes, crop, kind, size, part) == Err::<
            ImageModel,
            Seq<char>,
        >("failed to decode image: "@ + e)))),
{
}

/// The limit is on bytes, and the error tells both numbers.
pub proof fn law_large_images_are_refused(len: u64)
    ensures
        size_error(len) is Some <==> len > 20971520,
        size_error(len) matches Some(m) ==> has_text(m, decimal(len as nat)) && has_text(
            m,
            decimal(20971520),
        ),
{
    let a = "image is too large: "@;
    let n = decimal(len as nat);
    let b = " bytes exceeds "@;
    let l = decimal(20971520);
    let c = " byte limit"@;
    lemma_has_text(a, n, b + l + c);
    lemma_has_text(a + n + b, l, c);
    assert(a + n + (b + l + c) =~= a + n + b + l + c);
}

/// The types of images are told apart, and only those that are read have one.
pub proof fn law_image_types(a: ImageKind, b: ImageKind)
    ensures
        mime_of(a) is None <==> a == ImageKind::Other,
        mime_of(a) == mime_of(b) <==> a == b,
        mime_of(a) matches Some(m) ==> begins(m, "image/"@),
{
    reveal_strlit("image/");
    reveal_strlit("image/png");
    reveal_strlit("image/jpeg");
    reveal_strlit("image/gif");
    reveal_strlit("image/webp");
    assert("image/png"@[6] == 'p' && "image/jpeg"@[6] == 'j' && "image/gif"@[6] == 'g'
        && "image/webp"@[6] == 'w');
    assert("image/png"@.subrange(0, 6) =~= "image/"@);
    assert("image/jpeg"@.subrange(0, 6) =~= "image/"@);
    assert("image/gif"@.subrange(0, 6) =~= "image/"@);
    assert("image/webp"@.subrange(0, 6) =~= "image/"@);
}

/// What is known of an image is told under its name: its source, its type, its size and that of the
/// image it was cut from.
#[verifier::rlimit(60)]
pub proof fn law_image_data_is_told(i: ImageModel, source: Seq<char>, crop: Option<CropParams>)
    ensures
        ({
            let t = image_tree(i, source, crop);
            &&& t.get("source"@) == Some(Tree::Str(source))
            &&& t.get("mimeType"@) == Some(Tree::Str(i.mime_type))
            &&& t.get("width"@) == Some(number(i.width as nat))
            &&& t.get("height"@) == Some(number(i.height as nat))
            &&& t.get("bytes"@) == Some(number(i.bytes_len))
            &&& t.get("originalWidth"@) == Some(number(i.original_width as nat))
            &&& t.get("originalHeight"@) == Some(number(i.original_height as nat))
            &&& crop is None ==> t.get("crop"@) == Some(Tree::Null)
        }),
        has_text(image_summary(i, source), source),
        has_text(image_summary(i, source), i.mime_type),
{
    reveal_strlit("source");
    reveal_strlit("mimeType");
    reveal_strlit("width");
    reveal_strlit("height");
    reveal_strlit("bytes");
    reveal_strlit("originalWidth");
    reveal_strlit("originalHeight");
    reveal_strlit("crop");
    let ms = image_tree(i, source, crop)->Object_0;
    assert(ms[0].0[0] == 's' && ms[1].0[0] == 'm' && ms[2].0[0] == 'w' && ms[3].0[0] == 'h'
        && ms[4].0[0] == 'b' && ms[5].0[0] == 'o' && ms[6].0[0] == 'o' && ms[7].0[0] == 'c');
    assert(ms[5].0.len() != ms[6].0.len());
    lemma_lookup_at(ms, "source"@, 0);
    lemma_lookup_at(ms, "mimeType"@, 1);
    lemma_lookup_at(ms, "width"@, 2);
    lemma_lookup_at(ms, "height"@, 3);
    lemma_lookup_at(ms, "bytes"@, 4);
    lemma_lookup_at(ms, "originalWidth"@, 5);
    lemma_lookup_at(ms, "originalHeight"@, 6);
    lemma_lookup_at(ms, "crop"@, 7);
    let a = "Loaded image from "@;
    let size = decimal(i.width as nat) + "x"@ + decimal(i.height as nat);
    let b = " ("@ + decimal(i.bytes_len) + " bytes, "@;
    let end = if i.cropped {
        " Cropped from "@ + decimal(i.original_width as nat) + "x"@ + decimal(
            i.original_height as nat,
        ) + " to "@ + decimal(i.width as nat) + "x"@ + decimal(i.height as nat) + "."@
    } else {
        Seq::empty()
    };
    let c = ", "@ + size + ")."@ + end;
    let text = image_summary(i, source);
    assert(text =~= a + source + (b + i.mime_type + c));
    assert(text =~= (a + source + b) + i.mime_type + c);
    lemma_has_text(a, source, b + i.mime_type + c);
    lemma_has_text(a + source + b, i.mime_type, c);
}

/// Bytes as text take four characters for each three bytes that are begun.
pub proof fn law_encoded_bytes_are_a_third_longer(b: Seq<u8>)
    ensures
        base64_of(b).len() == 4 * ((b.len() + 2) / 3),
    decreases b.len(),
{
    if b.len() >= 3 {
        law_encoded_bytes_are_a_third_longer(b.skip(3));
    }
}

/// The wanted part is told by its place and its size.
pub proof fn law_crops_are_told(c: CropParams)
    ensures
        crop_tree(None) == Tree::Null,
        crop_tree(Some(c)).get("x"@) == Some(number(c.x as nat)),
        crop_tree(Some(c)).get("y"@) == Some(number(c.y as nat)),
        crop_tree(Some(c)).get("width"@) == Some(number(c.width as nat)),
        crop_tree(Some(c)).get("height"@) == Some(number(c.height as nat)),
{
    reveal_strlit("x");
    reveal_strlit("y");
    reveal_strlit("width");
    reveal_strlit("height");
    assert("x"@[0] == 'x' && "y"@[0] == 'y' && "width"@[0] == 'w' && "height"@[0] == 'h');
    let ms = crop_tree(Some(c))->Object_0;
    lemma_lookup_at(ms, "x"@, 0);
    lemma_lookup_at(ms, "y"@, 1);
    lemma_lookup_at(ms, "width"@, 2);
    lemma_lookup_at(ms, "height"@, 3);
}

/// The value of six bits by their character.
pub open spec fn base64_value(c: char) -> int {
    if 'A' <= c && c <= 'Z' {
        c as int - 'A' as int
    } else if 'a' <= c && c <= 'z' {
        c as int - 'a' as int + 26
    } else if '0' <= c && c <= '9' {
        c as int - '0' as int + 52
    } else if c == '+' {
        62
    } else {
        63
    }
}

/// Every six bits have a character of their own, from which they are read back, so three bytes are
/// read back from their four characters.
pub proof fn law_encoded_bytes_are_read_back(a: u8, b: u8, c: u8, rest: Seq<u8>, n: int)
    ensures
        0 <= n < 64 ==> base64_value(base64_char(n)) == n,
        ({
            let text = base64_of(seq![a, b, c] + rest);
            let v = |i: int| base64_value(text[i]);
            &&& text.skip(4) == base64_of(rest)
            &&& v(0) * 4 + v(1) / 16 == a
            &&& (v(1) % 16) * 16 + v(2) / 4 == b
            &&& (v(2) % 4) * 64 + v(3) == c
        }),
{
    let bytes = seq![a, b, c] + rest;
    assert(bytes[0] == a && bytes[1] == b && bytes[2] == c);
    assert(bytes.skip(3) =~= rest);
    let text = base64_of(bytes);
    let x0 = a as int / 4;
    let x1 = (a as int % 4) * 16 + b as int / 16;
    let x2 = (b as int % 16) * 4 + c as int / 64;
    let x3 = c as int % 64;
    assert(text =~= seq![base64_char(x0), base64_char(x1), base64_char(x2), base64_char(x3)]
        + base64_of(rest));
    assert(text.skip(4) =~= base64_of(rest));
    lemma_base64_char(n);
    lemma_base64_char(x0);
    lemma_base64_char(x1);
    lemma_base64_char(x2);
    lemma_base64_char(x3);
}

proof fn lemma_base64_char(n: int)
    ensures
        0 <= n < 64 ==> base64_value(base64_char(n)) == n,
{
}

} // verus!
