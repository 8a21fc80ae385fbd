//! PDF-side data of the pipeline: document metadata, page list, encoded
//! page images, and the decisions around rendering pages with `pdftoppm`.
use vstd::prelude::*;
use base64::Engine as _;
use image::ImageEncoder as _;
use crate::error::AppError;
use crate::text::{
    chars_of, decimal, push_decimal, push_str, starts_with, string_from_chars, string_views,
    to_string, trim, trim_whitespace,
};

verus! {

/// A page of the document, by its 1-based number.
pub struct PageSpec {
    pub number: u32,
}

/// What the pipeline knows of a PDF document: its information-dictionary
/// texts and its pages.
pub struct PdfInfo {
    pub title: Option<String>,
    pub author: Option<String>,
    pub creator: Option<String>,
    pub producer: Option<String>,
    pub page_count: usize,
    pub pages: Vec<PageSpec>,
}


// ---------------------------------------------------------------- information dictionary

/// An entry of the PDF information dictionary, as far as the metadata
/// logic reads it: a string or a name with its raw bytes, or any other
/// object.
pub enum PdfObject {
    String(Vec<u8>),
    Name(Vec<u8>),
    Other,
}

/// What `String::from_utf8_lossy` gives for `bytes` (UTF-8 decoding with
/// U+FFFD for invalid sequences).
pub uninterp spec fn spec_utf8_lossy(bytes: Seq<u8>) -> Seq<char>;

/// `String::from_utf8_lossy`: the bytes decoded as UTF-8, invalid
/// sequences replaced. The result is only named here.
#[verifier::external_body]
fn utf8_lossy(bytes: &[u8]) -> (r: String)
    ensures
        r@ == spec_utf8_lossy(bytes@),
{
    String::from_utf8_lossy(bytes).into_owned()
}

/// The text of a metadata entry: the trimmed decoding of a string or a
/// name, nothing for other objects.
pub open spec fn spec_pdf_object_to_string(object: PdfObject) -> Option<Seq<char>> {
    match object {
        PdfObject::String(bytes) => Some(trim(spec_utf8_lossy(bytes@))),
        PdfObject::Name(bytes) => Some(trim(spec_utf8_lossy(bytes@))),
        PdfObject::Other => None,
    }
}

/// The text of a metadata entry (see [`spec_pdf_object_to_string`]).
pub fn pdf_object_to_string(object: &PdfObject) -> (r: Option<String>)
    ensures
        match r {
            Some(s) => spec_pdf_object_to_string(*object) == Some(s@),
            None => spec_pdf_object_to_string(*object) is None,
        },
{
    match object {
        PdfObject::String(bytes) => {
            let decoded = utf8_lossy(bytes.as_slice());
            Some(trim_whitespace(decoded.as_str()))
        },
        PdfObject::Name(bytes) => {
            let decoded = utf8_lossy(bytes.as_slice());
            Some(trim_whitespace(decoded.as_str()))
        },
        PdfObject::Other => None,
    }
}

/// The text of an optional metadata entry.
pub open spec fn spec_info_value(object: Option<PdfObject>) -> Option<Seq<char>> {
    match object {
        Some(o) => spec_pdf_object_to_string(o),
        None => None,
    }
}

/// The view of an optional string.
pub open spec fn opt_view(s: Option<String>) -> Option<Seq<char>> {
    match s {
        Some(v) => Some(v@),
        None => None,
    }
}

fn info_value(object: &Option<PdfObject>) -> (r: Option<String>)
    ensures
        opt_view(r) == spec_info_value(*object),
{
    match object {
        Some(o) => pdf_object_to_string(o),
        None => None,
    }
}

impl PdfInfo {
    /// The document data from its information-dictionary entries and its
    /// page numbers in document order: the entries' texts, one page per
    /// number, and the number of pages.
    pub fn from_parts(
        title: &Option<PdfObject>,
        author: &Option<PdfObject>,
        creator: &Option<PdfObject>,
        producer: &Option<PdfObject>,
        page_numbers: &[u32],
    ) -> (r: PdfInfo)
        ensures
            opt_view(r.title) == spec_info_value(*title),
            opt_view(r.author) == spec_info_value(*author),
            opt_view(r.creator) == spec_info_value(*creator),
            opt_view(r.producer) == spec_info_value(*producer),
            r.page_count == page_numbers@.len(),
            r.pages@.len() == page_numbers@.len(),
            forall|i: int| 0 <= i < page_numbers@.len() ==> #[trigger] r.pages@[i].number
                == page_numbers@[i],
    {
        let mut pages: Vec<PageSpec> = Vec::new();
        let mut i: usize = 0;
        while i < page_numbers.len()
            invariant
                i <= page_numbers@.len(),
                pages@.len() == i,
                forall|j: int| 0 <= j < i ==> #[trigger] pages@[j].number == page_numbers@[j],
            decreases page_numbers@.len() - i,
        {
            pages.push(PageSpec { number: page_numbers[i] });
            i = i + 1;
        }
        PdfInfo {
            title: info_value(title),
            author: info_value(author),
            creator: info_value(creator),
            producer: info_value(producer),
            page_count: pages.len(),
            pages,
        }
    }
}

impl PdfInfo {
    /// Whether the document can be converted: it must have a page, else
    /// the processing error "no processable pages".
    pub fn require_pages(&self) -> (r: Result<(), AppError>)
        ensures
            self.page_count > 0 ==> r is Ok,
            self.page_count == 0 ==> (r matches Err(AppError::PdfProcessingError(m)) && m@
                == "PDF enthaelt keine verarbeitbaren Seiten"@),
    {
        if self.page_count == 0 {
            Err(AppError::PdfProcessingError(to_string("PDF enthaelt keine verarbeitbaren Seiten")))
        } else {
            Ok(())
        }
    }
}

// ---------------------------------------------------------------- page boxes

/// A number of a PDF page box: an integer, or a real kept as the bits of
/// its `f32`.
pub enum PdfNumber {
    Integer(i64),
    Real(u32),
}

/// An element of a page-box array: a number or any other object.
pub enum BoxItem {
    Number(PdfNumber),
    Other,
}

/// The value of a page's `MediaBox` or `CropBox` entry: an array, or
/// another object, with the reader's message for it not being an array.
pub enum BoxEntry {
    Array(Vec<BoxItem>),
    NotArray(String),
}

/// The message when a page has neither box.
pub open spec fn no_box_message() -> Seq<char> {
    "Keine MediaBox oder CropBox fuer PDF-Seite gefunden"@
}

/// The message when the box does not hold four numbers.
pub open spec fn box_length_message() -> Seq<char> {
    "MediaBox/CropBox enthaelt keine vier Koordinaten"@
}

/// The message when a box coordinate is not a number.
pub open spec fn box_number_message() -> Seq<char> {
    "Ungueltiger numerischer Wert in PDF-Box"@
}

/// Whether `item` is a number.
pub open spec fn is_number(item: BoxItem) -> bool {
    item is Number
}

/// The box that sizes a page: the `MediaBox`, or else the `CropBox`.
pub open spec fn chosen_box(media: Option<BoxEntry>, crop: Option<BoxEntry>) -> Option<BoxEntry> {
    match media {
        Some(m) => Some(m),
        None => crop,
    }
}

/// The message of the processing error for a page's boxes, or nothing when
/// the chosen box is an array of four numbers.
pub open spec fn spec_page_box_failure(media: Option<BoxEntry>, crop: Option<BoxEntry>) -> Option<
    Seq<char>,
> {
    match chosen_box(media, crop) {
        None => Some(no_box_message()),
        Some(BoxEntry::NotArray(m)) => Some(m@),
        Some(BoxEntry::Array(items)) => if items@.len() != 4 {
            Some(box_length_message())
        } else if !(is_number(items@[0]) && is_number(items@[1]) && is_number(items@[2])
            && is_number(items@[3])) {
            Some(box_number_message())
        } else {
            None
        },
    }
}

fn box_number(item: &BoxItem) -> (r: Option<PdfNumber>)
    ensures
        match r {
            Some(n) => *item == BoxItem::Number(n),
            None => !is_number(*item),
        },
{
    match item {
        BoxItem::Number(PdfNumber::Integer(v)) => Some(PdfNumber::Integer(*v)),
        BoxItem::Number(PdfNumber::Real(bits)) => Some(PdfNumber::Real(*bits)),
        BoxItem::Other => None,
    }
}

/// The four coordinates `[llx, lly, urx, ury]` of the box that sizes a
/// page, or the processing error of [`spec_page_box_failure`].
pub fn page_box(media: Option<&BoxEntry>, crop: Option<&BoxEntry>) -> (r: Result<
    (PdfNumber, PdfNumber, PdfNumber, PdfNumber),
    AppError,
>)
    ensures
        match r {
            Ok((a, b, c, d)) => {
                &&& spec_page_box_failure(deref_box(media), deref_box(crop)) is None
                &&& chosen_box(deref_box(media), deref_box(crop)) matches Some(BoxEntry::Array(items))
                    && items@ == seq![
                    BoxItem::Number(a),
                    BoxItem::Number(b),
                    BoxItem::Number(c),
                    BoxItem::Number(d),
                ]
            },
            Err(AppError::PdfProcessingError(m)) => spec_page_box_failure(
                deref_box(media),
                deref_box(crop),
            ) == Some(m@),
            Err(_) => false,
        },
{
    let chosen = match media {
        Some(m) => Some(m),
        None => crop,
    };
    match chosen {
        None => Err(AppError::PdfProcessingError(
            to_string("Keine MediaBox oder CropBox fuer PDF-Seite gefunden"),
        )),
        Some(BoxEntry::NotArray(m)) => Err(AppError::PdfProcessingError(to_string(m.as_str()))),
        Some(BoxEntry::Array(items)) => {
            if items.len() != 4 {
                return Err(AppError::PdfProcessingError(
                    to_string("MediaBox/CropBox enthaelt keine vier Koordinaten"),
                ));
            }
            let a = box_number(&items[0]);
            let b = box_number(&items[1]);
            let c = box_number(&items[2]);
            let d = box_number(&items[3]);
            match (a, b, c, d) {
                (Some(a), Some(b), Some(c), Some(d)) => {
                    proof {
                        assert(items@ =~= seq![
                            BoxItem::Number(a),
                            BoxItem::Number(b),
                            BoxItem::Number(c),
                            BoxItem::Number(d),
                        ]);
                    }
                    Ok((a, b, c, d))
                },
                _ => Err(AppError::PdfProcessingError(
                    to_string("Ungueltiger numerischer Wert in PDF-Box"),
                )),
            }
        },
    }
}

/// The value behind an optional reference.
pub open spec fn deref_box(b: Option<&BoxEntry>) -> Option<BoxEntry> {
    match b {
        Some(x) => Some(*x),
        None => None,
    }
}

// ---------------------------------------------------------------- page images

/// The pixel layouts of a PNG image: grey, grey with alpha, RGB and RGBA,
/// each with 8 or 16 bits per sample.
#[derive(Clone, Copy)]
pub enum PixelLayout {
    L8,
    La8,
    Rgb8,
    Rgba8,
    L16,
    La16,
    Rgb16,
    Rgba16,
}

/// The bytes of one pixel in `layout`.
pub open spec fn layout_bytes(layout: PixelLayout) -> nat {
    match layout {
        PixelLayout::L8 => 1,
        PixelLayout::La8 => 2,
        PixelLayout::Rgb8 => 3,
        PixelLayout::Rgba8 => 4,
        PixelLayout::L16 => 2,
        PixelLayout::La16 => 4,
        PixelLayout::Rgb16 => 6,
        PixelLayout::Rgba16 => 8,
    }
}

/// The PNG pixel layout with `channels` samples in `bytes_per_pixel`
/// bytes, if there is one.
pub open spec fn spec_pixel_layout(channels: u8, bytes_per_pixel: u8) -> Option<PixelLayout> {
    if channels == 1 && bytes_per_pixel == 1 {
        Some(PixelLayout::L8)
    } else if channels == 2 && bytes_per_pixel == 2 {
        Some(PixelLayout::La8)
    } else if channels == 3 && bytes_per_pixel == 3 {
        Some(PixelLayout::Rgb8)
    } else if channels == 4 && bytes_per_pixel == 4 {
        Some(PixelLayout::Rgba8)
    } else if channels == 1 && bytes_per_pixel == 2 {
        Some(PixelLayout::L16)
    } else if channels == 2 && bytes_per_pixel == 4 {
        Some(PixelLayout::La16)
    } else if channels == 3 && bytes_per_pixel == 6 {
        Some(PixelLayout::Rgb16)
    } else if channels == 4 && bytes_per_pixel == 8 {
        Some(PixelLayout::Rgba16)
    } else {
        None
    }
}

/// The PNG pixel layout with `channels` samples in `bytes_per_pixel`
/// bytes (see [`spec_pixel_layout`]).
pub fn pixel_layout(channels: u8, bytes_per_pixel: u8) -> (r: Option<PixelLayout>)
    ensures
        r == spec_pixel_layout(channels, bytes_per_pixel),
        r matches Some(l) ==> layout_bytes(l) == bytes_per_pixel,
{
    if channels == 1 && bytes_per_pixel == 1 {
        Some(PixelLayout::L8)
    } else if channels == 2 && bytes_per_pixel == 2 {
        Some(PixelLayout::La8)
    } else if channels == 3 && bytes_per_pixel == 3 {
        Some(PixelLayout::Rgb8)
    } else if channels == 4 && bytes_per_pixel == 4 {
        Some(PixelLayout::Rgba8)
    } else if channels == 1 && bytes_per_pixel == 2 {
        Some(PixelLayout::L16)
    } else if channels == 2 && bytes_per_pixel == 4 {
        Some(PixelLayout::La16)
    } else if channels == 3 && bytes_per_pixel == 6 {
        Some(PixelLayout::Rgb16)
    } else if channels == 4 && bytes_per_pixel == 8 {
        Some(PixelLayout::Rgba16)
    } else {
        None
    }
}

/// A decoded page image: its size in pixels; its pixels as the decoder
/// gave them (`channels` samples in `bytes_per_pixel` bytes per pixel, row
/// by row, 16-bit samples in the machine's byte order); and the same
/// pixels as RGBA bytes.
pub struct PageImage {
    pub width: u32,
    pub height: u32,
    pub channels: u8,
    pub bytes_per_pixel: u8,
    pub samples: Vec<u8>,
    pub rgba: Vec<u8>,
}

/// What decoding `bytes` as a PNG gives (`image::load_from_memory_with_format`
/// with `ImageFormat::Png`: the size, the colour type's channel and byte
/// counts, the pixel bytes, and the pixels as RGBA), or the decoder's
/// message.
pub uninterp spec fn spec_decode_png(bytes: Seq<u8>) -> Result<PageImage, Seq<char>>;

/// What PNG-encoding the `width` by `height` pixels `samples` in `layout`
/// gives (`PngEncoder::write_image`, as `DynamicImage::write_to` with
/// `ImageFormat::Png` does for such an image), or the encoder's message.
pub uninterp spec fn spec_encode_png(width: u32, height: u32, layout: PixelLayout, samples: Seq<u8>) -> Result<Seq<u8>, Seq<char>>;

/// `image::load_from_memory_with_format(bytes, ImageFormat::Png)`, then the
/// image's size, its colour type's `channel_count` and `bytes_per_pixel`,
/// its `as_bytes`, and `to_rgba8().into_raw()`; or the decoder's message.
/// The result is only named here; both pixel buffers have exactly one
/// entry per pixel.
#[verifier::external_body]
fn decode_png(bytes: &[u8]) -> (r: Result<PageImage, String>)
    ensures
        match r {
            Ok(image) => spec_decode_png(bytes@) == Ok::<PageImage, Seq<char>>(image)
                && image.rgba@.len() == 4 * image.width * image.height
                && image.samples@.len() == image.bytes_per_pixel * image.width * image.height,
            Err(e) => spec_decode_png(bytes@) == Err::<PageImage, Seq<char>>(e@),
        },
{
    image::load_from_memory_with_format(bytes, image::ImageFormat::Png)
        .map(|decoded| PageImage {
            width: decoded.width(),
            height: decoded.height(),
            channels: decoded.color().channel_count(),
            bytes_per_pixel: decoded.color().bytes_per_pixel(),
            samples: decoded.as_bytes().to_vec(),
            rgba: decoded.to_rgba8().into_raw(),
        })
        .map_err(|error| error.to_string())
}

/// `image::codecs::png::PngEncoder::write_image` into memory, with the
/// colour type of `layout`: the PNG bytes, or the encoder's message. The
/// encoder asserts that the buffer holds exactly the image's bytes, which
/// `requires` asks. The result is only named here.
#[verifier::external_body]
fn encode_png(width: u32, height: u32, layout: PixelLayout, samples: &[u8]) -> (r: Result<Vec<u8>, String>)
    requires
        samples@.len() == layout_bytes(layout) * width * height,
    ensures
        match r {
            Ok(png) => spec_encode_png(width, height, layout, samples@) == Ok::<Seq<u8>, Seq<char>>(png@),
            Err(e) => spec_encode_png(width, height, layout, samples@) == Err::<Seq<u8>, Seq<char>>(e@),
        },
{
    let color = match layout {
        PixelLayout::L8 => image::ExtendedColorType::L8,
        PixelLayout::La8 => image::ExtendedColorType::La8,
        PixelLayout::Rgb8 => image::ExtendedColorType::Rgb8,
        PixelLayout::Rgba8 => image::ExtendedColorType::Rgba8,
        PixelLayout::L16 => image::ExtendedColorType::L16,
        PixelLayout::La16 => image::ExtendedColorType::La16,
        PixelLayout::Rgb16 => image::ExtendedColorType::Rgb16,
        PixelLayout::Rgba16 => image::ExtendedColorType::Rgba16,
    };
    let mut png = Vec::new();
    let written = image::codecs::png::PngEncoder::new(&mut png).write_image(samples, width, height, color);
    written.map(|()| png).map_err(|error| error.to_string())
}

/// The page image in the PNG file that `pdftoppm` wrote, or an image
/// error with the decoder's message.
pub fn decode_rendered_page(bytes: &[u8]) -> (r: Result<PageImage, AppError>)
    ensures
        match r {
            Ok(image) => spec_decode_png(bytes@) == Ok::<PageImage, Seq<char>>(image)
                && image.rgba@.len() == 4 * image.width * image.height
                && image.samples@.len() == image.bytes_per_pixel * image.width * image.height,
            Err(AppError::Image(m)) => spec_decode_png(bytes@) == Err::<PageImage, Seq<char>>(m@),
            Err(_) => false,
        },
{
    match decode_png(bytes) {
        Ok(image) => Ok(image),
        Err(message) => Err(AppError::Image(message)),
    }
}

/// The message for a page image whose pixel layout PNG cannot hold.
pub open spec fn unsupported_layout_message() -> Seq<char> {
    "PNG kann dieses Pixelformat nicht speichern"@
}

/// The PNG encoding of a page image in its own pixel layout, for
/// transport; an image error with the encoder's message, or with
/// [`unsupported_layout_message`] for a layout that PNG cannot hold.
pub fn page_png(image: &PageImage) -> (r: Result<Vec<u8>, AppError>)
    requires
        image.samples@.len() == image.bytes_per_pixel * image.width * image.height,
    ensures
        match spec_pixel_layout(image.channels, image.bytes_per_pixel) {
            Some(layout) => match r {
                Ok(png) => spec_encode_png(image.width, image.height, layout, image.samples@)
                    == Ok::<Seq<u8>, Seq<char>>(png@),
                Err(AppError::Image(m)) => spec_encode_png(image.width, image.height, layout, image.samples@)
                    == Err::<Seq<u8>, Seq<char>>(m@),
                Err(_) => false,
            },
            None => r matches Err(AppError::Image(m)) && m@ == unsupported_layout_message(),
        },
{
    match pixel_layout(image.channels, image.bytes_per_pixel) {
        Some(layout) => match encode_png(image.width, image.height, layout, image.samples.as_slice()) {
            Ok(png) => Ok(png),
            Err(message) => Err(AppError::Image(message)),
        },
        None => Err(AppError::Image(to_string("PNG kann dieses Pixelformat nicht speichern"))),
    }
}

// ---------------------------------------------------------------- encoded pages

/// A rendered page ready for transport: its size in pixels, its WebP
/// bytes, and the Base64 text of its WebP and PNG encodings.
pub struct EncodedPage {
    pub width: u32,
    pub height: u32,
    pub webp_bytes: Vec<u8>,
    pub base64_webp: String,
    pub base64_png: String,
}

/// The Base64 digit of a six-bit value (RFC 4648 standard alphabet).
pub open spec fn base64_digit(v: int) -> char {
    if v < 26 {
        (65 + v) as char
    } else if v < 52 {
        (97 + v - 26) as char
    } else if v < 62 {
        (48 + v - 52) as char
    } else if v == 62 {
        '+'
    } else {
        '/'
    }
}

/// The Base64 encoding of `b` (RFC 4648, standard alphabet, with `=`
/// padding): every three bytes become four digits, a final one or two
/// bytes become two or three digits and padding.
pub open spec fn spec_base64(b: Seq<u8>) -> Seq<char>
    decreases b.len(),
{
    if b.len() == 0 {
        seq![]
    } else if b.len() == 1 {
        seq![base64_digit(b[0] as int / 4), base64_digit((b[0] as int % 4) * 16), '=', '=']
    } else if b.len() == 2 {
        seq![
            base64_digit(b[0] as int / 4),
            base64_digit((b[0] as int % 4) * 16 + b[1] as int / 16),
            base64_digit((b[1] as int % 16) * 4),
            '=',
        ]
    } else {
        seq![
            base64_digit(b[0] as int / 4),
            base64_digit((b[0] as int % 4) * 16 + b[1] as int / 16),
            base64_digit((b[1] as int % 16) * 4 + b[2] as int / 64),
            base64_digit(b[2] as int % 64),
        ] + spec_base64(b.skip(3))
    }
}

/// Whether the Base64 text of `len` bytes fits in memory (the length
/// that `base64` computes before encoding does not overflow).
pub open spec fn base64_len_fits(len: nat) -> bool {
    len / 3 * 4 + 4 <= usize::MAX
}

/// `base64::engine::general_purpose::STANDARD.encode`: RFC 4648 Base64
/// with the standard alphabet and padding. The crate panics when the
/// output length overflows, which `requires` rules out.
#[verifier::external_body]
fn base64_standard(bytes: &[u8]) -> (r: String)
    requires
        base64_len_fits(bytes@.len()),
    ensures
        r@ == spec_base64(bytes@),
{
    base64::engine::general_purpose::STANDARD.encode(bytes)
}

impl EncodedPage {
    /// The transport form of a page from its size and its WebP and PNG
    /// encodings: both Base64-encoded.
    pub fn from_encodings(width: u32, height: u32, webp_bytes: Vec<u8>, png_bytes: &[u8]) -> (r:
        EncodedPage)
        requires
            base64_len_fits(webp_bytes@.len()),
            base64_len_fits(png_bytes@.len()),
        ensures
            r.width == width,
            r.height == height,
            r.webp_bytes@ == webp_bytes@,
            r.base64_webp@ == spec_base64(webp_bytes@),
            r.base64_png@ == spec_base64(png_bytes@),
    {
        let base64_webp = base64_standard(webp_bytes.as_slice());
        let base64_png = base64_standard(png_bytes);
        EncodedPage { width, height, webp_bytes, base64_webp, base64_png }
    }
}

// ---------------------------------------------------------------- rendering with pdftoppm

/// The `pdftoppm` arguments that render page `page` of `input` at `dpi`
/// as PNG into files named after `prefix`.
pub open spec fn spec_pdftoppm_args(page: u32, dpi: u32, input: Seq<char>, prefix: Seq<char>) -> Seq<
    Seq<char>,
> {
    seq![
        "-f"@,
        decimal(page as nat),
        "-l"@,
        decimal(page as nat),
        "-r"@,
        decimal(dpi as nat),
        "-png"@,
        input,
        prefix,
    ]
}

fn decimal_string(n: u64) -> (r: String)
    ensures
        r@ == decimal(n as nat),
{
    let mut v: Vec<char> = Vec::new();
    push_decimal(&mut v, n);
    proof {
        assert(v@ =~= decimal(n as nat));
    }
    string_from_chars(v.as_slice())
}

fn str_string(s: &str) -> (r: String)
    ensures
        r@ == s@,
{
    let v = chars_of(s);
    string_from_chars(v.as_slice())
}

/// The `pdftoppm` arguments for one page (see [`spec_pdftoppm_args`]).
pub fn pdftoppm_args(page: u32, dpi: u32, input: &str, prefix: &str) -> (r: Vec<String>)
    ensures
        string_views(r@) == spec_pdftoppm_args(page, dpi, input@, prefix@),
{
    let mut r: Vec<String> = Vec::new();
    r.push(str_string("-f"));
    r.push(decimal_string(page as u64));
    r.push(str_string("-l"));
    r.push(decimal_string(page as u64));
    r.push(str_string("-r"));
    r.push(decimal_string(dpi as u64));
    r.push(str_string("-png"));
    r.push(str_string(input));
    r.push(str_string(prefix));
    proof {
        assert(string_views(r@) =~= spec_pdftoppm_args(page, dpi, input@, prefix@));
    }
    r
}

/// How a `pdftoppm` run ended: it could not be started (with the system's
/// message), or it exited with a status (success, and its description).
pub enum RenderRun {
    NotStarted(String),
    Exited { success: bool, status: String },
}

/// The message of the processing error for a `pdftoppm` run of page
/// `page`, or nothing when the run succeeded.
pub open spec fn spec_render_failure(page: u32, run: RenderRun) -> Option<Seq<char>> {
    match run {
        RenderRun::NotStarted(m) => Some("pdftoppm konnte nicht gestartet werden: "@ + m@),
        RenderRun::Exited { success, status } => if success {
            None
        } else {
            Some(
                "pdftoppm ist fuer Seite "@ + decimal(page as nat) + " mit Status "@ + status@
                    + " fehlgeschlagen"@,
            )
        },
    }
}

/// The verdict on a `pdftoppm` run: success, or a processing error with
/// the message of [`spec_render_failure`].
pub fn render_verdict(page: u32, run: &RenderRun) -> (r: Result<(), AppError>)
    ensures
        match r {
            Ok(()) => spec_render_failure(page, *run) is None,
            Err(AppError::PdfProcessingError(m)) => spec_render_failure(page, *run) == Some(m@),
            Err(_) => false,
        },
{
    match run {
        RenderRun::NotStarted(m) => {
            let mut v = chars_of("pdftoppm konnte nicht gestartet werden: ");
            push_str(&mut v, m.as_str());
            Err(AppError::PdfProcessingError(string_from_chars(v.as_slice())))
        },
        RenderRun::Exited { success, status } => {
            if *success {
                Ok(())
            } else {
                let mut v = chars_of("pdftoppm ist fuer Seite ");
                push_decimal(&mut v, page as u64);
                push_str(&mut v, " mit Status ");
                push_str(&mut v, status.as_str());
                push_str(&mut v, " fehlgeschlagen");
                Err(AppError::PdfProcessingError(string_from_chars(v.as_slice())))
            }
        },
    }
}

/// The extension of a file name (`Path::extension`): the part after the
/// last `'.'`, none when there is no `'.'` or the only one starts the name.
pub open spec fn file_extension(name: Seq<char>) -> Option<Seq<char>> {
    if exists|i: int| 0 <= i < name.len() && name[i] == '.' {
        let i = choose|i: int|
            0 <= i < name.len() && name[i] == '.' && forall|j: int| i < j < name.len() ==> name[j]
                != '.';
        if i == 0 {
            None
        } else {
            Some(name.skip(i + 1))
        }
    } else {
        None
    }
}

/// Whether `name` is a page image that `pdftoppm` wrote for the file
/// prefix `prefix`: it starts with `prefix-` and has the extension `png`.
pub open spec fn is_rendered_png(prefix: Seq<char>, name: Seq<char>) -> bool {
    starts_with(name, prefix + seq!['-']) && file_extension(name) == Some(seq!['p', 'n', 'g'])
}


fn has_png_extension(name: &[char]) -> (b: bool)
    ensures
        b == (file_extension(name@) == Some(seq!['p', 'n', 'g'])),
{
    let len = name.len();
    let mut k = len;
    while k > 0 && name[k - 1] != '.'
        invariant
            k <= len == name@.len(),
            forall|j: int| k <= j < len ==> name@[j] != '.',
        decreases k,
    {
        k = k - 1;
    }
    if k == 0 {
        return false;
    }
    let i = k - 1;
    proof {
        assert(name@[i as int] == '.');
        let c = choose|c: int|
            0 <= c < name@.len() && name@[c] == '.' && forall|j: int| c < j < name@.len()
                ==> name@[j] != '.';
        assert(0 <= c < name@.len() && name@[c] == '.' && forall|j: int| c < j < name@.len()
            ==> name@[j] != '.');
        if c < i {
            assert(name@[i as int] != '.');
        }
        assert(c == i);
    }
    if i == 0 {
        return false;
    }
    let b = len - k == 3 && name[k] == 'p' && name[k + 1] == 'n' && name[k + 2] == 'g';
    proof {
        let ext = name@.skip(k as int);
        if b {
            assert(ext =~= seq!['p', 'n', 'g']);
        }
        if ext == seq!['p', 'n', 'g'] {
            assert(ext.len() == 3);
            assert(ext[0] == name@[k as int]);
            assert(ext[1] == name@[k + 1]);
            assert(ext[2] == name@[k + 2]);
        }
    }
    b
}

fn is_rendered_png_name(prefix: &[char], name: &[char]) -> (b: bool)
    ensures
        b == is_rendered_png(prefix@, name@),
{
    let mut p: Vec<char> = Vec::new();
    p.extend_from_slice(prefix);
    p.push('-');
    if p.len() > name.len() {
        return false;
    }
    let mut j: usize = 0;
    while j < p.len()
        invariant
            j <= p@.len() <= name@.len(),
            p@ == prefix@ + seq!['-'],
            forall|m: int| 0 <= m < j ==> name@[m] == p@[m],
        decreases p@.len() - j,
    {
        if name[j] != p[j] {
            proof {
                if starts_with(name@, prefix@ + seq!['-']) {
                    assert(name@[j as int] == name@.take(p@.len() as int)[j as int]);
                }
            }
            return false;
        }
        j = j + 1;
    }
    proof {
        assert(name@.take(p@.len() as int) =~= p@);
    }
    has_png_extension(name)
}

/// The position of the first page image that `pdftoppm` wrote for the
/// file prefix `prefix` among the directory entries `names`, or the
/// processing error "no rendered PNG" when there is none.
pub fn rendered_png_index(prefix: &str, names: &[String]) -> (r: Result<usize, AppError>)
    ensures
        match r {
            Ok(i) => i < names@.len() && is_rendered_png(prefix@, names@[i as int]@) && forall|
                j: int,
            | 0 <= j < i ==> !is_rendered_png(prefix@, #[trigger] names@[j]@),
            Err(AppError::PdfProcessingError(m)) => m@ == "Gerenderte PNG-Datei wurde nicht gefunden"@
                && forall|j: int| 0 <= j < names@.len() ==> !is_rendered_png(prefix@, #[trigger] names@[j]@),
            Err(_) => false,
        },
{
    let pc = chars_of(prefix);
    let mut i: usize = 0;
    while i < names.len()
        invariant
            i <= names@.len(),
            pc@ == prefix@,
            forall|j: int| 0 <= j < i ==> !is_rendered_png(prefix@, #[trigger] names@[j]@),
        decreases names@.len() - i,
    {
        let nc = chars_of(names[i].as_str());
        if is_rendered_png_name(pc.as_slice(), nc.as_slice()) {
            return Ok(i);
        }
        i = i + 1;
    }
    Err(AppError::PdfProcessingError(str_string("Gerenderte PNG-Datei wurde nicht gefunden")))
}

} // verus!
