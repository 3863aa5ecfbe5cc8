//! Pages as PNG images, and as PDF documents that hold such an image.
//!
//! Text is drawn with the fonts of the system that this runs on: there is
//! none in here. Without any, it is missing from the image.

use crate::http::OutputFormat;
use crate::layout::extent;
use crate::model::{Page, PageView};
use crate::render::{render_svg, svg_head, svg_height, svg_of, svg_width};
use crate::seqs::{
    first_where, gather, lemma_first_where, lemma_first_where_is, lemma_gather_lists, lists,
};
use crate::text::{
    ascii_lower, contains_text, decimal, decimal_text, has_part, stands_at, to_ascii_lower,
};
use printpdf::image_crate::codecs::png::PngDecoder;
use vstd::prelude::*;
use vstd::utf8::encode_utf8;

verus! {

/// How many pixels an image may have. Layout has no upper bound on height,
/// so that without a limit a page with enough text would take any amount of
/// memory.
pub const MAX_RASTER_PIXELS: u64 = 8000000;

/// The width that pages are rendered at, in pixels, where none is asked for.
pub const RENDER_WIDTH: u32 = 1024;

/// Why a page could not be rendered.
#[derive(Debug, Clone, Copy, PartialEq, Eq, Structural)]
pub enum RasterError {
    /// The page is higher than a box can say.
    TooHigh,
    /// The page's SVG could not be read.
    BadSvg,
    /// The image would have more pixels than the limit.
    TooManyPixels { width: u32, height: u32 },
    /// There is no image of that size.
    BadSize,
    /// The image could not be written.
    Unencoded,
    /// The written image could not be read.
    BadPng,
    /// The image could not be put into a document.
    BadImage,
    /// The document could not be written.
    Unsaved,
}

impl RasterError {
    pub open spec fn text(self) -> Seq<char> {
        match self {
            RasterError::TooHigh => "rendered page is too high"@,
            RasterError::BadSvg => "failed to parse rendered SVG"@,
            RasterError::TooManyPixels { width, height } => "rendered page is "@ + decimal(
                width as nat,
            ) + "x"@ + decimal(height as nat) + " ("@ + decimal((width * height) as nat)
                + " pixels), over the 8000000-pixel raster limit"@,
            RasterError::BadSize => "rendered page has invalid pixel dimensions"@,
            RasterError::Unencoded => "failed to encode PNG"@,
            RasterError::BadPng => "failed to decode the rasterized PNG"@,
            RasterError::BadImage => "failed to load the PNG into a PDF image"@,
            RasterError::Unsaved => "failed to save PDF"@,
        }
    }

    /// The reason in words.
    pub fn message(self) -> (message: String)
        ensures
            message@ == self.text(),
    {
        match self {
            RasterError::TooHigh => "rendered page is too high".to_owned(),
            RasterError::BadSvg => "failed to parse rendered SVG".to_owned(),
            RasterError::TooManyPixels { width, height } => {
                assert(width * height <= 0xffff_ffff * 0xffff_ffff) by (nonlinear_arith)
                    requires
                        width <= 0xffff_ffff,
                        height <= 0xffff_ffff,
                ;
                let count: u64 = width as u64 * height as u64;
                "rendered page is ".to_owned().concat(decimal_text(width as u128).as_str()).concat(
                    "x",
                ).concat(decimal_text(height as u128).as_str()).concat(" (").concat(
                    decimal_text(count as u128).as_str(),
                ).concat(" pixels), over the 8000000-pixel raster limit")
            },
            RasterError::BadSize => "rendered page has invalid pixel dimensions".to_owned(),
            RasterError::Unencoded => "failed to encode PNG".to_owned(),
            RasterError::BadPng => "failed to decode the rasterized PNG".to_owned(),
            RasterError::BadImage => "failed to load the PNG into a PDF image".to_owned(),
            RasterError::Unsaved => "failed to save PDF".to_owned(),
        }
    }
}

/// The fonts that are known: opaque here.
#[verifier::external_type_specification]
#[verifier::external_body]
pub struct ExDatabase(usvg::fontdb::Database);

/// A drawing that was read: opaque here.
#[verifier::external_type_specification]
#[verifier::external_body]
pub struct ExTree(usvg::Tree);

/// An image: opaque here.
#[verifier::external_type_specification]
#[verifier::external_body]
pub struct ExPixmap(tiny_skia::Pixmap);

/// The fonts that a database holds, in the order in which it lists them: of
/// each, the names of its families.
pub uninterp spec fn fonts_held(fonts: usvg::fontdb::Database) -> Seq<Seq<Seq<char>>>;

/// The family that a database takes for the generic family `sans-serif`.
pub uninterp spec fn sans_serif_family(fonts: usvg::fontdb::Database) -> Seq<char>;

/// Whether a font of a family is among the fonts.
pub open spec fn has_family(fonts: Seq<Seq<Seq<char>>>, family: Seq<char>) -> bool {
    exists|i: int| 0 <= i < fonts.len() && (#[trigger] fonts[i]).contains(family)
}

/// The first of a font's family names.
pub open spec fn first_name(font: Seq<Seq<char>>) -> Option<Seq<char>> {
    if font.len() > 0 {
        Some(font[0])
    } else {
        None
    }
}

/// Of each font the first of its family names.
pub open spec fn first_names(fonts: Seq<Seq<Seq<char>>>) -> Seq<Option<Seq<char>>> {
    fonts.map_values(|font: Seq<Seq<char>>| first_name(font))
}

/// Calls `fontdb::Database::load_system_fonts` on a new database. Nothing is
/// claimed of the result: it depends on the machine.
#[verifier::external_body]
fn system_fonts() -> usvg::fontdb::Database {
    let mut fonts = usvg::fontdb::Database::new();
    fonts.load_system_fonts();
    fonts
}

/// Calls `fontdb::Database::query` for the generic family `sans-serif`, and
/// says whether it found a font: it does if and only if the database holds
/// one of the family that it takes for `sans-serif`.
#[verifier::external_body]
fn has_sans_serif(fonts: &usvg::fontdb::Database) -> (found: bool)
    ensures
        found == has_family(fonts_held(*fonts), sans_serif_family(*fonts)),
{
    let families = [usvg::fontdb::Family::SansSerif];
    let query = usvg::fontdb::Query { families: &families, ..Default::default() };
    fonts.query(&query).is_some()
}

/// Calls `fontdb::Database::faces`, which lists the fonts that the database
/// holds, and gives of each the first of its family names.
#[verifier::external_body]
fn family_names(fonts: &usvg::fontdb::Database) -> (names: Vec<Option<String>>)
    ensures
        names.deep_view() == first_names(fonts_held(*fonts)),
{
    fonts.faces().map(|face| face.families.first().map(|(name, _)| name.clone())).collect()
}

/// Calls `fontdb::Database::set_sans_serif_family`: the database takes the
/// given family for `sans-serif` from then on, and holds the same fonts.
#[verifier::external_body]
fn set_sans_serif(fonts: &mut usvg::fontdb::Database, family: &str)
    ensures
        sans_serif_family(*final(fonts)) == family@,
        fonts_held(*final(fonts)) == fonts_held(*old(fonts)),
{
    fonts.set_sans_serif_family(family);
}

/// Up to here every whole number of pixels is held exactly.
pub const EXACT_PIXELS: u32 = 16777216;

/// Whether a length is the one that is stated: exactly so where it can be
/// held exactly, and otherwise at least in being that large.
pub open spec fn measures(length: u32, stated: int) -> bool {
    &&& stated <= EXACT_PIXELS ==> length == stated
    &&& stated > EXACT_PIXELS ==> length >= EXACT_PIXELS
}

/// Whether a text can be read as a drawing: whether it is XML that is whole,
/// with no more elements than are read, and with a size.
pub uninterp spec fn svg_readable(svg: Seq<char>) -> bool;

/// Whether a tree is what reading a text as a drawing gives, with the fonts
/// of some machine.
pub uninterp spec fn is_read_from(tree: usvg::Tree, svg: Seq<char>) -> bool;

/// Calls `usvg::Tree::from_str` with the default options and the given
/// fonts, and `usvg::Size::to_int_size` on the size of what was read.
/// Whether the text can be read depends on the text alone, and the tree is
/// read from that text. A drawing has at least one pixel either way, and one
/// that begins with the head of a drawing has the size that the head states.
/// Nothing more is claimed of the tree: it depends on the fonts.
#[verifier::external_body]
fn read_svg(svg: &str, fonts: usvg::fontdb::Database) -> (read: Option<(usvg::Tree, u32, u32)>)
    ensures
        read is Some == svg_readable(svg@),
        read matches Some((tree, _, _)) ==> is_read_from(tree, svg@),
        read matches Some((_, across, down)) ==> across >= 1 && down >= 1,
        read matches Some((_, across, down)) ==> forall|width: u32, height: u64|
            stands_at(svg@, #[trigger] svg_head(width as nat, height as nat), 0) ==> measures(
                across,
                width as int,
            ) && measures(down, height as int),
{
    let options = usvg::Options { fontdb: std::sync::Arc::new(fonts), ..Default::default() };
    let tree = usvg::Tree::from_str(svg, &options).ok()?;
    let size = tree.size().to_int_size();
    Some((tree, size.width(), size.height()))
}

/// How wide and how high an image is, in pixels.
pub uninterp spec fn image_size(image: tiny_skia::Pixmap) -> (u32, u32);

/// Whether an image is what drawing a tree, at its own scale, makes of an
/// empty image of that size.
pub uninterp spec fn is_drawn_from(image: tiny_skia::Pixmap, tree: usvg::Tree) -> bool;

/// Calls `tiny_skia::Pixmap::new`, and `resvg::render` onto what that gives.
/// There is an image of every size but one without pixels, and the tree is
/// drawn on it.
#[verifier::external_body]
fn rasterize(tree: &usvg::Tree, width: u32, height: u32) -> (image: Option<tiny_skia::Pixmap>)
    requires
        width * height <= 8000000,
    ensures
        image is Some == (width > 0 && height > 0),
        image is Some ==> image_size(image->0) == (width, height),
        image is Some ==> is_drawn_from(image->0, *tree),
{
    let mut image = tiny_skia::Pixmap::new(width, height)?;
    resvg::render(tree, tiny_skia::Transform::default(), &mut image.as_mut());
    Some(image)
}

/// What every PNG file begins with.
pub open spec fn png_signature() -> Seq<u8> {
    seq![137u8, 80u8, 78u8, 71u8, 13u8, 10u8, 26u8, 10u8]
}

/// How wide and how high the image is that a PNG file holds, where the bytes
/// are such a file, whole, of RGBA with eight bits each.
pub uninterp spec fn png_size(png: Seq<u8>) -> Option<(u32, u32)>;

/// Whether a PNG file is an image written as such.
pub uninterp spec fn is_written_from(png: Seq<u8>, image: tiny_skia::Pixmap) -> bool;

/// Calls `tiny_skia::Pixmap::encode_png`, which refuses only an image without
/// pixels, and there is none: what it gives is that image as a PNG file. It
/// begins like every PNG file and holds an image of the same size. Nothing
/// is claimed of what the image shows: that depends on the fonts.
#[verifier::external_body]
fn encode_image(image: &tiny_skia::Pixmap) -> (png: Option<Vec<u8>>)
    ensures
        png is Some,
        png->0@.len() >= 8 && png->0@.take(8) == png_signature(),
        png_size(png->0@) == Some(image_size(*image)),
        is_written_from(png->0@, *image),
{
    image.encode_png().ok()
}

/// What every PDF file begins with: `%PDF-`.
pub open spec fn pdf_signature() -> Seq<u8> {
    seq![37u8, 80u8, 68u8, 70u8, 45u8]
}

/// Of the image on the one page of a PDF file: how wide and how high it is,
/// in pixels, and how many of them go to the inch.
pub uninterp spec fn pdf_image(pdf: Seq<u8>) -> Option<((u32, u32), u16)>;

/// Whether a PDF file is a document that is made of a PNG file, under a title
/// and with a layer of a name: one page, which shows the image of the file.
pub uninterp spec fn is_document_of(
    pdf: Seq<u8>,
    png: Seq<u8>,
    title: Seq<char>,
    layer: Seq<char>,
) -> bool;

/// Calls `PngDecoder::new` and `printpdf::Image::try_from` to read the image,
/// `printpdf::PdfDocument::new` for a document with one page that is as large
/// as the image at the given resolution, `printpdf::Image::add_to_layer` to
/// put the image there, and `printpdf::PdfDocumentReference::save_to_bytes`.
/// The image of a whole PNG file is read, and writing to memory does not
/// fail: there is a document, and it begins like every PDF file. It is made
/// of the PNG file, under the title and with the layer, and the image stands
/// on its page with all its pixels, at the resolution. Nothing more is
/// claimed: a document has a random number and the time in it.
#[verifier::external_body]
fn pdf_of_png(png: &Vec<u8>, title: &str, layer: &str, dpi: u16) -> (pdf: Result<
    Vec<u8>,
    RasterError,
>)
    requires
        png_size(png@) matches Some((width, height)) && width * height <= 8000000,
        dpi > 0,
    ensures
        pdf is Ok,
        pdf->Ok_0@.len() >= 5 && pdf->Ok_0@.take(5) == pdf_signature(),
        pdf_image(pdf->Ok_0@) == Some((png_size(png@)->0, dpi)),
        is_document_of(pdf->Ok_0@, png@, title@, layer@),
{
    let decoder = PngDecoder::new(std::io::Cursor::new(png.as_slice())).map_err(|_| RasterError::BadPng)?;
    let image = printpdf::Image::try_from(decoder).map_err(|_| RasterError::BadImage)?;
    let width = image.image.width.into_pt(dpi.into()).into();
    let height = image.image.height.into_pt(dpi.into()).into();
    let (document, page, index) = printpdf::PdfDocument::new(title, width, height, layer);
    let transform = printpdf::ImageTransform { dpi: Some(dpi.into()), ..Default::default() };
    image.add_to_layer(document.get_page(page).get_layer(index), transform);
    document.save_to_bytes().map_err(|_| RasterError::Unsaved)
}

/// Whether a font family looks like one for general use: `sans` in its name,
/// but not `mono`.
pub open spec fn looks_plain(name: Seq<char>) -> bool {
    has_part(ascii_lower(name), "sans"@) && !has_part(ascii_lower(name), "mono"@)
}

pub open spec fn plain_test() -> spec_fn(Seq<char>) -> bool {
    |name: Seq<char>| looks_plain(name)
}

/// The family that stands in for `sans-serif`: the first that looks like one
/// for general use, else the first there is.
pub open spec fn fallback_of(names: Seq<Seq<char>>) -> Option<Seq<char>> {
    let at = first_where(names, plain_test());
    if at < names.len() {
        Some(names[at])
    } else if names.len() > 0 {
        Some(names[0])
    } else {
        None
    }
}

/// The family that stands in for `sans-serif`: the first that looks like one
/// for general use, else the first there is. The order in which fonts are
/// found is arbitrary, and a monospaced font would win by chance.
pub fn pick_fallback_family(names: &Vec<String>) -> (family: Option<String>)
    ensures
        family.deep_view() == fallback_of(names.deep_view()),
{
    let ghost listed = names.deep_view();
    for i in 0..names.len()
        invariant
            listed == names.deep_view(),
            forall|k: int| 0 <= k < i ==> !plain_test()(#[trigger] listed[k]),
    {
        assert(listed[i as int] == names@[i as int]@);
        let lower = to_ascii_lower(names[i].as_str());
        if contains_text(lower.as_str(), "sans") && !contains_text(lower.as_str(), "mono") {
            proof {
                lemma_first_where_is(listed, plain_test(), i as int);
            }
            return Some(names[i].clone());
        }
    }
    proof {
        lemma_first_where_is(listed, plain_test(), listed.len() as int);
    }
    if names.len() > 0 {
        assert(listed[0] == names@[0]@);
        Some(names[0].clone())
    } else {
        None
    }
}

/// The names that are there, in order.
pub open spec fn known_names(names: Seq<Option<Seq<char>>>) -> Seq<Seq<char>>
    decreases names.len(),
{
    if names.len() == 0 {
        Seq::empty()
    } else {
        match names.last() {
            Some(name) => known_names(names.drop_last()).push(name),
            None => known_names(names.drop_last()),
        }
    }
}

/// The names that are there, in order.
pub fn collect_names(names: &Vec<Option<String>>) -> (known: Vec<String>)
    ensures
        known.deep_view() == known_names(names.deep_view()),
{
    let ghost listed = names.deep_view();
    let mut known: Vec<String> = Vec::new();
    assert(known.deep_view() =~= known_names(listed.take(0)));
    for i in 0..names.len()
        invariant
            listed == names.deep_view(),
            known.deep_view() == known_names(listed.take(i as int)),
    {
        let ghost held = known.deep_view();
        proof {
            assert(listed.take(i + 1).drop_last() =~= listed.take(i as int));
            assert(listed.take(i + 1).last() == names@[i as int].deep_view());
        }
        if let Some(name) = &names[i] {
            known.push(name.clone());
            assert(known.deep_view() =~= held.push(name@));
        }
    }
    assert(listed.take(listed.len() as int) =~= listed);
    known
}

/// The family that is taken for `sans-serif`: the one that was, where there
/// is a font of it, else the one that stands in for it.
pub open spec fn settled_family(fonts: Seq<Seq<Seq<char>>>, family: Seq<char>) -> Seq<char> {
    if has_family(fonts, family) {
        family
    } else {
        match fallback_of(known_names(first_names(fonts))) {
            Some(fallback) => fallback,
            None => family,
        }
    }
}

proof fn lemma_known_names(names: Seq<Option<Seq<char>>>)
    ensures
        forall|k: int|
            0 <= k < known_names(names).len() ==> names.contains(
                Some(#[trigger] known_names(names)[k]),
            ),
        forall|i: int|
            0 <= i < names.len() && (#[trigger] names[i]) is Some ==> known_names(names).len() > 0,
    decreases names.len(),
{
    if names.len() > 0 {
        let head = names.drop_last();
        lemma_known_names(head);
        assert forall|k: int| 0 <= k < known_names(names).len() implies names.contains(
            Some(#[trigger] known_names(names)[k]),
        ) by {
            let name = Some(known_names(names)[k]);
            if k < known_names(head).len() {
                assert(head.contains(Some(known_names(head)[k])));
                let i = choose|i: int| 0 <= i < head.len() && head[i] == name;
                assert(names[i] == name);
            } else {
                assert(names[names.len() - 1] == name);
            }
        }
        assert forall|i: int|
            0 <= i < names.len() && (#[trigger] names[i]) is Some implies known_names(names).len()
            > 0 by {
            if i < head.len() {
                assert(head[i] is Some);
            }
        }
    }
}

proof fn lemma_settled(fonts: Seq<Seq<Seq<char>>>, family: Seq<char>, i: int)
    requires
        0 <= i < fonts.len(),
        fonts[i].len() > 0,
    ensures
        has_family(fonts, settled_family(fonts, family)),
{
    let first = first_names(fonts);
    let known = known_names(first);
    lemma_known_names(first);
    lemma_first_where(known, plain_test());
    assert(first[i] is Some);
    if !has_family(fonts, family) {
        let settled = settled_family(fonts, family);
        let at = first_where(known, plain_test());
        let k = if at < known.len() {
            at
        } else {
            0
        };
        assert(first.contains(Some(known[k])));
        let j = choose|j: int| 0 <= j < first.len() && first[j] == Some(settled);
        assert(fonts[j][0] == settled);
    }
}

/// Gives a database a font for `sans-serif`, where it holds none of the
/// family that it takes for it.
fn settle_sans_serif(fonts: &mut usvg::fontdb::Database)
    ensures
        fonts_held(*final(fonts)) == fonts_held(*old(fonts)),
        sans_serif_family(*final(fonts)) == settled_family(
            fonts_held(*old(fonts)),
            sans_serif_family(*old(fonts)),
        ),
{
    if !has_sans_serif(fonts) {
        let names = collect_names(&family_names(fonts));
        if let Some(family) = pick_fallback_family(&names) {
            set_sans_serif(fonts, family.as_str());
        }
    }
}

/// The fonts of the system, with a font for `sans-serif` wherever there is
/// any font. That family is what every drawing asks for, and by itself it
/// may name a font that is not there: then text would silently be missing.
fn load_fonts() -> (fonts: usvg::fontdb::Database)
    ensures
        forall|i: int|
            0 <= i < fonts_held(fonts).len() && (#[trigger] fonts_held(fonts)[i]).len() > 0
                ==> has_family(fonts_held(fonts), sans_serif_family(fonts)),
{
    let mut fonts = system_fonts();
    let ghost held = fonts_held(fonts);
    let ghost family = sans_serif_family(fonts);
    settle_sans_serif(&mut fonts);
    proof {
        assert forall|i: int| 0 <= i < held.len() && (#[trigger] held[i]).len() > 0 implies has_family(
            held,
            settled_family(held, family),
        ) by {
            lemma_settled(held, family, i);
        }
    }
    fonts
}

/// Whether an image of a size is within the limit.
pub fn check_size(width: u32, height: u32) -> (checked: Result<(), RasterError>)
    ensures
        width * height <= MAX_RASTER_PIXELS ==> checked == Ok::<(), RasterError>(()),
        width * height > MAX_RASTER_PIXELS ==> checked == Err::<(), RasterError>(
            RasterError::TooManyPixels { width, height },
        ),
{
    assert(width * height <= 0xffff_ffff * 0xffff_ffff) by (nonlinear_arith)
        requires
            width <= 0xffff_ffff,
            height <= 0xffff_ffff,
    ;
    let count: u64 = width as u64 * height as u64;
    if count <= MAX_RASTER_PIXELS {
        Ok(())
    } else {
        Err(RasterError::TooManyPixels { width, height })
    }
}

/// Whether a page is too high to be drawn at a width.
pub open spec fn is_too_high(page: PageView, width: u32) -> bool {
    extent(page.root, 10 * svg_width(width as int)) > u64::MAX
}

/// How many pixels the drawing of a page has at a width.
pub open spec fn pixel_count(page: PageView, width: u32) -> int {
    let across = svg_width(width as int);
    across * svg_height(extent(page.root, 10 * across))
}

proof fn lemma_pixels(across: u32, down: u32, width: int, height: int)
    requires
        width >= 320,
        height >= 80,
        measures(across, width),
        measures(down, height),
    ensures
        across * down > MAX_RASTER_PIXELS <==> width * height > MAX_RASTER_PIXELS,
        width * height <= MAX_RASTER_PIXELS ==> across == width && down == height,
{
    if width > EXACT_PIXELS || height > EXACT_PIXELS {
        assert(width * height > 8000000 && across * down > 8000000) by (nonlinear_arith)
            requires
                width >= 320,
                height >= 80,
                across >= 320,
                down >= 80,
                width > 16777216 && across >= 16777216 || height > 16777216 && down >= 16777216,
        ;
    }
}

/// Whether a page is rendered to PNG at a width: its drawing can be read, and
/// has no more pixels than the limit.
pub open spec fn is_rendered(page: PageView, width: u32) -> bool {
    &&& !is_too_high(page, width)
    &&& svg_readable(svg_of(page.root, width as int))
    &&& pixel_count(page, width) <= MAX_RASTER_PIXELS
}

/// Whether an error is the reason why a page is not rendered.
pub open spec fn is_refused(page: PageView, width: u32, error: RasterError) -> bool {
    match error {
        RasterError::TooHigh => is_too_high(page, width),
        RasterError::BadSvg => !is_too_high(page, width) && !svg_readable(
            svg_of(page.root, width as int),
        ),
        RasterError::TooManyPixels { width: across, height: down } => {
            &&& !is_too_high(page, width)
            &&& svg_readable(svg_of(page.root, width as int))
            &&& pixel_count(page, width) > MAX_RASTER_PIXELS
            &&& across * down > MAX_RASTER_PIXELS
            &&& measures(across, svg_width(width as int))
            &&& measures(down, svg_height(extent(page.root, 10 * svg_width(width as int))))
        },
        _ => false,
    }
}

/// Whether a PNG file is a drawing that was read, drawn and written.
pub open spec fn shows_drawing(png: Seq<u8>, svg: Seq<char>) -> bool {
    exists|tree: usvg::Tree, image: tiny_skia::Pixmap|
        is_read_from(tree, svg) && #[trigger] is_drawn_from(image, tree) && is_written_from(
            png,
            image,
        )
}

/// Whether bytes are a PNG file of a page's drawing, with an image of the
/// size of the drawing.
pub open spec fn is_png_of(page: PageView, width: u32, png: Seq<u8>) -> bool {
    &&& png.len() >= 8 && png.take(8) == png_signature()
    &&& png_size(png) matches Some((across, down)) && across == svg_width(width as int) && down
        == svg_height(extent(page.root, 10 * svg_width(width as int)))
    &&& shows_drawing(png, svg_of(page.root, width as int))
}

/// Whether bytes are a PDF file of one page that shows a PNG file of a page's
/// drawing, with all the pixels of the drawing, at 96 DPI.
pub open spec fn is_pdf_of(page: PageView, width: u32, pdf: Seq<u8>) -> bool {
    &&& pdf.len() >= 5 && pdf.take(5) == pdf_signature()
    &&& pdf_image(pdf) matches Some(((across, down), dpi)) && dpi == 96 && across == svg_width(
        width as int,
    ) && down == svg_height(extent(page.root, 10 * svg_width(width as int)))
    &&& exists|png: Seq<u8>|
        is_png_of(page, width, png) && #[trigger] is_document_of(
            pdf,
            png,
            "kite-lite"@,
            "Layer 1"@,
        )
}

/// Renders the page's drawing to PNG bytes, at a width in pixels. What comes
/// back is a PNG file of the drawing, with an image of its size, or the
/// reason why there is none: a page with more pixels than the limit is
/// refused before any memory is taken for it.
pub fn render_png(page: &Page, width: u32) -> (png: Result<Vec<u8>, RasterError>)
    ensures
        png is Ok <==> is_rendered(page.deep_view(), width),
        png is Ok ==> is_png_of(page.deep_view(), width, png->Ok_0@),
        png is Err ==> is_refused(page.deep_view(), width, png->Err_0),
{
    let svg = match render_svg(page, width) {
        Some(svg) => svg,
        None => {
            return Err(RasterError::TooHigh);
        },
    };
    let ghost root = page.deep_view().root;
    let ghost stated = svg_width(width as int);
    let ghost height = svg_height(extent(root, 10 * stated));
    let (tree, across, down) = match read_svg(svg.as_str(), load_fonts()) {
        Some(read) => read,
        None => {
            return Err(RasterError::BadSvg);
        },
    };
    proof {
        let head = svg_head(stated as nat, height as nat);
        assert(svg@.subrange(0, head.len() as int) =~= head);
        assert(stands_at(svg@, svg_head((stated as u32) as nat, (height as u64) as nat), 0));
        lemma_pixels(across, down, stated, height);
    }
    if let Err(error) = check_size(across, down) {
        return Err(error);
    }
    let image = match rasterize(&tree, across, down) {
        Some(image) => image,
        None => {
            return Err(RasterError::BadSize);
        },
    };
    match encode_image(&image) {
        Some(png) => Ok(png),
        None => Err(RasterError::Unencoded),
    }
}

/// Wraps the page's PNG image as a PDF document of one page, at 96 DPI, so
/// that the page fits the image. The text is part of the image: it can be
/// neither selected nor searched.
pub fn render_pdf(page: &Page, width: u32) -> (pdf: Result<Vec<u8>, RasterError>)
    ensures
        pdf is Ok <==> is_rendered(page.deep_view(), width),
        pdf is Ok ==> is_pdf_of(page.deep_view(), width, pdf->Ok_0@),
        pdf is Err ==> is_refused(page.deep_view(), width, pdf->Err_0),
{
    match render_png(page, width) {
        Ok(png) => pdf_of_png(&png, "kite-lite", "Layer 1", 96),
        Err(error) => Err(error),
    }
}

/// The bytes of a page in a format.
pub fn render_as(page: &Page, format: OutputFormat) -> (bytes: Result<Vec<u8>, RasterError>)
    ensures
        match format {
            OutputFormat::Svg => if is_too_high(page.deep_view(), RENDER_WIDTH) {
                bytes == Err::<Vec<u8>, RasterError>(RasterError::TooHigh)
            } else {
                bytes matches Ok(svg) && svg@ == encode_utf8(
                    svg_of(page.deep_view().root, RENDER_WIDTH as int),
                )
            },
            OutputFormat::Png => {
                &&& bytes is Ok <==> is_rendered(page.deep_view(), RENDER_WIDTH)
                &&& bytes matches Ok(png) ==> is_png_of(page.deep_view(), RENDER_WIDTH, png@)
                &&& bytes matches Err(error) ==> is_refused(page.deep_view(), RENDER_WIDTH, error)
            },
            OutputFormat::Pdf => {
                &&& bytes is Ok <==> is_rendered(page.deep_view(), RENDER_WIDTH)
                &&& bytes matches Ok(pdf) ==> is_pdf_of(page.deep_view(), RENDER_WIDTH, pdf@)
                &&& bytes matches Err(error) ==> is_refused(page.deep_view(), RENDER_WIDTH, error)
            },
        },
{
    match format {
        OutputFormat::Svg => match render_svg(page, RENDER_WIDTH) {
            Some(svg) => Ok(vstd::slice::slice_to_vec(svg.as_str().as_bytes())),
            None => Err(RasterError::TooHigh),
        },
        OutputFormat::Png => render_png(page, RENDER_WIDTH),
        OutputFormat::Pdf => render_pdf(page, RENDER_WIDTH),
    }
}

/// A page is rendered if its drawing can be read and has at most eight
/// million pixels, and only then; a page that is not is refused for one
/// reason, and the reason is the one that holds.
pub proof fn law_large_pages_are_refused(page: PageView, width: u32, error: RasterError)
    ensures
        ({
            let across = if width > 320 {
                width as int
            } else {
                320
            };
            let height = extent(page.root, 10 * across);
            let down = if height <= 800 {
                80
            } else {
                (height + 9) / 10
            };
            let high = height > u64::MAX;
            let readable = svg_readable(svg_of(page.root, width as int));
            let large = across * down > 8000000;
            &&& is_rendered(page, width) <==> !high && readable && !large
            &&& is_refused(page, width, error) ==> !is_rendered(page, width)
            &&& is_refused(page, width, error) && error is TooHigh ==> high
            &&& is_refused(page, width, error) && error is BadSvg ==> !high && !readable
            &&& is_refused(page, width, error) && error is TooManyPixels ==> !high && readable
                && large
            &&& high ==> is_refused(page, width, RasterError::TooHigh)
            &&& !high && !readable ==> is_refused(page, width, RasterError::BadSvg)
        }),
{
}

/// A page with too many pixels is refused with its size.
pub proof fn law_refusal_tells_the_size(width: u32, height: u32)
    ensures
        (RasterError::TooManyPixels { width, height }).text() == "rendered page is "@ + decimal(
            width as nat,
        ) + "x"@ + decimal(height as nat) + " ("@ + decimal((width * height) as nat)
            + " pixels), over the 8000000-pixel raster limit"@,
        RasterError::TooHigh.text() == "rendered page is too high"@,
        RasterError::BadSvg.text() == "failed to parse rendered SVG"@,
{
}

/// What stands in for `sans-serif` is the first family with `sans` and
/// without `mono` in its name, in any case; else the first family; and where
/// there is none, none.
pub proof fn law_fallback_is_the_first_plain_family(names: Seq<Seq<char>>, at: int)
    requires
        0 <= at <= names.len(),
        forall|k: int|
            0 <= k < at ==> !has_part(ascii_lower(#[trigger] names[k]), "sans"@) || has_part(
                ascii_lower(names[k]),
                "mono"@,
            ),
        at < names.len() ==> has_part(ascii_lower(names[at]), "sans"@) && !has_part(
            ascii_lower(names[at]),
            "mono"@,
        ),
    ensures
        at < names.len() ==> fallback_of(names) == Some(names[at]),
        at == names.len() && names.len() > 0 ==> fallback_of(names) == Some(names[0]),
        names.len() == 0 ==> fallback_of(names) is None,
{
    lemma_first_where_is(names, plain_test(), at);
}

/// A database keeps the family that it takes for `sans-serif` where it holds
/// a font of it; otherwise it takes the family that stands in for it, of
/// those that its fonts are of, each font by its first family name.
pub proof fn law_sans_serif_is_kept_where_there_is_a_font(
    fonts: Seq<Seq<Seq<char>>>,
    family: Seq<char>,
    i: int,
)
    requires
        0 <= i < fonts.len(),
    ensures
        fonts[i].contains(family) ==> settled_family(fonts, family) == family,
        (forall|k: int| 0 <= k < fonts.len() ==> !(#[trigger] fonts[k]).contains(family))
            && fallback_of(known_names(first_names(fonts))) is Some ==> settled_family(
            fonts,
            family,
        ) == fallback_of(known_names(first_names(fonts)))->0,
        fonts[i].len() > 0 ==> first_names(fonts)[i] == Some(fonts[i][0]),
        fonts[i].len() == 0 ==> first_names(fonts)[i] is None,
        fonts[i].len() > 0 ==> has_family(fonts, settled_family(fonts, family)),
{
    if fonts[i].len() > 0 {
        lemma_settled(fonts, family, i);
    }
}

/// The names that are there are kept, each and in order.
pub proof fn law_known_names_are_kept(names: Seq<Option<Seq<char>>>)
    ensures
        lists(
            known_names(names),
            names,
            |name: Option<Seq<char>>| name is Some,
            |name: Option<Seq<char>>| name->0,
        ),
{
    let f = |name: Option<Seq<char>>|
        match name {
            Some(name) => seq![name],
            None => Seq::<Seq<char>>::empty(),
        };
    lemma_names_gathered(names);
    lemma_gather_lists(
        names,
        f,
        |name: Option<Seq<char>>| name is Some,
        |name: Option<Seq<char>>| name->0,
    );
}

proof fn lemma_names_gathered(names: Seq<Option<Seq<char>>>)
    ensures
        known_names(names) == gather(
            names,
            |name: Option<Seq<char>>|
                match name {
                    Some(name) => seq![name],
                    None => Seq::<Seq<char>>::empty(),
                },
        ),
    decreases names.len(),
{
    if names.len() > 0 {
        lemma_names_gathered(names.drop_last());
    }
    assert(known_names(names) =~= gather(
        names,
        |name: Option<Seq<char>>|
            match name {
                Some(name) => seq![name],
                None => Seq::<Seq<char>>::empty(),
            },
    ));
}

/// A PDF file of a page holds the pixels of the page's drawing at 96 to the
/// inch; a PNG file of a page has the size of the drawing, which is 1024
/// pixels wide where no width is asked for.
pub proof fn law_images_have_the_size_of_the_drawing(
    page: PageView,
    width: u32,
    png: Seq<u8>,
    pdf: Seq<u8>,
)
    ensures
        is_png_of(page, width, png) ==> png_size(png) is Some && (png_size(png)->Some_0).0
            == svg_width(width as int) && (png_size(png)->Some_0).1 == svg_height(
            extent(page.root, 10 * svg_width(width as int)),
        ),
        is_png_of(page, width, png) ==> shows_drawing(png, svg_of(page.root, width as int)),
        is_pdf_of(page, width, pdf) ==> pdf_image(pdf) is Some && (pdf_image(pdf)->Some_0).1 == 96,
        RENDER_WIDTH == 1024,
        MAX_RASTER_PIXELS == 8000000,
{
}

/// A PNG file begins with the signature of such files, and so does a PDF
/// file; the document is called `kite-lite` and shows a PNG file of the page
/// on its one layer.
pub proof fn law_files_begin_with_their_signature(
    page: PageView,
    width: u32,
    png: Seq<u8>,
    pdf: Seq<u8>,
)
    ensures
        is_png_of(page, width, png) ==> png.len() >= 8 && png[0] == 137 && png[1] == 'P' as u8
            && png[2] == 'N' as u8 && png[3] == 'G' as u8 && png[4] == 13 && png[5] == 10 && png[6]
            == 26 && png[7] == 10,
        is_pdf_of(page, width, pdf) ==> pdf.len() >= 5 && pdf[0] == '%' as u8 && pdf[1]
            == 'P' as u8 && pdf[2] == 'D' as u8 && pdf[3] == 'F' as u8 && pdf[4] == '-' as u8,
        is_pdf_of(page, width, pdf) ==> exists|image: Seq<u8>|
            is_png_of(page, width, image) && #[trigger] is_document_of(
                pdf,
                image,
                "kite-lite"@,
                "Layer 1"@,
            ),
{
    if is_png_of(page, width, png) {
        let start = png.take(8);
        assert(start[0] == png[0] && start[1] == png[1] && start[2] == png[2] && start[3] == png[3]);
        assert(start[4] == png[4] && start[5] == png[5] && start[6] == png[6] && start[7] == png[7]);
    }
    if is_pdf_of(page, width, pdf) {
        let start = pdf.take(5);
        assert(start[0] == pdf[0] && start[1] == pdf[1] && start[2] == pdf[2] && start[3] == pdf[3]
            && start[4] == pdf[4]);
    }
}

} // verus!
