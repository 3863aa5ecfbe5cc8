use kite_lite_core::http::{output_format, OutputFormat};
use kite_lite_core::raster::{
    check_size, collect_names, pick_fallback_family, render_as, RasterError,
};
use kite_lite_core::render::{escape_xml, tenths_text};
use kite_lite_core::{parse_html, render_pdf, render_png, render_svg};

#[test]
fn renders_safe_svg_text() {
    let page = parse_html("<h1>Hello & goodbye</h1>");
    let svg = render_svg(&page, 640).expect("the page is not too high");
    assert!(svg.contains("Hello &amp; goodbye"));
    assert!(svg.starts_with("<svg"));
}

#[test]
fn drawing_is_written_exactly() {
    let page = parse_html("<title>T</title><h1>Hi</h1><p>a <b>bold</b></p>");
    let expected = concat(&[
        "<svg xmlns=\"http://www.w3.org/2000/svg\" width=\"640\" height=\"143\" viewBox=\"0 0 640 143\">\n",
        "<rect width=\"100%\" height=\"100%\" fill=\"#ffffff\"/>\n",
        "<style>text { font-family: system-ui, sans-serif; fill: #202124; } .heading { font-weight: 700; } .muted { fill: #5f6368; }</style>\n",
        "<text x=\"0\" y=\"56\" font-size=\"32px\" class=\"heading\">Hi</text>\n",
        "<text x=\"0\" y=\"121.6\" font-size=\"16px\" class=\"heading\">bold</text>\n",
        "</svg>\n",
    ]);
    assert_eq!(render_svg(&page, 640), Some(expected));
}

fn concat(parts: &[&str]) -> String {
    parts.concat()
}

#[test]
fn long_text_is_wrapped_into_lines_of_the_drawing() {
    let page = parse_html("<p>one two three four five six seven eight nine ten</p>");
    let svg = render_svg(&page, 100).expect("the page is not too high");
    assert!(svg.contains("width=\"320\""));
    // 320 px hold 36 characters of 8.8 px.
    assert!(svg.contains("y=\"32\" font-size=\"16px\" class=\"muted\">one two three four five six seven</text>"));
    assert!(svg.contains("y=\"52.8\" font-size=\"16px\" class=\"muted\">eight nine ten</text>"));
}

#[test]
fn drawing_is_at_least_eighty_pixels_high() {
    let page = parse_html("");
    let svg = render_svg(&page, 640).expect("the page is not too high");
    assert!(svg.contains("height=\"80\""));
    assert!(!svg.contains("<text"));
}

#[test]
fn drawing_does_not_depend_on_earlier_layout() {
    let page = parse_html("<h1>Title</h1><p>Some text</p>");
    let mut laid = page.clone();
    kite_lite_core::compute_layout(&mut laid, 123);
    assert_eq!(render_svg(&page, 800), render_svg(&laid, 800));
}

#[test]
fn xml_escape_covers_reserved_characters() {
    assert_eq!(escape_xml("<a b='c'> & \"d\""), "&lt;a b=&apos;c&apos;&gt; &amp; &quot;d&quot;");
    assert_eq!(escape_xml("&amp;"), "&amp;amp;");
    assert_eq!(escape_xml("ñ"), "ñ");
}

#[test]
fn tenths_are_written_with_a_decimal_where_needed() {
    assert_eq!(tenths_text(0), "0");
    assert_eq!(tenths_text(416), "41.6");
    assert_eq!(tenths_text(410), "41");
    assert_eq!(tenths_text(5), "0.5");
}

#[test]
fn renders_a_page_to_png_bytes() {
    let page = parse_html("<h1>Hello</h1>");
    let png = render_png(&page, 320).expect("PNG rendering failed");
    assert_eq!(&png[..8], b"\x89PNG\r\n\x1a\n", "missing PNG signature");
}

#[test]
fn rendered_png_actually_draws_text_pixels() {
    // A valid signature does not show that text was drawn: with a font that
    // cannot be found the image is valid and blank.
    let page = parse_html("<h1>Hello</h1>");
    let png = render_png(&page, 320).expect("PNG rendering failed");
    let pixmap = tiny_skia::Pixmap::decode_png(&png).expect("failed to decode rendered PNG");
    let has_non_white_pixel = pixmap
        .pixels()
        .iter()
        .any(|pixel| pixel.red() != 255 || pixel.green() != 255 || pixel.blue() != 255);
    assert!(has_non_white_pixel, "rendered PNG is entirely blank/white");
}

#[test]
fn png_has_the_size_of_the_drawing() {
    let page = parse_html("<h1>Hello</h1>");
    let png = render_png(&page, 320).expect("PNG rendering failed");
    let pixmap = tiny_skia::Pixmap::decode_png(&png).expect("failed to decode rendered PNG");
    assert_eq!((pixmap.width(), pixmap.height()), (320, 90));
}

#[test]
fn rejects_a_page_tall_enough_to_exceed_the_raster_pixel_limit() {
    let body: String = "<p>filler</p>".repeat(4000);
    let page = parse_html(&format!("<html><body>{body}</body></html>"));
    let error = render_png(&page, 320).expect_err("expected the raster limit to reject this");
    assert!(
        error.message().contains("raster limit"),
        "unexpected error: {}",
        error.message()
    );
}

#[test]
fn renders_a_page_to_pdf_bytes() {
    let page = parse_html("<h1>Hello</h1>");
    let pdf = render_pdf(&page, 320).expect("PDF rendering failed");
    assert_eq!(&pdf[..5], b"%PDF-", "missing PDF signature");
}

#[test]
fn pdf_holds_the_image_of_the_drawing() {
    let page = parse_html("<h1>Hello</h1>");
    let drawing = render_svg(&page, 400).unwrap();
    let stated = |name: &str| {
        let after = drawing.split_once(&format!(" {}=\"", name)).unwrap().1;
        after.split_once('"').unwrap().0.to_string()
    };
    assert_eq!(stated("width"), "400");
    let pdf = render_pdf(&page, 400).unwrap();
    let text = String::from_utf8_lossy(&pdf).to_string();
    assert!(text.contains("/Width 400"), "no image of that width");
    assert!(text.contains(&format!("/Height {}", stated("height"))), "no image of that height");
    assert_eq!(text.matches("/Type/Page/").count() + text.matches("/Type/Page\n").count(), 1);
    assert!(text.contains("kite-lite"), "no title");
}

#[test]
fn pdf_is_refused_where_png_is() {
    let page = parse_html("<p>filler</p>");
    assert!(matches!(
        render_png(&page, 1_000_000).unwrap_err(),
        RasterError::TooManyPixels { width: 1_000_000, .. }
    ));
    assert_eq!(
        render_pdf(&page, 1_000_000).unwrap_err(),
        render_png(&page, 1_000_000).unwrap_err()
    );
}

#[test]
fn pixel_limit_is_exact() {
    assert_eq!(check_size(8000, 1000), Ok(()));
    assert_eq!(
        check_size(8000, 1001),
        Err(RasterError::TooManyPixels { width: 8000, height: 1001 })
    );
    assert_eq!(
        RasterError::TooManyPixels { width: 8000, height: 1001 }.message(),
        "rendered page is 8000x1001 (8008000 pixels), over the 8000000-pixel raster limit"
    );
    assert_eq!(check_size(u32::MAX, u32::MAX).is_err(), true);
}

#[test]
fn raster_errors_have_their_messages() {
    assert_eq!(RasterError::TooHigh.message(), "rendered page is too high");
    assert_eq!(RasterError::BadSvg.message(), "failed to parse rendered SVG");
    assert_eq!(RasterError::BadSize.message(), "rendered page has invalid pixel dimensions");
    assert_eq!(RasterError::Unencoded.message(), "failed to encode PNG");
    assert_eq!(RasterError::BadPng.message(), "failed to decode the rasterized PNG");
    assert_eq!(RasterError::BadImage.message(), "failed to load the PNG into a PDF image");
    assert_eq!(RasterError::Unsaved.message(), "failed to save PDF");
}

fn names(list: &[&str]) -> Vec<String> {
    list.iter().map(|name| name.to_string()).collect()
}

#[test]
fn fallback_font_is_a_plain_sans() {
    let fonts = names(&["DejaVu Sans Mono", "DejaVu Serif", "DejaVu SANS", "Noto Sans"]);
    assert_eq!(pick_fallback_family(&fonts).as_deref(), Some("DejaVu SANS"));
    let fonts = names(&["DejaVu Sans Mono", "DejaVu Serif"]);
    assert_eq!(pick_fallback_family(&fonts).as_deref(), Some("DejaVu Sans Mono"));
    assert_eq!(pick_fallback_family(&names(&[])), None);
}

#[test]
fn fonts_without_a_name_are_passed_over() {
    let found = vec![None, Some("A".to_string()), None, Some("B".to_string())];
    assert_eq!(collect_names(&found), vec!["A", "B"]);
}

#[test]
fn formats_have_names_and_types() {
    assert_eq!(output_format("png"), OutputFormat::Png);
    assert_eq!(output_format("pdf"), OutputFormat::Pdf);
    assert_eq!(output_format("svg"), OutputFormat::Svg);
    assert_eq!(output_format("jpeg"), OutputFormat::Svg);
    assert_eq!(OutputFormat::Svg.content_type(), "image/svg+xml");
    assert_eq!(OutputFormat::Png.content_type(), "image/png");
    assert_eq!(OutputFormat::Pdf.content_type(), "application/pdf");
}

#[test]
fn pages_are_rendered_to_the_format_asked_for() {
    let page = parse_html("<p>x</p>");
    let svg = render_as(&page, OutputFormat::Svg).unwrap();
    assert_eq!(Some(String::from_utf8(svg).unwrap()), render_svg(&page, 1024));
    assert_eq!(&render_as(&page, OutputFormat::Png).unwrap()[1..4], b"PNG");
    assert_eq!(&render_as(&page, OutputFormat::Pdf).unwrap()[..5], b"%PDF-");
}

#[test]
fn drawings_that_are_not_xml_are_refused() {
    let mut page = parse_html("<p>x</p>");
    page.root.children[0].children[1].children[0].text = "a\u{1}b".to_string();
    assert_eq!(render_png(&page, 320).unwrap_err(), RasterError::BadSvg);
    assert_eq!(render_pdf(&page, 320).unwrap_err(), RasterError::BadSvg);
}
