use std::path::PathBuf;

use motoreel::svg::{
    circle_element, escape_text, frame_file_name, line_element, path_element, polyline_element,
    svg_header, text_anchor, text_element,
};
use motoreel::Align;
use motoreel::{hex, Rgb, SvgSink};

const EMPTY_DEFAULT_DOC: &str = "<?xml version=\"1.0\" encoding=\"UTF-8\"?>\n\
<svg xmlns=\"http://www.w3.org/2000/svg\" width=\"1920\" height=\"1080\" viewBox=\"-1.6 -0.9 3.2 1.8\">\n\
<g transform=\"scale(1 -1)\">\n\
</g>\n</svg>\n";

const EMPTY_CUSTOM_HEADER: &str = "<?xml version=\"1.0\" encoding=\"UTF-8\"?>\n\
<svg xmlns=\"http://www.w3.org/2000/svg\" width=\"640\" height=\"480\" viewBox=\"-2 -1 4 2\">\n\
<g transform=\"scale(1 -1)\">\n";

#[test]
fn frame_names_are_zero_padded_five_digits() {
    assert_eq!(frame_file_name(0, "svg"), "frame_00000.svg");
    assert_eq!(frame_file_name(123, "svg"), "frame_00123.svg");
    assert_eq!(frame_file_name(99_999, "ppm"), "frame_99999.ppm");
    assert_eq!(frame_file_name(123_456, "ppm"), "frame_123456.ppm");
}

#[test]
fn ac2_empty_frame_is_the_well_formed_empty_document() {
    let mut sink = SvgSink::new(PathBuf::from("out"));
    sink.begin_frame();
    assert_eq!(sink.end_frame(), EMPTY_DEFAULT_DOC);
    assert_eq!(sink.dir(), &PathBuf::from("out"));
}

#[test]
fn ac2_custom_view_header_and_viewbox() {
    let view = (4.0_f64, 2.0_f64);
    let view_box = format!("{} {} {} {}", -(view.0 / 2.0), -(view.1 / 2.0), view.0, view.1);
    assert_eq!(svg_header((640, 480), &view_box), EMPTY_CUSTOM_HEADER);
    let mut sink = SvgSink::with_view_box(PathBuf::from("o"), (640, 480), &view_box)
        .expect("a non-zero raster");
    sink.begin_frame();
    sink.push_str("<x/>\n");
    assert_eq!(
        sink.end_frame(),
        format!("{EMPTY_CUSTOM_HEADER}<x/>\n</g>\n</svg>\n")
    );
}

#[test]
fn a_new_frame_replaces_the_previous_document() {
    let mut sink = SvgSink::new(PathBuf::from("out"));
    sink.begin_frame();
    sink.push_str("<line/>\n");
    let _ = sink.end_frame();
    sink.begin_frame();
    assert_eq!(sink.end_frame(), EMPTY_DEFAULT_DOC);
}

#[test]
fn colours_are_lowercase_six_digit_hex() {
    assert_eq!(hex(Rgb { r: 0xab, g: 0xcd, b: 0xef }), "#abcdef");
    assert_eq!(hex(Rgb { r: 0xff, g: 0x00, b: 0x11 }), "#ff0011");
    assert_eq!(hex(Rgb::black()), "#000000");
    assert_eq!(hex(Rgb::white()), "#ffffff");
}

#[test]
fn ac5_escaping_maps_exactly_three_characters() {
    let all: String = (0x20u8..=0x7E).map(|b| b as char).collect();
    let want: String = all
        .chars()
        .map(|c| match c {
            '&' => "&amp;".to_string(),
            '<' => "&lt;".to_string(),
            '>' => "&gt;".to_string(),
            other => other.to_string(),
        })
        .collect();
    let got = escape_text(&all);
    assert_eq!(got, want, "exactly three substitutions, and no others");
    assert!(got.contains('"'), "a quote passes verbatim");
    assert!(got.contains('\''), "an apostrophe passes verbatim");
    assert_eq!(escape_text("¿POR QUÉ TANTO?"), "¿POR QUÉ TANTO?");
    assert_eq!(escape_text("a<b&c>d"), "a&lt;b&amp;c&gt;d");
    assert_eq!(escape_text(""), "");
}

#[test]
fn text_anchors_name_the_alignment() {
    assert_eq!(text_anchor(Align::Left), "start");
    assert_eq!(text_anchor(Align::Center), "middle");
    assert_eq!(text_anchor(Align::Right), "end");
}

#[test]
fn ac5_text_template_is_pinned_per_align() {
    for (align, word) in [(Align::Left, "start"), (Align::Center, "middle"), (Align::Right, "end")] {
        let line = text_element("-1.6", "-0.9", "0.08", align, Rgb::white(), "1", "hi");
        assert_eq!(
            line,
            format!(
                "<text transform=\"scale(1 -1)\" x=\"-1.6\" y=\"-0.9\" \
                 font-family=\"monospace\" font-size=\"0.08\" \
                 text-anchor=\"{word}\" xml:space=\"preserve\" \
                 fill=\"#ffffff\" fill-opacity=\"1\">hi</text>\n"
            )
        );
    }
}

#[test]
fn text_element_escapes_its_body_and_nothing_else() {
    let line = text_element("0", "-0", "0.1", Align::Left, Rgb { r: 1, g: 2, b: 3 }, "0.5", "a<b & \"c\">");
    assert!(line.ends_with(">a&lt;b &amp; \"c\"&gt;</text>\n"), "{line}");
    assert!(line.contains(" y=\"-0\" "), "{line}");
    assert!(line.contains("fill=\"#010203\" fill-opacity=\"0.5\""), "{line}");
}

#[test]
fn circle_and_line_templates_are_pinned() {
    let red = Rgb { r: 255, g: 0, b: 0 };
    assert_eq!(
        circle_element("0.5", "-0.25", "0.005", red, "1"),
        "<circle cx=\"0.5\" cy=\"-0.25\" r=\"0.005\" fill=\"#ff0000\" fill-opacity=\"1\"/>\n"
    );
    assert_eq!(
        line_element("0", "0", "1", "0.5", red, "0.01", "0.75"),
        "<line x1=\"0\" y1=\"0\" x2=\"1\" y2=\"0.5\" stroke=\"#ff0000\" \
         stroke-width=\"0.01\" stroke-opacity=\"0.75\" stroke-linecap=\"round\"/>\n"
    );
}

#[test]
fn polyline_points_are_space_separated_pairs() {
    let pts = vec![
        ("0".to_string(), "0".to_string()),
        ("1".to_string(), "0".to_string()),
        ("1".to_string(), "1".to_string()),
    ];
    assert_eq!(
        polyline_element(&pts, Rgb::white(), "0.01", "1"),
        "<polyline points=\"0,0 1,0 1,1\" fill=\"none\" stroke=\"#ffffff\" \
         stroke-width=\"0.01\" stroke-opacity=\"1\" stroke-linecap=\"round\" \
         stroke-linejoin=\"round\"/>\n"
    );
    assert_eq!(
        polyline_element(&Vec::new(), Rgb::white(), "0.01", "1"),
        "<polyline points=\"\" fill=\"none\" stroke=\"#ffffff\" stroke-width=\"0.01\" \
         stroke-opacity=\"1\" stroke-linecap=\"round\" stroke-linejoin=\"round\"/>\n"
    );
}

#[test]
fn path_moves_are_disjoint_and_carry_no_join() {
    let segs = vec![
        ("0".to_string(), "0".to_string(), "1".to_string(), "0".to_string()),
        ("0".to_string(), "1".to_string(), "1".to_string(), "1".to_string()),
    ];
    let el = path_element(&segs, Rgb::black(), "0.02", "1");
    assert_eq!(
        el,
        "<path d=\"M 0,0 L 1,0 M 0,1 L 1,1\" fill=\"none\" stroke=\"#000000\" \
         stroke-width=\"0.02\" stroke-opacity=\"1\" stroke-linecap=\"round\"/>\n"
    );
    assert!(!el.contains("linejoin"));
}

/// Image coordinates are spelled with `f64`'s `Display`, as the sink does.
fn num(v: f64) -> String {
    v.to_string()
}

#[test]
fn ac5_minus_zero_is_emitted_for_the_middle_row() {
    // The middle row's anchor has `y == +0.0`; the element carries `-y`.
    let y = 0.0_f64;
    let line = text_element(&num(0.0), &num(-y), &num(0.08), Align::Left, Rgb::white(), &num(1.0), "m");
    assert!(line.contains(" y=\"-0\" "), "{line}");
}

const TEMPLATE_DOC: &str = "<?xml version=\"1.0\" encoding=\"UTF-8\"?>\n\
<svg xmlns=\"http://www.w3.org/2000/svg\" width=\"1920\" height=\"1080\" viewBox=\"-1.6 -0.9 3.2 1.8\">\n\
<g transform=\"scale(1 -1)\">\n\
<line x1=\"-1.5\" y1=\"0.75\" x2=\"0.5\" y2=\"-0.25\" stroke=\"#abcdef\" stroke-width=\"0.25\" stroke-opacity=\"1\" stroke-linecap=\"round\"/>\n\
<circle cx=\"0.3\" cy=\"0.5\" r=\"0.1\" fill=\"#ff0011\" fill-opacity=\"0.25\"/>\n\
<polyline points=\"0,0 1,0.5 -1,-0.5\" fill=\"none\" stroke=\"#000000\" stroke-width=\"0.03125\" stroke-opacity=\"0.5\" stroke-linecap=\"round\" stroke-linejoin=\"round\"/>\n\
</g>\n</svg>\n";

#[test]
fn ac2_primitive_templates_are_pinned() {
    let mut sink = SvgSink::new(PathBuf::from("out"));
    sink.begin_frame();
    let blue = Rgb { r: 0xab, g: 0xcd, b: 0xef };
    sink.push_str(&line_element(
        &num(-1.5),
        &num(0.75),
        &num(0.5),
        &num(-0.25),
        blue,
        &num(0.25),
        &num(1.0),
    ));
    let red = Rgb { r: 0xff, g: 0x00, b: 0x11 };
    sink.push_str(&circle_element(&num(0.3), &num(0.5), &num(0.2 / 2.0), red, &num(0.25)));
    let points: Vec<(String, String)> = [(0.0, 0.0), (1.0, 0.5), (-1.0, -0.5)]
        .iter()
        .map(|&(x, y): &(f64, f64)| (num(x), num(y)))
        .collect();
    sink.push_str(&polyline_element(&points, Rgb { r: 0, g: 0, b: 0 }, &num(0.03125), &num(0.5)));
    assert_eq!(sink.end_frame(), TEMPLATE_DOC);
}

const EDGES_TEMPLATE_DOC: &str = "<?xml version=\"1.0\" encoding=\"UTF-8\"?>\n\
<svg xmlns=\"http://www.w3.org/2000/svg\" width=\"1920\" height=\"1080\" viewBox=\"-1.6 -0.9 3.2 1.8\">\n\
<g transform=\"scale(1 -1)\">\n\
<path d=\"M -1.5,0.75 L 0.5,-0.25 M 0,0 L 1,0.5\" fill=\"none\" stroke=\"#abcdef\" stroke-width=\"0.25\" stroke-opacity=\"1\" stroke-linecap=\"round\"/>\n\
<path d=\"M 0.3,0.5 L -1,-0.5\" fill=\"none\" stroke=\"#ff0011\" stroke-width=\"0.03125\" stroke-opacity=\"0.25\" stroke-linecap=\"round\"/>\n\
<path d=\"\" fill=\"none\" stroke=\"#000000\" stroke-width=\"0.1\" stroke-opacity=\"0.5\" stroke-linecap=\"round\"/>\n\
</g>\n</svg>\n";

fn spelled(segments: &[((f64, f64), (f64, f64))]) -> Vec<(String, String, String, String)> {
    segments
        .iter()
        .map(|&((ax, ay), (bx, by))| (num(ax), num(ay), num(bx), num(by)))
        .collect()
}

#[test]
fn ac6_edge_template_matches_its_pinned_bytes() {
    let mut sink = SvgSink::new(PathBuf::from("out"));
    sink.begin_frame();
    let first = spelled(&[((-1.5, 0.75), (0.5, -0.25)), ((0.0, 0.0), (1.0, 0.5))]);
    sink.push_str(&path_element(&first, Rgb { r: 0xab, g: 0xcd, b: 0xef }, &num(0.25), &num(1.0)));
    let second = spelled(&[((0.3, 0.5), (-1.0, -0.5))]);
    sink.push_str(&path_element(&second, Rgb { r: 0xff, g: 0x00, b: 0x11 }, &num(0.03125), &num(0.25)));
    sink.push_str(&path_element(&Vec::new(), Rgb { r: 0, g: 0, b: 0 }, &num(0.1), &num(0.5)));
    let doc = sink.end_frame().to_string();
    assert_eq!(doc, EDGES_TEMPLATE_DOC);
    assert!(!doc.contains("stroke-linejoin"), "disjoint moves have no joins");
}

#[test]
fn a_zero_raster_dimension_is_refused() {
    assert!(SvgSink::with_view_box(PathBuf::from("o"), (0, 480), "-2 -1 4 2").is_none());
    assert!(SvgSink::with_view_box(PathBuf::from("o"), (640, 0), "-2 -1 4 2").is_none());
    assert!(SvgSink::with_view_box(PathBuf::from("o"), (1, 1), "-2 -1 4 2").is_some());
}
