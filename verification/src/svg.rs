//! The text side of both file sinks: frame file names, and the SVG sink's
//! pinned document header and per-frame buffer.
use std::path::PathBuf;

use vstd::prelude::*;

use crate::prim::{hex, hex_color, Rgb};
use crate::typeset::Align;
use crate::text::{
    decimal, law_zero_padded_order, lemma_lex_frame, lex_less, power, push_char, push_decimal,
    push_zero_padded, zero_padded,
};

verus! {

#[verifier::external_type_specification]
#[verifier::external_body]
pub struct ExPathBuf(PathBuf);

/// `frame_%05d.{ext}`: the index zero-padded to five digits.
pub open spec fn frame_name(index: nat, ext: Seq<char>) -> Seq<char> {
    "frame_"@ + zero_padded(index, 5) + seq!['.'] + ext
}

/// The file name of frame `index`: `frame_` and the index zero-padded to
/// five digits, then `.` and `ext`. Zero padding makes the lexicographic
/// order of the names the frame order (up to 99 999 frames).
pub fn frame_file_name(index: usize, ext: &str) -> (name: String)
    ensures
        name@ == frame_name(index as nat, ext@),
{
    let mut name = String::from_str("frame_");
    push_zero_padded(&mut name, index as u64, 5);
    push_char(&mut name, '.');
    name.append(ext);
    assert(name@ =~= frame_name(index as nat, ext@));
    name
}

/// Below 100 000 frames, sorting frame file names as text puts the frames
/// in order: names compare lexicographically exactly as their indices do.
pub proof fn law_frame_names_sort_in_frame_order(a: nat, b: nat, ext: Seq<char>)
    requires
        a < 100000,
        b < 100000,
    ensures
        lex_less(frame_name(a, ext), frame_name(b, ext)) == (a < b),
{
    reveal_with_fuel(power, 6);
    assert(power(10, 5) == 100000);
    law_zero_padded_order(a, b, 5);
    law_zero_padded_order(b, a, 5);
    let q = seq!['.'] + ext;
    lemma_lex_frame("frame_"@, zero_padded(a, 5), zero_padded(b, 5), q);
    assert(frame_name(a, ext) =~= "frame_"@ + zero_padded(a, 5) + q);
    assert(frame_name(b, ext) =~= "frame_"@ + zero_padded(b, 5) + q);
}

/// The escape of one character in SVG text content: `&`, `<` and `>`
/// become entities; every other character, quotes included, is itself.
pub open spec fn escape_char(c: char) -> Seq<char> {
    if c == '&' {
        "&amp;"@
    } else if c == '<' {
        "&lt;"@
    } else if c == '>' {
        "&gt;"@
    } else {
        seq![c]
    }
}

/// `s` with each character escaped for SVG text content.
pub open spec fn escaped(s: Seq<char>) -> Seq<char>
    decreases s.len(),
{
    if s.len() == 0 {
        seq![]
    } else {
        escaped(s.drop_last()) + escape_char(s.last())
    }
}

/// Escape text for an SVG `<text>` element: exactly `&`, `<` and `>` are
/// replaced, by `&amp;`, `&lt;` and `&gt;`.
pub fn escape_text(s: &str) -> (out: String)
    ensures
        out@ == escaped(s@),
{
    let n = s.unicode_len();
    let mut out = String::new();
    let mut i: usize = 0;
    while i < n
        invariant
            n == s@.len(),
            i <= n,
            out@ == escaped(s@.take(i as int)),
        decreases n - i,
    {
        let c = s.get_char(i);
        if c == '&' {
            out.append("&amp;");
        } else if c == '<' {
            out.append("&lt;");
        } else if c == '>' {
            out.append("&gt;");
        } else {
            push_char(&mut out, c);
        }
        assert(s@.take(i + 1).drop_last() =~= s@.take(i as int));
        i = i + 1;
        assert(out@ =~= escaped(s@.take(i as int)));
    }
    assert(s@.take(n as int) =~= s@);
    out
}

/// Escaped text holds no `<` or `>`, so it can never open or close an
/// element; text without `&`, `<` or `>` is written unchanged.
pub proof fn law_escaping_maps_exactly_three_characters(s: Seq<char>)
    ensures
        forall|i: int| 0 <= i < escaped(s).len() ==> #[trigger] escaped(s)[i] != '<' && escaped(s)[i] != '>',
        (forall|i: int| 0 <= i < s.len() ==> #[trigger] s[i] != '&' && s[i] != '<' && s[i] != '>')
            ==> escaped(s) == s,
    decreases s.len(),
{
    reveal_strlit("&amp;");
    reveal_strlit("&lt;");
    reveal_strlit("&gt;");
    if s.len() > 0 {
        law_escaping_maps_exactly_three_characters(s.drop_last());
        let p = escaped(s.drop_last());
        let e = escape_char(s.last());
        assert forall|i: int| 0 <= i < escaped(s).len() implies #[trigger] escaped(s)[i] != '<'
            && escaped(s)[i] != '>' by {
            if i < p.len() {
                assert(escaped(s)[i] == p[i]);
            } else {
                assert(escaped(s)[i] == e[i - p.len()]);
            }
        }
        if forall|i: int| 0 <= i < s.len() ==> #[trigger] s[i] != '&' && s[i] != '<' && s[i] != '>' {
            assert(forall|i: int| 0 <= i < s.drop_last().len() ==> #[trigger] s.drop_last()[i] == s[i]);
            assert(s.drop_last().push(s.last()) =~= s);
            assert(escaped(s) =~= s);
        }
    } else {
        assert(escaped(s) =~= s);
    }
}

/// The `text-anchor` keyword that places a run as `align` does.
pub open spec fn anchor_keyword(align: Align) -> Seq<char> {
    match align {
        Align::Left => "start"@,
        Align::Center => "middle"@,
        Align::Right => "end"@,
    }
}

/// The `text-anchor` keyword for an alignment.
pub fn text_anchor(align: Align) -> (word: &'static str)
    ensures
        word@ == anchor_keyword(align),
{
    match align {
        Align::Left => "start",
        Align::Center => "middle",
        Align::Right => "end",
    }
}

/// The document prologue: XML declaration, the `<svg>` element carrying
/// the raster hint `size` and the `view_box` text, and the group that
/// flips image space (y up) into SVG space (y down). Each line ends in
/// `\n`.
pub open spec fn svg_header_text(size: (u32, u32), view_box: Seq<char>) -> Seq<char> {
    "<?xml version=\"1.0\" encoding=\"UTF-8\"?>\n<svg xmlns=\"http://www.w3.org/2000/svg\" width=\""@
        + decimal(size.0 as nat) + "\" height=\""@ + decimal(size.1 as nat) + "\" viewBox=\""@
        + view_box + "\">\n<g transform=\"scale(1 -1)\">\n"@
}

/// The closing tags every frame document ends with.
pub open spec fn svg_footer_text() -> Seq<char> {
    "</g>\n</svg>\n"@
}

/// The viewBox of the default 3.2 × 1.8 window centred on the origin,
/// `(−w/2, −h/2, w, h)` in shortest round-trip decimal.
pub open spec fn default_view_box() -> Seq<char> {
    "-1.6 -0.9 3.2 1.8"@
}

/// The document header for a raster of `size` pixels over the view window
/// whose `viewBox` text is `view_box`.
pub fn svg_header(size: (u32, u32), view_box: &str) -> (header: String)
    ensures
        header@ == svg_header_text(size, view_box@),
{
    let mut h = String::from_str(
        "<?xml version=\"1.0\" encoding=\"UTF-8\"?>\n<svg xmlns=\"http://www.w3.org/2000/svg\" width=\"",
    );
    push_decimal(&mut h, size.0 as u64);
    h.append("\" height=\"");
    push_decimal(&mut h, size.1 as u64);
    h.append("\" viewBox=\"");
    h.append(view_box);
    h.append("\">\n<g transform=\"scale(1 -1)\">\n");
    assert(h@ =~= svg_header_text(size, view_box@));
    h
}

/// The stroke attributes shared by lines, polylines and paths: colour,
/// width, opacity, and round caps, in that order.
pub open spec fn stroke_attrs(color: Rgb, width: Seq<char>, alpha: Seq<char>) -> Seq<char> {
    " stroke=\""@ + hex_color(color) + "\" stroke-width=\""@ + width + "\" stroke-opacity=\""@
        + alpha + "\" stroke-linecap=\"round\""@
}

/// A dot: a filled circle of radius `r` at `(cx, cy)`.
pub open spec fn circle_text(
    cx: Seq<char>,
    cy: Seq<char>,
    r: Seq<char>,
    color: Rgb,
    alpha: Seq<char>,
) -> Seq<char> {
    "<circle cx=\""@ + cx + "\" cy=\""@ + cy + "\" r=\""@ + r + "\" fill=\""@ + hex_color(color)
        + "\" fill-opacity=\""@ + alpha + "\"/>\n"@
}

/// A straight stroke from `(x1, y1)` to `(x2, y2)`.
pub open spec fn line_text(
    x1: Seq<char>,
    y1: Seq<char>,
    x2: Seq<char>,
    y2: Seq<char>,
    color: Rgb,
    width: Seq<char>,
    alpha: Seq<char>,
) -> Seq<char> {
    "<line x1=\""@ + x1 + "\" y1=\""@ + y1 + "\" x2=\""@ + x2 + "\" y2=\""@ + y2 + "\""@
        + stroke_attrs(color, width, alpha) + "/>\n"@
}

/// Points as `x,y` pairs separated by single spaces.
pub open spec fn point_list(points: Seq<(String, String)>) -> Seq<char>
    decreases points.len(),
{
    if points.len() == 0 {
        seq![]
    } else {
        let last = points.last();
        let pair = last.0@ + seq![','] + last.1@;
        if points.len() == 1 {
            pair
        } else {
            point_list(points.drop_last()) + seq![' '] + pair
        }
    }
}

/// An open polyline through `points` in order, unfilled, with round caps
/// and joins.
pub open spec fn polyline_text(
    points: Seq<(String, String)>,
    color: Rgb,
    width: Seq<char>,
    alpha: Seq<char>,
) -> Seq<char> {
    "<polyline points=\""@ + point_list(points) + "\" fill=\"none\""@ + stroke_attrs(
        color,
        width,
        alpha,
    ) + " stroke-linejoin=\"round\"/>\n"@
}

/// Disjoint strokes as `M x,y L x,y` moves separated by single spaces:
/// each entry holds the four coordinates `(x1, y1, x2, y2)`.
pub open spec fn move_list(segments: Seq<(String, String, String, String)>) -> Seq<char>
    decreases segments.len(),
{
    if segments.len() == 0 {
        seq![]
    } else {
        let s = segments.last();
        let mv = "M "@ + s.0@ + seq![','] + s.1@ + " L "@ + s.2@ + seq![','] + s.3@;
        if segments.len() == 1 {
            mv
        } else {
            move_list(segments.drop_last()) + seq![' '] + mv
        }
    }
}

/// A wireframe: one unfilled path of disjoint strokes. Its strokes never
/// meet, so it carries no join attribute.
pub open spec fn path_text(
    segments: Seq<(String, String, String, String)>,
    color: Rgb,
    width: Seq<char>,
    alpha: Seq<char>,
) -> Seq<char> {
    "<path d=\""@ + move_list(segments) + "\" fill=\"none\""@ + stroke_attrs(color, width, alpha)
        + "/>\n"@
}

/// A text run with its baseline anchor at `(x, y)` in the flipped group:
/// the element flips itself back so the run reads upright, which is why
/// the caller hands it the negated image `y`.
pub open spec fn text_element_text(
    x: Seq<char>,
    y: Seq<char>,
    size: Seq<char>,
    align: Align,
    color: Rgb,
    alpha: Seq<char>,
    body: Seq<char>,
) -> Seq<char> {
    "<text transform=\"scale(1 -1)\" x=\""@ + x + "\" y=\""@ + y
        + "\" font-family=\"monospace\" font-size=\""@ + size + "\" text-anchor=\""@
        + anchor_keyword(align) + "\" xml:space=\"preserve\" fill=\""@ + hex_color(color)
        + "\" fill-opacity=\""@ + alpha + "\">"@ + escaped(body) + "</text>\n"@
}

/// Append the stroke attributes.
fn push_stroke_attrs(out: &mut String, color: Rgb, width: &str, alpha: &str)
    ensures
        final(out)@ == old(out)@ + stroke_attrs(color, width@, alpha@),
{
    out.append(" stroke=\"");
    let h = hex(color);
    out.append(h.as_str());
    out.append("\" stroke-width=\"");
    out.append(width);
    out.append("\" stroke-opacity=\"");
    out.append(alpha);
    out.append("\" stroke-linecap=\"round\"");
    assert(out@ =~= old(out)@ + stroke_attrs(color, width@, alpha@));
}

/// The element for a dot, from its already-spelled numbers.
pub fn circle_element(cx: &str, cy: &str, r: &str, color: Rgb, alpha: &str) -> (out: String)
    ensures
        out@ == circle_text(cx@, cy@, r@, color, alpha@),
{
    let mut out = String::from_str("<circle cx=\"");
    out.append(cx);
    out.append("\" cy=\"");
    out.append(cy);
    out.append("\" r=\"");
    out.append(r);
    out.append("\" fill=\"");
    let h = hex(color);
    out.append(h.as_str());
    out.append("\" fill-opacity=\"");
    out.append(alpha);
    out.append("\"/>\n");
    assert(out@ =~= circle_text(cx@, cy@, r@, color, alpha@));
    out
}

/// The element for a straight stroke, from its already-spelled numbers.
pub fn line_element(
    x1: &str,
    y1: &str,
    x2: &str,
    y2: &str,
    color: Rgb,
    width: &str,
    alpha: &str,
) -> (out: String)
    ensures
        out@ == line_text(x1@, y1@, x2@, y2@, color, width@, alpha@),
{
    let mut out = String::from_str("<line x1=\"");
    out.append(x1);
    out.append("\" y1=\"");
    out.append(y1);
    out.append("\" x2=\"");
    out.append(x2);
    out.append("\" y2=\"");
    out.append(y2);
    out.append("\"");
    push_stroke_attrs(&mut out, color, width, alpha);
    out.append("/>\n");
    assert(out@ =~= line_text(x1@, y1@, x2@, y2@, color, width@, alpha@));
    out
}

/// The element for an open polyline, from its already-spelled points.
pub fn polyline_element(points: &Vec<(String, String)>, color: Rgb, width: &str, alpha: &str) -> (out:
    String)
    ensures
        out@ == polyline_text(points@, color, width@, alpha@),
{
    let mut out = String::from_str("<polyline points=\"");
    let ghost start = out@;
    let n = points.len();
    let mut i: usize = 0;
    while i < n
        invariant
            n == points@.len(),
            i <= n,
            out@ == start + point_list(points@.take(i as int)),
        decreases n - i,
    {
        if i > 0 {
            push_char(&mut out, ' ');
        }
        out.append(points[i].0.as_str());
        push_char(&mut out, ',');
        out.append(points[i].1.as_str());
        proof {
            let t = points@.take(i + 1);
            assert(t.drop_last() =~= points@.take(i as int));
            assert(t.last() == points@[i as int]);
        }
        i = i + 1;
        assert(out@ =~= start + point_list(points@.take(i as int)));
    }
    assert(points@.take(n as int) =~= points@);
    out.append("\" fill=\"none\"");
    push_stroke_attrs(&mut out, color, width, alpha);
    out.append(" stroke-linejoin=\"round\"/>\n");
    assert(out@ =~= polyline_text(points@, color, width@, alpha@));
    out
}

/// The element for a wireframe, from its already-spelled segments.
pub fn path_element(
    segments: &Vec<(String, String, String, String)>,
    color: Rgb,
    width: &str,
    alpha: &str,
) -> (out: String)
    ensures
        out@ == path_text(segments@, color, width@, alpha@),
{
    let mut out = String::from_str("<path d=\"");
    let ghost start = out@;
    let n = segments.len();
    let mut i: usize = 0;
    while i < n
        invariant
            n == segments@.len(),
            i <= n,
            out@ == start + move_list(segments@.take(i as int)),
        decreases n - i,
    {
        if i > 0 {
            push_char(&mut out, ' ');
        }
        out.append("M ");
        out.append(segments[i].0.as_str());
        push_char(&mut out, ',');
        out.append(segments[i].1.as_str());
        out.append(" L ");
        out.append(segments[i].2.as_str());
        push_char(&mut out, ',');
        out.append(segments[i].3.as_str());
        proof {
            let t = segments@.take(i + 1);
            assert(t.drop_last() =~= segments@.take(i as int));
            assert(t.last() == segments@[i as int]);
        }
        i = i + 1;
        assert(out@ =~= start + move_list(segments@.take(i as int)));
    }
    assert(segments@.take(n as int) =~= segments@);
    out.append("\" fill=\"none\"");
    push_stroke_attrs(&mut out, color, width, alpha);
    out.append("/>\n");
    assert(out@ =~= path_text(segments@, color, width@, alpha@));
    out
}

/// The element for a text run, from its already-spelled numbers; the run
/// itself is escaped here.
pub fn text_element(
    x: &str,
    y: &str,
    size: &str,
    align: Align,
    color: Rgb,
    alpha: &str,
    body: &str,
) -> (out: String)
    ensures
        out@ == text_element_text(x@, y@, size@, align, color, alpha@, body@),
{
    let mut out = String::from_str("<text transform=\"scale(1 -1)\" x=\"");
    out.append(x);
    out.append("\" y=\"");
    out.append(y);
    out.append("\" font-family=\"monospace\" font-size=\"");
    out.append(size);
    out.append("\" text-anchor=\"");
    out.append(text_anchor(align));
    out.append("\" xml:space=\"preserve\" fill=\"");
    let h = hex(color);
    out.append(h.as_str());
    out.append("\" fill-opacity=\"");
    out.append(alpha);
    out.append("\">");
    let e = escape_text(body);
    out.append(e.as_str());
    out.append("</text>\n");
    assert(out@ =~= text_element_text(x@, y@, size@, align, color, alpha@, body@));
    out
}

/// Writes one `frame_%05d.svg` per frame into a directory.
///
/// The sink owns the directory path, the header fixed at construction, and
/// a reusable document buffer. A frame document is the header, one element
/// per primitive, and the footer.
pub struct SvgSink {
    dir: PathBuf,
    header: String,
    buf: String,
}

impl SvgSink {
    /// The header every frame document starts with.
    pub closed spec fn header_text(&self) -> Seq<char> {
        self.header@
    }

    /// The frame document written so far.
    pub closed spec fn document(&self) -> Seq<char> {
        self.buf@
    }

    /// The output directory.
    pub closed spec fn directory(&self) -> PathBuf {
        self.dir
    }

    /// A sink into `dir` with the 1920×1080 raster hint over the default
    /// 3.2 × 1.8 centred view window. The directory is the caller's to
    /// create.
    pub fn new(dir: PathBuf) -> (sink: SvgSink)
        ensures
            sink.header_text() == svg_header_text((1920, 1080), default_view_box()),
            sink.document() == Seq::<char>::empty(),
            sink.directory() == dir,
    {
        SvgSink { dir, header: svg_header((1920, 1080), "-1.6 -0.9 3.2 1.8"), buf: String::new() }
    }

    /// A sink into `dir` with an explicit raster size and the `viewBox`
    /// text of its centred view window; `None` when either raster
    /// dimension is zero.
    pub fn with_view_box(dir: PathBuf, size: (u32, u32), view_box: &str) -> (r: Option<SvgSink>)
        ensures
            (size.0 == 0 || size.1 == 0) <==> r is None,
            r matches Some(sink) ==> {
                &&& sink.header_text() == svg_header_text(size, view_box@)
                &&& sink.document() == Seq::<char>::empty()
                &&& sink.directory() == dir
            },
    {
        if size.0 == 0 || size.1 == 0 {
            return None;
        }
        Some(SvgSink { dir, header: svg_header(size, view_box), buf: String::new() })
    }

    /// The output directory.
    pub fn dir(&self) -> (d: &PathBuf)
        ensures
            *d == self.directory(),
    {
        &self.dir
    }

    /// Start a frame document: the buffer becomes exactly the header.
    pub fn begin_frame(&mut self)
        ensures
            final(self).document() == old(self).header_text(),
            final(self).header_text() == old(self).header_text(),
            final(self).directory() == old(self).directory(),
    {
        self.buf = self.header.clone();
    }

    /// Append element text to the frame document.
    pub fn push_str(&mut self, text: &str)
        ensures
            final(self).document() == old(self).document() + text@,
            final(self).header_text() == old(self).header_text(),
            final(self).directory() == old(self).directory(),
    {
        self.buf.append(text);
    }

    /// Close the frame document with the footer and return it.
    pub fn end_frame(&mut self) -> (doc: &str)
        ensures
            final(self).document() == old(self).document() + svg_footer_text(),
            doc@ == final(self).document(),
            final(self).header_text() == old(self).header_text(),
            final(self).directory() == old(self).directory(),
    {
        self.buf.append("</g>\n</svg>\n");
        self.buf.as_str()
    }
}

} // verus!
