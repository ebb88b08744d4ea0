//! Faces, the face registry, and the one guarantee that matters: a
//! character a face cannot draw is an **error** naming the character and
//! the face, never a silent `'?'`.
use ab_glyph::Font;
use ab_glyph::{FontVec, InvalidFont};

use vstd::prelude::*;

use crate::text::{decimal, hex_upper_padded, push_decimal, push_hex_upper_padded};

verus! {

#[verifier::external_type_specification]
#[verifier::external_body]
pub struct ExFontVec(FontVec);

#[verifier::external_type_specification]
#[verifier::external_body]
pub struct ExInvalidFont(InvalidFont);

/// Whether `FontVec::try_from_vec` accepts `data`: a parse of the font
/// tables at face index 0, a function of the bytes alone.
pub uninterp spec fn is_font_data(data: Seq<u8>) -> bool;

/// The character map of the font `FontVec::try_from_vec` parses from
/// `data`: the face's `cmap`, read from the font tables at face index 0, a
/// function of the bytes alone.
pub uninterp spec fn parsed_char_map(data: Seq<u8>) -> Map<char, u16>;

/// `ab_glyph::FontVec::try_from_vec`: parses owned font bytes. Claimed:
/// it succeeds exactly on the byte sequences named by [`is_font_data`],
/// and the font it returns holds the character map those bytes define.
#[verifier::external_body]
fn font_from_bytes(data: Vec<u8>) -> (r: Result<FontVec, InvalidFont>)
    ensures
        r is Ok <==> is_font_data(data@),
        r matches Ok(f) ==> char_map(f) == parsed_char_map(data@),
{
    FontVec::try_from_vec(data)
}

/// `<FontVec as ab_glyph::Font>::units_per_em`: whether the face reports
/// a units-per-em. Claimed: always, as this version's implementation
/// returns `Some` of the head table's value unconditionally.
#[verifier::external_body]
fn has_units_per_em(font: &FontVec) -> (r: bool)
    ensures
        r,
{
    match font.units_per_em() {
        Some(_) => true,
        None => false,
    }
}

/// The character map a loaded font holds: each character its `cmap`
/// assigns a glyph, with that glyph's id.
pub uninterp spec fn char_map(font: FontVec) -> Map<char, u16>;

/// `<FontVec as ab_glyph::Font>::glyph_id`: the glyph the font's character
/// map assigns to `ch`, `0` (`.notdef`) when it assigns none. Claimed: the
/// result is read from [`char_map`] of the font.
#[verifier::external_body]
fn glyph_index(font: &FontVec, ch: char) -> (r: u16)
    ensures
        r == (if char_map(*font).contains_key(ch) {
            char_map(*font)[ch]
        } else {
            0
        }),
{
    font.glyph_id(ch).0
}

/// `{:?}` of a string: the quoted, escaped spelling std's `Debug` gives.
pub uninterp spec fn debug_quoted(s: Seq<char>) -> Seq<char>;

/// `<str as Debug>::fmt`, through `format!`. Claimed: the result is the
/// name [`debug_quoted`] applied to the string.
#[verifier::external_body]
fn quote_str(s: &str) -> (r: String)
    ensures
        r@ == debug_quoted(s@),
{
    format!("{s:?}")
}

/// `{:?}` of a character: the single-quoted, escaped spelling std's
/// `Debug` gives.
pub uninterp spec fn debug_quoted_char(c: char) -> Seq<char>;

/// `<char as Debug>::fmt`, through `format!`. Claimed: the result is the
/// name [`debug_quoted_char`] applied to the character.
#[verifier::external_body]
fn quote_char(c: char) -> (r: String)
    ensures
        r@ == debug_quoted_char(c),
{
    format!("{c:?}")
}

/// Which loaded face a glyph came from: an index into the caller's
/// registry.
#[derive(Clone, Copy, Debug, PartialEq, Eq, PartialOrd, Ord, Hash, Structural)]
pub struct FaceId(pub usize);

/// Why a face or a run could not be set.
#[derive(Clone, Debug, PartialEq, Eq)]
pub enum Error {
    /// The bytes handed to [`Face::load`] are not a font this crate reads.
    NotAFont,
    /// The face reports no units-per-em, so nothing can be scaled by it.
    NoUnitsPerEm,
    /// A character is not in the face's character map: the error names the
    /// character and the face instead of drawing a question mark.
    Missing {
        /// The character with no glyph.
        ch: char,
        /// The face that was asked for it.
        face: FaceId,
        /// That face's name, for an error a human can act on.
        name: String,
    },
    /// A [`FaceId`] with no face behind it in the registry.
    NoSuchFace(FaceId),
}

/// The human-readable text of an error.
pub open spec fn error_text(e: Error) -> Seq<char> {
    match e {
        Error::NotAFont => "not a font this crate can read"@,
        Error::NoUnitsPerEm => "the face reports no units-per-em"@,
        Error::Missing { ch, name, .. } => "the face "@ + debug_quoted(name@) + " has no glyph for "@
            + debug_quoted_char(ch) + " (U+"@ + hex_upper_padded(ch as nat, 4)
            + "); this is an error, not a '?'"@,
        Error::NoSuchFace(id) => "no face registered at index "@ + decimal(id.0 as nat),
    }
}

impl Error {
    /// The message a human reads. For a missing glyph it names the face,
    /// the character, and the character's code point as `U+XXXX`.
    pub fn to_string(&self) -> (s: String)
        ensures
            s@ == error_text(*self),
    {
        match self {
            Error::NotAFont => String::from_str("not a font this crate can read"),
            Error::NoUnitsPerEm => String::from_str("the face reports no units-per-em"),
            Error::Missing { ch, name, .. } => {
                let mut s = String::from_str("the face ");
                let quoted = quote_str(name.as_str());
                s.append(quoted.as_str());
                s.append(" has no glyph for ");
                let c = quote_char(*ch);
                s.append(c.as_str());
                s.append(" (U+");
                push_hex_upper_padded(&mut s, *ch as u32, 4);
                s.append("); this is an error, not a '?'");
                s
            },
            Error::NoSuchFace(id) => {
                let mut s = String::from_str("no face registered at index ");
                push_decimal(&mut s, id.0 as u64);
                s
            },
        }
    }
}

/// The indices `0..n`.
pub open spec fn indices(n: nat) -> Seq<int> {
    Seq::new(n, |i: int| i)
}

/// Position `i` holds a character the face cannot draw that no earlier
/// uncovered position already named.
pub open spec fn first_uncovered_at(text: Seq<char>, covered: Seq<bool>, i: int) -> bool {
    &&& !covered[i]
    &&& forall|j: int| 0 <= j < i && !covered[j] ==> text[j] != text[i]
}

/// The characters of `text` whose `covered` flag is false, in order of
/// first appearance, each once.
pub open spec fn uncovered_chars(text: Seq<char>, covered: Seq<bool>) -> Seq<char> {
    indices(text.len()).filter(|i: int| first_uncovered_at(text, covered, i)).map_values(
        |i: int| text[i],
    )
}

/// Whether some position before `i` is uncovered and holds `text[i]`.
fn seen_uncovered(text: &Vec<char>, covered: &Vec<bool>, i: usize) -> (r: bool)
    requires
        text@.len() == covered@.len(),
        i < text@.len(),
    ensures
        r == exists|j: int| 0 <= j < i && !covered@[j] && text@[j] == text@[i as int],
{
    let mut j: usize = 0;
    while j < i
        invariant
            text@.len() == covered@.len(),
            i < text@.len(),
            j <= i,
            forall|k: int| 0 <= k < j ==> !(!covered@[k] && text@[k] == text@[i as int]),
        decreases i - j,
    {
        if !covered[j] && text[j] == text[i] {
            return true;
        }
        j = j + 1;
    }
    false
}

/// The characters of `text` a face cannot draw, given for each position
/// whether the face covers it: in order, without duplicates.
pub fn missing_chars(text: &Vec<char>, covered: &Vec<bool>) -> (out: Vec<char>)
    requires
        text@.len() == covered@.len(),
    ensures
        out@ == uncovered_chars(text@, covered@),
{
    let n = text.len();
    let mut out: Vec<char> = Vec::new();
    let ghost pred = |i: int| first_uncovered_at(text@, covered@, i);
    let ghost f = |i: int| text@[i];
    let mut i: usize = 0;
    while i < n
        invariant
            n == text@.len(),
            n == covered@.len(),
            i <= n,
            pred == (|i: int| first_uncovered_at(text@, covered@, i)),
            f == (|i: int| text@[i]),
            out@ == indices(i as nat).filter(pred).map_values(f),
        decreases n - i,
    {
        let first = !covered[i] && !seen_uncovered(text, covered, i);
        proof {
            reveal_with_fuel(Seq::filter, 1);
            assert(indices((i + 1) as nat).drop_last() =~= indices(i as nat));
            assert(first == pred(i as int));
        }
        if first {
            out.push(text[i]);
        }
        proof {
            let prev = indices(i as nat).filter(pred);
            if first {
                assert(indices((i + 1) as nat).filter(pred) == prev.push(i as int));
                assert(prev.push(i as int).map_values(f) =~= prev.map_values(f).push(text@[i as int]));
            } else {
                assert(indices((i + 1) as nat).filter(pred) == prev);
            }
        }
        i = i + 1;
    }
    assert(indices(n as nat) =~= indices(text@.len()));
    out
}

/// The first position whose `covered` flag is false, if any.
pub fn first_uncovered(covered: &Vec<bool>) -> (r: Option<usize>)
    ensures
        r matches Some(i) ==> i < covered@.len() && !covered@[i as int] && forall|j: int|
            0 <= j < i ==> covered@[j],
        r is None ==> forall|j: int| 0 <= j < covered@.len() ==> covered@[j],
{
    let mut i: usize = 0;
    while i < covered.len()
        invariant
            i <= covered@.len(),
            forall|j: int| 0 <= j < i ==> covered@[j],
        decreases covered@.len() - i,
    {
        if !covered[i] {
            return Some(i);
        }
        i = i + 1;
    }
    None
}

/// The filtered indices are strictly increasing, below `n`, and each
/// satisfies the predicate; every index below `n` that satisfies it is
/// among them.
proof fn lemma_filtered_indices(n: nat, pred: spec_fn(int) -> bool)
    ensures
        forall|a: int, b: int|
            0 <= a < b < indices(n).filter(pred).len() ==> #[trigger] indices(n).filter(pred)[a]
                < #[trigger] indices(n).filter(pred)[b],
        forall|a: int|
            0 <= a < indices(n).filter(pred).len() ==> 0 <= #[trigger] indices(n).filter(pred)[a]
                < n && pred(indices(n).filter(pred)[a]),
        forall|i: int| 0 <= i < n && pred(i) ==> #[trigger] indices(n).filter(pred).contains(i),
    decreases n,
{
    reveal_with_fuel(Seq::filter, 1);
    if n > 0 {
        let m = (n - 1) as nat;
        lemma_filtered_indices(m, pred);
        assert(indices(n).drop_last() =~= indices(m));
        let prev = indices(m).filter(pred);
        if pred(m as int) {
            assert(indices(n).filter(pred) == prev.push(m as int));
            assert forall|i: int| 0 <= i < n && pred(i) implies #[trigger] indices(n).filter(
                pred,
            ).contains(i) by {
                if i < m {
                    assert(prev.contains(i));
                    let k = choose|k: int| 0 <= k < prev.len() && prev[k] == i;
                    assert(prev.push(m as int)[k] == i);
                } else {
                    assert(prev.push(m as int)[prev.len() as int] == i);
                }
            }
        } else {
            assert(indices(n).filter(pred) == prev);
            assert forall|i: int| 0 <= i < n && pred(i) implies #[trigger] indices(n).filter(
                pred,
            ).contains(i) by {
                assert(i < m);
                assert(prev.contains(i));
            }
        }
    }
}

/// The uncovered characters of a run are reported once each, and a
/// character is reported exactly when some position holding it is
/// uncovered.
pub proof fn law_missing_chars_are_exact(text: Seq<char>, covered: Seq<bool>, c: char)
    requires
        text.len() == covered.len(),
    ensures
        uncovered_chars(text, covered).no_duplicates(),
        uncovered_chars(text, covered).contains(c) <==> exists|i: int|
            0 <= i < text.len() && !covered[i] && text[i] == c,
{
    let pred = |i: int| first_uncovered_at(text, covered, i);
    let f = |i: int| text[i];
    let idx = indices(text.len()).filter(pred);
    let out = uncovered_chars(text, covered);
    lemma_filtered_indices(text.len(), pred);
    assert(out == idx.map_values(f));
    assert forall|a: int, b: int| 0 <= a < out.len() && 0 <= b < out.len() && a != b implies out[a]
        != out[b] by {
        if a < b {
            assert(idx[a] < idx[b]);
            assert(pred(idx[b]));
        } else {
            assert(idx[b] < idx[a]);
            assert(pred(idx[a]));
        }
    }
    if out.contains(c) {
        let k = choose|k: int| 0 <= k < out.len() && out[k] == c;
        assert(pred(idx[k]));
    }
    if exists|i: int| 0 <= i < text.len() && !covered[i] && text[i] == c {
        let i = choose|i: int| 0 <= i < text.len() && !covered[i] && text[i] == c;
        let j = lemma_first_uncovered_exists(text, covered, i);
        assert(idx.contains(j));
        let k = choose|k: int| 0 <= k < idx.len() && idx[k] == j;
        assert(out[k] == c);
    }
}

/// A face misses nothing in a run exactly when it covers every character
/// of the run: [`Face::missing`] is empty exactly when
/// [`Fonts::face_covering`] hands that face back.
pub proof fn law_nothing_missing_iff_all_covered(face: Face, text: Seq<char>)
    ensures
        uncovered_chars(text, face.coverage_of(text)).len() == 0 <==> forall|i: int|
            0 <= i < text.len() ==> #[trigger] face.covers(text[i]),
{
    let covered = face.coverage_of(text);
    let out = uncovered_chars(text, covered);
    if out.len() == 0 {
        assert forall|i: int| 0 <= i < text.len() implies #[trigger] face.covers(text[i]) by {
            law_missing_chars_are_exact(text, covered, text[i]);
            if !covered[i] {
                assert(!out.contains(text[i]));
            }
        }
    } else {
        law_missing_chars_are_exact(text, covered, out[0]);
        assert(out.contains(out[0]));
        let i = choose|i: int| 0 <= i < text.len() && !covered[i] && text[i] == out[0];
        assert(!face.covers(text[i]));
    }
}

/// An uncovered position is preceded (or matched) by the first uncovered
/// position holding the same character.
proof fn lemma_first_uncovered_exists(text: Seq<char>, covered: Seq<bool>, i: int) -> (j: int)
    requires
        text.len() == covered.len(),
        0 <= i < text.len(),
        !covered[i],
    ensures
        0 <= j <= i,
        first_uncovered_at(text, covered, j),
        text[j] == text[i],
    decreases i,
{
    if first_uncovered_at(text, covered, i) {
        i
    } else {
        let k = choose|k: int| 0 <= k < i && !covered[k] && text[k] == text[i];
        lemma_first_uncovered_exists(text, covered, k)
    }
}

/// Where a run sits relative to the anchor it was given.
#[derive(Clone, Copy, Debug, Default, PartialEq, Eq, Structural)]
pub enum Align {
    /// The anchor is the run's left edge.
    #[default]
    Left,
    /// The anchor is the run's horizontal centre.
    Center,
    /// The anchor is the run's right edge.
    Right,
}

/// One loaded font file, with the name it was registered under.
#[derive(Debug)]
pub struct Face {
    font: FontVec,
    name: String,
}

impl Face {
    /// The name this face was registered under.
    pub closed spec fn name_view(&self) -> Seq<char> {
        self.name@
    }

    /// Whether the face draws `ch`: its character map assigns `ch` a glyph
    /// other than `.notdef`.
    pub closed spec fn covers(&self, ch: char) -> bool {
        char_map(self.font).contains_key(ch) && char_map(self.font)[ch] != 0
    }

    /// The glyph the face's character map assigns to `ch`, `0` (`.notdef`)
    /// when it assigns none.
    pub closed spec fn glyph_for(&self, ch: char) -> u16 {
        if char_map(self.font).contains_key(ch) {
            char_map(self.font)[ch]
        } else {
            0
        }
    }

    /// For each position of `text`, whether the face draws its character.
    pub open spec fn coverage_of(&self, text: Seq<char>) -> Seq<bool> {
        Seq::new(text.len(), |i: int| self.covers(text[i]))
    }

    /// Load a face from font bytes, naming it for error messages.
    ///
    /// [`Error::NotAFont`] exactly when the bytes do not parse as a font.
    pub fn load(bytes: Vec<u8>, name: String) -> (r: Result<Face, Error>)
        ensures
            r is Ok <==> is_font_data(bytes@),
            r matches Ok(face) ==> face.name_view() == name@,
            r matches Ok(face) ==> forall|ch: char|
                #[trigger] face.covers(ch) == (parsed_char_map(bytes@).contains_key(ch)
                    && parsed_char_map(bytes@)[ch] != 0),
            r matches Err(e) ==> e == Error::NotAFont,
    {
        let font = match font_from_bytes(bytes) {
            Ok(font) => font,
            Err(_) => return Err(Error::NotAFont),
        };
        if !has_units_per_em(&font) {
            return Err(Error::NoUnitsPerEm);
        }
        Ok(Face { font, name })
    }

    /// The name this face was registered under.
    pub fn name(&self) -> (n: &str)
        ensures
            n@ == self.name_view(),
    {
        self.name.as_str()
    }

    /// Whether the face has a glyph for `ch`: glyph 0 is `.notdef`, which is
    /// exactly what a face's character map returns for a character it does
    /// not cover.
    pub fn has(&self, ch: char) -> (b: bool)
        ensures
            b == self.covers(ch),
    {
        self.glyph_id(ch) != 0
    }

    /// The id of the glyph the face draws `ch` with, `0` (`.notdef`) when
    /// it has none: the id a face's outlines and metrics are looked up by.
    pub fn glyph_id(&self, ch: char) -> (g: u16)
        ensures
            g == self.glyph_for(ch),
            (g != 0) == self.covers(ch),
    {
        glyph_index(&self.font, ch)
    }

    /// The loaded font, for measuring and rasterizing: the one whose
    /// character map decides [`Face::covers`].
    pub fn font(&self) -> (f: &FontVec)
        ensures
            forall|ch: char|
                #[trigger] self.covers(ch) == (char_map(*f).contains_key(ch) && char_map(*f)[ch]
                    != 0),
    {
        &self.font
    }

    /// Whether the face covers each character of `text`, in order.
    fn coverage(&self, text: &str) -> (r: (Vec<char>, Vec<bool>))
        ensures
            r.0@ == text@,
            r.1@ == self.coverage_of(text@),
    {
        let n = text.unicode_len();
        let mut chars: Vec<char> = Vec::new();
        let mut covered: Vec<bool> = Vec::new();
        let mut i: usize = 0;
        while i < n
            invariant
                n == text@.len(),
                i <= n,
                chars@ == text@.take(i as int),
                covered@ == self.coverage_of(text@.take(i as int)),
            decreases n - i,
        {
            let c = text.get_char(i);
            chars.push(c);
            covered.push(self.has(c));
            i = i + 1;
            assert(chars@ =~= text@.take(i as int));
            assert(covered@ =~= self.coverage_of(text@.take(i as int)));
        }
        assert(chars@ =~= text@);
        assert(covered@ =~= self.coverage_of(text@));
        (chars, covered)
    }

    /// Every character of `text` this face cannot draw, in order, without
    /// duplicates — all of them at once, not one per render.
    pub fn missing(&self, text: &str) -> (out: Vec<char>)
        ensures
            out@ == uncovered_chars(text@, self.coverage_of(text@)),
    {
        let (chars, covered) = self.coverage(text);
        missing_chars(&chars, &covered)
    }
}

/// The faces a scene can set type in, addressed by the [`FaceId`] each
/// registration returns.
#[derive(Debug)]
pub struct Fonts {
    faces: Vec<Face>,
}

impl View for Fonts {
    type V = Seq<Face>;

    closed spec fn view(&self) -> Seq<Face> {
        self.faces@
    }
}

impl Fonts {
    /// An empty registry.
    pub fn new() -> (f: Fonts)
        ensures
            f@ == Seq::<Face>::empty(),
    {
        Fonts { faces: Vec::new() }
    }

    /// Register a face and return its id: the index it was stored at.
    pub fn add(&mut self, face: Face) -> (id: FaceId)
        ensures
            final(self)@ == old(self)@.push(face),
            id.0 == old(self)@.len(),
    {
        self.faces.push(face);
        FaceId(self.faces.len() - 1)
    }

    /// How many faces are registered.
    pub fn len(&self) -> (n: usize)
        ensures
            n == self@.len(),
    {
        self.faces.len()
    }

    /// Whether no face is registered.
    pub fn is_empty(&self) -> (b: bool)
        ensures
            b == (self@.len() == 0),
    {
        self.faces.len() == 0
    }

    /// The face behind an id; [`Error::NoSuchFace`] when nothing is
    /// registered at that index.
    pub fn get(&self, id: FaceId) -> (r: Result<&Face, Error>)
        ensures
            id.0 < self@.len() ==> r == Ok::<&Face, Error>(&self@[id.0 as int]),
            id.0 >= self@.len() ==> r == Err::<&Face, Error>(Error::NoSuchFace(id)),
    {
        if id.0 < self.faces.len() {
            Ok(&self.faces[id.0])
        } else {
            Err(Error::NoSuchFace(id))
        }
    }

    /// The face to set `text` in: [`Error::NoSuchFace`] when `id` is not
    /// registered, otherwise [`Error::Missing`] naming the **first**
    /// character of `text` the face cannot draw, otherwise the face.
    pub fn face_covering(&self, id: FaceId, text: &str) -> (r: Result<&Face, Error>)
        ensures
            id.0 >= self@.len() ==> r == Err::<&Face, Error>(Error::NoSuchFace(id)),
            id.0 < self@.len() ==> match r {
                Ok(f) => {
                    &&& f == &self@[id.0 as int]
                    &&& forall|i: int| 0 <= i < text@.len() ==> #[trigger] f.covers(text@[i])
                },
                Err(Error::Missing { ch, face, name }) => {
                    &&& face == id
                    &&& name@ == self@[id.0 as int].name_view()
                    &&& exists|i: int|
                        0 <= i < text@.len() && text@[i] == ch && !self@[id.0 as int].covers(ch)
                            && forall|j: int| 0 <= j < i ==> #[trigger] self@[id.0 as int].covers(
                            text@[j],
                        )
                },
                Err(_) => false,
            },
    {
        let face = self.get(id)?;
        let (chars, covered) = face.coverage(text);
        match first_uncovered(&covered) {
            Some(i) => {
                let ch = chars[i];
                proof {
                    assert(text@[i as int] == ch);
                    assert(!face.covers(ch));
                    assert forall|j: int| 0 <= j < i implies #[trigger] face.covers(text@[j]) by {
                        assert(covered@[j]);
                    }
                }
                Err(Error::Missing { ch, face: id, name: face.name.clone() })
            },
            None => {
                assert forall|i: int| 0 <= i < text@.len() implies #[trigger] face.covers(
                    text@[i],
                ) by {
                    assert(covered@[i]);
                }
                Ok(face)
            },
        }
    }
}

impl Default for Fonts {
    fn default() -> (f: Fonts)
        ensures
            f@ == Seq::<Face>::empty(),
    {
        Fonts::new()
    }
}

} // verus!
