use motoreel::typeset::{first_uncovered, missing_chars, Error, Face, FaceId, Fonts};
use motoreel::Align;

#[test]
fn rubbish_bytes_are_not_a_font() {
    assert_eq!(
        Face::load(vec![0, 1, 2, 3], "junk".into()).unwrap_err(),
        Error::NotAFont
    );
}

#[test]
fn an_empty_registry_has_no_faces() {
    let f = Fonts::new();
    assert!(f.is_empty());
    assert_eq!(f.get(FaceId(0)).unwrap_err(), Error::NoSuchFace(FaceId(0)));
}

/// The message has to name the character *and* the face.
#[test]
fn the_missing_error_says_what_and_where() {
    let e = Error::Missing {
        ch: 'í',
        face: FaceId(2),
        name: "Bangers".into(),
    };
    let s = e.to_string();
    assert!(s.contains('í'), "{s}");
    assert!(s.contains("Bangers"), "{s}");
    assert!(s.contains("U+00ED"), "{s}");
}

#[test]
fn the_missing_error_text_is_exact() {
    let e = Error::Missing {
        ch: 'í',
        face: FaceId(2),
        name: "Bangers".into(),
    };
    assert_eq!(
        e.to_string(),
        "the face \"Bangers\" has no glyph for 'í' (U+00ED); this is an error, not a '?'"
    );
    let wide = Error::Missing {
        ch: '\u{1F600}',
        face: FaceId(0),
        name: "x".into(),
    };
    assert!(wide.to_string().contains("(U+1F600)"), "{}", wide.to_string());
    let low = Error::Missing {
        ch: 'A',
        face: FaceId(0),
        name: "x".into(),
    };
    assert!(low.to_string().contains("(U+0041)"));
}

#[test]
fn every_error_has_its_own_message() {
    assert_eq!(Error::NotAFont.to_string(), "not a font this crate can read");
    assert_eq!(
        Error::NoUnitsPerEm.to_string(),
        "the face reports no units-per-em"
    );
    assert_eq!(
        Error::NoSuchFace(FaceId(17)).to_string(),
        "no face registered at index 17"
    );
}

#[test]
fn an_unregistered_face_is_no_such_face_before_any_text_check() {
    let fonts = Fonts::new();
    assert_eq!(
        fonts.face_covering(FaceId(0), "x").unwrap_err(),
        Error::NoSuchFace(FaceId(0))
    );
    assert_eq!(fonts.len(), 0);
}

#[test]
fn missing_reports_every_absent_character_once_in_order() {
    let text: Vec<char> = "bíceps ¿í?".chars().collect();
    let covered: Vec<bool> = text.iter().map(|c| c.is_ascii()).collect();
    assert_eq!(missing_chars(&text, &covered), vec!['í', '¿']);
    let all: Vec<bool> = vec![true; text.len()];
    assert!(missing_chars(&text, &all).is_empty());
    let none: Vec<bool> = vec![false; 4];
    assert_eq!(missing_chars(&vec!['a', 'b', 'a', 'c'], &none), vec!['a', 'b', 'c']);
}

#[test]
fn a_covered_repeat_does_not_count_but_an_uncovered_one_does() {
    // The first 'a' is covered and the second is not: 'a' is reported once.
    let text = vec!['a', 'b', 'a'];
    let covered = vec![true, true, false];
    assert_eq!(missing_chars(&text, &covered), vec!['a']);
}

#[test]
fn the_first_uncovered_position_is_found() {
    assert_eq!(first_uncovered(&vec![true, true, false, false]), Some(2));
    assert_eq!(first_uncovered(&vec![false]), Some(0));
    assert_eq!(first_uncovered(&vec![true, true]), None);
    assert_eq!(first_uncovered(&vec![]), None);
}

#[test]
fn align_defaults_to_left() {
    assert_eq!(Align::default(), Align::Left);
    assert_ne!(Align::Center, Align::Right);
}

/// A minimal TrueType face whose character map covers exactly `'A'..='Z'`:
/// a table directory and the `cmap`, `head`, `hhea` and `maxp` tables.
fn capitals_only_font() -> Vec<u8> {
    fn be16(v: &mut Vec<u8>, x: u16) {
        v.extend_from_slice(&x.to_be_bytes());
    }
    fn be32(v: &mut Vec<u8>, x: u32) {
        v.extend_from_slice(&x.to_be_bytes());
    }
    let mut cmap = Vec::new();
    be16(&mut cmap, 0); // version
    be16(&mut cmap, 1); // one encoding record
    be16(&mut cmap, 0); // platform: Unicode
    be16(&mut cmap, 4); // encoding: full repertoire
    be32(&mut cmap, 12); // subtable offset
    be16(&mut cmap, 12); // format 12
    be16(&mut cmap, 0);
    be32(&mut cmap, 28); // length
    be32(&mut cmap, 0); // language
    be32(&mut cmap, 1); // one group
    be32(&mut cmap, 'A' as u32);
    be32(&mut cmap, 'Z' as u32);
    be32(&mut cmap, 1); // first glyph
    let mut head = vec![0u8; 54];
    head[18..20].copy_from_slice(&1000u16.to_be_bytes()); // units per em
    let hhea = vec![0u8; 36];
    let mut maxp = Vec::new();
    be32(&mut maxp, 0x0000_5000);
    be16(&mut maxp, 27);
    let tables: [(&[u8; 4], &Vec<u8>); 4] =
        [(b"cmap", &cmap), (b"head", &head), (b"hhea", &hhea), (b"maxp", &maxp)];
    let mut font = Vec::new();
    be32(&mut font, 0x0001_0000);
    be16(&mut font, tables.len() as u16);
    be16(&mut font, 0);
    be16(&mut font, 0);
    be16(&mut font, 0);
    let mut offset = 12 + 16 * tables.len() as u32;
    for (tag, data) in tables {
        font.extend_from_slice(tag);
        be32(&mut font, 0);
        be32(&mut font, offset);
        be32(&mut font, data.len() as u32);
        offset += data.len() as u32;
    }
    for (_, data) in tables {
        font.extend_from_slice(data);
    }
    font
}

#[test]
fn a_real_face_loads_and_answers_for_its_character_map() {
    let face = Face::load(capitals_only_font(), "Capitals".into()).expect("a valid face");
    assert_eq!(face.name(), "Capitals");
    assert!(face.has('A') && face.has('Z'));
    assert!(!face.has('a') && !face.has('é'));
    assert_eq!(face.missing("AbcAbé"), vec!['b', 'c', 'é']);
    assert!(face.missing("HOLA").is_empty());
}

#[test]
fn a_run_the_face_cannot_draw_names_its_first_missing_character() {
    let mut fonts = Fonts::new();
    let id = fonts.add(Face::load(capitals_only_font(), "Capitals".into()).unwrap());
    assert_eq!(id, FaceId(0));
    assert_eq!(fonts.len(), 1);
    assert!(!fonts.is_empty());
    assert_eq!(fonts.face_covering(id, "HOLA").unwrap().name(), "Capitals");
    assert_eq!(
        fonts.face_covering(id, "HOLá y").unwrap_err(),
        Error::Missing {
            ch: 'á',
            face: id,
            name: "Capitals".into()
        }
    );
    assert_eq!(
        fonts.face_covering(FaceId(1), "HOLA").unwrap_err(),
        Error::NoSuchFace(FaceId(1))
    );
    let second = fonts.add(Face::load(capitals_only_font(), "Second".into()).unwrap());
    assert_eq!(second, FaceId(1));
    assert_eq!(fonts.get(second).unwrap().name(), "Second");
}

#[test]
fn glyph_ids_follow_the_character_map() {
    let face = Face::load(capitals_only_font(), "Capitals".into()).expect("a valid face");
    // One group maps 'A'..='Z' to consecutive glyphs from 1.
    assert_eq!(face.glyph_id('A'), 1);
    assert_eq!(face.glyph_id('B'), 2);
    assert_eq!(face.glyph_id('Z'), 26);
    assert_eq!(face.glyph_id('a'), 0, ".notdef for a character the map lacks");
    assert_eq!(face.glyph_id('\u{10FFFD}'), 0);
}
