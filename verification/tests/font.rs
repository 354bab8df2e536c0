use bdf::entry::Bitmap;
use bdf::entry::BoundingBox;
use bdf::entry::Entry;
use bdf::entry::Property;
use bdf::font::Font;
use bdf::font::Glyph;
use bdf::font::Size;
use bdf::writer;

fn glyph_a() -> Glyph {
    // 1010 in a byte row -> A0
    // 0101 in a byte row -> 50
    let mut map = Bitmap::new(4, 2);
    map.set(0, 0, true);
    map.set(2, 0, true);
    map.set(1, 1, true);
    map.set(3, 1, true);
    Glyph {
        name: "A".to_owned(),
        scalable_width: (500, 0),
        device_width: (4, 0),
        bounds: Some(BoundingBox { width: 4, height: 2, x: 0, y: -1 }),
        map,
    }
}

#[test]
fn rendering_is_deterministic() {
    let line = |entry: &Entry| {
        let mut w = writer::new();
        w.entry(entry);
        w.output
    };
    let entry = Entry::Property("FOUNDRY".to_owned(), Property::String("GohuFont".to_owned()));
    assert_eq!(line(&entry), line(&entry));
    let bbx = Entry::FontBoundingBox(BoundingBox { width: 6, height: 11, x: 0, y: -2 });
    assert_eq!(line(&bbx), line(&bbx));
}

#[test]
fn negative_property_integer() {
    let mut w = writer::new();
    w.entry(&Entry::Property("MIN_SPACE".to_owned(), Property::Integer(-5)));
    assert_eq!(w.output, "MIN_SPACE -5\n");
}

#[test]
fn encoding_of_large_codepoint() {
    let mut w = writer::new();
    w.entry(&Entry::Encoding('A'));
    assert_eq!(w.output, "ENCODING 65\n");
}

#[test]
fn empty_bitmap() {
    let mut w = writer::new();
    w.entry(&Entry::Bitmap(Bitmap::new(0, 0)));
    assert_eq!(w.output, "BITMAP\n");
}

#[test]
fn row_hex_width_is_minimal_with_a_pair_floor() {
    // A four-pixel glyph is stored as one byte row: its pixels land in
    // the high bits and the row emits a full pair.
    let mut narrow = Bitmap::new(4, 1);
    narrow.set(0, 0, true);
    narrow.set(2, 0, true);
    let mut w = writer::new();
    w.entry(&Entry::Bitmap(narrow));
    assert_eq!(w.output, "BITMAP\nA0\n");

    // Nine all-set pixels occupy a sixteen-column row: 0xFF80.
    let mut nine = Bitmap::new(9, 1);
    for x in 0..9 {
        nine.set(x, 0, true);
    }
    let mut w = writer::new();
    w.entry(&Entry::Bitmap(nine));
    assert_eq!(w.output, "BITMAP\nFF80\n");

    // A sixteen-column row whose value fits one byte emits only the
    // minimal pair: no padding back to the row's byte width.
    let mut sixteen = Bitmap::new(16, 1);
    sixteen.set(15, 0, true);
    let mut w = writer::new();
    w.entry(&Entry::Bitmap(sixteen));
    assert_eq!(w.output, "BITMAP\n01\n");

    // A row value of 0x180 emits three digits: the hex width is the
    // minimal one for the value, with two digits as the only floor.
    let mut odd = Bitmap::new(16, 1);
    odd.set(7, 0, true);
    odd.set(8, 0, true);
    let mut w = writer::new();
    w.entry(&Entry::Bitmap(odd));
    assert_eq!(w.output, "BITMAP\n180\n");
}

#[test]
fn write_without_properties_omits_the_block() {
    let font = Font {
        format: "2.1".to_owned(),
        name: "-test-font".to_owned(),
        size: Size { pt: 16, x: 75, y: 75 },
        version: None,
        bounds: BoundingBox { width: 4, height: 2, x: 0, y: -1 },
        properties: vec![],
        glyphs: vec![('A', glyph_a())],
    };
    let out = writer::write(&font);
    assert_eq!(
        out,
        "STARTFONT 2.1\n\
         FONT -test-font\n\
         SIZE 16 75 75\n\
         FONTBOUNDINGBOX 4 2 0 -1\n\
         CHARS 1\n\
         STARTCHAR A\n\
         ENCODING 65\n\
         SWIDTH 500 0\n\
         DWIDTH 4 0\n\
         BBX 4 2 0 -1\n\
         BITMAP\n\
         A0\n\
         50\n\
         ENDCHAR\n\
         ENDFONT\n"
    );
    assert!(!out.contains("STARTPROPERTIES"));
    assert!(!out.contains("ENDPROPERTIES"));
}

#[test]
fn write_with_properties_brackets_them_once() {
    let font = Font {
        format: "2.1".to_owned(),
        name: "-test-font".to_owned(),
        size: Size { pt: 16, x: 75, y: 75 },
        version: Some("1.0".to_owned()),
        bounds: BoundingBox { width: 4, height: 2, x: 0, y: -1 },
        properties: vec![
            ("FOUNDRY".to_owned(), Property::String("Test".to_owned())),
            ("X_HEIGHT".to_owned(), Property::Integer(4)),
        ],
        glyphs: vec![('A', glyph_a())],
    };
    let out = writer::write(&font);
    assert_eq!(
        out,
        "STARTFONT 2.1\n\
         FONT -test-font\n\
         SIZE 16 75 75\n\
         CONTENTVERSION 1.0\n\
         FONTBOUNDINGBOX 4 2 0 -1\n\
         STARTPROPERTIES 2\n\
         FOUNDRY \"Test\"\n\
         X_HEIGHT 4\n\
         ENDPROPERTIES\n\
         CHARS 1\n\
         STARTCHAR A\n\
         ENCODING 65\n\
         SWIDTH 500 0\n\
         DWIDTH 4 0\n\
         BBX 4 2 0 -1\n\
         BITMAP\n\
         A0\n\
         50\n\
         ENDCHAR\n\
         ENDFONT\n"
    );
    assert_eq!(out.matches("STARTPROPERTIES").count(), 1);
    assert_eq!(out.matches("ENDPROPERTIES").count(), 1);
}

#[test]
fn glyph_without_bounding_box_override() {
    let mut map = Bitmap::new(1, 1);
    map.set(0, 0, true);
    let font = Font {
        format: "2.1".to_owned(),
        name: "-dot".to_owned(),
        size: Size { pt: 8, x: 72, y: 72 },
        version: None,
        bounds: BoundingBox { width: 1, height: 1, x: 0, y: 0 },
        properties: vec![],
        glyphs: vec![('.', Glyph {
            name: "period".to_owned(),
            scalable_width: (125, 0),
            device_width: (1, 0),
            bounds: None,
            map,
        })],
    };
    let out = writer::write(&font);
    assert_eq!(
        out,
        "STARTFONT 2.1\n\
         FONT -dot\n\
         SIZE 8 72 72\n\
         FONTBOUNDINGBOX 1 1 0 0\n\
         CHARS 1\n\
         STARTCHAR period\n\
         ENCODING 46\n\
         SWIDTH 125 0\n\
         DWIDTH 1 0\n\
         BITMAP\n\
         80\n\
         ENDCHAR\n\
         ENDFONT\n"
    );
}

#[test]
fn bitmap_getters_round_trip() {
    let mut map = Bitmap::new(3, 2);
    assert_eq!(map.width(), 8);
    assert_eq!(map.height(), 2);
    assert!(!map.get(2, 1));
    map.set(2, 1, true);
    assert!(map.get(2, 1));
    assert!(!map.get(1, 1));
    let copy = map.clone();
    assert!(copy.get(2, 1));
    assert!(!copy.get(0, 0));
}
