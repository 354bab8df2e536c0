use bdf::entry::Bitmap;
use bdf::entry::BoundingBox;
use bdf::entry::Entry;
use bdf::entry::Property;
use bdf::writer;

pub fn check(entry: Entry, string: &str) {
    let mut w = writer::new();
    w.entry(&entry);
    assert_eq!(w.output, string);
}

#[test]
fn start_font() {
    check(Entry::StartFont("2.2".to_owned()), "STARTFONT 2.2\n");
}

#[test]
fn comment() {
    check(Entry::Comment("test".to_owned()), "COMMENT \"test\"\n");
}

#[test]
fn content_version() {
    check(Entry::ContentVersion("1.0.0".to_owned()), "CONTENTVERSION 1.0.0\n");
}

#[test]
fn font() {
    check(
        Entry::Font("-Gohu-GohuFont-Bold-R-Normal--11-80-100-100-C-60-ISO10646-1".to_owned()),
        "FONT -Gohu-GohuFont-Bold-R-Normal--11-80-100-100-C-60-ISO10646-1\n",
    );
}

#[test]
fn size() {
    check(Entry::Size(16, 100, 100), "SIZE 16 100 100\n");
}

#[test]
fn chars() {
    check(Entry::Chars(42), "CHARS 42\n");
}

#[test]
fn font_bounding_box() {
    check(
        Entry::FontBoundingBox(BoundingBox { width: 6, height: 11, x: 0, y: -2 }),
        "FONTBOUNDINGBOX 6 11 0 -2\n",
    );
}

#[test]
fn end_font() {
    check(Entry::EndFont, "ENDFONT\n");
}

#[test]
fn start_properties() {
    check(Entry::StartProperties(23), "STARTPROPERTIES 23\n");
}

#[test]
fn property() {
    check(
        Entry::Property("FOUNDRY".to_owned(), Property::String("GohuFont".to_owned())),
        "FOUNDRY \"GohuFont\"\n",
    );

    check(Entry::Property("X_HEIGHT".to_owned(), Property::Integer(4)), "X_HEIGHT 4\n");
}

#[test]
fn end_properties() {
    check(Entry::EndProperties, "ENDPROPERTIES\n");
}

#[test]
fn start_char() {
    check(Entry::StartChar("<control>".to_owned()), "STARTCHAR <control>\n");
}

#[test]
fn encoding() {
    check(Entry::Encoding('\u{0}'), "ENCODING 0\n");
}

#[test]
fn scalable_width() {
    check(Entry::ScalableWidth(392, 0), "SWIDTH 392 0\n");
}

#[test]
fn device_width() {
    check(Entry::DeviceWidth(6, 0), "DWIDTH 6 0\n");
}

#[test]
fn bounding_box() {
    check(
        Entry::BoundingBox(BoundingBox { width: 6, height: 11, x: 0, y: -2 }),
        "BBX 6 11 0 -2\n",
    );
}

#[test]
fn bitmap() {
    let mut bitmap = Bitmap::new(6, 11);

    // 00

    // 70
    bitmap.set(1, 1, true);
    bitmap.set(2, 1, true);
    bitmap.set(3, 1, true);

    // D8
    bitmap.set(0, 2, true);
    bitmap.set(1, 2, true);
    bitmap.set(3, 2, true);
    bitmap.set(4, 2, true);

    // D8
    bitmap.set(0, 3, true);
    bitmap.set(1, 3, true);
    bitmap.set(3, 3, true);
    bitmap.set(4, 3, true);

    // F8
    bitmap.set(0, 4, true);
    bitmap.set(1, 4, true);
    bitmap.set(2, 4, true);
    bitmap.set(3, 4, true);
    bitmap.set(4, 4, true);

    // D8
    bitmap.set(0, 5, true);
    bitmap.set(1, 5, true);
    bitmap.set(3, 5, true);
    bitmap.set(4, 5, true);

    // D8
    bitmap.set(0, 6, true);
    bitmap.set(1, 6, true);
    bitmap.set(3, 6, true);
    bitmap.set(4, 6, true);

    // D8
    bitmap.set(0, 7, true);
    bitmap.set(1, 7, true);
    bitmap.set(3, 7, true);
    bitmap.set(4, 7, true);

    // D8
    bitmap.set(0, 8, true);
    bitmap.set(1, 8, true);
    bitmap.set(3, 8, true);
    bitmap.set(4, 8, true);

    // 00

    // 00

    check(
        Entry::Bitmap(bitmap),
        "BITMAP\n\
		 00\n\
		 70\n\
		 D8\n\
		 D8\n\
		 F8\n\
		 D8\n\
		 D8\n\
		 D8\n\
		 D8\n\
		 00\n\
		 00\n",
    );
}

#[test]
fn end_char() {
    check(Entry::EndChar, "ENDCHAR\n");
}

#[test]
#[should_panic]
fn unknown() {
    check(Entry::Unknown("HUE".to_owned()), "");
}
