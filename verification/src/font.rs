//! The read-only font model the serializer walks.
//!
//! A font owns its header strings, point size and resolution, an
//! overall bounding box, named properties in insertion order, and
//! glyphs keyed by codepoint in iteration order.  `render_font` gives
//! the exact text of the whole file: the fixed entry sequence the BDF
//! grammar requires.

use vstd::prelude::*;

verus! {

use crate::entry::render_entry;
use crate::entry::Bitmap;
use crate::entry::BoundingBox;
use crate::entry::EntryV;
use crate::entry::Property;

/// Point size and device resolution.
#[derive(Clone, Copy)]
pub struct Size {
    pub pt: u16,
    pub x: u16,
    pub y: u16,
}

/// One glyph: name, widths, an optional bounding-box override and its
/// pixel grid.
pub struct Glyph {
    pub name: String,
    pub scalable_width: (u32, u32),
    pub device_width: (u32, u32),
    pub bounds: Option<BoundingBox>,
    pub map: Bitmap,
}

/// A populated font model, ready to serialize.
pub struct Font {
    pub format: String,
    pub name: String,
    pub size: Size,
    pub version: Option<String>,
    pub bounds: BoundingBox,
    pub properties: Vec<(String, Property)>,
    pub glyphs: Vec<(char, Glyph)>,
}

/// Every glyph's pixel grid is rectangular.
pub open spec fn font_wf(f: Font) -> bool {
    forall|i: int| 0 <= i < f.glyphs@.len() ==> (#[trigger] f.glyphs@[i]).1.map@.wf()
}

/// The lines before any properties block: header, name, size, the
/// optional content version, and the font bounding box.
pub open spec fn render_header(f: Font) -> Seq<char> {
    render_entry(EntryV::StartFont(f.format@)) + render_entry(EntryV::Font(f.name@))
        + render_entry(EntryV::Size(f.size.pt as int, f.size.x as int, f.size.y as int)) + (
    match f.version {
        Some(v) => render_entry(EntryV::ContentVersion(v@)),
        None => Seq::<char>::empty(),
    }) + render_entry(EntryV::FontBoundingBox(f.bounds))
}

/// One property line per property, in insertion order, for the first
/// `n` of them.
pub open spec fn render_props(ps: Seq<(String, Property)>, n: int) -> Seq<char>
    decreases n,
{
    if n <= 0 {
        Seq::empty()
    } else {
        render_props(ps, n - 1) + render_entry(EntryV::Property(ps[n - 1].0@, ps[n - 1].1@))
    }
}

/// The properties block: absent when the font has no properties, and
/// bracketed by `STARTPROPERTIES`/`ENDPROPERTIES` exactly once when it
/// has any.
pub open spec fn render_props_block(f: Font) -> Seq<char> {
    if f.properties@.len() == 0 {
        Seq::empty()
    } else {
        render_entry(EntryV::StartProperties(f.properties@.len() as int)) + render_props(
            f.properties@,
            f.properties@.len() as int,
        ) + render_entry(EntryV::EndProperties)
    }
}

/// One glyph's record sub-sequence, in the fixed order the grammar
/// requires.
pub open spec fn render_glyph(c: char, g: Glyph) -> Seq<char> {
    render_entry(EntryV::StartChar(g.name@)) + render_entry(EntryV::Encoding(c)) + render_entry(
        EntryV::ScalableWidth(g.scalable_width.0 as int, g.scalable_width.1 as int),
    ) + render_entry(EntryV::DeviceWidth(g.device_width.0 as int, g.device_width.1 as int)) + (
    match g.bounds {
        Some(b) => render_entry(EntryV::BoundingBox(b)),
        None => Seq::<char>::empty(),
    }) + render_entry(EntryV::Bitmap(g.map@)) + render_entry(EntryV::EndChar)
}

/// The record sub-sequences of the first `n` glyphs, in codepoint
/// iteration order.
pub open spec fn render_glyphs(gs: Seq<(char, Glyph)>, n: int) -> Seq<char>
    decreases n,
{
    if n <= 0 {
        Seq::empty()
    } else {
        render_glyphs(gs, n - 1) + render_glyph(gs[n - 1].0, gs[n - 1].1)
    }
}

/// The exact text of the serialized font: header lines, the properties
/// block, the glyph count, every glyph's records, and the footer.
pub open spec fn render_font(f: Font) -> Seq<char> {
    render_header(f) + render_props_block(f) + render_entry(
        EntryV::Chars(f.glyphs@.len() as int),
    ) + render_glyphs(f.glyphs@, f.glyphs@.len() as int) + render_entry(EntryV::EndFont)
}

/// A font with no properties serializes with no properties block at
/// all: the bounding-box line is followed directly by the glyph count.
pub proof fn lemma_empty_properties_omitted(f: Font)
    requires
        f.properties@.len() == 0,
    ensures
        render_props_block(f) == Seq::<char>::empty(),
        render_font(f) == render_header(f) + render_entry(EntryV::Chars(f.glyphs@.len() as int))
            + render_glyphs(f.glyphs@, f.glyphs@.len() as int) + render_entry(EntryV::EndFont),
{
    assert(render_font(f) =~= render_header(f) + render_entry(
        EntryV::Chars(f.glyphs@.len() as int),
    ) + render_glyphs(f.glyphs@, f.glyphs@.len() as int) + render_entry(EntryV::EndFont));
}

/// A font with at least one property brackets its property lines with
/// `STARTPROPERTIES` and `ENDPROPERTIES` exactly once.
pub proof fn lemma_properties_bracketed(f: Font)
    requires
        f.properties@.len() > 0,
    ensures
        render_font(f) == render_header(f) + render_entry(
            EntryV::StartProperties(f.properties@.len() as int),
        ) + render_props(f.properties@, f.properties@.len() as int) + render_entry(
            EntryV::EndProperties,
        ) + render_entry(EntryV::Chars(f.glyphs@.len() as int)) + render_glyphs(
            f.glyphs@,
            f.glyphs@.len() as int,
        ) + render_entry(EntryV::EndFont),
{
    assert(render_font(f) =~= render_header(f) + render_entry(
        EntryV::StartProperties(f.properties@.len() as int),
    ) + render_props(f.properties@, f.properties@.len() as int) + render_entry(
        EntryV::EndProperties,
    ) + render_entry(EntryV::Chars(f.glyphs@.len() as int)) + render_glyphs(
        f.glyphs@,
        f.glyphs@.len() as int,
    ) + render_entry(EntryV::EndFont));
}

} // verus!
