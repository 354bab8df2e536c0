//! The stream encoder.
//!
//! A `Writer` accumulates BDF text; `entry` appends the exact rendering
//! of one record, including the row-by-row bitmap packing.  Writing the
//! accumulated text to a sink is the caller's business: the encoder
//! itself never performs I/O and never fails.

use vstd::prelude::*;

verus! {

use vstd::arithmetic::div_mod::lemma_add_mod_noop;
use vstd::arithmetic::div_mod::lemma_mul_mod_noop_right;
use vstd::arithmetic::div_mod::lemma_small_mod;
use vstd::pervasive::unreached;
use crate::entry::encodable;
use crate::entry::render_entry;
use crate::entry::render_rows;
use crate::entry::row_u64;
use crate::entry::row_val;
use crate::entry::Entry;
use crate::entry::Property;
use crate::entry::EntryV;
use crate::font::font_wf;
use crate::font::render_font;
use crate::font::render_glyph;
use crate::font::render_glyphs;
use crate::font::render_header;
use crate::font::render_props;
use crate::font::render_props_block;
use crate::font::Font;
use crate::text::push_hex_min2;
use crate::text::push_i64;
use crate::text::push_u64;

/// The font writer: an encoder around a growing text buffer.
pub struct Writer {
    pub output: String,
}

impl View for Writer {
    type V = Seq<char>;

    open spec fn view(&self) -> Seq<char> {
        self.output@
    }
}

/// Create a `Writer` with an empty buffer.
pub fn new() -> (w: Writer)
    ensures
        w@ == Seq::<char>::empty(),
{
    let w = Writer { output: String::new() };
    proof {
        assert(w@ =~= Seq::<char>::empty());
    }
    w
}

/// Shifting the accumulator left and or-ing one bit in is, in exact
/// arithmetic, doubling and adding, truncated to 64 bits.
proof fn lemma_shift_or_step(v: u64, b: u64)
    requires
        b <= 1,
    ensures
        ((v << 1u64) | b) == (2 * (v as int) + b) % 0x1_0000_0000_0000_0000,
{
    assert(((v << 1u64) | b) == (2 * v + b) % 0x1_0000_0000_0000_0000) by (bit_vector)
        requires
            b <= 1u64,
    ;
}

/// Doubling and adding a bit commutes with truncation: the accumulator
/// may be kept reduced at every step.
proof fn lemma_mod_double_step(a: nat, b: nat, m: nat)
    requires
        m > 0,
        b < m,
    ensures
        (2 * (a % m) + b) % m == (2 * a + b) % m,
{
    lemma_mul_mod_noop_right(2, a as int, m as int);
    lemma_small_mod(b, m);
    lemma_add_mod_noop(2 * (a as int % m as int), b as int, m as int);
    lemma_add_mod_noop(2 * a as int, b as int, m as int);
    assert((2 * (a % m) + b) % m == ((2 * (a as int % m as int)) % m as int + (b as int % m as int))
        % m as int);
    assert((2 * a + b) % m == ((2 * a as int) % m as int + (b as int % m as int)) % m as int);
}

impl Writer {
    /// Append one record's exact textual form, newline-terminated.
    /// The input may be any record but the `Unknown` sentinel, whose
    /// appearance is a logic fault, not a reportable error.
    #[verifier::rlimit(100)]
    pub fn entry(&mut self, entry: &Entry)
        requires
            encodable(*entry),
        ensures
            final(self)@ == old(self)@ + render_entry(entry@),
    {
        match entry {
            Entry::StartFont(s) => {
                self.output.append("STARTFONT ");
                self.output.append(s.as_str());
                self.output.append("\n");
                proof {
                    assert(self@ =~= old(self)@ + render_entry(entry@));
                }
            },
            Entry::Comment(s) => {
                self.output.append("COMMENT \"");
                self.output.append(s.as_str());
                self.output.append("\"\n");
                proof {
                    assert(self@ =~= old(self)@ + render_entry(entry@));
                }
            },
            Entry::ContentVersion(s) => {
                self.output.append("CONTENTVERSION ");
                self.output.append(s.as_str());
                self.output.append("\n");
                proof {
                    assert(self@ =~= old(self)@ + render_entry(entry@));
                }
            },
            Entry::Font(s) => {
                self.output.append("FONT ");
                self.output.append(s.as_str());
                self.output.append("\n");
                proof {
                    assert(self@ =~= old(self)@ + render_entry(entry@));
                }
            },
            Entry::Size(pt, x, y) => {
                self.output.append("SIZE ");
                push_i64(&mut self.output, *pt as i64);
                self.output.append(" ");
                push_i64(&mut self.output, *x as i64);
                self.output.append(" ");
                push_i64(&mut self.output, *y as i64);
                self.output.append("\n");
                proof {
                    assert(self@ =~= old(self)@ + render_entry(entry@));
                }
            },
            Entry::FontBoundingBox(b) => {
                self.output.append("FONTBOUNDINGBOX ");
                push_i64(&mut self.output, b.width as i64);
                self.output.append(" ");
                push_i64(&mut self.output, b.height as i64);
                self.output.append(" ");
                push_i64(&mut self.output, b.x as i64);
                self.output.append(" ");
                push_i64(&mut self.output, b.y as i64);
                self.output.append("\n");
                proof {
                    assert(self@ =~= old(self)@ + render_entry(entry@));
                }
            },
            Entry::StartProperties(n) => {
                self.output.append("STARTPROPERTIES ");
                push_u64(&mut self.output, *n as u64);
                self.output.append("\n");
                proof {
                    assert(self@ =~= old(self)@ + render_entry(entry@));
                }
            },
            Entry::Property(name, value) => {
                self.output.append(name.as_str());
                self.output.append(" ");
                match value {
                    Property::String(s) => {
                        self.output.append("\"");
                        self.output.append(s.as_str());
                        self.output.append("\"");
                    },
                    Property::Integer(v) => {
                        push_i64(&mut self.output, *v);
                    },
                }
                self.output.append("\n");
                proof {
                    assert(self@ =~= old(self)@ + render_entry(entry@));
                }
            },
            Entry::EndProperties => {
                self.output.append("ENDPROPERTIES\n");
                proof {
                    assert(self@ =~= old(self)@ + render_entry(entry@));
                }
            },
            Entry::Chars(n) => {
                self.output.append("CHARS ");
                push_u64(&mut self.output, *n as u64);
                self.output.append("\n");
                proof {
                    assert(self@ =~= old(self)@ + render_entry(entry@));
                }
            },
            Entry::StartChar(s) => {
                self.output.append("STARTCHAR ");
                self.output.append(s.as_str());
                self.output.append("\n");
                proof {
                    assert(self@ =~= old(self)@ + render_entry(entry@));
                }
            },
            Entry::Encoding(c) => {
                self.output.append("ENCODING ");
                push_u64(&mut self.output, (*c as u32) as u64);
                self.output.append("\n");
                proof {
                    assert(self@ =~= old(self)@ + render_entry(entry@));
                }
            },
            Entry::ScalableWidth(x, y) => {
                self.output.append("SWIDTH ");
                push_u64(&mut self.output, *x as u64);
                self.output.append(" ");
                push_u64(&mut self.output, *y as u64);
                self.output.append("\n");
                proof {
                    assert(self@ =~= old(self)@ + render_entry(entry@));
                }
            },
            Entry::DeviceWidth(x, y) => {
                self.output.append("DWIDTH ");
                push_u64(&mut self.output, *x as u64);
                self.output.append(" ");
                push_u64(&mut self.output, *y as u64);
                self.output.append("\n");
                proof {
                    assert(self@ =~= old(self)@ + render_entry(entry@));
                }
            },
            Entry::BoundingBox(b) => {
                self.output.append("BBX ");
                push_i64(&mut self.output, b.width as i64);
                self.output.append(" ");
                push_i64(&mut self.output, b.height as i64);
                self.output.append(" ");
                push_i64(&mut self.output, b.x as i64);
                self.output.append(" ");
                push_i64(&mut self.output, b.y as i64);
                self.output.append("\n");
                proof {
                    assert(self@ =~= old(self)@ + render_entry(entry@));
                }
            },
            Entry::Bitmap(m) => {
                self.output.append("BITMAP\n");
                let ghost base = self@;
                let w_px: usize = m.width();
                let h_px: usize = m.height();
                let mut y: usize = 0;
                while y < h_px
                    invariant
                        y <= h_px,
                        m@.wf(),
                        w_px as nat == m@.width,
                        h_px as nat == m@.height,
                        self@ == base + render_rows(m@, y as int),
                    decreases h_px - y,
                {
                    let mut value: u64 = 0;
                    let mut x: usize = 0;
                    while x < w_px
                        invariant
                            x <= w_px,
                            m@.wf(),
                            w_px as nat == m@.width,
                            h_px as nat == m@.height,
                            y < h_px,
                            value as nat == row_val(m@, y as int, x as int)
                                % 0x1_0000_0000_0000_0000,
                        decreases w_px - x,
                    {
                        let bit: u64 = if m.get(x, y) {
                            1
                        } else {
                            0
                        };
                        proof {
                            lemma_shift_or_step(value, bit);
                            lemma_mod_double_step(
                                row_val(m@, y as int, x as int),
                                bit as nat,
                                0x1_0000_0000_0000_0000,
                            );
                            assert(row_val(m@, y as int, x as int + 1) == 2 * row_val(
                                m@,
                                y as int,
                                x as int,
                            ) + (if m@.bit(x as int, y as int) {
                                1nat
                            } else {
                                0nat
                            }));
                        }
                        value = (value << 1u64) | bit;
                        x = x + 1;
                    }
                    proof {
                        assert(value as nat == row_u64(m@, y as int));
                    }
                    push_hex_min2(&mut self.output, value);
                    self.output.append("\n");
                    y = y + 1;
                    proof {
                        assert(self@ =~= base + render_rows(m@, y as int));
                    }
                }
                proof {
                    assert(self@ =~= old(self)@ + render_entry(entry@));
                }
            },
            Entry::EndChar => {
                self.output.append("ENDCHAR\n");
                proof {
                    assert(self@ =~= old(self)@ + render_entry(entry@));
                }
            },
            Entry::EndFont => {
                self.output.append("ENDFONT\n");
                proof {
                    assert(self@ =~= old(self)@ + render_entry(entry@));
                }
            },
            Entry::Unknown(_) => {
                unreached()
            },
        }
    }
}

/// Serialize a whole font: the fixed entry sequence the BDF grammar
/// requires, rendered to one text.  Feeding the result to a byte sink
/// is the caller's business.
#[verifier::rlimit(100)]
pub fn write(font: &Font) -> (out: String)
    requires
        font_wf(*font),
    ensures
        out@ == render_font(*font),
{
    let mut w = new();
    w.entry(&Entry::StartFont(font.format.clone()));
    w.entry(&Entry::Font(font.name.clone()));
    w.entry(&Entry::Size(font.size.pt, font.size.x, font.size.y));
    match &font.version {
        Some(v) => {
            w.entry(&Entry::ContentVersion(v.clone()));
        },
        None => {},
    }
    w.entry(&Entry::FontBoundingBox(font.bounds));
    proof {
        assert(w@ =~= render_header(*font));
    }
    let n_props: usize = font.properties.len();
    if n_props > 0 {
        w.entry(&Entry::StartProperties(n_props));
        proof {
            assert(w@ =~= render_header(*font) + render_entry(
                EntryV::StartProperties(n_props as int),
            ) + render_props(font.properties@, 0));
        }
        let mut i: usize = 0;
        while i < n_props
            invariant
                i <= n_props,
                n_props == font.properties@.len(),
                w@ == render_header(*font) + render_entry(
                    EntryV::StartProperties(n_props as int),
                ) + render_props(font.properties@, i as int),
            decreases n_props - i,
        {
            let name: String = font.properties[i].0.clone();
            let value: Property = font.properties[i].1.clone();
            w.entry(&Entry::Property(name, value));
            i = i + 1;
            proof {
                assert(w@ =~= render_header(*font) + render_entry(
                    EntryV::StartProperties(n_props as int),
                ) + render_props(font.properties@, i as int));
            }
        }
        w.entry(&Entry::EndProperties);
    }
    proof {
        assert(w@ =~= render_header(*font) + render_props_block(*font));
    }
    w.entry(&Entry::Chars(font.glyphs.len()));
    let ghost pre_glyphs = render_header(*font) + render_props_block(*font) + render_entry(
        EntryV::Chars(font.glyphs@.len() as int),
    );
    proof {
        assert(w@ =~= pre_glyphs);
        assert(pre_glyphs + render_glyphs(font.glyphs@, 0) =~= pre_glyphs);
    }
    let n_glyphs: usize = font.glyphs.len();
    let mut j: usize = 0;
    while j < n_glyphs
        invariant
            j <= n_glyphs,
            n_glyphs == font.glyphs@.len(),
            font_wf(*font),
            pre_glyphs == render_header(*font) + render_props_block(*font) + render_entry(
                EntryV::Chars(font.glyphs@.len() as int),
            ),
            w@ == pre_glyphs + render_glyphs(font.glyphs@, j as int),
        decreases n_glyphs - j,
    {
        let ghost before = w@;
        let codepoint: char = font.glyphs[j].0;
        let glyph = &font.glyphs[j].1;
        w.entry(&Entry::StartChar(glyph.name.clone()));
        w.entry(&Entry::Encoding(codepoint));
        w.entry(&Entry::ScalableWidth(glyph.scalable_width.0, glyph.scalable_width.1));
        w.entry(&Entry::DeviceWidth(glyph.device_width.0, glyph.device_width.1));
        match glyph.bounds {
            Some(b) => {
                w.entry(&Entry::BoundingBox(b));
            },
            None => {},
        }
        w.entry(&Entry::Bitmap(glyph.map.clone()));
        w.entry(&Entry::EndChar);
        proof {
            assert(w@ =~= before + render_glyph(font.glyphs@[j as int].0, font.glyphs@[j as int].1));
        }
        j = j + 1;
        proof {
            assert(w@ =~= pre_glyphs + render_glyphs(font.glyphs@, j as int));
        }
    }
    w.entry(&Entry::EndFont);
    proof {
        assert(w.output@ =~= render_font(*font));
    }
    w.output
}

} // verus!
