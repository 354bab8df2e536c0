//! The record vocabulary of a BDF file.
//!
//! `Entry` is a closed tagged union with one variant per BDF
//! line-construct; `render_entry` gives the exact text each variant
//! serializes to, one newline-terminated line per record (several for
//! a bitmap).  The `Unknown` variant is a sentinel for unencodable
//! input: it has no rendering and the encoder refuses it.

use vstd::prelude::*;

verus! {

use vstd::arithmetic::div_mod::lemma_div_denominator;
use vstd::arithmetic::div_mod::lemma_small_mod;
use vstd::arithmetic::power::pow;
use vstd::arithmetic::power2::lemma2_to64;
use vstd::arithmetic::power2::lemma_pow2;
use vstd::arithmetic::power2::lemma_pow2_pos;
use vstd::arithmetic::power2::lemma_pow2_unfold;
use vstd::arithmetic::power2::lemma_pow2_strictly_increases;
use vstd::arithmetic::power2::pow2;
use crate::text::dec_int;
use crate::text::digits_of;
use crate::text::hex_min2;
use crate::text::lemma_hex_min2_len;

/// Glyph or font extents: width and height, with the offsets of the
/// lower-left corner.
#[derive(Clone, Copy)]
pub struct BoundingBox {
    pub width: i32,
    pub height: i32,
    pub x: i32,
    pub y: i32,
}

/// A property value: quoted text or a bare integer.
pub enum Property {
    String(String),
    Integer(i64),
}

/// The mathematical value of a `Property`.
pub enum PropertyV {
    Str(Seq<char>),
    Int(int),
}

impl View for Property {
    type V = PropertyV;

    open spec fn view(&self) -> PropertyV {
        match self {
            Property::String(s) => PropertyV::Str(s@),
            Property::Integer(v) => PropertyV::Int(*v as int),
        }
    }
}

impl Clone for Property {
    fn clone(&self) -> (r: Self)
        ensures
            r@ == self@,
    {
        match self {
            Property::String(s) => Property::String(s.clone()),
            Property::Integer(v) => Property::Integer(*v),
        }
    }
}

/// The mathematical value of a `Bitmap`: a row-major grid of pixels.
pub struct BitmapV {
    pub width: nat,
    pub height: nat,
    pub bits: Seq<bool>,
}

impl BitmapV {
    /// The grid is rectangular: one cell for every column of every row.
    pub open spec fn wf(self) -> bool {
        self.bits.len() == self.width * self.height
    }

    /// The pixel in column `x` of row `y`.
    pub open spec fn bit(self, x: int, y: int) -> bool {
        self.bits[y * self.width as int + x]
    }
}

/// A rectangular grid of pixels, row-major, origin at the top left.
/// Rows are stored at byte granularity, as BDF bitmap lines are: the
/// requested width is rounded up to the next multiple of eight and the
/// added trailing columns start unset, so a six-pixel row still packs
/// into one hex pair with its pixels in the high bits.
pub struct Bitmap {
    width: usize,
    height: usize,
    bits: Vec<bool>,
}

/// A width rounded up to the next multiple of eight.
pub open spec fn byte_width(w: nat) -> nat {
    ((w + 7) / 8) * 8
}

impl View for Bitmap {
    type V = BitmapV;

    closed spec fn view(&self) -> BitmapV {
        BitmapV { width: self.width as nat, height: self.height as nat, bits: self.bits@ }
    }
}

/// A cell's index lies inside a rectangular grid.
proof fn lemma_index_in_grid(w: int, h: int, x: int, y: int)
    by (nonlinear_arith)
    requires
        0 <= x < w,
        0 <= y < h,
    ensures
        0 <= y * w + x < w * h,
        0 <= y * w + x < h * w,
{
}

impl Bitmap {
    /// A fresh grid with every pixel unset, its width rounded up to
    /// the next multiple of eight.
    pub fn new(width: usize, height: usize) -> (r: Bitmap)
        requires
            width as int + 7 <= usize::MAX as int,
            ((width as int + 7) / 8) * 8 * height as int <= usize::MAX as int,
        ensures
            r@.wf(),
            r@.width == byte_width(width as nat),
            r@.height == height as nat,
            forall|i: int| 0 <= i < r@.bits.len() ==> r@.bits[i] == false,
    {
        let width: usize = ((width + 7) / 8) * 8;
        let n: usize = width * height;
        let mut bits: Vec<bool> = Vec::new();
        while bits.len() < n
            invariant
                bits@.len() <= n,
                forall|i: int| 0 <= i < bits@.len() ==> bits@[i] == false,
            decreases n - bits@.len(),
        {
            bits.push(false);
        }
        Bitmap { width, height, bits }
    }

    /// The number of columns.
    pub fn width(&self) -> (r: usize)
        ensures
            r as nat == self@.width,
    {
        self.width
    }

    /// The number of rows.
    pub fn height(&self) -> (r: usize)
        ensures
            r as nat == self@.height,
    {
        self.height
    }

    /// Read the pixel in column `x` of row `y`.
    pub fn get(&self, x: usize, y: usize) -> (r: bool)
        requires
            self@.wf(),
            x < self@.width,
            y < self@.height,
        ensures
            r == self@.bit(x as int, y as int),
    {
        let n: usize = self.bits.len();
        proof {
            lemma_index_in_grid(
                self@.width as int,
                self@.height as int,
                x as int,
                y as int,
            );
            assert(n as int == self@.width as int * self@.height as int);
        }
        let i: usize = y * self.width + x;
        self.bits[i]
    }

    /// Write the pixel in column `x` of row `y`.
    pub fn set(&mut self, x: usize, y: usize, value: bool)
        requires
            old(self)@.wf(),
            x < old(self)@.width,
            y < old(self)@.height,
        ensures
            final(self)@.wf(),
            final(self)@.width == old(self)@.width,
            final(self)@.height == old(self)@.height,
            final(self)@.bits == old(self)@.bits.update(
                y as int * old(self)@.width as int + x as int,
                value,
            ),
    {
        let n: usize = self.bits.len();
        proof {
            lemma_index_in_grid(
                self@.width as int,
                self@.height as int,
                x as int,
                y as int,
            );
            assert(n as int == self@.width as int * self@.height as int);
        }
        let i: usize = y * self.width + x;
        self.bits.set(i, value);
    }
}

impl Clone for Bitmap {
    fn clone(&self) -> (r: Self)
        ensures
            r@ == self@,
    {
        let mut bits: Vec<bool> = Vec::new();
        let mut i: usize = 0;
        while i < self.bits.len()
            invariant
                i <= self.bits@.len(),
                bits@ =~= self.bits@.subrange(0, i as int),
            decreases self.bits@.len() - i,
        {
            bits.push(self.bits[i]);
            i = i + 1;
        }
        proof {
            assert(bits@ =~= self.bits@);
        }
        Bitmap { width: self.width, height: self.height, bits }
    }
}

/// One BDF record: the vocabulary the stream encoder understands.
pub enum Entry {
    StartFont(String),
    Comment(String),
    ContentVersion(String),
    Font(String),
    Size(u16, u16, u16),
    FontBoundingBox(BoundingBox),
    StartProperties(usize),
    Property(String, Property),
    EndProperties,
    Chars(usize),
    StartChar(String),
    Encoding(char),
    ScalableWidth(u32, u32),
    DeviceWidth(u32, u32),
    BoundingBox(BoundingBox),
    Bitmap(Bitmap),
    EndChar,
    EndFont,
    Unknown(String),
}

/// The mathematical value of an `Entry`.
pub enum EntryV {
    StartFont(Seq<char>),
    Comment(Seq<char>),
    ContentVersion(Seq<char>),
    Font(Seq<char>),
    Size(int, int, int),
    FontBoundingBox(BoundingBox),
    StartProperties(int),
    Property(Seq<char>, PropertyV),
    EndProperties,
    Chars(int),
    StartChar(Seq<char>),
    Encoding(char),
    ScalableWidth(int, int),
    DeviceWidth(int, int),
    BoundingBox(BoundingBox),
    Bitmap(BitmapV),
    EndChar,
    EndFont,
    Unknown(Seq<char>),
}

impl View for Entry {
    type V = EntryV;

    open spec fn view(&self) -> EntryV {
        match self {
            Entry::StartFont(s) => EntryV::StartFont(s@),
            Entry::Comment(s) => EntryV::Comment(s@),
            Entry::ContentVersion(s) => EntryV::ContentVersion(s@),
            Entry::Font(s) => EntryV::Font(s@),
            Entry::Size(pt, x, y) => EntryV::Size(*pt as int, *x as int, *y as int),
            Entry::FontBoundingBox(b) => EntryV::FontBoundingBox(*b),
            Entry::StartProperties(n) => EntryV::StartProperties(*n as int),
            Entry::Property(name, value) => EntryV::Property(name@, value@),
            Entry::EndProperties => EntryV::EndProperties,
            Entry::Chars(n) => EntryV::Chars(*n as int),
            Entry::StartChar(s) => EntryV::StartChar(s@),
            Entry::Encoding(c) => EntryV::Encoding(*c),
            Entry::ScalableWidth(x, y) => EntryV::ScalableWidth(*x as int, *y as int),
            Entry::DeviceWidth(x, y) => EntryV::DeviceWidth(*x as int, *y as int),
            Entry::BoundingBox(b) => EntryV::BoundingBox(*b),
            Entry::Bitmap(m) => EntryV::Bitmap(m@),
            Entry::EndChar => EntryV::EndChar,
            Entry::EndFont => EntryV::EndFont,
            Entry::Unknown(s) => EntryV::Unknown(s@),
        }
    }
}

/// The four fields of a bounding box, space-separated.
pub open spec fn render_bbx(b: BoundingBox) -> Seq<char> {
    dec_int(b.width as int) + " "@ + dec_int(b.height as int) + " "@ + dec_int(b.x as int) + " "@
        + dec_int(b.y as int)
}

/// A property value's text: quoted verbatim for text, bare decimal for
/// an integer.
pub open spec fn render_prop(v: PropertyV) -> Seq<char> {
    match v {
        PropertyV::Str(s) => "\""@ + s + "\""@,
        PropertyV::Int(i) => dec_int(i),
    }
}

/// The value packed from the first `n` pixels of row `y`: each step
/// shifts left one bit and ors the pixel in, so column zero lands in
/// the most significant position.
pub open spec fn row_val(m: BitmapV, y: int, n: int) -> nat
    decreases n,
{
    if n <= 0 {
        0
    } else {
        2 * row_val(m, y, n - 1) + (if m.bit(n - 1, y) {
            1nat
        } else {
            0nat
        })
    }
}

/// The row value as the 64-bit accumulator holds it: the packed row,
/// truncated to 64 bits.
pub open spec fn row_u64(m: BitmapV, y: int) -> nat {
    row_val(m, y, m.width as int) % 0x1_0000_0000_0000_0000
}

/// The hex lines of the first `k` rows, each newline-terminated.
pub open spec fn render_rows(m: BitmapV, k: int) -> Seq<char>
    decreases k,
{
    if k <= 0 {
        Seq::empty()
    } else {
        render_rows(m, k - 1) + hex_min2(row_u64(m, k - 1)) + "\n"@
    }
}

/// The exact text a record serializes to.  `Unknown` has no rendering;
/// the encoder never accepts it.
pub open spec fn render_entry(e: EntryV) -> Seq<char> {
    match e {
        EntryV::StartFont(s) => "STARTFONT "@ + s + "\n"@,
        EntryV::Comment(s) => "COMMENT \""@ + s + "\"\n"@,
        EntryV::ContentVersion(s) => "CONTENTVERSION "@ + s + "\n"@,
        EntryV::Font(s) => "FONT "@ + s + "\n"@,
        EntryV::Size(pt, x, y) => "SIZE "@ + dec_int(pt) + " "@ + dec_int(x) + " "@ + dec_int(y)
            + "\n"@,
        EntryV::FontBoundingBox(b) => "FONTBOUNDINGBOX "@ + render_bbx(b) + "\n"@,
        EntryV::StartProperties(n) => "STARTPROPERTIES "@ + dec_int(n) + "\n"@,
        EntryV::Property(name, value) => name + " "@ + render_prop(value) + "\n"@,
        EntryV::EndProperties => "ENDPROPERTIES\n"@,
        EntryV::Chars(n) => "CHARS "@ + dec_int(n) + "\n"@,
        EntryV::StartChar(s) => "STARTCHAR "@ + s + "\n"@,
        EntryV::Encoding(c) => "ENCODING "@ + dec_int((c as u32) as int) + "\n"@,
        EntryV::ScalableWidth(x, y) => "SWIDTH "@ + dec_int(x) + " "@ + dec_int(y) + "\n"@,
        EntryV::DeviceWidth(x, y) => "DWIDTH "@ + dec_int(x) + " "@ + dec_int(y) + "\n"@,
        EntryV::BoundingBox(b) => "BBX "@ + render_bbx(b) + "\n"@,
        EntryV::Bitmap(m) => "BITMAP\n"@ + render_rows(m, m.height as int),
        EntryV::EndChar => "ENDCHAR\n"@,
        EntryV::EndFont => "ENDFONT\n"@,
        EntryV::Unknown(_) => Seq::empty(),
    }
}

/// A row of `n` columns packs to a value below two to the `n`.
pub proof fn lemma_row_val_bound(m: BitmapV, y: int, n: int)
    requires
        n >= 0,
    ensures
        row_val(m, y, n) < pow2(n as nat),
    decreases n,
{
    lemma_pow2(n as nat);
    if n == 0 {
        reveal(pow);
    } else {
        lemma_row_val_bound(m, y, n - 1);
        lemma_pow2((n - 1) as nat);
        reveal(pow);
        assert(pow(2, n as nat) == 2 * pow(2, (n - 1) as nat));
    }
}

/// Column zero lands in the most significant position: in a row of
/// `n` columns, the bit of weight two to the `n - 1 - x` holds the
/// pixel of column `x`.
pub proof fn lemma_row_val_bit(m: BitmapV, y: int, n: int, x: int)
    requires
        0 <= x < n,
    ensures
        (row_val(m, y, n) / pow2((n - 1 - x) as nat)) % 2 == (if m.bit(x, y) {
            1nat
        } else {
            0nat
        }),
    decreases n,
{
    let b: nat = if m.bit(n - 1, y) {
        1nat
    } else {
        0nat
    };
    assert(row_val(m, y, n) == 2 * row_val(m, y, n - 1) + b);
    if x == n - 1 {
        lemma_pow2(0);
        reveal(pow);
        assert(row_val(m, y, n) / pow2(0) == row_val(m, y, n));
        assert((2 * row_val(m, y, n - 1) + b) % 2 == b) by (nonlinear_arith)
            requires
                b < 2,
        ;
    } else {
        let k = n - 1 - x;
        lemma_pow2_unfold(k as nat);
        assert((2 * row_val(m, y, n - 1) + b) / 2 == row_val(m, y, n - 1)) by (nonlinear_arith)
            requires
                b < 2,
        ;
        lemma_pow2_pos((k - 1) as nat);
        lemma_div_denominator(row_val(m, y, n) as int, 2, pow2((k - 1) as nat) as int);
        assert(row_val(m, y, n) / pow2(k as nat) == row_val(m, y, n - 1) / pow2((k - 1) as nat));
        lemma_row_val_bit(m, y, n - 1, x);
    }
}

/// Every bitmap row emits the minimal hex digit count its packed value
/// calls for, with one pair as the floor; a row of at most eight
/// columns therefore always emits exactly one hex pair.
pub proof fn lemma_row_hex_width(m: BitmapV, y: int)
    ensures
        hex_min2(row_u64(m, y)).len() == if digits_of(row_u64(m, y), 16).len() <= 2 {
            2int
        } else {
            digits_of(row_u64(m, y), 16).len() as int
        },
        row_u64(m, y) < 256 ==> hex_min2(row_u64(m, y)).len() == 2,
        m.width <= 8 ==> hex_min2(row_u64(m, y)).len() == 2,
{
    let v = row_u64(m, y);
    assert(v < 0x1_0000_0000_0000_0000);
    lemma_hex_min2_len(v as u64);
    if m.width <= 8 {
        lemma_row_val_bound(m, y, m.width as int);
        if m.width < 8 {
            lemma_pow2_strictly_increases(m.width, 8);
        }
        lemma2_to64();
        lemma_small_mod(row_val(m, y, m.width as int), 0x1_0000_0000_0000_0000);
    }
}

/// The records the encoder accepts: everything but the `Unknown`
/// sentinel, with a bitmap's grid rectangular as its invariant asks.
pub open spec fn encodable(e: Entry) -> bool {
    match e {
        Entry::Unknown(_) => false,
        Entry::Bitmap(m) => m@.wf(),
        _ => true,
    }
}

/// Rendering is a pure function of the record's payload: two records
/// with the same mathematical value serialize to the same text, every
/// time.
pub proof fn lemma_render_deterministic(e1: Entry, e2: Entry)
    requires
        e1@ == e2@,
    ensures
        render_entry(e1@) == render_entry(e2@),
{
}

} // verus!
