//! Colours as the style editors store them: ACI integer strings.

use vstd::prelude::*;

use crate::text::{
    chars_of, decimal, digits_value, is_digit, is_ws, parse_i16, parse_i16_spec, push_decimal,
    push_str, trim, trim_bounds,
};

verus! {

/// A drawing colour.
#[derive(Clone, Copy, Debug, PartialEq, Eq, Structural)]
pub enum AciColor {
    ByLayer,
    ByBlock,
    /// ACAD colour index 1-255.
    Index(u8),
    Rgb { r: u8, g: u8, b: u8 },
    /// No colour.
    NoColor,
}

/// Which logical entries the colour list offers besides the standard ACI
/// colours.
#[derive(Clone, Copy, Debug)]
pub struct ColorExtras {
    pub by_layer: bool,
    pub by_block: bool,
}

impl Default for ColorExtras {
    fn default() -> (r: Self)
        ensures
            !r.by_layer && !r.by_block,
    {
        ColorExtras { by_layer: false, by_block: false }
    }
}

/// The ACI integer string a colour is stored as.
pub open spec fn aci_text(c: AciColor) -> Seq<char> {
    match c {
        AciColor::ByBlock => "0"@,
        AciColor::ByLayer => "256"@,
        AciColor::Index(i) => decimal(i as nat),
        AciColor::Rgb { .. } => "256"@,
        AciColor::NoColor => "256"@,
    }
}

/// The colour an ACI integer stands for.
pub open spec fn aci_color(n: int) -> AciColor {
    if n == 0 {
        AciColor::ByBlock
    } else if n == 256 {
        AciColor::ByLayer
    } else if 1 <= n <= 255 {
        AciColor::Index(n as u8)
    } else {
        AciColor::ByLayer
    }
}

/// The colour a stored ACI string decodes to: the trimmed text as an `i16`,
/// ByLayer when it is not one.
pub open spec fn color_of_text(s: Seq<char>) -> AciColor {
    match parse_i16_spec(trim(s)) {
        Some(n) => aci_color(n as int),
        None => AciColor::ByLayer,
    }
}

/// Encodes a colour as the ACI integer string the style editors store
/// (ByBlock = 0, ByLayer = 256, indexed 1-255; RGB and no colour have no ACI
/// slot, so they are stored as ByLayer).
pub fn color_to_aci_string(c: AciColor) -> (r: String)
    ensures
        r@ == aci_text(c),
{
    let mut s = String::new();
    match c {
        AciColor::ByBlock => push_str(&mut s, "0"),
        AciColor::ByLayer => push_str(&mut s, "256"),
        AciColor::Index(i) => push_decimal(&mut s, i as u64),
        AciColor::Rgb { .. } => push_str(&mut s, "256"),
        AciColor::NoColor => push_str(&mut s, "256"),
    }
    s
}

/// Decodes an ACI integer string back into a colour.
pub fn aci_string_to_color(s: &str) -> (r: AciColor)
    ensures
        r == color_of_text(s@),
{
    let cs = chars_of(s);
    let (lo, hi) = trim_bounds(cs.as_slice());
    let mut t: Vec<char> = Vec::new();
    let mut i = lo;
    while i < hi
        invariant
            lo <= i <= hi <= cs@.len(),
            t@ == cs@.subrange(lo as int, i as int),
        decreases hi - i,
    {
        t.push(cs[i]);
        assert(cs@.subrange(lo as int, i + 1) =~= cs@.subrange(lo as int, i as int).push(cs@[i as int]));
        i = i + 1;
    }
    let n: i16 = match parse_i16(t.as_slice()) {
        Some(n) => n,
        None => 256,
    };
    if n == 0 {
        AciColor::ByBlock
    } else if n == 256 {
        AciColor::ByLayer
    } else if 1 <= n && n <= 255 {
        AciColor::Index(n as u8)
    } else {
        AciColor::ByLayer
    }
}

proof fn lemma_decimal_digits(n: nat)
    ensures
        decimal(n).len() > 0,
        forall|i: int| 0 <= i < decimal(n).len() ==> is_digit(#[trigger] decimal(n)[i]),
        digits_value(decimal(n)) == n,
    decreases n,
{
    if n < 10 {
        let c = ((n + ('0' as nat)) as char);
        assert(c as int == n + 48);
        assert(decimal(n).drop_last() =~= Seq::<char>::empty());
        assert(digits_value(decimal(n).drop_last()) == 0);
    } else {
        lemma_decimal_digits(n / 10);
        let d = decimal(n);
        let c = (((n % 10) + ('0' as nat)) as char);
        assert(c as int == n % 10 + 48);
        assert(d.last() == c);
        assert(d.drop_last() =~= decimal(n / 10));
        assert(n == 10 * (n / 10) + n % 10);
        assert forall|i: int| 0 <= i < d.len() implies is_digit(#[trigger] d[i]) by {
            if i < d.len() - 1 {
                assert(d[i] == decimal(n / 10)[i]);
            }
        }
    }
}

proof fn lemma_trim_digits(s: Seq<char>)
    requires
        s.len() > 0,
        forall|i: int| 0 <= i < s.len() ==> is_digit(#[trigger] s[i]),
    ensures
        trim(s) == s,
{
    assert(!is_ws(s[0]));
    assert(crate::text::trim_start(s) == s);
    assert(!is_ws(s.last()));
}

/// Storing a colour and reading it back gives the colour, except RGB colours
/// and no colour, which come back as ByLayer (index 0 is no ACI colour and is left out).
pub proof fn lemma_aci_round_trip(c: AciColor)
    requires
        c matches AciColor::Index(i) ==> i >= 1,
    ensures
        color_of_text(aci_text(c)) == match c {
            AciColor::Rgb { .. } => AciColor::ByLayer,
            AciColor::NoColor => AciColor::ByLayer,
            _ => c,
        },
{
    reveal_strlit("0");
    reveal_strlit("256");
    match c {
        AciColor::Index(i) => {
            lemma_decimal_digits(i as nat);
            let d = decimal(i as nat);
            lemma_trim_digits(d);
            assert(is_digit(d[0]));
            assert(d[0] != '-' && d[0] != '+');
            assert(crate::text::is_digit_run(d));
            assert(crate::text::parse_unsigned(d) == Some(i as int));
            assert(crate::text::parse_signed(d) == Some(i as int));
            assert(parse_i16_spec(d) == Some(i as i16));
            assert((i as i16) as int == i as int);
            assert(aci_color(i as int) == AciColor::Index(i));
            assert(color_of_text(d) == AciColor::Index(i));
        },
        _ => {
            lemma_decimal_digits(0);
            lemma_decimal_digits(256);
            assert(((0nat + ('0' as nat)) as char) == '0');
            assert(decimal(0) =~= "0"@);
            assert(((2nat + ('0' as nat)) as char) == '2');
            assert(((5nat + ('0' as nat)) as char) == '5');
            assert(((6nat + ('0' as nat)) as char) == '6');
            assert(decimal(2) =~= seq!['2']);
            assert(decimal(25) =~= seq!['2', '5']);
            assert(decimal(256) =~= "256"@);
            lemma_trim_digits("0"@);
            lemma_trim_digits("256"@);
            assert(parse_i16_spec("0"@) == Some(0i16));
            assert(parse_i16_spec("256"@) == Some(256i16));
        },
    }
}


/// The named entries of the colour list, in the order they are offered:
/// ByLayer and ByBlock where `extras` asks for them, then ACI colours 1 to 9.
pub open spec fn named_color_list(extras: ColorExtras) -> Seq<AciColor> {
    let logical = (if extras.by_layer {
        seq![AciColor::ByLayer]
    } else {
        Seq::empty()
    }) + (if extras.by_block {
        seq![AciColor::ByBlock]
    } else {
        Seq::empty()
    });
    logical + Seq::new(9, |k: int| AciColor::Index((k + 1) as u8))
}

/// The number of palette cells per row.
pub const PALETTE_COLUMNS: usize = 16;

/// Row `i` of the palette grid: ACI colours `16 i + 1` onward, sixteen to a
/// row, the last row stopping at 255.
pub open spec fn palette_row(i: int) -> Seq<AciColor> {
    let start = 16 * i + 1;
    let end = if start + 16 <= 256 {
        start + 16
    } else {
        256
    };
    Seq::new((end - start) as nat, |k: int| AciColor::Index((start + k) as u8))
}

/// The named colours of the colour list.
pub fn named_colors(extras: ColorExtras) -> (r: Vec<AciColor>)
    ensures
        r@ == named_color_list(extras),
{
    let mut v: Vec<AciColor> = Vec::new();
    if extras.by_layer {
        v.push(AciColor::ByLayer);
    }
    if extras.by_block {
        v.push(AciColor::ByBlock);
    }
    let ghost logical = v@;
    let mut i: u8 = 1;
    while i <= 9
        invariant
            1 <= i <= 10,
            v@ == logical + Seq::new((i - 1) as nat, |k: int| AciColor::Index((k + 1) as u8)),
        decreases 10 - i,
    {
        v.push(AciColor::Index(i));
        assert(Seq::new(i as nat, |k: int| AciColor::Index((k + 1) as u8)) =~= Seq::new(
            (i - 1) as nat,
            |k: int| AciColor::Index((k + 1) as u8),
        ).push(AciColor::Index(i)));
        i = i + 1;
    }
    assert(v@ =~= named_color_list(extras));
    v
}

/// The full ACI palette (1 to 255) laid out as grid rows.
pub fn palette_rows() -> (r: Vec<Vec<AciColor>>)
    ensures
        r@.len() == 16,
        forall|i: int| 0 <= i < 16 ==> (#[trigger] r@[i])@ == palette_row(i),
{
    let mut rows: Vec<Vec<AciColor>> = Vec::new();
    let mut idx: u16 = 1;
    while idx <= 255
        invariant
            1 <= idx <= 256,
            idx == 16 * rows@.len() + 1 || (idx == 256 && rows@.len() == 16),
            rows@.len() <= 16,
            idx <= 255 ==> rows@.len() < 16,
            forall|i: int| 0 <= i < rows@.len() ==> (#[trigger] rows@[i])@ == palette_row(i),
        decreases 256 - idx,
    {
        let ghost row_no = rows@.len() as int;
        let mut row: Vec<AciColor> = Vec::new();
        let mut col: usize = 0;
        while col < PALETTE_COLUMNS && idx <= 255
            invariant
                col <= 16,
                idx == 16 * row_no + 1 + col,
                0 <= row_no < 16,
                idx <= 256,
                row@ =~= Seq::new(col as nat, |k: int| AciColor::Index((16 * row_no + 1 + k) as u8)),
            decreases 16 - col,
        {
            row.push(AciColor::Index(idx as u8));
            idx = idx + 1;
            col = col + 1;
        }
        assert(row@ =~= palette_row(row_no));
        rows.push(row);
    }
    rows
}

} // verus!
