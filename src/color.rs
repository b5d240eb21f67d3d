//! Colours: the 8-bit RGB value type, hex parsing through `palette`, and the
//! colour cycle built from the theme presets.
use vstd::prelude::*;

verus! {

/// An 8-bit-per-channel sRGB colour.
#[derive(Clone, Copy, Debug, PartialEq, Eq, Structural)]
pub struct Rgb {
    pub r: u8,
    pub g: u8,
    pub b: u8,
}

#[verifier::external_type_specification]
#[verifier::external_body]
pub struct ExFromHexError(palette::rgb::FromHexError);

/// The value of a hexadecimal digit, or -1 for any other character.
pub open spec fn hex_digit_value(c: char) -> int {
    let n = c as u32;
    if 0x30 <= n <= 0x39 {
        n - 0x30
    } else if 0x61 <= n <= 0x66 {
        n - 0x61 + 10
    } else if 0x41 <= n <= 0x46 {
        n - 0x41 + 10
    } else {
        -1
    }
}

/// The byte written by the two hex digits at `i` and `i + 1`.
pub open spec fn hex_pair(s: Seq<char>, i: int) -> int {
    16 * hex_digit_value(s[i]) + hex_digit_value(s[i + 1])
}

/// `s` is `#` followed by six hexadecimal digits.
pub open spec fn is_hex_code(s: Seq<char>) -> bool {
    &&& s.len() == 7
    &&& s[0] == '#'
    &&& forall|i: int| 1 <= i < 7 ==> hex_digit_value(#[trigger] s[i]) >= 0
}

pub open spec fn is_ascii_text(s: Seq<char>) -> bool {
    forall|i: int| 0 <= i < s.len() ==> (#[trigger] s[i] as u32) < 128
}

/// The colour a `#rrggbb` code stands for.
pub open spec fn hex_code_color(s: Seq<char>) -> Rgb {
    Rgb { r: hex_pair(s, 1) as u8, g: hex_pair(s, 3) as u8, b: hex_pair(s, 5) as u8 }
}

/// Relies on `FromStr` for `palette::Srgb<u8>`: a `#rrggbb` code parses to its
/// three bytes. It slices by byte offsets, so the text must be ASCII.
#[verifier::external_body]
fn parse_hex(s: &str) -> (r: Result<Rgb, palette::rgb::FromHexError>)
    requires
        is_ascii_text(s@),
    ensures
        is_hex_code(s@) ==> r is Ok && r->Ok_0 == hex_code_color(s@),
{
    s.parse::<palette::Srgb<u8>>().map(|c| Rgb { r: c.red, g: c.green, b: c.blue })
}

/// The fixed warm off-white in which every character of the scene is drawn.
pub open spec fn spec_foreground() -> Rgb {
    Rgb { r: 0xFF, g: 0xE0, b: 0x9B }
}

/// The foreground colour, parsed from its hex code `#FFE09B`.
pub fn foreground() -> (r: Rgb)
    ensures
        r == spec_foreground(),
{
    let code = "#FFE09B";
    proof {
        reveal_strlit("#FFE09B");
    }
    let parsed = parse_hex(code);
    assert(is_hex_code(code@));
    parsed.unwrap()
}

/// The colour cycle of a list of presets: their colours one after another, in
/// the presets' order, each preset's own order kept, nothing removed.
pub open spec fn cycle_of(presets: Seq<Vec<Rgb>>) -> Seq<Rgb> {
    presets.map_values(|p: Vec<Rgb>| p@).flatten()
}

/// Concatenates the colours of every preset into one colour cycle.
pub fn assemble_cycle(presets: &Vec<Vec<Rgb>>) -> (r: Vec<Rgb>)
    ensures
        r@ == cycle_of(presets@),
{
    let mut out: Vec<Rgb> = Vec::new();
    let mut i: usize = 0;
    while i < presets.len()
        invariant
            0 <= i <= presets.len(),
            out@ == cycle_of(presets@.subrange(0, i as int)),
        decreases presets.len() - i,
    {
        let preset = &presets[i];
        let mut j: usize = 0;
        while j < preset.len()
            invariant
                0 <= i < presets.len(),
                preset == presets@[i as int],
                0 <= j <= preset.len(),
                out@ == cycle_of(presets@.subrange(0, i as int)) + preset@.subrange(0, j as int),
            decreases preset.len() - j,
        {
            out.push(preset[j]);
            j += 1;
            proof {
                assert(preset@.subrange(0, j as int) =~= preset@.subrange(0, j - 1).push(preset@[j - 1]));
            }
        }
        proof {
            let before = presets@.subrange(0, i as int);
            let after = presets@.subrange(0, i + 1);
            assert(after =~= before.push(presets@[i as int]));
            assert(after.map_values(|p: Vec<Rgb>| p@) =~= before.map_values(|p: Vec<Rgb>| p@).push(preset@));
            before.map_values(|p: Vec<Rgb>| p@).lemma_flatten_push(preset@);
            assert(preset@.subrange(0, j as int) =~= preset@);
        }
        i += 1;
    }
    proof {
        assert(presets@.subrange(0, i as int) =~= presets@);
    }
    out
}

} // verus!
