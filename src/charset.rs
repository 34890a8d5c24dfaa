use crate::fixed::LUMA_MAX;
use vstd::prelude::*;

verus! {

/// The characters of `s`, in order.
pub fn chars_of(s: &str) -> (r: Vec<char>)
    ensures
        r@ == s@,
{
    let mut r: Vec<char> = Vec::new();
    for c in it: s.chars()
        invariant
            r@ == it.seq().take(it.index() as int),
            it.seq() == s@,
    {
        r.push(c);
    }
    r
}

/// Whether `name` spells `lit`.
pub fn is_named(name: &String, lit: &str) -> (r: bool)
    ensures
        r == (name@ == lit@),
{
    let s = lit.to_owned();
    *name == s
}

/// The glyph sets on offer.
#[derive(Clone, Copy, PartialEq, Eq, Structural, Debug)]
pub enum Charset {
    Standard,
    Matrix,
    Glitch,
    Runes,
    Arrows,
    Circuit,
    Blocks,
    Binary,
    Hex,
    Manual,
}

impl Charset {
    /// Sets picked by cell position rather than by brightness.
    pub open spec fn is_pattern(self) -> bool {
        match self {
            Charset::Matrix | Charset::Glitch | Charset::Runes | Charset::Arrows
            | Charset::Circuit | Charset::Manual => true,
            _ => false,
        }
    }

    pub fn pattern(self) -> (r: bool)
        ensures
            r == self.is_pattern(),
    {
        match self {
            Charset::Matrix | Charset::Glitch | Charset::Runes | Charset::Arrows
            | Charset::Circuit | Charset::Manual => true,
            _ => false,
        }
    }
}

/// The set a name selects; any name not listed selects the standard ramp.
pub open spec fn charset_named(name: Seq<char>) -> Charset {
    if name == "matrix"@ {
        Charset::Matrix
    } else if name == "glitch"@ {
        Charset::Glitch
    } else if name == "runes"@ {
        Charset::Runes
    } else if name == "arrows"@ {
        Charset::Arrows
    } else if name == "circuit"@ {
        Charset::Circuit
    } else if name == "blocks"@ {
        Charset::Blocks
    } else if name == "binary"@ {
        Charset::Binary
    } else if name == "hex"@ {
        Charset::Hex
    } else if name == "manual"@ {
        Charset::Manual
    } else {
        Charset::Standard
    }
}

pub fn charset_from_name(name: &String) -> (r: Charset)
    ensures
        r == charset_named(name@),
{
    if is_named(name, "matrix") {
        Charset::Matrix
    } else if is_named(name, "glitch") {
        Charset::Glitch
    } else if is_named(name, "runes") {
        Charset::Runes
    } else if is_named(name, "arrows") {
        Charset::Arrows
    } else if is_named(name, "circuit") {
        Charset::Circuit
    } else if is_named(name, "blocks") {
        Charset::Blocks
    } else if is_named(name, "binary") {
        Charset::Binary
    } else if is_named(name, "hex") {
        Charset::Hex
    } else if is_named(name, "manual") {
        Charset::Manual
    } else {
        Charset::Standard
    }
}

/// The standard density ramp, densest glyph first.
pub const STANDARD_RAMP: &'static str =
    "$@B%8&WM#*oahkbdpqwmZO0QLCJUYXzcvunxrjft/\\|()1{}[]?-_+~<>i!lI;:,\"^`'. ";

pub const MATRIX_RAMP: &'static str = "ﾊﾐﾋｰｳｼﾅﾓﾆｻﾜﾂｵﾘｱﾎﾃﾏｹﾒｴｶｷﾑﾕﾗｾﾈｽﾀﾇﾍ";

pub const GLITCH_RAMP: &'static str =
    "¡¢£¤¥¦§¨©ª«¬®¯°±²³´µ¶·¸¹º»¼½¾¿ÀÁÂÃÄÅÆÇÈÉÊËÌÍÎÏÐÑÒÓÔÕÖ×ØÙÚÛÜÝÞßàáâãäåæçèéêëìíîïðñòóôõö÷øùúûüýþÿ";

pub const RUNES_RAMP: &'static str =
    "ᚠᚡᚢᚣᚤᚥᚦᚧᚨᚩᚪᚫᚬᚭᚮᚯᚰᚱᚲᚳᚴᚵᚶᚷᚸᚹᚺᚻᚼᚽᚾᚿᛀᛁᛂᛃᛄᛅᛆᛇᛈᛉᛊᛋᛌᛍᛎᛏᛐᛑᛒᛓᛔᛕᛖᛗᛘᛙᛚᛛᛜᛝᛞᛟᛠᛡᛢᛣᛤᛥᛦᛧᛨᛩᛪ᛫᛬᛭ᛮᛯᛰ";

pub const ARROWS_RAMP: &'static str =
    "←↑→↓↔↕↖↗↘↙↚↛↜↝↞↟↠↡↢↣↤↥↦↧↨↩↪↫↬↭↮↯↰↱↲↳↴↵↶↷↸↹↺↻↼↽↾↿⇀⇁⇂⇃⇄⇅⇆⇇⇈⇉⇊⇋⇌⇍⇎⇏⇐⇑⇒⇓⇔⇕⇖⇗⇘⇙⇚⇛";

pub const CIRCUIT_RAMP: &'static str = "─│┌┐└┘├┤┬┴┼═║╒╓╔╕╖╗╘╙╚╛╜╝╞╟╠╡╢╣╤╥╦╧╨╩╪╫╬";

pub const BLOCKS_RAMP: &'static str = "█▓▒░ ";

pub const BINARY_RAMP: &'static str = "101010 ";

pub const HEX_RAMP: &'static str = "0123456789ABCDEF ";

/// The glyphs of a set; the manual set is the user's own string.
pub open spec fn ramp_text(c: Charset, manual: Seq<char>) -> Seq<char> {
    match c {
        Charset::Standard => STANDARD_RAMP@,
        Charset::Matrix => MATRIX_RAMP@,
        Charset::Glitch => GLITCH_RAMP@,
        Charset::Runes => RUNES_RAMP@,
        Charset::Arrows => ARROWS_RAMP@,
        Charset::Circuit => CIRCUIT_RAMP@,
        Charset::Blocks => BLOCKS_RAMP@,
        Charset::Binary => BINARY_RAMP@,
        Charset::Hex => HEX_RAMP@,
        Charset::Manual => manual,
    }
}

pub fn ramp(c: Charset, manual: &str) -> (r: Vec<char>)
    ensures
        r@ == ramp_text(c, manual@),
{
    let text = match c {
        Charset::Standard => STANDARD_RAMP,
        Charset::Matrix => MATRIX_RAMP,
        Charset::Glitch => GLITCH_RAMP,
        Charset::Runes => RUNES_RAMP,
        Charset::Arrows => ARROWS_RAMP,
        Charset::Circuit => CIRCUIT_RAMP,
        Charset::Blocks => BLOCKS_RAMP,
        Charset::Binary => BINARY_RAMP,
        Charset::Hex => HEX_RAMP,
        Charset::Manual => manual,
    };
    chars_of(text)
}

/// Density glyph index `floor(v / 255 * (len - 1))`, `v` in thousandths.
pub open spec fn density_index(v: int, len: int) -> int {
    v * (len - 1) / (LUMA_MAX as int)
}

/// Pattern glyph index `(x + y) mod len`.
pub open spec fn pattern_index(x: int, y: int, len: int) -> int {
    (x + y) % len
}

pub fn density_index_exec(v: u32, len: usize) -> (r: usize)
    requires
        v <= LUMA_MAX,
        len > 0,
    ensures
        r == density_index(v as int, len as int),
        r < len,
{
    proof {
        lemma_density_index_bounds(v as int, len as int);
        assert(v * (len - 1) <= 255000 * 0xffff_ffff_ffff_ffff) by (nonlinear_arith)
            requires
                0 <= v <= 255000,
                0 <= len - 1 <= 0xffff_ffff_ffff_ffff,
        ;
    }
    ((v as u128) * ((len - 1) as u128) / (LUMA_MAX as u128)) as usize
}

pub fn pattern_index_exec(x: usize, y: usize, len: usize) -> (r: usize)
    requires
        len > 0,
        x + y <= usize::MAX,
    ensures
        r == pattern_index(x as int, y as int, len as int),
        r < len,
{
    (x + y) % len
}

/// In density mode, black takes the first glyph, full white the last one,
/// and every luminance in range a glyph of the ramp.
pub proof fn lemma_density_index_bounds(v: int, len: int)
    requires
        0 <= v <= LUMA_MAX,
        len > 0,
    ensures
        0 <= density_index(v, len) < len,
        density_index(0, len) == 0,
        density_index(LUMA_MAX as int, len) == len - 1,
{
    let m = LUMA_MAX as int;
    assert(0 <= v * (len - 1) <= m * (len - 1)) by (nonlinear_arith)
        requires
            0 <= v <= m,
            len > 0,
    ;
    vstd::arithmetic::div_mod::lemma_div_is_ordered(0, v * (len - 1), m);
    vstd::arithmetic::div_mod::lemma_div_is_ordered(v * (len - 1), m * (len - 1), m);
    vstd::arithmetic::div_mod::lemma_div_multiples_vanish(len - 1, m);
    assert(0 * (len - 1) == 0);
}

} // verus!
