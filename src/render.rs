use crate::charset::{
    charset_from_name, charset_named, density_index, density_index_exec, is_named, pattern_index,
    pattern_index_exec, ramp, ramp_text, Charset,
};
use crate::dither::{apply_floyd_steinberg, apply_noise, diffused_upto, noise_offset};
use crate::edges::{apply_sobel, is_edge};
use crate::fixed::{clamp_luma, LUMA_MAX};
use crate::grid::{
    cell_side, cell_side_spec, grid_height, grid_height_spec, lemma_cell_coords, GLYPH_HEIGHT,
    GLYPH_WIDTH,
};
use crate::luminance::{cell_color, cell_luma, sample_frame, sampled_pixel, Rgb, Tone, SINGULAR_CONTRAST};
use vstd::prelude::*;

verus! {

/// Why a frame could not be processed.
#[derive(Clone, Copy, PartialEq, Eq, Structural, Debug)]
pub enum ConfigError {
    /// The frame has no pixels across or down.
    EmptyFrame,
    /// The grid width is zero.
    ZeroGridWidth,
    /// The frame is too flat for a single row of cells.
    ZeroGridHeight,
    /// The grid holds more cells than can be addressed.
    GridTooLarge,
    /// The contrast sits at the value where its factor has no value.
    SingularContrast,
    /// The selected glyph set is empty.
    EmptyCharset,
    /// The colour mode is not one of `mono`, `true`, `rainbow`.
    UnknownColorMode,
    /// Noise dithering was asked for without one sample per cell.
    NoiseSamples,
}

#[derive(Clone, Copy, PartialEq, Eq, Structural, Debug)]
pub enum EdgeMode {
    Off,
    Sobel,
}

#[derive(Clone, Copy, PartialEq, Eq, Structural, Debug)]
pub enum DitherMode {
    Off,
    ErrorDiffusion,
    Noise,
}

#[derive(Clone, Copy, PartialEq, Eq, Structural, Debug)]
pub enum ColorMode {
    Mono,
    TrueColor,
    Rainbow,
}

/// The options as the caller hands them over. Brightness, contrast and the
/// edge threshold are in whole luminance units, the zoom in hundredths.
pub struct Options {
    pub ascii_width: u32,
    pub brightness: i32,
    pub contrast: i32,
    pub dithering: bool,
    pub dither_algo: String,
    pub invert: bool,
    pub ignore_white: bool,
    pub charset: String,
    pub color_mode: String,
    pub edge_method: String,
    pub edge_threshold: i32,
    pub zoom_pct: u32,
    pub primary_color: String,
    pub manual_char: String,
}

/// The options with every mode resolved.
#[derive(Clone, Copy, PartialEq, Eq, Structural, Debug)]
pub struct Settings {
    pub grid_width: u32,
    pub zoom_pct: u32,
    pub tone: Tone,
    pub edge: EdgeMode,
    pub edge_threshold: i32,
    pub dither: DitherMode,
    pub ignore_white: bool,
    pub charset: Charset,
    pub color: ColorMode,
}

/// Resolved settings and the glyphs of the selected set.
pub struct Config {
    pub settings: Settings,
    pub ramp: Vec<char>,
}

pub open spec fn dither_of(o: &Options) -> DitherMode {
    if !o.dithering {
        DitherMode::Off
    } else if o.dither_algo@ == "floyd"@ {
        DitherMode::ErrorDiffusion
    } else if o.dither_algo@ == "noise"@ {
        DitherMode::Noise
    } else {
        DitherMode::Off
    }
}

pub open spec fn edge_of(o: &Options) -> EdgeMode {
    if o.edge_method@ == "sobel"@ {
        EdgeMode::Sobel
    } else {
        EdgeMode::Off
    }
}

pub open spec fn color_of(name: Seq<char>) -> Option<ColorMode> {
    if name == "mono"@ {
        Some(ColorMode::Mono)
    } else if name == "true"@ {
        Some(ColorMode::TrueColor)
    } else if name == "rainbow"@ {
        Some(ColorMode::Rainbow)
    } else {
        None
    }
}

pub open spec fn ramp_of(o: &Options) -> Seq<char> {
    ramp_text(charset_named(o.charset@), o.manual_char@)
}

/// The first problem found in the options, if any.
pub open spec fn options_error(o: &Options) -> Option<ConfigError> {
    if o.ascii_width == 0 {
        Some(ConfigError::ZeroGridWidth)
    } else if o.contrast == SINGULAR_CONTRAST {
        Some(ConfigError::SingularContrast)
    } else if ramp_of(o).len() == 0 {
        Some(ConfigError::EmptyCharset)
    } else if color_of(o.color_mode@) is None {
        Some(ConfigError::UnknownColorMode)
    } else {
        None
    }
}

/// The settings that valid options resolve to.
pub open spec fn settings_of(o: &Options) -> Settings {
    Settings {
        grid_width: o.ascii_width,
        zoom_pct: o.zoom_pct,
        tone: Tone { invert: o.invert, contrast: o.contrast, brightness: o.brightness },
        edge: edge_of(o),
        edge_threshold: o.edge_threshold,
        dither: dither_of(o),
        ignore_white: o.ignore_white,
        charset: charset_named(o.charset@),
        color: color_of(o.color_mode@).unwrap(),
    }
}

impl Config {
    pub open spec fn wf(&self) -> bool {
        &&& self.settings.grid_width > 0
        &&& self.settings.tone.wf()
        &&& self.ramp.len() > 0
    }

    /// Resolves the options once, before any frame is touched.
    pub fn from_options(o: &Options) -> (r: Result<Config, ConfigError>)
        ensures
            match r {
                Ok(c) => {
                    &&& options_error(o) is None
                    &&& c.settings == settings_of(o)
                    &&& c.ramp@ == ramp_of(o)
                    &&& c.wf()
                },
                Err(e) => options_error(o) == Some(e),
            },
    {
        if o.ascii_width == 0 {
            return Err(ConfigError::ZeroGridWidth);
        }
        if o.contrast == SINGULAR_CONTRAST {
            return Err(ConfigError::SingularContrast);
        }
        let charset = charset_from_name(&o.charset);
        let glyphs = ramp(charset, o.manual_char.as_str());
        if glyphs.len() == 0 {
            return Err(ConfigError::EmptyCharset);
        }
        let color = if is_named(&o.color_mode, "mono") {
            ColorMode::Mono
        } else if is_named(&o.color_mode, "true") {
            ColorMode::TrueColor
        } else if is_named(&o.color_mode, "rainbow") {
            ColorMode::Rainbow
        } else {
            return Err(ConfigError::UnknownColorMode);
        };
        let dither = if !o.dithering {
            DitherMode::Off
        } else if is_named(&o.dither_algo, "floyd") {
            DitherMode::ErrorDiffusion
        } else if is_named(&o.dither_algo, "noise") {
            DitherMode::Noise
        } else {
            DitherMode::Off
        };
        let edge = if is_named(&o.edge_method, "sobel") {
            EdgeMode::Sobel
        } else {
            EdgeMode::Off
        };
        let settings = Settings {
            grid_width: o.ascii_width,
            zoom_pct: o.zoom_pct,
            tone: Tone { invert: o.invert, contrast: o.contrast, brightness: o.brightness },
            edge,
            edge_threshold: o.edge_threshold,
            dither,
            ignore_white: o.ignore_white,
            charset,
            color,
        };
        Ok(Config { settings, ramp: glyphs })
    }
}

/// Grid and pixel dimensions of one rendered frame.
#[derive(Clone, Copy, PartialEq, Eq, Structural, Debug)]
pub struct Layout {
    pub grid_width: u32,
    pub grid_height: u32,
    pub cell_width: u64,
    pub cell_height: u64,
    pub canvas_width: u64,
    pub canvas_height: u64,
}

impl Layout {
    pub open spec fn wf(self) -> bool {
        &&& self.grid_width > 0
        &&& self.grid_height > 0
        &&& self.grid_width * self.grid_height <= u32::MAX
        &&& self.cell_width <= 0x4000_0000
        &&& self.cell_height <= 0x4000_0000
    }

    pub open spec fn cells(self) -> int {
        self.grid_width * self.grid_height
    }
}

/// Why no layout exists for a frame and a grid width, if so.
pub open spec fn layout_error(fw: int, fh: int, gw: int) -> Option<ConfigError> {
    if fw == 0 || fh == 0 {
        Some(ConfigError::EmptyFrame)
    } else if gw == 0 {
        Some(ConfigError::ZeroGridWidth)
    } else if grid_height_spec(fw, fh, gw) == 0 {
        Some(ConfigError::ZeroGridHeight)
    } else if gw * grid_height_spec(fw, fh, gw) > u32::MAX {
        Some(ConfigError::GridTooLarge)
    } else {
        None
    }
}

pub open spec fn layout_spec(fw: int, fh: int, gw: int, zoom_pct: int) -> Layout {
    let gh = grid_height_spec(fw, fh, gw);
    let cw = cell_side_spec(GLYPH_WIDTH as int, zoom_pct);
    let ch = cell_side_spec(GLYPH_HEIGHT as int, zoom_pct);
    Layout {
        grid_width: gw as u32,
        grid_height: gh as u32,
        cell_width: cw as u64,
        cell_height: ch as u64,
        canvas_width: (gw * cw) as u64,
        canvas_height: (gh * ch) as u64,
    }
}

/// Sizes the grid, the glyph cells and the canvas for a frame.
pub fn plan_layout(frame_width: u32, frame_height: u32, grid_width: u32, zoom_pct: u32) -> (r:
    Result<Layout, ConfigError>)
    ensures
        match r {
            Ok(l) => {
                &&& layout_error(frame_width as int, frame_height as int, grid_width as int) is None
                &&& l == layout_spec(
                    frame_width as int,
                    frame_height as int,
                    grid_width as int,
                    zoom_pct as int,
                )
                &&& l.wf()
            },
            Err(e) => layout_error(frame_width as int, frame_height as int, grid_width as int)
                == Some(e),
        },
{
    if frame_width == 0 || frame_height == 0 {
        return Err(ConfigError::EmptyFrame);
    }
    if grid_width == 0 {
        return Err(ConfigError::ZeroGridWidth);
    }
    let gh = grid_height(frame_width, frame_height, grid_width);
    if gh == 0 {
        return Err(ConfigError::ZeroGridHeight);
    }
    if gh <= u32::MAX as u64 {
        assert(grid_width * gh <= 0xffff_ffff * 0xffff_ffff) by (nonlinear_arith)
            requires
                grid_width <= 0xffff_ffff,
                gh <= 0xffff_ffff,
        ;
    }
    if gh > u32::MAX as u64 || (grid_width as u64) * gh > u32::MAX as u64 {
        proof {
            if gh <= u32::MAX {
                assert(grid_width * gh > u32::MAX);
            } else {
                assert(grid_width * gh >= gh) by (nonlinear_arith)
                    requires
                        grid_width >= 1,
                        gh >= 0,
                ;
            }
        }
        return Err(ConfigError::GridTooLarge);
    }
    let cw = cell_side(GLYPH_WIDTH, zoom_pct);
    let ch = cell_side(GLYPH_HEIGHT, zoom_pct);
    proof {
        vstd::arithmetic::div_mod::lemma_div_is_ordered(
            12 * zoom_pct + 50,
            51539607590int,
            100,
        );
        vstd::arithmetic::div_mod::lemma_div_is_ordered(7 * zoom_pct + 50, 12 * zoom_pct + 50, 100);
        crate::fixed::lemma_div_below(51539607590int, 100, 0x4000_0000);
        assert(grid_width * cw <= 0xffff_ffff * 0x4000_0000) by (nonlinear_arith)
            requires
                grid_width <= 0xffff_ffff,
                cw <= 0x4000_0000,
        ;
        assert(gh * ch <= 0xffff_ffff * 0x4000_0000) by (nonlinear_arith)
            requires
                gh <= 0xffff_ffff,
                ch <= 0x4000_0000,
        ;
    }
    Ok(
        Layout {
            grid_width,
            grid_height: gh as u32,
            cell_width: cw,
            cell_height: ch,
            canvas_width: grid_width as u64 * cw,
            canvas_height: gh * ch,
        },
    )
}

/// How a glyph is coloured. With `Primary` the configured colour is used and
/// the opacity is applied on its own; the other two carry the opacity inside
/// the colour.
#[derive(Clone, Copy, PartialEq, Eq, Structural, Debug)]
pub enum Fill {
    Primary,
    Sampled(Rgb),
    /// A hue in thousandths of a degree, at full saturation and half lightness.
    Hue(u32),
}

/// One glyph placed on the canvas. `opacity` is out of `LUMA_MAX`.
#[derive(Clone, Copy, PartialEq, Eq, Structural, Debug)]
pub struct DrawCommand {
    pub col: u32,
    pub row: u32,
    pub x: u64,
    pub y: u64,
    pub glyph: char,
    pub fill: Fill,
    pub opacity: u32,
}

/// Rainbow hue of column `x`: `x / gw * 360` degrees, advanced by
/// `clock_ms / 20` degrees, in thousandths of a degree modulo a full turn.
pub open spec fn hue_spec(x: int, gw: int, clock_ms: int) -> int {
    (x * 360000 / gw + (clock_ms % 7200) * 50) % 360000
}

pub open spec fn fill_spec(mode: ColorMode, c: Rgb, x: int, gw: int, clock_ms: int) -> Fill {
    match mode {
        ColorMode::Mono => Fill::Primary,
        ColorMode::TrueColor => Fill::Sampled(c),
        ColorMode::Rainbow => Fill::Hue(hue_spec(x, gw, clock_ms) as u32),
    }
}

/// Luminance that decides a cell: an edge cell counts as black.
pub open spec fn effective_luma(lum: int, edge: bool) -> int {
    if edge {
        0
    } else {
        lum
    }
}

/// Brightest luminance still drawn when bright cells are ignored.
pub const WHITE_CUTOFF: u32 = 250000;

/// Dimmest luminance drawn in pattern mode: an opacity of one tenth.
pub const VISIBILITY_FLOOR: u32 = 25500;

/// What cell `(x, y)` draws, if anything.
pub open spec fn cell_command(
    s: Settings,
    ramp: Seq<char>,
    lay: Layout,
    clock_ms: int,
    lum: int,
    edge: bool,
    c: Rgb,
    x: int,
    y: int,
) -> Option<DrawCommand> {
    let v = effective_luma(lum, edge);
    let pattern = s.charset.is_pattern();
    if s.ignore_white && v > WHITE_CUTOFF {
        None
    } else if pattern && v < VISIBILITY_FLOOR {
        None
    } else {
        let idx = if pattern {
            pattern_index(x, y, ramp.len() as int)
        } else {
            density_index(v, ramp.len() as int)
        };
        Some(
            DrawCommand {
                col: x as u32,
                row: y as u32,
                x: (x * lay.cell_width) as u64,
                y: (y * lay.cell_height) as u64,
                glyph: ramp[idx],
                fill: fill_spec(s.color, c, x, lay.grid_width as int, clock_ms),
                opacity: if pattern {
                    v as u32
                } else {
                    LUMA_MAX
                },
            },
        )
    }
}

/// Commands of the first `n` cells, row-major, skipped cells left out.
pub open spec fn commands_upto(
    s: Settings,
    ramp: Seq<char>,
    lay: Layout,
    clock_ms: int,
    lum: Seq<u32>,
    edges: Seq<bool>,
    colors: Seq<Rgb>,
    n: nat,
) -> Seq<DrawCommand>
    decreases n,
{
    if n == 0 {
        Seq::empty()
    } else {
        let prev = commands_upto(s, ramp, lay, clock_ms, lum, edges, colors, (n - 1) as nat);
        let i = n - 1;
        let gw = lay.grid_width as int;
        match cell_command(
            s,
            ramp,
            lay,
            clock_ms,
            lum[i] as int,
            edges[i],
            colors[i],
            i % gw,
            i / gw,
        ) {
            Some(cmd) => prev.push(cmd),
            None => prev,
        }
    }
}

/// With bright cells ignored, a cell brighter than the cut-off draws nothing,
/// whatever the colour mode and glyph set.
pub proof fn lemma_bright_cell_skipped(
    s: Settings,
    ramp: Seq<char>,
    lay: Layout,
    clock_ms: int,
    lum: int,
    edge: bool,
    c: Rgb,
    x: int,
    y: int,
)
    requires
        s.ignore_white,
        effective_luma(lum, edge) > WHITE_CUTOFF,
    ensures
        cell_command(s, ramp, lay, clock_ms, lum, edge, c, x, y) is None,
{
}

/// In pattern mode a cell below one tenth opacity draws nothing.
pub proof fn lemma_faint_pattern_cell_skipped(
    s: Settings,
    ramp: Seq<char>,
    lay: Layout,
    clock_ms: int,
    lum: int,
    edge: bool,
    c: Rgb,
    x: int,
    y: int,
)
    requires
        s.charset.is_pattern(),
        effective_luma(lum, edge) < VISIBILITY_FLOOR,
    ensures
        cell_command(s, ramp, lay, clock_ms, lum, edge, c, x, y) is None,
{
}

/// In density mode a black cell draws the first (densest) glyph of the ramp,
/// fully opaque.
pub proof fn lemma_black_cell_densest_glyph(
    s: Settings,
    ramp: Seq<char>,
    lay: Layout,
    clock_ms: int,
    lum: int,
    edge: bool,
    c: Rgb,
    x: int,
    y: int,
)
    requires
        !s.charset.is_pattern(),
        ramp.len() > 0,
        effective_luma(lum, edge) == 0,
    ensures
        cell_command(s, ramp, lay, clock_ms, lum, edge, c, x, y) is Some,
        cell_command(s, ramp, lay, clock_ms, lum, edge, c, x, y)->Some_0.glyph == ramp[0],
        cell_command(s, ramp, lay, clock_ms, lum, edge, c, x, y)->Some_0.opacity == LUMA_MAX,
{
    crate::charset::lemma_density_index_bounds(0, ramp.len() as int);
}

/// Every emitted command is the one that some cell among the first `n` draws.
pub proof fn lemma_commands_come_from_cells(
    s: Settings,
    ramp: Seq<char>,
    lay: Layout,
    clock_ms: int,
    lum: Seq<u32>,
    edges: Seq<bool>,
    colors: Seq<Rgb>,
    n: nat,
)
    ensures
        forall|k: int|
            0 <= k < commands_upto(s, ramp, lay, clock_ms, lum, edges, colors, n).len() ==> exists|
                i: int,
            |
                0 <= i < n && cell_command(
                    s,
                    ramp,
                    lay,
                    clock_ms,
                    lum[i] as int,
                    edges[i],
                    colors[i],
                    i % (lay.grid_width as int),
                    i / (lay.grid_width as int),
                ) == Some(#[trigger] commands_upto(s, ramp, lay, clock_ms, lum, edges, colors, n)[k]),
    decreases n,
{
    if n > 0 {
        let gw = lay.grid_width as int;
        let prev = commands_upto(s, ramp, lay, clock_ms, lum, edges, colors, (n - 1) as nat);
        let cur = commands_upto(s, ramp, lay, clock_ms, lum, edges, colors, n);
        lemma_commands_come_from_cells(s, ramp, lay, clock_ms, lum, edges, colors, (n - 1) as nat);
        let last = n - 1;
        assert forall|k: int| 0 <= k < cur.len() implies exists|i: int|
            0 <= i < n && cell_command(
                s,
                ramp,
                lay,
                clock_ms,
                lum[i] as int,
                edges[i],
                colors[i],
                i % gw,
                i / gw,
            ) == Some(#[trigger] cur[k]) by {
            if k < prev.len() {
                assert(cur[k] == prev[k]);
                let i = choose|i: int|
                    0 <= i < n - 1 && cell_command(
                        s,
                        ramp,
                        lay,
                        clock_ms,
                        lum[i] as int,
                        edges[i],
                        colors[i],
                        i % gw,
                        i / gw,
                    ) == Some(prev[k]);
                assert(0 <= i < n);
            } else {
                assert(cell_command(
                    s,
                    ramp,
                    lay,
                    clock_ms,
                    lum[last] as int,
                    edges[last],
                    colors[last],
                    last % gw,
                    last / gw,
                ) == Some(cur[k]));
            }
        }
    }
}

/// A cell that draws nothing has no command at its position in the output.
pub proof fn lemma_silent_cell_has_no_command(
    s: Settings,
    ramp: Seq<char>,
    lay: Layout,
    clock_ms: int,
    lum: Seq<u32>,
    edges: Seq<bool>,
    colors: Seq<Rgb>,
    i: int,
)
    requires
        lay.wf(),
        0 <= i < lay.cells(),
        cell_command(
            s,
            ramp,
            lay,
            clock_ms,
            lum[i] as int,
            edges[i],
            colors[i],
            i % (lay.grid_width as int),
            i / (lay.grid_width as int),
        ) is None,
    ensures
        forall|k: int|
            0 <= k < commands_upto(s, ramp, lay, clock_ms, lum, edges, colors, lay.cells() as nat).len()
                ==> {
                let c = #[trigger] commands_upto(
                    s,
                    ramp,
                    lay,
                    clock_ms,
                    lum,
                    edges,
                    colors,
                    lay.cells() as nat,
                )[k];
                !(c.col == i % (lay.grid_width as int) && c.row == i / (lay.grid_width as int))
            },
{
    let gw = lay.grid_width as int;
    let gh = lay.grid_height as int;
    let n = lay.cells() as nat;
    let cmds = commands_upto(s, ramp, lay, clock_ms, lum, edges, colors, n);
    lemma_commands_come_from_cells(s, ramp, lay, clock_ms, lum, edges, colors, n);
    lemma_cell_coords(gw, gh, i);
    assert forall|k: int| 0 <= k < cmds.len() implies {
        let c = #[trigger] cmds[k];
        !(c.col == i % gw && c.row == i / gw)
    } by {
        let j = choose|j: int|
            0 <= j < n && cell_command(
                s,
                ramp,
                lay,
                clock_ms,
                lum[j] as int,
                edges[j],
                colors[j],
                j % gw,
                j / gw,
            ) == Some(cmds[k]);
        lemma_cell_coords(gw, gh, j);
        assert(gw * gh <= u32::MAX);
        assert(j / gw < gh);
        assert(gh <= gw * gh) by (nonlinear_arith)
            requires
                gw >= 1,
                gh >= 0,
        ;
        if cmds[k].col == i % gw && cmds[k].row == i / gw {
            assert(j % gw == i % gw && j / gw == i / gw);
            assert(j == i);
        }
    }
}

fn hue_exec(x: u32, gw: u32, clock_ms: u64) -> (r: u32)
    requires
        x < gw,
    ensures
        r == hue_spec(x as int, gw as int, clock_ms as int),
{
    proof {
        crate::fixed::lemma_div_below(x * 360000, gw as int, 360000);
        assert(x * 360000 < 360000 * gw) by (nonlinear_arith)
            requires
                x < gw,
        ;
    }
    let base = (x as u64) * 360000 / (gw as u64);
    let phase = (clock_ms % 7200) * 50;
    ((base + phase) % 360000) as u32
}

/// The draw commands of a whole grid, row-major, skipped cells left out.
pub fn emit_commands(
    cfg: &Config,
    lay: Layout,
    clock_ms: u64,
    lum: &Vec<u32>,
    edges: &Vec<bool>,
    colors: &Vec<Rgb>,
) -> (r: Vec<DrawCommand>)
    requires
        cfg.wf(),
        lay.wf(),
        lum.len() == lay.cells(),
        edges.len() == lay.cells(),
        colors.len() == lay.cells(),
        forall|i: int| 0 <= i < lum.len() ==> lum@[i] <= LUMA_MAX,
    ensures
        r@ == commands_upto(
            cfg.settings,
            cfg.ramp@,
            lay,
            clock_ms as int,
            lum@,
            edges@,
            colors@,
            lay.cells() as nat,
        ),
{
    let gw = lay.grid_width as usize;
    let gh = lay.grid_height as usize;
    let n = lum.len();
    let s = cfg.settings;
    let pattern = s.charset.pattern();
    let len = cfg.ramp.len();
    let mut out: Vec<DrawCommand> = Vec::new();
    let mut i: usize = 0;
    while i < n
        invariant
            cfg.wf(),
            lay.wf(),
            s == cfg.settings,
            pattern == s.charset.is_pattern(),
            len == cfg.ramp.len(),
            gw == lay.grid_width,
            gh == lay.grid_height,
            n == lum.len() == edges.len() == colors.len() == lay.cells(),
            forall|j: int| 0 <= j < lum.len() ==> lum@[j] <= LUMA_MAX,
            i <= n,
            out@ == commands_upto(
                s,
                cfg.ramp@,
                lay,
                clock_ms as int,
                lum@,
                edges@,
                colors@,
                i as nat,
            ),
        decreases n - i,
    {
        let x = i % gw;
        let y = i / gw;
        proof {
            lemma_cell_coords(gw as int, gh as int, i as int);
            assert(x + y < gw * gh) by (nonlinear_arith)
                requires
                    x < gw,
                    y < gh,
            ;
        }
        let v: u32 = if edges[i] {
            0
        } else {
            lum[i]
        };
        if s.ignore_white && v > WHITE_CUTOFF {
        } else if pattern && v < VISIBILITY_FLOOR {
        } else {
            let idx = if pattern {
                pattern_index_exec(x, y, len)
            } else {
                density_index_exec(v, len)
            };
            let fill = match s.color {
                ColorMode::Mono => Fill::Primary,
                ColorMode::TrueColor => Fill::Sampled(colors[i]),
                ColorMode::Rainbow => Fill::Hue(hue_exec(x as u32, lay.grid_width, clock_ms)),
            };
            proof {
                assert(x * lay.cell_width <= 0xffff_ffff * 0x4000_0000) by (nonlinear_arith)
                    requires
                        x <= 0xffff_ffff,
                        lay.cell_width <= 0x4000_0000,
                ;
                assert(y * lay.cell_height <= 0xffff_ffff * 0x4000_0000) by (nonlinear_arith)
                    requires
                        y <= 0xffff_ffff,
                        lay.cell_height <= 0x4000_0000,
                ;
            }
            let cmd = DrawCommand {
                col: x as u32,
                row: y as u32,
                x: x as u64 * lay.cell_width,
                y: y as u64 * lay.cell_height,
                glyph: cfg.ramp[idx],
                fill,
                opacity: if pattern {
                    v
                } else {
                    LUMA_MAX
                },
            };
            out.push(cmd);
        }
        i = i + 1;
    }
    out
}

/// A rendered frame: its layout and the commands to issue, in order.
pub struct Frame {
    pub layout: Layout,
    pub commands: Vec<DrawCommand>,
}

/// Why a frame cannot be rendered: bad options first, then a grid that
/// cannot be laid out, then missing noise samples.
pub open spec fn frame_error(fw: int, fh: int, o: &Options, noise_len: int) -> Option<ConfigError> {
    if options_error(o) is Some {
        options_error(o)
    } else if layout_error(fw, fh, o.ascii_width as int) is Some {
        layout_error(fw, fh, o.ascii_width as int)
    } else if dither_of(o) == DitherMode::Noise && noise_len != layout_spec(
        fw,
        fh,
        o.ascii_width as int,
        o.zoom_pct as int,
    ).cells() {
        Some(ConfigError::NoiseSamples)
    } else {
        None
    }
}

pub open spec fn sampled_lumas(fw: int, fh: int, pixels: Seq<u8>, lay: Layout, t: Tone) -> Seq<
    u32,
> {
    let gw = lay.grid_width as int;
    let gh = lay.grid_height as int;
    Seq::new(
        lay.cells() as nat,
        |i: int| cell_luma(t, sampled_pixel(pixels, fw, fh, gw, gh, i % gw, i / gw)) as u32,
    )
}

pub open spec fn sampled_colors(fw: int, fh: int, pixels: Seq<u8>, lay: Layout) -> Seq<Rgb> {
    let gw = lay.grid_width as int;
    let gh = lay.grid_height as int;
    Seq::new(
        lay.cells() as nat,
        |i: int| cell_color(sampled_pixel(pixels, fw, fh, gw, gh, i % gw, i / gw)),
    )
}

/// The edge mask: computed on the toned luminance, before any dithering.
pub open spec fn edge_mask(s: Settings, lay: Layout, lum: Seq<u32>) -> Seq<bool> {
    let gw = lay.grid_width as int;
    let gh = lay.grid_height as int;
    match s.edge {
        EdgeMode::Off => Seq::new(lay.cells() as nat, |i: int| false),
        EdgeMode::Sobel => Seq::new(
            lay.cells() as nat,
            |i: int| is_edge(lum, gw, gh, i % gw, i / gw, s.edge_threshold as int),
        ),
    }
}

/// The luminance after the selected dithering.
pub open spec fn dispersed(s: Settings, lay: Layout, lum: Seq<u32>, noise: Seq<u32>) -> Seq<u32> {
    match s.dither {
        DitherMode::Off => lum,
        DitherMode::ErrorDiffusion => diffused_upto(
            lum,
            lay.grid_width as int,
            lay.grid_height as int,
            lay.cells() as nat,
        ),
        DitherMode::Noise => Seq::new(
            lum.len(),
            |i: int| clamp_luma(lum[i] + noise_offset(noise[i] as int)) as u32,
        ),
    }
}

/// The commands the whole pipeline issues for a frame.
pub open spec fn frame_commands(
    fw: int,
    fh: int,
    pixels: Seq<u8>,
    o: &Options,
    clock_ms: int,
    noise: Seq<u32>,
) -> Seq<DrawCommand> {
    let s = settings_of(o);
    let lay = layout_spec(fw, fh, o.ascii_width as int, o.zoom_pct as int);
    let lum = sampled_lumas(fw, fh, pixels, lay, s.tone);
    commands_upto(
        s,
        ramp_of(o),
        lay,
        clock_ms,
        dispersed(s, lay, lum, noise),
        edge_mask(s, lay, lum),
        sampled_colors(fw, fh, pixels, lay),
        lay.cells() as nat,
    )
}

/// Renders one frame of `width` by `height` RGBA pixels. `clock_ms` sets the
/// rainbow phase; `noise` holds one uniform sample per cell when noise
/// dithering is selected.
pub fn process_frame(
    width: u32,
    height: u32,
    image_data: &Vec<u8>,
    options: &Options,
    clock_ms: u64,
    noise: &Vec<u32>,
) -> (r: Result<Frame, ConfigError>)
    ensures
        match r {
            Ok(f) => {
                &&& frame_error(width as int, height as int, options, noise.len() as int) is None
                &&& f.layout == layout_spec(
                    width as int,
                    height as int,
                    options.ascii_width as int,
                    options.zoom_pct as int,
                )
                &&& f.commands@ == frame_commands(
                    width as int,
                    height as int,
                    image_data@,
                    options,
                    clock_ms as int,
                    noise@,
                )
            },
            Err(e) => frame_error(width as int, height as int, options, noise.len() as int) == Some(
                e,
            ),
        },
{
    let cfg = match Config::from_options(options) {
        Ok(c) => c,
        Err(e) => {
            return Err(e);
        },
    };
    let lay = match plan_layout(width, height, options.ascii_width, options.zoom_pct) {
        Ok(l) => l,
        Err(e) => {
            return Err(e);
        },
    };
    let s = cfg.settings;
    let gw = lay.grid_width as usize;
    let gh = lay.grid_height as usize;
    if s.dither == DitherMode::Noise && noise.len() != gw * gh {
        return Err(ConfigError::NoiseSamples);
    }
    let (mut lum, colors) = sample_frame(width, height, image_data, gw, gh, s.tone);
    let ghost toned = lum@;
    proof {
        assert(toned =~= sampled_lumas(width as int, height as int, image_data@, lay, s.tone));
        assert(colors@ =~= sampled_colors(width as int, height as int, image_data@, lay));
    }
    let edges = match s.edge {
        EdgeMode::Sobel => apply_sobel(&lum, gw, gh, s.edge_threshold),
        EdgeMode::Off => {
            let mut m: Vec<bool> = Vec::new();
            let mut i: usize = 0;
            while i < gw * gh
                invariant
                    gw * gh <= usize::MAX,
                    i <= gw * gh,
                    m.len() == i,
                    forall|j: int| 0 <= j < i ==> !m@[j],
                decreases gw * gh - i,
            {
                m.push(false);
                i = i + 1;
            }
            m
        },
    };
    proof {
        assert(edges@ =~= edge_mask(s, lay, toned));
    }
    match s.dither {
        DitherMode::ErrorDiffusion => apply_floyd_steinberg(&mut lum, gw, gh),
        DitherMode::Noise => apply_noise(&mut lum, noise),
        DitherMode::Off => {},
    }
    proof {
        assert(lum@ =~= dispersed(s, lay, toned, noise@));
    }
    let commands = emit_commands(&cfg, lay, clock_ms, &lum, &edges, &colors);
    Ok(Frame { layout: lay, commands })
}

} // verus!
