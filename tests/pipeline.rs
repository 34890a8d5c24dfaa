use ascii_render::charset::{
    charset_from_name, chars_of, density_index_exec, pattern_index_exec, ramp, Charset,
};
use ascii_render::dither::{apply_floyd_steinberg, apply_noise, noise_offset_exec};
use ascii_render::edges::apply_sobel;
use ascii_render::grid::{cell_side, grid_height};
use ascii_render::luminance::{adjust, luma, sample_frame, tone_luma, Rgb, Tone};
use ascii_render::render::{
    plan_layout, process_frame, ColorMode, Config, ConfigError, DitherMode, DrawCommand,
    EdgeMode, Fill, Options,
};

fn options() -> Options {
    Options {
        ascii_width: 10,
        brightness: 0,
        contrast: 0,
        dithering: false,
        dither_algo: "none".to_string(),
        invert: false,
        ignore_white: false,
        charset: "standard".to_string(),
        color_mode: "mono".to_string(),
        edge_method: "none".to_string(),
        edge_threshold: 100,
        zoom_pct: 100,
        primary_color: "#0f0".to_string(),
        manual_char: String::new(),
    }
}

fn solid_frame(w: u32, h: u32, r: u8, g: u8, b: u8) -> Vec<u8> {
    let mut v = Vec::new();
    for _ in 0..(w * h) {
        v.extend_from_slice(&[r, g, b, 255]);
    }
    v
}

fn commands(w: u32, h: u32, px: &Vec<u8>, o: &Options) -> Vec<DrawCommand> {
    process_frame(w, h, px, o, 0, &Vec::new()).unwrap().commands
}

#[test]
fn grid_height_of_wide_frame_rounds_down() {
    assert_eq!(grid_height(100, 55, 10), 3);
}

#[test]
fn grid_height_is_positive_for_ordinary_frames() {
    assert_eq!(grid_height(640, 480, 80), 33);
    assert_eq!(grid_height(1920, 1080, 4), 1);
    assert_eq!(grid_height(1000, 1, 1), 0);
}

#[test]
fn layout_sizes_cells_and_canvas() {
    let l = plan_layout(100, 55, 10, 100).unwrap();
    assert_eq!((l.grid_width, l.grid_height), (10, 3));
    assert_eq!((l.cell_width, l.cell_height), (7, 12));
    assert_eq!((l.canvas_width, l.canvas_height), (70, 36));
    assert_eq!(cell_side(7, 150), 11);
    assert_eq!(cell_side(12, 150), 18);
}

#[test]
fn layout_errors() {
    assert_eq!(plan_layout(0, 10, 10, 100), Err(ConfigError::EmptyFrame));
    assert_eq!(plan_layout(10, 10, 0, 100), Err(ConfigError::ZeroGridWidth));
    assert_eq!(plan_layout(1000, 1, 1, 100), Err(ConfigError::ZeroGridHeight));
    assert_eq!(plan_layout(1, u32::MAX, 100, 100), Err(ConfigError::GridTooLarge));
}

#[test]
fn luma_weights() {
    assert_eq!(luma(Rgb { r: 255, g: 255, b: 255 }), 255000);
    assert_eq!(luma(Rgb { r: 10, g: 20, b: 30 }), 18150);
    assert_eq!(luma(Rgb { r: 0, g: 0, b: 0 }), 0);
}

#[test]
fn neutral_tone_is_identity() {
    let t = Tone { invert: false, contrast: 0, brightness: 0 };
    for v in [0u32, 1, 127999, 128000, 200000, 255000] {
        assert_eq!(tone_luma(t, v), v);
    }
}

#[test]
fn contrast_and_brightness_values() {
    assert_eq!(adjust(140000, 100, 0), 155213);
    assert_eq!(adjust(100000, -100, 0), 115721);
    assert_eq!(adjust(100000, 300, 0), 255000);
    assert_eq!(adjust(100000, 0, 10), 110000);
    assert_eq!(adjust(100000, 0, -200), 0);
    assert_eq!(tone_luma(Tone { invert: true, contrast: 0, brightness: 0 }, 0), 255000);
}

#[test]
fn density_index_bounds() {
    assert_eq!(density_index_exec(0, 70), 0);
    assert_eq!(density_index_exec(255000, 70), 69);
    assert_eq!(density_index_exec(127500, 3), 1);
    assert_eq!(pattern_index_exec(0, 0, 2), 0);
    assert_eq!(pattern_index_exec(1, 0, 2), 1);
    assert_eq!(pattern_index_exec(3, 4, 5), 2);
}

#[test]
fn error_diffusion_spreads_positive_error() {
    let mut b = vec![0, 100000, 0, 0, 0, 0];
    apply_floyd_steinberg(&mut b, 3, 2);
    assert_eq!(b, vec![0, 95625, 1914, 820, 1367, 274]);
    let spread: i64 = b.iter().map(|&v| v as i64).sum::<i64>() - 95625;
    assert_eq!(spread, 100000 - 95625);
}

#[test]
fn error_diffusion_spreads_negative_error() {
    let mut b = vec![0, 120000, 50000, 50000, 50000, 50000];
    apply_floyd_steinberg(&mut b, 3, 2);
    assert_eq!(b, vec![0, 127500, 46718, 48593, 47656, 49533]);
}

#[test]
fn error_diffusion_leaves_border_and_narrow_grids() {
    let mut b = vec![100000, 100000, 100000, 100000];
    apply_floyd_steinberg(&mut b, 2, 2);
    assert_eq!(b, vec![100000, 100000, 100000, 100000]);
}

#[test]
fn noise_offsets_span_the_band() {
    assert_eq!(noise_offset_exec(0), -25000);
    assert_eq!(noise_offset_exec(u32::MAX), 24999);
    assert_eq!(noise_offset_exec(0x8000_0000), 0);
    let mut b = vec![0, 255000, 100000];
    apply_noise(&mut b, &vec![0, u32::MAX, 0x8000_0000]);
    assert_eq!(b, vec![0, 255000, 100000]);
}

#[test]
fn sobel_uniform_grid_has_no_edges() {
    let b = vec![100000u32; 16];
    assert!(apply_sobel(&b, 4, 4, 1).iter().all(|e| !e));
    assert!(apply_sobel(&b, 4, 4, 0).iter().all(|e| !e));
}

#[test]
fn sobel_marks_step_inside_only() {
    let mut b = vec![0u32; 16];
    for y in 0..4 {
        b[y * 4 + 2] = 255000;
        b[y * 4 + 3] = 255000;
    }
    let m = apply_sobel(&b, 4, 4, 100);
    assert!(m[5] && m[6] && m[9] && m[10]);
    assert!(!m[0] && !m[3] && !m[4] && !m[7] && !m[12] && !m[15]);
    assert!(apply_sobel(&vec![0u32; 16], 4, 4, -1)[5]);
}

#[test]
fn sampling_takes_nearest_pixel_and_skips_missing_bytes() {
    let mut px = solid_frame(4, 2, 0, 0, 0);
    px[8] = 255;
    px[9] = 255;
    px[10] = 255;
    let t = Tone { invert: false, contrast: 0, brightness: 0 };
    let (lum, col) = sample_frame(4, 2, &px, 2, 1, t);
    assert_eq!(lum, vec![0, 255000]);
    assert_eq!(col[1], Rgb { r: 255, g: 255, b: 255 });
    let short = vec![255u8; 6];
    let (lum, col) = sample_frame(2, 1, &short, 2, 1, t);
    assert_eq!(lum, vec![255000, 0]);
    assert_eq!(col[1], Rgb { r: 0, g: 0, b: 0 });
}

#[test]
fn charset_names_and_ramps() {
    assert_eq!(charset_from_name(&"matrix".to_string()), Charset::Matrix);
    assert_eq!(charset_from_name(&"hex".to_string()), Charset::Hex);
    assert_eq!(charset_from_name(&"whatever".to_string()), Charset::Standard);
    assert_eq!(ramp(Charset::Blocks, ""), vec!['█', '▓', '▒', '░', ' ']);
    assert_eq!(ramp(Charset::Manual, "AB"), vec!['A', 'B']);
    assert_eq!(ramp(Charset::Standard, "")[0], '$');
    assert_eq!(chars_of("ｱb"), vec!['ｱ', 'b']);
}

#[test]
fn options_resolve_modes() {
    let mut o = options();
    o.dithering = true;
    o.dither_algo = "floyd".to_string();
    o.edge_method = "sobel".to_string();
    o.color_mode = "rainbow".to_string();
    let c = Config::from_options(&o).unwrap();
    assert_eq!(c.settings.dither, DitherMode::ErrorDiffusion);
    assert_eq!(c.settings.edge, EdgeMode::Sobel);
    assert_eq!(c.settings.color, ColorMode::Rainbow);
    o.dithering = false;
    assert_eq!(Config::from_options(&o).unwrap().settings.dither, DitherMode::Off);
}

#[test]
fn options_errors() {
    let mut o = options();
    o.contrast = 259;
    assert_eq!(Config::from_options(&o).err(), Some(ConfigError::SingularContrast));
    let mut o = options();
    o.charset = "manual".to_string();
    assert_eq!(Config::from_options(&o).err(), Some(ConfigError::EmptyCharset));
    let mut o = options();
    o.color_mode = "sepia".to_string();
    assert_eq!(Config::from_options(&o).err(), Some(ConfigError::UnknownColorMode));
    let mut o = options();
    o.ascii_width = 0;
    assert_eq!(Config::from_options(&o).err(), Some(ConfigError::ZeroGridWidth));
}

#[test]
fn noise_needs_one_sample_per_cell() {
    let mut o = options();
    o.dithering = true;
    o.dither_algo = "noise".to_string();
    let px = solid_frame(100, 55, 0, 0, 0);
    let r = process_frame(100, 55, &px, &o, 0, &vec![0; 5]);
    assert_eq!(r.err(), Some(ConfigError::NoiseSamples));
    let r = process_frame(100, 55, &px, &o, 0, &vec![0x8000_0000; 30]).unwrap();
    assert_eq!(r.commands.len(), 30);
}

#[test]
fn ignore_white_skips_bright_cells() {
    let px = solid_frame(100, 55, 255, 255, 255);
    for cs in ["standard", "matrix", "blocks", "manual"] {
        for cm in ["mono", "true", "rainbow"] {
            let mut o = options();
            o.ignore_white = true;
            o.charset = cs.to_string();
            o.manual_char = "AB".to_string();
            o.color_mode = cm.to_string();
            assert!(commands(100, 55, &px, &o).is_empty());
        }
    }
}

#[test]
fn faint_pattern_cells_are_skipped() {
    let mut o = options();
    o.charset = "matrix".to_string();
    let dark = solid_frame(100, 55, 20, 20, 20);
    assert!(commands(100, 55, &dark, &o).is_empty());
    let lit = solid_frame(100, 55, 26, 26, 26);
    let cmds = commands(100, 55, &lit, &o);
    assert_eq!(cmds.len(), 30);
    assert_eq!(cmds[0].opacity, 26000);
}

#[test]
fn black_frame_draws_densest_glyph() {
    let px = solid_frame(100, 55, 0, 0, 0);
    let cmds = commands(100, 55, &px, &options());
    assert_eq!(cmds.len(), 30);
    assert!(cmds.iter().all(|c| c.glyph == '$' && c.opacity == 255000));
    assert_eq!((cmds[11].col, cmds[11].row, cmds[11].x, cmds[11].y), (1, 1, 7, 12));
}

#[test]
fn manual_pattern_cycles_by_position() {
    let mut o = options();
    o.charset = "manual".to_string();
    o.manual_char = "AB".to_string();
    let px = solid_frame(100, 55, 200, 200, 200);
    let cmds = commands(100, 55, &px, &o);
    assert_eq!(cmds[0].glyph, 'A');
    assert_eq!(cmds[1].glyph, 'B');
    assert_eq!((cmds[1].col, cmds[1].row), (1, 0));
    assert_eq!(cmds[10].glyph, 'B');
    assert_eq!(cmds[0].fill, Fill::Primary);
}

#[test]
fn colour_modes_fill() {
    let px = solid_frame(100, 55, 10, 20, 30);
    let mut o = options();
    o.color_mode = "true".to_string();
    assert_eq!(commands(100, 55, &px, &o)[0].fill, Fill::Sampled(Rgb { r: 10, g: 20, b: 30 }));
    o.color_mode = "rainbow".to_string();
    let f = process_frame(100, 55, &px, &o, 1000, &Vec::new()).unwrap();
    assert_eq!(f.commands[3].fill, Fill::Hue(158000));
}

#[test]
fn edges_force_dark_glyphs_before_ignore_white() {
    let mut px = solid_frame(8, 8, 255, 255, 255);
    for y in 0..8 {
        for x in 0..4 {
            let i = (y * 8 + x) * 4;
            px[i] = 0;
            px[i + 1] = 0;
            px[i + 2] = 0;
        }
    }
    let mut o = options();
    o.ascii_width = 8;
    o.edge_method = "sobel".to_string();
    o.ignore_white = true;
    let f = process_frame(8, 8, &px, &o, 0, &Vec::new()).unwrap();
    assert_eq!(f.layout.grid_height, 4);
    assert!(f.commands.iter().any(|c| c.col == 4 && c.row == 1 && c.glyph == '$'));
    assert!(!f.commands.iter().any(|c| c.col == 6));
}
