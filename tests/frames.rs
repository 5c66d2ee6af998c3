use julia_show::color::GradientTable;
use julia_show::lanes::{LaneGroup, LANES};
use julia_show::render::Fractal;
use julia_show::settings::{ConfigError, FractalSettings};

fn table(n: u32) -> GradientTable {
    let samples: Vec<(u8, u8, u8)> = (0..n).map(|i| (10 + i as u8, 20 + i as u8, 30 + i as u8)).collect();
    GradientTable::from_samples(&samples)
}

/// Paints one frame, where `escape(x, y)` is the first iteration at which
/// pixel (x, y) escapes, if any.
fn paint(f: &mut Fractal, escape: &dyn Fn(u32, u32) -> Option<u32>) -> usize {
    f.begin_frame();
    let mut groups = 0;
    while let Some((x0, y)) = f.next_group() {
        let mut g: LaneGroup = f.lane_group();
        let mut t = 0u32;
        loop {
            let mut over = [false; 8];
            for j in 0..LANES {
                over[j] = matches!(escape(x0 + j as u32, y), Some(e) if t >= e);
            }
            if !g.observe(over) {
                break;
            }
            t += 1;
        }
        groups += 1;
        let done = f.finish_group(&g);
        assert_eq!(done, f.next_group().is_none());
    }
    groups
}

fn expected_count(e: Option<u32>, n: u32) -> u32 {
    match e {
        Some(e) if e < n => e,
        _ => 0,
    }
}

fn pattern(x: u32, y: u32) -> Option<u32> {
    let k = (x * 7 + y * 3) % 13;
    if k == 12 {
        None
    } else {
        Some(k)
    }
}

#[test]
fn new_renderer_has_zero_buffer() {
    let s = FractalSettings::new(16, 8, 5).unwrap();
    let f = Fractal::new(s, table(5)).unwrap();
    let bytes = f.to_rgba_bytes();
    assert_eq!(bytes.len(), 16 * 8 * 4);
    assert!(bytes.iter().all(|b| *b == 0));
    assert_eq!(f.next_group(), Some((0, 0)));
}

#[test]
fn renderer_rejects_table_of_wrong_size() {
    let s = FractalSettings::new(16, 8, 5).unwrap();
    assert!(matches!(Fractal::new(s, table(4)), Err(ConfigError::TableSize)));
    assert!(matches!(Fractal::new(s, table(6)), Err(ConfigError::TableSize)));
}

#[test]
fn groups_walk_rows_in_order() {
    let s = FractalSettings::new(24, 16, 3).unwrap();
    let mut f = Fractal::new(s, table(3)).unwrap();
    let mut seen = Vec::new();
    while let Some(p) = f.next_group() {
        seen.push(p);
        let mut g = f.lane_group();
        assert!(!g.observe([true; 8]));
        f.finish_group(&g);
    }
    let want: Vec<(u32, u32)> = (0..16).flat_map(|y| (0..3).map(move |gx| (gx * 8, y))).collect();
    assert_eq!(seen, want);
    // A complete frame is left as it is.
    let mut g = f.lane_group();
    g.observe([true; 8]);
    assert!(f.finish_group(&g));
    assert_eq!(f.next_group(), None);
}

#[test]
fn painted_pixels_take_table_colour_of_count() {
    let n = 12;
    let s = FractalSettings::new(32, 16, n).unwrap();
    let mut f = Fractal::new(s, table(n)).unwrap();
    let groups = paint(&mut f, &pattern);
    assert_eq!(groups, 4 * 16);
    for y in 0..16 {
        for x in 0..32 {
            let c = f.pixel(x, y);
            let want = f.table_entry(expected_count(pattern(x, y), n) as usize);
            assert_eq!(c, want);
        }
    }
}

#[test]
fn every_pixel_of_a_frame_is_a_table_entry() {
    let n = 7;
    let s = FractalSettings::new(16, 16, n).unwrap();
    let mut f = Fractal::new(s, table(n)).unwrap();
    paint(&mut f, &|x, y| if (x + y) % 5 == 0 { None } else { Some((x * y) % 9) });
    let entries: Vec<_> = (0..n as usize).map(|i| f.table_entry(i)).collect();
    let bytes = f.to_rgba_bytes();
    for p in bytes.chunks(4) {
        assert!(entries.iter().any(|c| [c.r, c.g, c.b, c.a] == p));
        assert_eq!(p[3], 255);
    }
}

#[test]
fn repeated_frames_are_identical() {
    let n = 9;
    let s = FractalSettings::new(24, 8, n).unwrap();
    let mut f = Fractal::new(s, table(n)).unwrap();
    paint(&mut f, &pattern);
    let first = f.to_rgba_bytes();
    // A different frame in between leaves no trace.
    paint(&mut f, &|_, _| Some(0));
    assert_ne!(f.to_rgba_bytes(), first);
    paint(&mut f, &pattern);
    assert_eq!(f.to_rgba_bytes(), first);
}

#[test]
fn rgba_bytes_follow_pixels() {
    let n = 4;
    let s = FractalSettings::new(8, 8, n).unwrap();
    let mut f = Fractal::new(s, table(n)).unwrap();
    paint(&mut f, &|x, _| if x < 4 { Some(0) } else { Some(3) });
    let bytes = f.to_rgba_bytes();
    for y in 0..8u32 {
        for x in 0..8u32 {
            let c = f.pixel(x, y);
            let k = 4 * (y * 8 + x) as usize;
            assert_eq!(&bytes[k..k + 4], &[c.r, c.g, c.b, c.a]);
        }
    }
    assert_eq!(&bytes[0..4], &[10, 20, 30, 255]);
    assert_eq!(&bytes[16..20], &[13, 23, 33, 255]);
}

/// The escape tests of pixel (px, py) at time `t`, computed in single
/// precision as the renderer's host does.
fn orbit_tests(w: u32, h: u32, n: u32, c: (f32, f32), t: f32, px: u32, py: u32) -> Vec<bool> {
    let zoom = 0.9f32.powf(t);
    let scale = 2.0 * zoom;
    let (off_re, off_im) = (0.0 - scale, 0.0 - scale);
    let scalex = 2.0 * scale / w as f32;
    let scaley = 2.0 * scale / h as f32;
    let mut re = px as f32 * scalex + off_re;
    let mut im = py as f32 * scaley + off_im;
    let mut out = Vec::new();
    for _ in 0..n {
        let re2 = re * re;
        let im2 = im * im;
        out.push(re2 + im2 > 4.0);
        im = re * im * 2.0 + c.1;
        re = re2 - im2 + c.0;
    }
    out
}

/// Runs the lane group holding pixel (px, py) and returns that pixel's
/// count and its first escape, if any.
fn group_count(w: u32, h: u32, n: u32, c: (f32, f32), t: f32, px: u32, py: u32) -> (u32, Option<usize>) {
    let x0 = px / 8 * 8;
    let lanes: [Vec<bool>; 8] = std::array::from_fn(|j| orbit_tests(w, h, n, c, t, x0 + j as u32, py));
    let mut g = LaneGroup::new(n);
    let mut step = 0;
    while g.observe(std::array::from_fn(|j| lanes[j][step])) {
        step += 1;
    }
    let lane = (px - x0) as usize;
    (g.count(lane), lanes[lane].iter().position(|b| *b))
}

#[test]
fn centre_pixel_count_matches_reference_trace() {
    let (w, h, n) = (600u32, 400u32, 200u32);
    let c = (-0.6f32, 0.4f32);
    // The centre pixel starts at the origin, so its orbit is that of 0.
    // Hand trace in double precision: the first twenty iterates stay
    // within radius 2.
    let (mut re, mut im) = (0.0f64, 0.0f64);
    for _ in 0..20 {
        assert!(re * re + im * im <= 4.0);
        let nre = re * re - im * im - 0.6;
        im = 2.0 * re * im + 0.4;
        re = nre;
    }
    let (count, escape) = group_count(w, h, n, c, 0.0, w / 2, h / 2);
    // The orbit never leaves radius 2 within the budget: count 0.
    assert_eq!(escape, None);
    assert_eq!(count, 0);
}

#[test]
fn corner_pixel_after_zoom_counts_its_first_escape() {
    // At t = 10 pixel (0, 0) starts near (-0.6974, -0.6974); its squared
    // magnitude first exceeds 4 at iteration 2.
    let (count, escape) = group_count(600, 400, 200, (-0.6, 0.4), 10.0, 0, 0);
    assert_eq!(escape, Some(2));
    assert_eq!(count, 2);
}
