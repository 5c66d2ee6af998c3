use julia_show::color::{gradient_points, Color, GradientPoint, GradientTable};
use julia_show::settings::{ConfigError, FractalSettings};
use julia_show::Rotation;

#[test]
fn settings_accept_default_configuration() {
    let s = FractalSettings::new(600, 400, 200).unwrap();
    assert_eq!(s.width(), 600);
    assert_eq!(s.height(), 400);
    assert_eq!(s.n_iter(), 200);
}

#[test]
fn settings_reject_zero_size() {
    assert_eq!(FractalSettings::new(0, 400, 200), Err(ConfigError::ZeroSize));
    assert_eq!(FractalSettings::new(600, 0, 200), Err(ConfigError::ZeroSize));
    assert_eq!(FractalSettings::new(0, 0, 0), Err(ConfigError::ZeroSize));
}

#[test]
fn settings_reject_unaligned_size() {
    assert_eq!(FractalSettings::new(604, 400, 200), Err(ConfigError::NotLaneAligned));
    assert_eq!(FractalSettings::new(600, 401, 200), Err(ConfigError::NotLaneAligned));
    assert_eq!(FractalSettings::new(1, 1, 0), Err(ConfigError::NotLaneAligned));
}

#[test]
fn settings_reject_zero_budget() {
    assert_eq!(FractalSettings::new(600, 400, 0), Err(ConfigError::ZeroIterations));
}

#[test]
fn settings_reject_oversized_buffer() {
    let side = u32::MAX - 7;
    assert_eq!(FractalSettings::new(side, side, 1), Err(ConfigError::TooLarge));
}

#[test]
fn settings_accept_smallest_configuration() {
    assert!(FractalSettings::new(8, 8, 1).is_ok());
}

#[test]
fn table_has_one_opaque_entry_per_sample() {
    for n in [1usize, 2, 5, 200] {
        let samples: Vec<(u8, u8, u8)> = (0..n).map(|i| (i as u8, 2 * i as u8, 255 - i as u8)).collect();
        let t = GradientTable::from_samples(&samples);
        assert_eq!(t.len(), n);
        for i in 0..n {
            let c = t.get(i);
            assert_eq!(c, Color { r: i as u8, g: 2 * i as u8, b: 255 - i as u8, a: 255 });
        }
    }
}

#[test]
fn table_from_no_samples_is_empty() {
    let t = GradientTable::from_samples(&Vec::new());
    assert_eq!(t.len(), 0);
}

#[test]
fn rotation_swaps_sides_on_quarter_turns() {
    assert_eq!(Rotation::R0.display_size(600, 400), (600, 400));
    assert_eq!(Rotation::R180.display_size(600, 400), (600, 400));
    assert_eq!(Rotation::R90.display_size(600, 400), (400, 600));
    assert_eq!(Rotation::R270.display_size(600, 400), (400, 600));
}

#[test]
fn gradient_has_one_point_per_count() {
    for n in [1u32, 2, 3, 10, 200] {
        assert_eq!(gradient_points(n).len(), n as usize);
    }
    assert!(gradient_points(0).is_empty());
}

#[test]
fn gradient_points_fall_between_control_positions() {
    let p = gradient_points(10);
    assert_eq!(p[0], GradientPoint { segment: 0, num: 0, den: 30 });
    assert_eq!(p[2], GradientPoint { segment: 0, num: 20, den: 30 });
    assert_eq!(p[3], GradientPoint { segment: 1, num: 0, den: 30 });
    assert_eq!(p[7], GradientPoint { segment: 2, num: 10, den: 20 });
    assert_eq!(p[8], GradientPoint { segment: 3, num: 0, den: 20 });
    assert_eq!(p[9], GradientPoint { segment: 3, num: 10, den: 20 });
    let q = gradient_points(200);
    assert_eq!(q[0], GradientPoint { segment: 0, num: 0, den: 600 });
    assert_eq!(q[60], GradientPoint { segment: 1, num: 0, den: 600 });
    assert_eq!(q[199], GradientPoint { segment: 3, num: 390, den: 400 });
    let one = gradient_points(1);
    assert_eq!(one[0], GradientPoint { segment: 0, num: 0, den: 3 });
}
