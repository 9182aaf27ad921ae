use cfd_solver::channel::Channel;
use cfd_solver::config::Config;
use cfd_solver::fft::exponent;
use cfd_solver::fixed::{Fixed, ONE};
use cfd_solver::geometry::{Object, Obstacle};
use cfd_solver::grid::{copied, filled, idx};
use cfd_solver::scalar::{count, Scalar};
use cfd_solver::solver::{band_length, picks_direct, Solver};
use cfd_solver::text::{
    parse_count, reads, write_count, write_padded, write_signed, write_two_digits,
};
use cfd_solver::viz::{
    after_attempt, arguments, interpreter, wants_figures, wants_show, Action, Attempt,
};

fn fixed(raw: i128) -> Fixed {
    Fixed { raw: raw as i64 }
}

#[test]
fn fixed_point_arithmetic() {
    let half = Fixed::from_ratio(1, 2);
    assert_eq!(half, fixed(ONE / 2));
    assert_eq!(half * half, fixed(ONE / 4));
    assert_eq!(half + half, fixed(ONE));
    assert_eq!(half - (half + half), fixed(-ONE / 2));
    assert_eq!(-half, fixed(-ONE / 2));
    let three: Fixed = count(3);
    assert_eq!(three, fixed(3 * ONE));
    assert_eq!(half / three, fixed(ONE / 6));
    // results are rounded down
    assert_eq!(-half / three, fixed(-ONE / 6 - 1));
    assert!(half.less_than(three) && !three.less_than(half));
    assert!(half.at_most(half) && !half.less_than(half));
}

#[test]
fn fixed_point_range() {
    let max = Fixed { raw: i64::MAX };
    let min = Fixed { raw: i64::MIN };
    assert_eq!(max + max, max);
    assert_eq!(min + min, min);
    assert_eq!(max * max, max);
    assert_eq!(min * max, min);
    assert_eq!(-min, max);
    assert_eq!(fixed(ONE) / fixed(0), max);
    assert_eq!(fixed(-ONE) / fixed(0), min);
}

#[test]
fn fixed_point_roots() {
    assert_eq!(Fixed::from_ratio(4, 1).sqrt(), Fixed::from_ratio(2, 1));
    assert_eq!(Fixed::from_ratio(9, 4).sqrt(), Fixed::from_ratio(3, 2));
    assert_eq!(Fixed::from_ratio(0, 1).sqrt(), fixed(0));
    let r = Fixed::from_ratio(2, 1).sqrt().raw as i128;
    assert!(r * r <= 2 * ONE * ONE && (r + 1) * (r + 1) > 2 * ONE * ONE);
}

#[test]
fn fixed_point_text_and_bytes() {
    assert_eq!(Fixed::parse(&"12".to_string()), Some(Fixed::from_ratio(12, 1)));
    assert_eq!(Fixed::parse(&"1.5".to_string()), None);
    assert_eq!(Fixed::from_ratio(1, 1).to_le_bytes(), vec![0, 0, 0, 0, 1, 0, 0, 0]);
    assert_eq!(fixed(-1).to_le_bytes(), vec![255; 8]);
}

fn near(a: Fixed, b: f64, eps: f64) -> bool {
    (a.raw as f64 / ONE as f64 - b).abs() <= eps
}

#[test]
fn fixed_point_trigonometry() {
    for k in -40..40 {
        let x = Fixed { raw: k * 1000000007 };
        let angle = x.raw as f64 / ONE as f64;
        assert!(near(x.sin(), angle.sin(), 1e-8), "sin {angle}");
        assert!(near(x.cos(), angle.cos(), 1e-8), "cos {angle}");
    }
    assert!(near(Fixed::pi(), std::f64::consts::PI, 1e-9));
    for k in -10..=10 {
        let s = k as f64 / 10.0;
        let x = Fixed { raw: (s * ONE as f64) as i64 };
        assert!(near(x.asin(), s.asin(), 1e-4), "asin {s}");
    }
    assert!(near(fixed(5 * ONE).asin(), std::f64::consts::FRAC_PI_2, 1e-9));
}

#[test]
fn fixed_point_rounding_and_printing() {
    assert_eq!(Fixed::from_ratio(5, 2).rounded(), 3);
    assert_eq!((-Fixed::from_ratio(5, 2)).rounded(), -3);
    assert_eq!(Fixed::from_ratio(12, 5).rounded(), 2);
    assert_eq!(Fixed { raw: i64::MAX }.rounded(), i32::MAX);
    assert_eq!(Fixed { raw: i64::MIN }.rounded(), i32::MIN);
    assert_eq!(Fixed::from_ratio(1, 5).print(3), "0.200");
    assert_eq!((-Fixed::from_ratio(5, 4)).print(1), "-1.3");
    assert_eq!(Fixed::from_ratio(1234, 1).print(0), "1234");
    assert_eq!(Fixed::from_ratio(1, 3).print(9), "0.333333333");
}

/// The scheme runs in any arithmetic; here a grid with one free node.
#[test]
fn fixed_point_flow() {
    let mut cfg: Config<Fixed> = Config::default();
    cfg.n = 3;
    cfg.re = Fixed::from_ratio(4, 1);
    let mut s = Solver::new(cfg);
    assert!(s.uses_fft());
    assert_eq!(s.h(), Fixed::from_ratio(1, 2));
    assert_eq!(s.nu(), Fixed::from_ratio(1, 4));
    let (its, _) = s.step(Fixed::from_ratio(1, 2));
    assert_eq!(its, 3);
    // first stage: the lid has vorticity -4, so the rate is 1/4 * -4 / (1/4) = -4
    // after it: -2; its walls are 1, the lid -3: rate 3 * 1 - 3 - 4 * -2 = 8
    // second stage: 0 + 1/4 * (-2 + 4) = 1/2; walls -1/4, lid -17/4: rate -7
    // third stage: 2/3 * (1/2 - 7/2) = -2
    let value = |k: usize| {
        let b = s.frame_bytes();
        let at = &b[8 * k..8 * k + 8];
        i64::from_le_bytes([at[0], at[1], at[2], at[3], at[4], at[5], at[6], at[7]])
    };
    assert!(near(Fixed { raw: value(4) }, -2.0, 1e-6));
    // streamfunction of the free node: 1/2 * (1/4) / 4
    assert!(near(Fixed { raw: value(13) }, 1.0 / 32.0, 1e-7));
}

/// The channel does too.
#[test]
fn fixed_point_channel() {
    let mut cfg: Config<Fixed> = Config::default();
    cfg.scenario = "cylinder".to_string();
    cfg.n = 9;
    cfg.re = Fixed::from_ratio(150, 1);
    let o: Obstacle<Fixed> = Obstacle::default();
    let body = Object::from_config(&o, cfg.l, Fixed::from_ratio(1, 8));
    assert_eq!(body.describe(), "cylinder (D = 0.200)");
    let mut c = Channel::new(cfg, &body);
    assert_eq!((c.nx(), c.ny()), (33, 9));
    assert!(c.solid(8, 4) && !c.solid(8, 2));
    let first = c.step(Fixed::from_ratio(1, 100));
    assert!(first.0 > 0);
    assert_eq!(c.frame_bytes().len(), 32 * 33 * 9);
}

#[test]
fn integers_as_text() {
    assert_eq!(write_count(0), "0");
    assert_eq!(write_count(1234567890), "1234567890");
    assert_eq!(write_padded(42, 5), "00042");
    assert_eq!(write_padded(12345, 2), "45");
    assert_eq!(write_signed(i32::MIN), "-2147483648");
    assert_eq!(write_two_digits(6), "06");
    assert_eq!(write_two_digits(12), "12");
    assert_eq!(write_two_digits(-6), "-6");
    assert_eq!(write_two_digits(123), "123");
}

#[test]
fn grid_indices() {
    assert_eq!(idx(0, 0, 5), 0);
    assert_eq!(idx(3, 2, 5), 13);
    assert_eq!(idx(4, 4, 5), 24);
    assert_eq!(filled(3, 7u8), vec![7, 7, 7]);
    assert_eq!(copied(&vec![1, 2, 3]), vec![1, 2, 3]);
}

#[test]
fn powers_of_two() {
    assert_eq!(exponent(1), Some(0));
    assert_eq!(exponent(2), Some(1));
    assert_eq!(exponent(1024), Some(10));
    assert_eq!(exponent(0), None);
    assert_eq!(exponent(3), None);
    assert_eq!(exponent(usize::MAX), None);
    assert_eq!(exponent(1 << 63), Some(63));
}

#[test]
fn bands_of_rows() {
    assert_eq!(band_length(129, 4), 31);
    assert_eq!(band_length(129, 0), 127);
    assert_eq!(band_length(5, 8), 1);
    assert_eq!(band_length(2, 1), 1);
}

#[test]
fn direct_where_the_grid_allows() {
    let pick = |s: &str, n: usize| picks_direct(&s.to_string(), n);
    for n in [2, 3, 5, 9, 33, 65, 129, 257, 513, 1025] {
        assert!(pick("auto", n));
        assert!(!pick("sor", n));
    }
    assert!(!pick("auto", 200));
    assert!(pick("fft", 200));
}

#[test]
fn counts_in_text() {
    let read = |s: &str| parse_count(&s.to_string());
    assert_eq!(read("0"), Some(0));
    assert_eq!(read("129"), Some(129));
    assert_eq!(read("+12"), Some(12));
    assert_eq!(read("007"), Some(7));
    assert_eq!(read("18446744073709551615"), Some(usize::MAX));
    for bad in ["", "+", "-1", "1.5", "12a", " 1", "18446744073709551616", "++1"] {
        assert_eq!(read(bad), None);
    }
    assert!(reads(&"sor".to_string(), "sor"));
    assert!(!reads(&"sor ".to_string(), "sor"));
}

#[test]
fn interpreters_in_order() {
    assert_eq!(interpreter(0), "python3");
    assert_eq!(interpreter(1), "python");
    assert_eq!(interpreter(2), "py");
    assert!(after_attempt(0, Attempt::Succeeded) == Action::Done);
    assert!(after_attempt(1, Attempt::Failed) == Action::ReportFailure(1));
    assert!(after_attempt(0, Attempt::Missing) == Action::Run(1));
    assert!(after_attempt(1, Attempt::Missing) == Action::Run(2));
    assert!(after_attempt(2, Attempt::Missing) == Action::ReportMissing);
}

#[test]
fn figures_on_request() {
    assert!(!wants_figures(&"none".to_string()));
    assert!(wants_figures(&"save".to_string()));
    assert!(wants_figures(&"show".to_string()));
    assert!(!wants_show(&"save".to_string()));
    assert!(wants_show(&"show".to_string()));
    assert_eq!(arguments(&"out".to_string(), false), vec!["out".to_string()]);
    assert_eq!(
        arguments(&"out".to_string(), true),
        vec!["out".to_string(), "--show".to_string()]
    );
}
