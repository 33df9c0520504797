use mandelbrot_set::complex::Complex;
use mandelbrot_set::parse::{parse_bool, parse_complex, parse_pair};

#[test]
fn test_parse_pair() {
    assert_eq!(parse_pair::<u64>("     ", ','), None);
    assert_eq!(parse_pair::<u64>("45*50", '*'), Some((45, 50)));
}

#[test]
fn test_parse_complex() {
    assert_eq!(
        parse_complex("1.25,-0.0625"),
        Some(Complex {
            re: (1.25f64).to_bits(),
            im: (-0.0625f64).to_bits(),
        })
    );
    assert_eq!(parse_complex(",-0.0625"), None);
}

#[test]
fn pair_without_separator_is_rejected() {
    assert_eq!(parse_pair::<u64>("45x50", '*'), None);
    assert_eq!(parse_pair::<usize>("1000750", 'x'), None);
    assert_eq!(parse_pair::<u64>("", '*'), None);
}

#[test]
fn pair_with_bad_component_is_rejected() {
    assert_eq!(parse_pair::<u64>("*50", '*'), None);
    assert_eq!(parse_pair::<u64>("45*", '*'), None);
    assert_eq!(parse_pair::<u64>("4a*50", '*'), None);
}

#[test]
fn pair_of_machine_words() {
    assert_eq!(parse_pair::<usize>("1000x750", 'x'), Some((1000, 750)));
    assert_eq!(parse_pair::<usize>("+12x+3", 'x'), Some((12, 3)));
}

#[test]
fn pair_overflow_is_rejected() {
    assert_eq!(parse_pair::<u64>("18446744073709551615*1", '*'), Some((u64::MAX, 1)));
    assert_eq!(parse_pair::<u64>("18446744073709551616*1", '*'), None);
}

#[test]
fn mode_flag_values() {
    assert_eq!(parse_bool("0"), Some(false));
    assert_eq!(parse_bool("1"), Some(true));
    assert_eq!(parse_bool("2"), None);
    assert_eq!(parse_bool(""), None);
    assert_eq!(parse_bool("01"), None);
}
