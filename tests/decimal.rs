use shuttle_history::config::{check_tempo, parse_quantization, ConfigError};
use shuttle_history::decimal::{
    desired_total, duration_to_beats, hundredths_text, next_power_of_two, parse_decimal,
    round_beats_to_nearest, round_to_nearest, sum_to_text, Decimal,
};

fn dec(text: &str) -> Decimal {
    parse_decimal(text).unwrap()
}

fn beats(n: u128) -> Decimal {
    Decimal { units: n * 1_000_000_000 }
}

#[test]
fn util_verify() {
    assert_eq!(round_to_nearest(dec("0.23"), dec("0.25")), dec("0.25"));
    assert_eq!(round_to_nearest(dec("0.73"), dec("0.25")), dec("0.75"));
    assert_eq!(round_to_nearest(dec("0.76"), dec("0.25")), dec("0.75"));
}

#[test]
fn round_to_nearest_rounds_halves_up() {
    assert_eq!(round_to_nearest(dec("0.125"), dec("0.25")), dec("0.25"));
    assert_eq!(round_to_nearest(dec("0.1"), dec("0.25")), dec("0"));
    assert_eq!(round_to_nearest(dec("0"), dec("0.125")), dec("0"));
}

#[test]
fn parse_decimal_reads_literals() {
    assert_eq!(parse_decimal("0.125"), Some(Decimal { units: 125_000_000 }));
    assert_eq!(parse_decimal("12"), Some(Decimal { units: 12_000_000_000 }));
    assert_eq!(parse_decimal("0.000000001"), Some(Decimal { units: 1 }));
    assert_eq!(parse_decimal(""), None);
    assert_eq!(parse_decimal(".5"), None);
    assert_eq!(parse_decimal("1."), None);
    assert_eq!(parse_decimal("1.2.3"), None);
    assert_eq!(parse_decimal("0.0000000001"), None);
    assert_eq!(parse_decimal("-1"), None);
    assert_eq!(parse_decimal("1e3"), None);
}

#[test]
fn next_power_of_two_rounds_up() {
    assert_eq!(next_power_of_two(beats(3)), beats(4));
    assert_eq!(next_power_of_two(beats(5)), beats(8));
    assert_eq!(next_power_of_two(dec("4.5")), beats(8));
    assert_eq!(next_power_of_two(beats(8)), beats(8));
}

#[test]
fn desired_total_is_floored_at_four() {
    assert_eq!(desired_total(beats(0)), beats(4));
    assert_eq!(desired_total(beats(3)), beats(4));
    assert_eq!(desired_total(beats(5)), beats(8));
    assert_eq!(desired_total(dec("16.25")), beats(32));
}

#[test]
fn desired_total_is_power_of_two_and_covers_total() {
    for units in [0u128, 1, 999_999_999, 4_000_000_001, 37_500_000_000, 1_000_000_000_000] {
        let total = Decimal { units };
        let d = desired_total(total);
        assert_eq!(d.units % 1_000_000_000, 0);
        let whole = d.units / 1_000_000_000;
        assert!(whole.is_power_of_two());
        assert!(whole >= 4);
        assert!(d.units >= units);
    }
}

#[test]
fn duration_to_beats_is_exact() {
    // half a second at 120 bpm is one beat
    let span = duration_to_beats(500_000_000, 120);
    assert_eq!(span.ticks, 60_000_000_000);
    assert_eq!(round_beats_to_nearest(span, dec("0.125")), beats(1));
}

#[test]
fn quantization_boundaries_at_sixty_bpm() {
    let quarter = dec("0.25");
    assert_eq!(round_beats_to_nearest(duration_to_beats(100_000_000, 60), quarter), beats(0));
    assert_eq!(round_beats_to_nearest(duration_to_beats(125_000_000, 60), quarter), dec("0.25"));
    assert_eq!(round_beats_to_nearest(duration_to_beats(124_999_999, 60), quarter), beats(0));
    assert_eq!(round_beats_to_nearest(duration_to_beats(375_000_000, 60), quarter), dec("0.5"));
}

#[test]
fn decimal_text_follows_normalized_sums() {
    assert_eq!(sum_to_text(beats(0), beats(4)), "4");
    assert_eq!(sum_to_text(dec("0.5"), dec("3.5")), "4.0");
    assert_eq!(sum_to_text(dec("0.25"), beats(0)), "0.25");
    assert_eq!(sum_to_text(beats(10), beats(0)), "10");
    assert_eq!(sum_to_text(beats(0), beats(0)), "0");
}

#[test]
fn hundredths_text_rounds_to_even() {
    assert_eq!(hundredths_text(beats(1)), "1.0000");
    assert_eq!(hundredths_text(dec("0.125")), "0.1200");
    assert_eq!(hundredths_text(dec("0.375")), "0.3800");
    assert_eq!(hundredths_text(dec("0.05")), "0.0500");
    assert_eq!(hundredths_text(beats(0)), "0.0000");
}

#[test]
fn config_checks() {
    assert_eq!(check_tempo(120), Ok(120));
    assert_eq!(check_tempo(0), Err(ConfigError::InvalidTempo));
    assert_eq!(check_tempo(-5), Err(ConfigError::InvalidTempo));
    assert_eq!(parse_quantization("0.125"), Ok(dec("0.125")));
    assert_eq!(parse_quantization("1"), Ok(beats(1)));
    assert_eq!(parse_quantization("0"), Err(ConfigError::InvalidQuantization));
    assert_eq!(parse_quantization("1.5"), Err(ConfigError::InvalidQuantization));
    assert_eq!(parse_quantization("abc"), Err(ConfigError::InvalidQuantization));
}
