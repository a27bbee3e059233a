use registry::codec::Codec;
use registry::configuration::parse_str;
use registry::duration::{duration_from_parsed, parse_duration, scan_spans, Duration};
use registry::error::{ConfigError, Expected};
use registry::tree::Node;

fn invalid(text: &str) -> Result<Duration, ConfigError> {
    Err(ConfigError::InvalidDuration(text.to_string()))
}

#[test]
fn one_second_text() {
    assert_eq!(parse_duration("1s"), Ok(Duration { secs: 1, nanos: 0 }));
}

#[test]
fn hours_and_minutes_add_up() {
    assert_eq!(parse_duration("1h30m"), Ok(Duration { secs: 5400, nanos: 0 }));
}

#[test]
fn every_unit_of_the_grammar() {
    assert_eq!(parse_duration("2h"), Ok(Duration { secs: 7200, nanos: 0 }));
    assert_eq!(parse_duration("3m"), Ok(Duration { secs: 180, nanos: 0 }));
    assert_eq!(parse_duration("4s"), Ok(Duration { secs: 4, nanos: 0 }));
    assert_eq!(parse_duration("5ms"), Ok(Duration { secs: 0, nanos: 5_000_000 }));
    assert_eq!(parse_duration("6us"), Ok(Duration { secs: 0, nanos: 6_000 }));
    assert_eq!(parse_duration("7ns"), Ok(Duration { secs: 0, nanos: 7 }));
}

#[test]
fn pairs_add_up_in_any_order() {
    let expected = Ok(Duration { secs: 5415, nanos: 500_250_125 });
    assert_eq!(parse_duration("1h 30m 15s 500ms 250us 125ns"), expected);
    assert_eq!(parse_duration("125ns 250us 500ms 15s 30m 1h"), expected);
    assert_eq!(parse_duration("1h30m15s500ms250us125ns"), expected);
    assert_eq!(parse_duration("  1h   30m 15s500ms 250us125ns  "), expected);
    assert_eq!(parse_duration("30m 1h 15s 250us 500ms 125ns"), expected);
    assert_eq!(parse_duration("1s 1s 1s"), Ok(Duration { secs: 3, nanos: 0 }));
    assert_eq!(parse_duration("1s 500ms"), Ok(Duration { secs: 1, nanos: 500_000_000 }));
    assert_eq!(parse_duration("1500ms"), Ok(Duration { secs: 1, nanos: 500_000_000 }));
    assert_eq!(parse_duration("999999999ns 1ns"), Ok(Duration { secs: 1, nanos: 0 }));
    assert_eq!(parse_duration("500ms 500ms"), Ok(Duration { secs: 1, nanos: 0 }));
    assert_eq!(parse_duration("007s"), Ok(Duration { secs: 7, nanos: 0 }));
    assert_eq!(parse_duration("0s"), Ok(Duration { secs: 0, nanos: 0 }));
}

#[test]
fn many_digits_are_no_obstacle() {
    assert_eq!(parse_duration("100000000000ns"), Ok(Duration { secs: 100, nanos: 0 }));
    assert_eq!(parse_duration("123456789012s"), Ok(Duration { secs: 123_456_789_012, nanos: 0 }));
    assert_eq!(
        parse_duration("123456789012s 5ns"),
        Ok(Duration { secs: 123_456_789_012, nanos: 5 })
    );
    assert_eq!(
        parse_duration("000000000000000000000000000001s"),
        Ok(Duration { secs: 1, nanos: 0 })
    );
    assert_eq!(
        parse_duration("18446744073709551615s"),
        Ok(Duration { secs: u64::MAX, nanos: 0 })
    );
    assert_eq!(
        parse_duration("18446744073709551615s 999ms"),
        Ok(Duration { secs: u64::MAX, nanos: 999_000_000 })
    );
    assert_eq!(
        parse_duration("18446744073709551614s 1000ms"),
        Ok(Duration { secs: u64::MAX, nanos: 0 })
    );
    assert_eq!(
        parse_duration("5124095576030431h 15s"),
        Ok(Duration { secs: u64::MAX, nanos: 0 })
    );
    assert_eq!(
        parse_duration("18446744072709551615ns"),
        Ok(Duration { secs: 18_446_744_072, nanos: 709_551_615 })
    );
}

#[test]
fn sums_beyond_the_parsers_range_are_taken_as_scanned() {
    assert_eq!(
        parse_duration("18446744072709551616ns"),
        Ok(Duration { secs: 18_446_744_072, nanos: 709_551_616 })
    );
    assert_eq!(
        parse_duration("18446744073709551615ns"),
        Ok(Duration { secs: 18_446_744_073, nanos: 709_551_615 })
    );
    assert_eq!(
        parse_duration("1ns 18446744073709551615ns"),
        Ok(Duration { secs: 18_446_744_073, nanos: 709_551_616 })
    );
    assert_eq!(
        parse_duration("20000000000000000000ns"),
        Ok(Duration { secs: 20_000_000_000, nanos: 0 })
    );
    assert_eq!(
        parse_duration("18446744073710ms"),
        Ok(Duration { secs: 18_446_744_073, nanos: 710_000_000 })
    );
    assert_eq!(
        parse_duration("18446744073709551615999999999ns"),
        Ok(Duration { secs: u64::MAX, nanos: 999_999_999 })
    );
    assert_eq!(
        parse_duration("18446744073709551614s 1999999999ns 18446744073709551615ns"),
        invalid("18446744073709551614s 1999999999ns 18446744073709551615ns")
    );
    assert_eq!(
        parse_duration("18446744055262807541s 18446744073709551615ns 999us"),
        Ok(Duration { secs: 18_446_744_073_709_551_614, nanos: 710_550_615 })
    );
}

#[test]
fn sum_out_of_range_is_no_duration() {
    assert_eq!(parse_duration("18446744073709551616s"), invalid("18446744073709551616s"));
    assert_eq!(
        parse_duration("18446744073709551615s 1000ms"),
        invalid("18446744073709551615s 1000ms")
    );
    assert_eq!(
        parse_duration("18446744073709551615s 1s"),
        invalid("18446744073709551615s 1s")
    );
    assert_eq!(parse_duration("5124095576030432h"), invalid("5124095576030432h"));
    assert_eq!(parse_duration("307445734561825861m"), invalid("307445734561825861m"));
    assert_eq!(
        parse_duration("18446744073709551616000000000ns"),
        invalid("18446744073709551616000000000ns")
    );
    assert_eq!(
        parse_duration("18446744073709551615999999999ns 1ns"),
        invalid("18446744073709551615999999999ns 1ns")
    );
    assert_eq!(
        parse_duration("18446744073709551616000ms"),
        invalid("18446744073709551616000ms")
    );
    assert_eq!(
        parse_duration("99999999999999999999999999999999999999999s"),
        invalid("99999999999999999999999999999999999999999s")
    );
}

#[test]
fn units_beyond_the_six_are_no_units() {
    for text in [
        "1d", "1w", "1M", "1y", "1day", "2days", "1week", "1month", "1year", "1hour", "2hours",
        "1hr", "1min", "5mins", "1minute", "1sec", "2secs", "1second", "1msec", "1millis",
        "1usec", "1nsec", "1nanos", "1H", "1S", "1Ms", "1mS", "1\u{b5}s", "1h 1d", "1d 1h",
    ] {
        assert_eq!(parse_duration(text), invalid(text), "{}", text);
    }
}

#[test]
fn text_that_is_no_duration() {
    for text in [
        "", " ", "abc", "5", "0", "-1s", "+1s", "1.5s", "1 s", "1 0s", "s", "ns", "1s,2s",
        "1s;", "1s 2", "1s m", "1 parsec", "1s\t2s", "1s\n", "\u{a0}1s", "1s\u{e9}",
    ] {
        assert_eq!(parse_duration(text), invalid(text), "{:?}", text);
    }
}

#[test]
fn scanner_adds_seconds_and_nanoseconds_apart() {
    assert_eq!(scan_spans("1h30m"), Some((5400, 0)));
    assert_eq!(scan_spans("1s 0ns"), Some((1, 0)));
    assert_eq!(scan_spans("2m 1500ms 3us 4ns"), Some((120, 1_500_003_004)));
    assert_eq!(scan_spans("18446744073709551615s"), Some((u64::MAX, 0)));
    assert_eq!(scan_spans("18446744073709551615s 1000ms"), None);
    assert_eq!(scan_spans("20000000000000000000ns"), Some((0, 20_000_000_000_000_000_000)));
    assert_eq!(scan_spans("1d"), None);
    assert_eq!(scan_spans(""), None);
    assert_eq!(scan_spans("   "), None);
    assert_eq!(scan_spans("12"), None);
}

#[test]
fn scanner_and_duration_parser_agree() {
    for text in [
        "1s",
        "1h30m",
        "1h 30m 15s 500ms 250us 125ns",
        "999999999ns 1ns",
        "500ms 500ms 1us",
        "100000000000ns",
        "18446744073709551615s 999ms",
        "18446744073709551614s 1000ms",
        "18446744072709551615ns",
        " 3m  2s ",
        "0h0m0s0ms0us0ns",
    ] {
        let (secs, nanos) = scan_spans(text).unwrap();
        let parsed = humantime::parse_duration(text).unwrap();
        assert_eq!(
            (parsed.as_secs(), parsed.subsec_nanos()),
            (secs + (nanos / 1_000_000_000) as u64, (nanos % 1_000_000_000) as u32),
            "{}",
            text
        );
        assert_eq!(
            parse_duration(text),
            Ok(Duration { secs: parsed.as_secs(), nanos: parsed.subsec_nanos() })
        );
    }
}

#[test]
fn outcome_of_the_duration_parser_is_taken_as_it_is() {
    assert_eq!(duration_from_parsed("x", Some((5, 7))), Ok(Duration { secs: 5, nanos: 7 }));
    assert_eq!(
        duration_from_parsed("x", Some((0, 999_999_999))),
        Ok(Duration { secs: 0, nanos: 999_999_999 })
    );
    assert_eq!(duration_from_parsed("x", Some((0, 1_000_000_000))), invalid("x"));
    assert_eq!(duration_from_parsed("x", None), invalid("x"));
}

#[test]
fn canonical_spelling_has_both_parts_always() {
    assert_eq!(Duration { secs: 1, nanos: 0 }.to_text(), "1s 0ns");
    assert_eq!(Duration { secs: 0, nanos: 0 }.to_text(), "0s 0ns");
    assert_eq!(Duration { secs: 5400, nanos: 7 }.to_text(), "5400s 7ns");
    assert_eq!(
        Duration { secs: u64::MAX, nanos: 999_999_999 }.to_text(),
        "18446744073709551615s 999999999ns"
    );
}

#[test]
fn canonical_spelling_reads_back() {
    for d in [
        Duration { secs: 0, nanos: 0 },
        Duration { secs: 1, nanos: 0 },
        Duration { secs: 0, nanos: 1 },
        Duration { secs: 5400, nanos: 250_000_000 },
        Duration { secs: 10, nanos: 10 },
        Duration { secs: u64::MAX, nanos: 999_999_999 },
    ] {
        assert_eq!(parse_duration(&d.to_text()), Ok(d));
        assert_eq!(Duration::from_node(&d.to_node()), Ok(d));
    }
}

#[test]
fn duration_field_reads_scalars_by_their_text() {
    assert_eq!(
        Duration::from_node(&Node::Text("2m".to_string())),
        Ok(Duration { secs: 120, nanos: 0 })
    );
    assert_eq!(Duration::from_node(&Node::Int(0)), invalid("0"));
    assert_eq!(Duration::from_node(&Node::Int(5)), invalid("5"));
    assert_eq!(Duration::from_node(&Node::Bool(true)), invalid("true"));
    assert_eq!(Duration::from_node(&Node::Real("1.5".to_string())), invalid("1.5"));
    assert_eq!(
        Duration::from_node(&Node::List(vec![])),
        Err(ConfigError::TypeMismatch(Expected::Text))
    );
    assert_eq!(
        Duration::from_node(&Node::Dict(vec![])),
        Err(ConfigError::TypeMismatch(Expected::Text))
    );
}

#[test]
fn explicit_null_is_no_duration() {
    assert_eq!(Duration::from_node(&Node::Null), invalid(""));
    let refused = Err(ConfigError::InvalidDuration("".to_string()));
    assert_eq!(parse_str("http:\n  draintimeout: ~\n"), refused);
    assert_eq!(parse_str("http:\n  draintimeout:\n"), refused);
    assert_eq!(parse_str("redis:\n  pool:\n    idletimeout: null\n"), refused);
}

#[test]
fn absent_duration_is_one_second() {
    let config = parse_str("http:\n  addr: a\n").unwrap();
    assert_eq!(config.http.drain_timeout, Duration { secs: 1, nanos: 0 });
    assert_eq!(Duration::default_value(), Duration { secs: 1, nanos: 0 });
}

#[test]
fn invalid_duration_fails_the_whole_parse() {
    assert_eq!(
        parse_str("version: 1\nhttp:\n  draintimeout: soon\n"),
        Err(ConfigError::InvalidDuration("soon".to_string()))
    );
    assert_eq!(
        parse_str("health:\n  tcp:\n    - add: a\n      timeout: 1s\n    - add: b\n      timeout: 1d\n"),
        Err(ConfigError::InvalidDuration("1d".to_string()))
    );
}

#[test]
fn durations_are_equal_by_span_not_by_spelling() {
    assert_eq!(parse_duration("90m"), parse_duration("1h30m"));
    assert_eq!(parse_duration("1000ms"), parse_duration("1s"));
    assert_eq!(parse_duration("1s 0ns"), parse_duration("1s"));
    assert_ne!(parse_duration("1s"), parse_duration("2s"));
}

// A small generator of texts of the grammar, the same on every run.
struct Texts(u64);

impl Texts {
    fn next(&mut self) -> u64 {
        self.0 = self.0.wrapping_mul(6364136223846793005).wrapping_add(1442695040888963407);
        self.0 >> 11
    }

    fn text(&mut self) -> String {
        let units = ["h", "m", "s", "ms", "us", "ns"];
        let mut text = String::new();
        for _ in 0..self.next() % 3 {
            text.push(' ');
        }
        for _ in 0..1 + self.next() % 5 {
            let digits = 1 + self.next() % 21;
            let zeros = self.next() % 3;
            for _ in 0..zeros {
                text.push('0');
            }
            for _ in 0..digits {
                text.push((b'0' + (self.next() % 10) as u8) as char);
            }
            text.push_str(units[(self.next() % 6) as usize]);
            for _ in 0..self.next() % 3 {
                text.push(' ');
            }
        }
        text
    }
}

#[test]
fn scanner_and_duration_parser_agree_on_many_texts() {
    let mut texts = Texts(2024);
    let mut asked = 0;
    for _ in 0..20000 {
        let text = texts.text();
        let scanned = scan_spans(&text);
        if let Some((secs, nanos)) = scanned {
            let span = Duration {
                secs: secs + (nanos / 1_000_000_000) as u64,
                nanos: (nanos % 1_000_000_000) as u32,
            };
            assert_eq!(parse_duration(&text), Ok(span), "{}", text);
            if nanos <= (u64::MAX - 1_000_000_000) as u128 {
                let parsed = humantime::parse_duration(&text).unwrap();
                assert_eq!((parsed.as_secs(), parsed.subsec_nanos()), (span.secs, span.nanos));
                asked += 1;
            }
        } else {
            assert_eq!(parse_duration(&text), invalid(&text));
        }
    }
    assert!(asked > 1000, "only {} texts reached the duration parser", asked);
}
