use dashboard::number::Binary64;
use dashboard::document::{Doc, Member};
use dashboard::layout::{
    compose, format_details, format_forecast, format_headline, Canvas, DrawOp, Font, Region,
};
use dashboard::readings::{
    acquire, forecast_from, indoor_from, normalize, outdoor_from, ClimateReading,
    ForecastSummary, Oops,
};
use dashboard::schedule::is_awake_hour;

fn num(x: f64) -> Binary64 {
    Binary64::from_bits(x.to_bits()).expect("a finite number")
}

fn number(x: f64) -> Doc {
    Doc::Number(num(x))
}

fn object(members: Vec<(&str, Doc)>) -> Doc {
    Doc::Object(
        members
            .into_iter()
            .map(|(k, v)| Member { key: k.to_string(), value: v })
            .collect(),
    )
}

fn panel() -> Canvas {
    Canvas::oriented(128, 296, true)
}

fn climate(t: f64, h: f64, p: f64) -> ClimateReading {
    ClimateReading { temperature: num(t), humidity: num(h), pressure: num(p) }
}

fn series_doc(row: Vec<Doc>) -> Doc {
    object(vec![(
        "results",
        Doc::List(vec![object(vec![(
            "series",
            Doc::List(vec![object(vec![("values", Doc::List(vec![Doc::List(row)]))])]),
        )])]),
    )])
}

fn weather_doc() -> Doc {
    object(vec![
        (
            "current",
            object(vec![
                ("feels_like", number(-3.0)),
                ("humidity", number(80.0)),
                ("pressure", number(998.6)),
            ]),
        ),
        (
            "daily",
            Doc::List(vec![object(vec![
                ("temp", object(vec![("max", number(10.2)), ("min", number(2.1))])),
                ("pop", number(0.35)),
                (
                    "weather",
                    Doc::List(vec![object(vec![(
                        "description",
                        Doc::Text("light rain".to_string()),
                    )])]),
                ),
            ])]),
        ),
    ])
}

fn text_of(op: &DrawOp) -> (Region, String, Font) {
    match op {
        DrawOp::Text { region, text, font } => (*region, text.clone(), *font),
        DrawOp::Outline { .. } => panic!("expected text"),
    }
}

fn outline_of(op: &DrawOp) -> Region {
    match op {
        DrawOp::Outline { region } => *region,
        DrawOp::Text { .. } => panic!("expected an outline"),
    }
}

#[test]
fn indoor_alone_fills_first_band() {
    let indoor = climate(21.4, 49.2, 1026.1);
    let ops = compose(&panel(), &indoor, None, None);
    assert_eq!(ops.len(), 4);
    let top = Region { x: 0, y: 0, width: 98, height: 64 };
    let bottom = Region { x: 0, y: 64, width: 98, height: 64 };
    assert_eq!(text_of(&ops[0]), (top, "21.4C".to_string(), Font::Large));
    assert_eq!(outline_of(&ops[1]), top);
    assert_eq!(text_of(&ops[2]), (bottom, "49.2%\n1026 hPa".to_string(), Font::Small));
    assert_eq!(outline_of(&ops[3]), bottom);
}

#[test]
fn outdoor_fills_second_band() {
    let indoor = climate(21.4, 49.2, 1026.1);
    let outdoor = climate(-3.0, 80.0, 998.6);
    let ops = compose(&panel(), &indoor, Some(&outdoor), None);
    assert_eq!(ops.len(), 8);
    let top = Region { x: 98, y: 0, width: 98, height: 64 };
    let bottom = Region { x: 98, y: 64, width: 98, height: 64 };
    assert_eq!(text_of(&ops[4]), (top, "-3.0C".to_string(), Font::Large));
    assert_eq!(outline_of(&ops[5]), top);
    assert_eq!(text_of(&ops[6]), (bottom, "80.0%\n999 hPa".to_string(), Font::Small));
    assert_eq!(outline_of(&ops[7]), bottom);
}

#[test]
fn forecast_fills_third_band() {
    let indoor = climate(21.4, 49.2, 1026.1);
    let outdoor = climate(-3.0, 80.0, 998.6);
    let forecast = ForecastSummary {
        high: num(10.2),
        low: num(2.1),
        description: "light rain".to_string(),
        precipitation: num(0.35),
    };
    let ops = compose(&panel(), &indoor, Some(&outdoor), Some(&forecast));
    assert_eq!(ops.len(), 10);
    let band = Region { x: 196, y: 0, width: 100, height: 128 };
    let (region, text, font) = text_of(&ops[8]);
    assert_eq!(region, band);
    assert_eq!(font, Font::Small);
    assert!(text.contains("High: 10.2"));
    assert!(text.contains("Low: 2.1"));
    // The probability is shown as stored, a fraction, not scaled to percent;
    // the double nearest 0.35 lies just below it and rounds down.
    assert!(text.contains("Pop: 0.3%"));
    assert!(text.contains("light rain"));
    assert_eq!(text, "High: 10.2\n  Low: 2.1\n  Pop: 0.3%\n\nlight rain");
    assert_eq!(outline_of(&ops[9]), band);
}

#[test]
fn forecast_without_outdoor_leaves_middle_band_blank() {
    let indoor = climate(21.4, 49.2, 1026.1);
    let forecast = forecast_from(&weather_doc());
    let ops = compose(&panel(), &indoor, None, Some(&forecast));
    assert_eq!(ops.len(), 6);
    assert_eq!(outline_of(&ops[5]).x, 196);
}

#[test]
fn missing_field_reads_zero() {
    let weather = object(vec![(
        "current",
        object(vec![("feels_like", number(-3.0)), ("humidity", number(80.0))]),
    )]);
    let outdoor = outdoor_from(&weather);
    assert_eq!(outdoor.pressure, Binary64::zero());
    assert_eq!(outdoor.temperature, num(-3.0));
    let series = series_doc(vec![Doc::Text("t".to_string()), number(21.4)]);
    let result = acquire(Ok(series), Ok(weather));
    let readings = result.expect("no transport failure");
    assert_eq!(readings.indoor.temperature, num(21.4));
    assert_eq!(readings.indoor.humidity, Binary64::zero());
    assert_eq!(readings.indoor.pressure, Binary64::zero());
    assert_eq!(readings.outdoor.pressure, Binary64::zero());
    assert_eq!(readings.forecast.high, Binary64::zero());
    assert_eq!(readings.forecast.description, "");
}

#[test]
fn malformed_fields_read_zero() {
    let weather = object(vec![(
        "current",
        object(vec![
            ("feels_like", Doc::Text("cold".to_string())),
            ("humidity", Doc::Null),
            ("pressure", Doc::List(vec![])),
        ]),
    )]);
    let outdoor = outdoor_from(&weather);
    assert_eq!(outdoor, ClimateReading {
        temperature: Binary64::zero(),
        humidity: Binary64::zero(),
        pressure: Binary64::zero(),
    });
    let out_of_range = Doc::Number(Binary64 { negative: false, mantissa: u64::MAX, exponent: 0 });
    let doc = object(vec![("current", object(vec![("pressure", out_of_range)]))]);
    assert_eq!(outdoor_from(&doc).pressure, Binary64::zero());
    assert_eq!(indoor_from(&Doc::Null).temperature, Binary64::zero());
}

#[test]
fn readings_come_from_their_paths() {
    let series = series_doc(vec![
        Doc::Text("2024-01-01T00:00:00Z".to_string()),
        number(21.4),
        number(1026.1),
        number(49.2),
    ]);
    let readings = normalize(&series, &weather_doc());
    assert_eq!(readings.indoor, climate(21.4, 49.2, 1026.1));
    assert_eq!(readings.outdoor, climate(-3.0, 80.0, 998.6));
    assert_eq!(readings.forecast.high, num(10.2));
    assert_eq!(readings.forecast.low, num(2.1));
    assert_eq!(readings.forecast.precipitation, num(0.35));
    assert_eq!(readings.forecast.description, "light rain");
}

#[test]
fn transport_failure_fails_acquisition() {
    let first = acquire(Err(Oops::Transport("timeout".to_string())), Ok(weather_doc()));
    match first {
        Err(e) => assert_eq!(e.message(), "timeout"),
        Ok(_) => panic!("expected a failure"),
    }
    let both = acquire(
        Err(Oops::Transport("series down".to_string())),
        Err(Oops::Io("weather down".to_string())),
    );
    assert_eq!(both.err().map(|e| e.message().clone()), Some("series down".to_string()));
    let second = acquire(Ok(Doc::Null), Err(Oops::Io("weather down".to_string())));
    assert_eq!(second.err().map(|e| e.message().clone()), Some("weather down".to_string()));
}

#[test]
fn bands_tile_the_width() {
    for (w, h) in [(296u32, 128u32), (128, 296), (100, 10), (1, 1), (2, 5), (3, 3)] {
        let c = Canvas { width: w, height: h };
        let b: Vec<Region> = (0..3).map(|i| dashboard::layout::band_of(&c, i)).collect();
        assert_eq!(b[0].x, 0);
        assert_eq!(b[0].x + b[0].width, b[1].x);
        assert_eq!(b[1].x + b[1].width, b[2].x);
        assert_eq!(b[2].x + b[2].width, w);
        assert_eq!(b[2].width, w / 3 + w % 3);
        for r in &b {
            assert_eq!((r.y, r.height), (0, h));
        }
    }
}

#[test]
fn halves_split_odd_heights() {
    let r = Region { x: 3, y: 2, width: 5, height: 7 };
    assert_eq!(dashboard::layout::upper_half_of(&r), Region { x: 3, y: 2, width: 5, height: 3 });
    assert_eq!(dashboard::layout::lower_half_of(&r), Region { x: 3, y: 5, width: 5, height: 4 });
}

#[test]
fn canvas_orientation_swaps_axes() {
    assert_eq!(Canvas::oriented(128, 296, true), Canvas { width: 296, height: 128 });
    assert_eq!(Canvas::oriented(128, 296, false), Canvas { width: 128, height: 296 });
}

#[test]
fn formatting_is_reproducible() {
    let indoor = climate(21.4, 49.2, 1026.1);
    let a = compose(&panel(), &indoor, Some(&indoor), Some(&forecast_from(&weather_doc())));
    let b = compose(&panel(), &indoor, Some(&indoor), Some(&forecast_from(&weather_doc())));
    assert_eq!(a, b);
    assert_eq!(format_headline(&num(21.4)), format_headline(&num(21.4)));
}

#[test]
fn formatting_edge_values() {
    assert_eq!(Binary64::zero().format_fixed(1), "0.0");
    assert_eq!(Binary64::zero().format_fixed(0), "0");
    assert_eq!(num(-0.0).format_fixed(1), "-0.0");
    assert_eq!(num(-3.0).format_fixed(1), "-3.0");
    assert_eq!(num(-0.04).format_fixed(1), "-0.0");
    assert_eq!(num(5e-324).format_fixed(1), "0.0");
    assert_eq!(num(1e19).format_fixed(1), "10000000000000000000.0");
    assert_eq!(num(1e300).format_fixed(1), "1000000000000000052504760255204420248704468581108159154915854115511802457988908195786371375080447864043704443832883878176942523235360430575644792184786706982848387200926575803737830233794788090059368953234970799945081119038967640880074652742780142494579258788820056842838115669472196386865459400540160.0");
    assert_eq!(num(f64::MAX).format_fixed(0), "179769313486231570814527423731704356798070567525844996598917476803157260780028538760589558632766878171540458953514382464234321326889464182768467546703537516986049910576551282076245490090389328944075868508455133942304583236903222948165808559332123348274797826204144723168738177180919299881250404026184124858368");
    assert_eq!(num(-f64::MAX).format_fixed(0), format!("-{}", "179769313486231570814527423731704356798070567525844996598917476803157260780028538760589558632766878171540458953514382464234321326889464182768467546703537516986049910576551282076245490090389328944075868508455133942304583236903222948165808559332123348274797826204144723168738177180919299881250404026184124858368"));
    assert_eq!(num(7.0).format_fixed(18), "7.000000000000000000");
    assert_eq!(format_headline(&Binary64::zero()), "0.0C");
    assert_eq!(format_details(&Binary64::zero(), &Binary64::zero()), "0.0%\n0 hPa");
}

#[test]
fn formatting_matches_float_formatting() {
    let values = [
        0.0, -0.0, 0.05, 0.25, 0.35, 2.5, 3.5, 9.96, 21.15, 21.4, -3.0, 998.6, 1026.1, -1.25,
        0.1, 1e-7, 123456.789, 1e15 + 0.25, -7.45, 5e-324, 1e22, f64::MAX, f64::MIN_POSITIVE,
    ];
    for x in values {
        assert_eq!(num(x).format_fixed(0), format!("{:.0}", x), "{}", x);
        assert_eq!(num(x).format_fixed(1), format!("{:.1}", x), "{}", x);
        assert_eq!(num(x).format_fixed(3), format!("{:.3}", x), "{}", x);
    }
}

#[test]
fn rounding_follows_the_exact_double() {
    assert_eq!(num(21.15).format_fixed(1), "21.1");
    assert_eq!(num(0.35).format_fixed(1), "0.3");
    assert_eq!(num(0.05).format_fixed(1), "0.1");
    assert_eq!(num(0.25).format_fixed(1), "0.2");
    assert_eq!(num(2.5).format_fixed(0), "2");
    assert_eq!(num(3.5).format_fixed(0), "4");
    assert_eq!(num(1026.1).format_fixed(0), "1026");
    assert_eq!(num(998.6).format_fixed(0), "999");
    assert_eq!(num(-998.6).format_fixed(0), "-999");
    assert_eq!(num(9.96).format_fixed(1), "10.0");
    assert_eq!(format_headline(&num(21.15)), "21.1C");
}

#[test]
fn bits_decode_to_exact_values() {
    assert_eq!(num(1.0), Binary64 { negative: false, mantissa: 1 << 52, exponent: -52 });
    assert_eq!(num(-2.0), Binary64 { negative: true, mantissa: 1 << 52, exponent: -51 });
    assert_eq!(num(0.0), Binary64::zero());
    assert_eq!(num(5e-324), Binary64 { negative: false, mantissa: 1, exponent: -1074 });
    assert_eq!(Binary64::from_bits(f64::INFINITY.to_bits()), None);
    assert_eq!(Binary64::from_bits(f64::NEG_INFINITY.to_bits()), None);
    assert_eq!(Binary64::from_bits(f64::NAN.to_bits()), None);
}

#[test]
fn forecast_text_layout() {
    let f = ForecastSummary {
        high: Binary64::zero(),
        low: num(-1.25),
        description: String::new(),
        precipitation: num(1.0),
    };
    assert_eq!(format_forecast(&f), "High: 0.0\n  Low: -1.2\n  Pop: 1.0%\n\n");
}

#[test]
fn awake_hours() {
    assert!(!is_awake_hour(0));
    assert!(!is_awake_hour(6));
    assert!(is_awake_hour(7));
    assert!(is_awake_hour(22));
    assert!(!is_awake_hour(23));
}
