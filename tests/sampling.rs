use ct_meter::page::templated_webpage;
use ct_meter::reading::{CTReading, CT};
use ct_meter::sampling::{in_reference_window, CrossingCounter, Extrema, MAX_MV_ATTEN_11};

#[test]
fn reference_window_bounds() {
    assert_eq!(MAX_MV_ATTEN_11, 2450);
    assert!(!in_reference_window(1102));
    assert!(in_reference_window(1103));
    assert!(in_reference_window(1225));
    assert!(in_reference_window(1347));
    assert!(!in_reference_window(1348));
    assert!(!in_reference_window(0));
    assert!(!in_reference_window(u16::MAX));
}

#[test]
fn first_sample_is_no_crossing() {
    let mut c = CrossingCounter::new(1000);
    c.record(2000);
    assert_eq!(c.crossings(), 0);
    assert_eq!(c.samples(), 1);
    let mut d = CrossingCounter::new(1000);
    d.record(10);
    assert_eq!(d.crossings(), 0);
}

#[test]
fn crossings_of_a_square_wave() {
    let mut c = CrossingCounter::new(1225);
    let wave = [1300, 1400, 1100, 1000, 1226, 1225, 1225, 1500];
    for s in wave {
        c.record(s);
    }
    // above, above, below, below, above, below (equal is not above), below, above
    assert_eq!(c.crossings(), 4);
    assert_eq!(c.samples(), 8);
}

#[test]
fn sampling_stops_at_target_crossings() {
    let mut c = CrossingCounter::new(100);
    let mut level = 0u16;
    while c.keep_sampling(5) {
        c.record(level);
        level = if level == 0 { 200 } else { 0 };
    }
    assert_eq!(c.crossings(), 5);
    assert_eq!(c.samples(), 6);
    assert!(!CrossingCounter::new(0).keep_sampling(0));
}

#[test]
fn extrema_track_only_steady_samples() {
    let mut e = Extrema::new();
    e.observe(1200, true);
    e.observe(50, false);
    e.observe(1400, true);
    e.observe(3000, false);
    e.observe(1100, true);
    assert_eq!(e, Extrema { min: 1100, max: 1400 });
}

#[test]
fn extrema_of_all_noisy_samples_keep_sentinels() {
    let mut e = Extrema::new();
    for s in [100u16, 2400, 1225, 0] {
        e.observe(s, false);
    }
    assert_eq!(e.min, 2450);
    assert_eq!(e.max, 0);
    // the refined offset then averages with the sentinel midpoint, 1225
    assert_eq!((e.min as u32 + e.max as u32) / 2, 1225);
}

#[test]
fn reset_clears_reading_keeps_id() {
    let mut ct = CT {
        id: 2,
        reading: CTReading {
            real_power: 1.0f32.to_bits(),
            apparent_power: 2.0f32.to_bits(),
            i_rms: 3.0f32.to_bits(),
            v_rms: 4.0f32.to_bits(),
            kwh: 5.0f32.to_bits(),
            timestamp: 99,
        },
    };
    ct.reset();
    assert_eq!(ct.id, 2);
    assert_eq!(ct.reading, CTReading::default());
    assert_eq!(f32::from_bits(ct.reading.kwh), 0.0);
    assert_eq!(ct.reading.timestamp, 0);
}

#[test]
fn webpage_wraps_content() {
    let page = templated_webpage("You should not be here.");
    assert!(page.starts_with("\n<!DOCTYPE html>"));
    assert!(page.contains("<title>esp-rs web server</title>"));
    assert!(page.contains("<body>\n        You should not be here.\n    </body>"));
    assert!(page.ends_with("</html>\n"));
}
