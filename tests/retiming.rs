use sublinex::error::RetimeError;
use sublinex::parse::{parse_timestamp, ts_arg_to_ms};
use sublinex::retime::{
    apply_offset, apply_ratio, has_span, retime, retime_from_text, retime_saturates, Caption,
};
use sublinex::timestamp::{Timestamp, MAX_TIMESTAMP_MS};

fn five_captions() -> Vec<Caption> {
    vec![
        Caption::new(0, Timestamp::new(0, 0, 0, 0), Timestamp::new(0, 0, 0, 500), String::new()),
        Caption::new(1, Timestamp::new(0, 0, 1, 0), Timestamp::new(0, 0, 1, 500), String::new()),
        Caption::new(2, Timestamp::new(0, 1, 2, 0), Timestamp::new(0, 1, 2, 500), String::new()),
        Caption::new(3, Timestamp::new(0, 1, 3, 0), Timestamp::new(0, 1, 3, 500), String::new()),
        Caption::new(4, Timestamp::new(2, 3, 4, 0), Timestamp::new(2, 3, 4, 500), String::new()),
    ]
}

fn caption_ms(start: u64, end: u64) -> Caption {
    Caption::new(0, Timestamp::from_ms(start), Timestamp::from_ms(end), String::from("x"))
}

fn starts(track: &[Caption]) -> Vec<u64> {
    track.iter().map(|c| c.start_time.to_ms()).collect()
}

#[test]
fn test_timestamp_to_ms() {
    let ts = Timestamp::new(0, 0, 0, 0);
    assert_eq!(ts.to_ms(), 0);
    let ts = Timestamp::new(0, 0, 0, 1);
    assert_eq!(ts.to_ms(), 1);
    let ts = Timestamp::new(0, 0, 1, 0);
    assert_eq!(ts.to_ms(), 1000);
    let ts = Timestamp::new(0, 1, 0, 0);
    assert_eq!(ts.to_ms(), 60000);
    let ts = Timestamp::new(1, 0, 0, 0);
    assert_eq!(ts.to_ms(), 3600000);
    let ts = Timestamp::new(1, 1, 1, 1);
    assert_eq!(ts.to_ms(), 3661001);
}

#[test]
fn test_ts_arg_to_ms() {
    assert_eq!(ts_arg_to_ms("00:00:00:000").unwrap(), 0);
    assert_eq!(ts_arg_to_ms("00:00:00:001").unwrap(), 1);
    assert_eq!(ts_arg_to_ms("00:00:01:000").unwrap(), 1000);
    assert_eq!(ts_arg_to_ms("00:01:00:000").unwrap(), 60000);
    assert_eq!(ts_arg_to_ms("01:00:00:000").unwrap(), 3600000);
    assert_eq!(ts_arg_to_ms("01:01:01:001").unwrap(), 3661001);
}

#[test]
fn test_apply_offset() {
    let mut subs = five_captions();
    apply_offset(&mut subs, 1000);
    assert_eq!(subs[0].start_time.to_ms(), 1000);
    assert_eq!(subs[0].end_time.to_ms(), 1500);
    assert_eq!(subs[1].start_time.to_ms(), 2000);
    assert_eq!(subs[1].end_time.to_ms(), 2500);
    assert_eq!(subs[2].start_time.to_ms(), 63000);
    assert_eq!(subs[2].end_time.to_ms(), 63500);
    assert_eq!(subs[3].start_time.to_ms(), 64000);
    assert_eq!(subs[3].end_time.to_ms(), 64500);
    assert_eq!(subs[4].start_time.to_ms(), 7385000);
    assert_eq!(subs[4].end_time.to_ms(), 7385500);
}

// End times are rescaled about the anchor like start times, each by its own
// distance from the anchor.
#[test]
fn test_apply_ratio() {
    let mut subs = five_captions();
    let first = subs[0].start_time.to_ms();
    let duration = subs[subs.len() - 1].start_time.to_ms() - subs[0].start_time.to_ms();
    apply_ratio(&mut subs, first, duration, duration * 2);
    assert_eq!(subs[0].start_time.to_ms(), 0);
    assert_eq!(subs[0].end_time.to_ms(), 1000);
    assert_eq!(subs[1].start_time.to_ms(), 2000);
    assert_eq!(subs[1].end_time.to_ms(), 3000);
    assert_eq!(subs[2].start_time.to_ms(), 124_000);
    assert_eq!(subs[2].end_time.to_ms(), 125_000);
    assert_eq!(subs[3].start_time.to_ms(), 126_000);
    assert_eq!(subs[3].end_time.to_ms(), 127_000);
    assert_eq!(subs[4].start_time.to_ms(), 14_768_000);
    assert_eq!(subs[4].end_time.to_ms(), 14_769_000);
}

#[test]
fn from_ms_round_trips_canonical_fields() {
    for h in [0u8, 1, 23, 100, 255] {
        for m in [0u8, 1, 30, 59] {
            for s in [0u8, 7, 59] {
                for ms in [0u16, 1, 500, 999] {
                    let t = Timestamp::new(h, m, s, ms);
                    assert_eq!(Timestamp::from_ms(t.to_ms()), t);
                }
            }
        }
    }
}

#[test]
fn from_ms_splits_by_division() {
    assert_eq!(Timestamp::from_ms(3661001), Timestamp::new(1, 1, 1, 1));
    assert_eq!(Timestamp::from_ms(MAX_TIMESTAMP_MS), Timestamp::new(255, 59, 59, 999));
    assert_eq!(Timestamp::from_ms(0).get(), (0, 0, 0, 0));
}

#[test]
fn to_ms_of_oversized_fields() {
    assert_eq!(Timestamp::new(0, 75, 90, 1500).to_ms(), 75 * 60000 + 90 * 1000 + 1500);
    assert_eq!(Timestamp::new(255, 255, 255, 65535).to_ms(), 933_620_535);
}

#[test]
fn parse_accepts_widths_and_leading_zeros() {
    assert_eq!(parse_timestamp("255:255:255:65535"), Ok(Timestamp::new(255, 255, 255, 65535)));
    assert_eq!(parse_timestamp("0001:2:3:4"), Ok(Timestamp::new(1, 2, 3, 4)));
    assert_eq!(ts_arg_to_ms("2:03:04:000"), Ok(7384000));
}

#[test]
fn parse_rejects_malformed_text() {
    for text in [
        "1:2:3",
        "aa:bb:cc:dd",
        "",
        "1:2:3:4:5",
        "1::3:4",
        ":1:2:3",
        "+:2:3:4",
        "++1:2:3:4",
        "1+:2:3:4",
        "1:2:3:+",
        " 1:2:3:4",
        "1:2:3:4 ",
        "-1:2:3:4",
        "1:2:3:4.5",
        "1:2:3:é",
    ] {
        assert_eq!(parse_timestamp(text), Err(RetimeError::MalformedTimestamp), "{text}");
        assert_eq!(ts_arg_to_ms(text), Err(RetimeError::MalformedTimestamp), "{text}");
    }
}

#[test]
fn parse_rejects_fields_beyond_their_width() {
    assert_eq!(parse_timestamp("256:0:0:0"), Err(RetimeError::MalformedTimestamp));
    assert_eq!(parse_timestamp("0:256:0:0"), Err(RetimeError::MalformedTimestamp));
    assert_eq!(parse_timestamp("0:0:256:0"), Err(RetimeError::MalformedTimestamp));
    assert_eq!(parse_timestamp("0:0:0:65536"), Err(RetimeError::MalformedTimestamp));
    assert_eq!(
        parse_timestamp("0:0:0:99999999999999999999999"),
        Err(RetimeError::MalformedTimestamp)
    );
}

#[test]
fn offset_saturates_at_both_ends() {
    let near_end = MAX_TIMESTAMP_MS - 100;
    let mut track = vec![caption_ms(500, 1500), caption_ms(near_end, MAX_TIMESTAMP_MS)];
    apply_offset(&mut track, -1000);
    assert_eq!(track[0].start_time.to_ms(), 0);
    assert_eq!(track[0].end_time.to_ms(), 500);
    let mut track = vec![caption_ms(500, 1500), caption_ms(near_end, MAX_TIMESTAMP_MS)];
    apply_offset(&mut track, 50);
    assert_eq!(track[1].start_time.to_ms(), MAX_TIMESTAMP_MS - 50);
    assert_eq!(track[1].end_time.to_ms(), MAX_TIMESTAMP_MS);
    assert_eq!(track[1].end_time, Timestamp::new(255, 59, 59, 999));
    assert_eq!(track[0].text, "x");
}

#[test]
fn ratio_truncates_toward_zero_on_both_sides_of_the_anchor() {
    // Halving about 1000: 1003 -> 1001 (1.5 truncated), 997 -> 999 (-1.5 truncated).
    let mut track = vec![caption_ms(1003, 1003), caption_ms(997, 997)];
    apply_ratio(&mut track, 1000, 2, 1);
    assert_eq!(track[0].start_time.to_ms(), 1001);
    assert_eq!(track[1].start_time.to_ms(), 999);
    // Tripling about 1000 sends 100 below zero: it saturates.
    let mut track = vec![caption_ms(100, 200)];
    apply_ratio(&mut track, 1000, 1, 3);
    assert_eq!(track[0].start_time.to_ms(), 0);
    assert_eq!(track[0].end_time.to_ms(), 0);
}

#[test]
fn retime_shifts_without_rescale() {
    let mut track = five_captions();
    assert_eq!(retime(&mut track, 1000, 7385000), Ok(()));
    assert_eq!(starts(&track), vec![1000, 2000, 63000, 64000, 7385000]);
    assert_eq!(track[4].end_time.to_ms(), 7385500);
}

#[test]
fn retime_doubles_without_shift() {
    let mut track = five_captions();
    assert_eq!(retime(&mut track, 0, 14_768_000), Ok(()));
    assert_eq!(starts(&track), vec![0, 2000, 124_000, 126_000, 14_768_000]);
}

#[test]
fn retime_shifts_then_rescales() {
    let mut track =
        vec![caption_ms(10_000, 11_000), caption_ms(13_000, 14_000), caption_ms(20_000, 20_500)];
    assert_eq!(retime(&mut track, 5_000, 25_000), Ok(()));
    assert_eq!(starts(&track), vec![5_000, 11_000, 25_000]);
    assert_eq!(track[0].end_time.to_ms(), 7_000);
    assert_eq!(track[1].end_time.to_ms(), 13_000);
    assert_eq!(track[2].end_time.to_ms(), 26_000);
}

#[test]
fn retime_lands_on_both_anchors() {
    let mut track =
        vec![caption_ms(1_234, 2_000), caption_ms(5_555, 6_000), caption_ms(98_765, 99_000)];
    assert_eq!(retime(&mut track, 3_333, 77_777), Ok(()));
    assert_eq!(track[0].start_time.to_ms(), 3_333);
    assert_eq!(track[2].start_time.to_ms(), 77_777);
}

#[test]
fn retime_stretch_keeps_gaps_and_squeeze_shrinks_them() {
    let orig = vec![caption_ms(0, 1), caption_ms(1, 2), caption_ms(2, 3), caption_ms(1000, 1001)];
    let mut wide = orig.clone();
    assert_eq!(retime(&mut wide, 0, 1001), Ok(()));
    let w = starts(&wide);
    assert_eq!(w, vec![0, 1, 2, 1001]);
    let mut narrow = orig.clone();
    assert_eq!(retime(&mut narrow, 0, 500), Ok(()));
    let n = starts(&narrow);
    assert_eq!(n, vec![0, 0, 1, 500]);
    let o = starts(&orig);
    for i in 1..o.len() {
        assert!(w[i] - w[i - 1] >= o[i] - o[i - 1]);
        assert!(n[i] - n[i - 1] <= o[i] - o[i - 1]);
    }
}

#[test]
fn retime_refuses_degenerate_tracks() {
    let mut empty: Vec<Caption> = Vec::new();
    assert_eq!(retime(&mut empty, 0, 1000), Err(RetimeError::DegenerateTrack));
    let mut single = vec![caption_ms(1000, 2000)];
    assert_eq!(retime(&mut single, 0, 1000), Err(RetimeError::DegenerateTrack));
    assert_eq!(single[0].start_time.to_ms(), 1000);
    let mut flat = vec![caption_ms(1000, 2000), caption_ms(1500, 1600), caption_ms(1000, 3000)];
    assert_eq!(retime(&mut flat, 0, 1000), Err(RetimeError::DegenerateTrack));
    let mut backwards = vec![caption_ms(1000, 2000), caption_ms(500, 600)];
    assert_eq!(retime(&mut backwards, 0, 1000), Err(RetimeError::DegenerateTrack));
    assert!(!has_span(&backwards));
    assert!(has_span(&five_captions()));
}

#[test]
fn retime_refuses_reversed_targets() {
    let mut track = five_captions();
    assert_eq!(retime(&mut track, 2000, 1000), Err(RetimeError::ReversedTargets));
    assert_eq!(starts(&track), starts(&five_captions()));
}

#[test]
fn retime_from_text_parses_targets() {
    let mut track = five_captions();
    assert_eq!(retime_from_text(&mut track, "00:00:01:000", "02:03:05:000"), Ok(()));
    assert_eq!(starts(&track), vec![1000, 2000, 63000, 64000, 7385000]);
}

#[test]
fn retime_from_text_reports_errors_in_order() {
    let mut single = vec![caption_ms(1000, 2000)];
    assert_eq!(retime_from_text(&mut single, "", "x"), Err(RetimeError::DegenerateTrack));
    let mut track = five_captions();
    let malformed = Err(RetimeError::MalformedTimestamp);
    assert_eq!(retime_from_text(&mut track, "1:2:3", "0:0:0:0"), malformed);
    assert_eq!(retime_from_text(&mut track, "0:0:0:0", "aa:bb:cc:dd"), malformed);
    let reversed = Err(RetimeError::ReversedTargets);
    assert_eq!(retime_from_text(&mut track, "0:0:2:0", "0:0:1:0"), reversed);
    assert_eq!(starts(&track), starts(&five_captions()));
}

#[test]
fn parse_accepts_a_leading_plus_in_each_field() {
    assert_eq!(parse_timestamp("+1:2:3:4"), Ok(Timestamp::new(1, 2, 3, 4)));
    assert_eq!(ts_arg_to_ms("+1:2:3:4"), Ok(3723004));
    assert_eq!(parse_timestamp("+01:+02:+03:+004"), Ok(Timestamp::new(1, 2, 3, 4)));
    assert_eq!(parse_timestamp("+255:0:0:+65535"), Ok(Timestamp::new(255, 0, 0, 65535)));
    assert_eq!(parse_timestamp("+256:0:0:0"), Err(RetimeError::MalformedTimestamp));
}

#[test]
fn ratio_pass_widens_and_narrows_gaps() {
    let orig = vec![caption_ms(100, 100), caption_ms(101, 101), caption_ms(103, 103), caption_ms(110, 110)];
    let mut wide = orig.clone();
    apply_ratio(&mut wide, 100, 10, 25);
    assert_eq!(starts(&wide), vec![100, 102, 107, 125]);
    let mut narrow = orig.clone();
    apply_ratio(&mut narrow, 100, 10, 4);
    assert_eq!(starts(&narrow), vec![100, 100, 101, 104]);
    let o = starts(&orig);
    let (w, n) = (starts(&wide), starts(&narrow));
    for i in 1..o.len() {
        assert!(w[i] - w[i - 1] > o[i] - o[i - 1]);
        assert!(n[i] - n[i - 1] <= o[i] - o[i - 1]);
    }
}

#[test]
fn saturation_is_reported_only_when_it_happens() {
    let track = vec![caption_ms(1000, 1500), caption_ms(2000, 2500), caption_ms(3000, 3500)];
    assert!(!retime_saturates(&track, 0, 2000));
    // The last end would land 500 ms past the last target, beyond the bound.
    assert!(retime_saturates(&track, MAX_TIMESTAMP_MS - 2000, MAX_TIMESTAMP_MS));
    assert!(!retime_saturates(&track, MAX_TIMESTAMP_MS - 3000, MAX_TIMESTAMP_MS - 1000));
    // An end before the first start would go below zero.
    let early = vec![caption_ms(1000, 1500), caption_ms(500, 700), caption_ms(3000, 3500)];
    assert!(retime_saturates(&early, 0, 4000));
    assert!(!retime_saturates(&early, 1000, 3000));
    assert!(!retime_saturates(&track, 2000, 1000));
    assert!(!retime_saturates(&vec![caption_ms(0, 10)], 0, 1000));
}
