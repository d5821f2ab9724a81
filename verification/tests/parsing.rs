use osu_rs::beatmap::{Beatmap, FileFormat, SampleSet, Rgba};
use osu_rs::hit_object::{HitObjectKind, SliderType, HitSoundType};
use osu_rs::num::{Dec, ParseError, parse_dec};

fn lines(v: &[&str]) -> Vec<String> {
    v.iter().map(|s| s.to_string()).collect()
}

#[test]
fn uninherited_timing_point_record() {
    let mut b = Beatmap::new();
    let r = b.from_osu(&lines(&["[TimingPoints]", "1000,333.33,4,2,1,60,1,0"]));
    assert!(r.is_ok());
    assert_eq!(b.timing_points.len(), 1);
    let tp = b.timing_points[0];
    assert!(!tp.inherited);
    assert_eq!(tp.time_start, 1000);
    assert_eq!(tp.beat_length, Dec { neg: false, mant: 33333, scale: 2 });
    assert_eq!(tp.meter, 4);
    assert!(matches!(tp.sample_type, SampleSet::SOFT));
    assert_eq!(tp.sample_type_custom, 1);
    assert_eq!(tp.sample_volume, 60);
    assert!(!tp.kiai);
}

#[test]
fn inherited_timing_point_record() {
    let mut b = Beatmap::new();
    let r = b.from_osu(&lines(&["[TimingPoints]", "500,-100,4,1,0,50,1,1"]));
    assert!(r.is_ok());
    assert_eq!(b.timing_points.len(), 1);
    let tp = b.timing_points[0];
    assert!(tp.inherited);
    assert_eq!(tp.velocity, -100);
    assert!(tp.kiai);
    // velocity / -100 == 1.00 exactly
    assert_eq!(tp.get_slider_multiplier(), Dec { neg: false, mant: 100, scale: 2 });
}

#[test]
fn negative_zero_velocity_is_inherited() {
    let mut b = Beatmap::new();
    let r = b.from_osu(&lines(&["[TimingPoints]", "500,-0,4,1,0,50,1,0"]));
    assert!(r.is_ok());
    let tp = b.timing_points[0];
    assert!(tp.inherited);
    assert_eq!(tp.velocity, 0);
    // 0 / -100 keeps the flipped sign: a negative zero multiplier.
    let m = tp.get_slider_multiplier();
    assert!(m.neg);
    assert_eq!(m.mant, 0);
}

#[test]
fn fractional_time_is_rounded() {
    let mut b = Beatmap::new();
    let r = b.from_osu(&lines(&["[TimingPoints]", "999.5,200,4,1,0,50,1,0"]));
    assert!(r.is_ok());
    assert_eq!(b.timing_points[0].time_start, 1000);
}

#[test]
fn linear_slider_record() {
    let mut b = Beatmap::new();
    let r = b.from_osu(&lines(&["[HitObjects]", "100,100,500,2,0,L|200:200|300:300,1"]));
    assert!(r.is_ok());
    assert_eq!(b.objects.len(), 1);
    let o = &b.objects[0];
    assert_eq!(o.time_start, 500);
    assert!(matches!(o.hitsound, HitSoundType::Normal));
    assert_eq!(o.points, vec![(100, 100), (200, 200), (300, 300)]);
    match &o.kind {
        HitObjectKind::Slider { slider_type, slider_repeats, curve_points } => {
            assert!(matches!(slider_type, SliderType::SliderLinear));
            assert_eq!(*slider_repeats, 1);
            // The tessellated path is the control points themselves, in
            // fixed-point coordinates.
            assert_eq!(
                *curve_points,
                vec![
                    (100 * 65536, 100 * 65536),
                    (200 * 65536, 200 * 65536),
                    (300 * 65536, 300 * 65536),
                ]
            );
        },
        _ => panic!("expected a slider"),
    }
}

#[test]
fn bezier_slider_endpoints() {
    let mut b = Beatmap::new();
    let r = b.from_osu(&lines(&["[HitObjects]", "0,0,100,6,1,B|50:80|100:0,2"]));
    assert!(r.is_ok());
    let o = &b.objects[0];
    assert!(matches!(o.hitsound, HitSoundType::Whistle));
    match &o.kind {
        HitObjectKind::Slider { slider_type, slider_repeats, curve_points } => {
            assert!(matches!(slider_type, SliderType::SliderBezier));
            assert_eq!(*slider_repeats, 2);
            assert!(curve_points.len() >= 11);
            assert_eq!(curve_points[0], (0, 0));
            assert_eq!(curve_points[curve_points.len() - 1], (100 * 65536, 0));
        },
        _ => panic!("expected a slider"),
    }
}

#[test]
fn spinner_record() {
    let mut b = Beatmap::new();
    let r = b.from_osu(&lines(&["[HitObjects]", "256,192,1000,12,0,3000"]));
    assert!(r.is_ok());
    assert_eq!(b.objects.len(), 1);
    let o = &b.objects[0];
    assert_eq!(o.time_start, 1000);
    assert_eq!(o.points, vec![(256, 192)]);
    match &o.kind {
        HitObjectKind::Spinner { length } => assert_eq!(*length, 2000),
        _ => panic!("expected a spinner"),
    }
}

#[test]
fn circle_record_takes_one_point() {
    let mut b = Beatmap::new();
    let r = b.from_osu(&lines(&["[HitObjects]", "64,32,250,1,3"]));
    // Only five fields: silently dropped.
    assert!(r.is_ok());
    assert_eq!(b.objects.len(), 0);
    let r2 = b.from_osu(&lines(&["[HitObjects]", "64,32,250,1,3,extra"]));
    assert!(r2.is_ok());
    assert_eq!(b.objects.len(), 1);
    let o = &b.objects[0];
    assert!(matches!(o.kind, HitObjectKind::Circle));
    assert!(matches!(o.hitsound, HitSoundType::Clap));
    assert_eq!(o.points, vec![(64, 32)]);
    assert_eq!(o.combo_number, 1);
}

#[test]
fn general_and_metadata_fields() {
    let mut b = Beatmap::new();
    let r = b.from_osu(&lines(&[
        "[General]",
        "AudioFilename: song.mp3 ",
        "AudioLeadIn: 1500",
        "SampleSet: Soft",
        "StackLeniency: 0.7",
        "LetterboxInBreaks: 1",
        "SomethingUnknown: 42x",
        "[Metadata]",
        "Title:A Song",
        "Artist: Someone",
        "Version:Hard",
        "BeatmapID:12345",
        "BeatmapSetID:678",
        "[Difficulty]",
        "HPDrainRate:5",
        "CircleSize:4.2",
        "SliderMultiplier:1.8",
    ]));
    assert!(r.is_ok());
    assert_eq!(b.audio_filename, "song.mp3");
    assert_eq!(b.audio_lead_in, 1500);
    assert!(matches!(b.sample_set, SampleSet::SOFT));
    assert_eq!(b.stack_leniency, Dec { neg: false, mant: 7, scale: 1 });
    assert!(b.letterbox_in_breaks);
    assert_eq!(b.title, "A Song");
    assert_eq!(b.artist, "Someone");
    assert_eq!(b.difficulty, "Hard");
    assert_eq!(b.id, 12345);
    assert_eq!(b.set_id, 678);
    assert_eq!(b.hp_drain, Dec { neg: false, mant: 5, scale: 0 });
    assert_eq!(b.circle_size, Dec { neg: false, mant: 42, scale: 1 });
    assert_eq!(b.slider_multiplier, Dec { neg: false, mant: 18, scale: 1 });
}

#[test]
fn colour_record() {
    let mut b = Beatmap::new();
    let r = b.from_osu(&lines(&["[Colours]", "Combo1 : 255,128,0"]));
    assert!(r.is_ok());
    assert_eq!(b.colors.len(), 1);
    assert_eq!(
        b.colors[0],
        Rgba { red: 255, green: 128, blue: 0, alpha: Dec { neg: false, mant: 1, scale: 0 } }
    );
}

#[test]
fn malformed_number_aborts_the_parse() {
    let mut b = Beatmap::new();
    let r = b.from_osu(&lines(&["[TimingPoints]", "abc,100,4,1,0,50,1,0"]));
    assert_eq!(r, Err(ParseError::MalformedNumber));
    let mut b2 = Beatmap::new();
    let r2 = b2.from_osu(&lines(&["[General]", "AudioLeadIn: twelve"]));
    assert_eq!(r2, Err(ParseError::MalformedNumber));
}

#[test]
fn short_timing_record_is_dropped_but_seven_fields_fail() {
    let mut b = Beatmap::new();
    let r = b.from_osu(&lines(&["[TimingPoints]", "1000,200,4,1,0,50"]));
    assert!(r.is_ok());
    assert_eq!(b.timing_points.len(), 0);
    // Seven fields pass the acceptance gate but lack the kiai field.
    let r2 = b.from_osu(&lines(&["[TimingPoints]", "1000,200,4,1,0,50,1"]));
    assert_eq!(r2, Err(ParseError::MalformedRecord));
}

#[test]
fn slider_without_repeat_field_fails() {
    let mut b = Beatmap::new();
    let r = b.from_osu(&lines(&["[HitObjects]", "100,100,500,2,0,L|200:200"]));
    assert_eq!(r, Err(ParseError::MalformedRecord));
}

#[test]
fn colour_with_too_few_components_fails() {
    let mut b = Beatmap::new();
    let r = b.from_osu(&lines(&["[Colours]", "Combo1 : 255,128"]));
    assert_eq!(r, Err(ParseError::MalformedRecord));
}

#[test]
fn events_and_editor_are_skipped() {
    let mut b = Beatmap::new();
    let r = b.from_osu(&lines(&[
        "[Events]",
        "0,0,\"background.jpg\",0,0",
        "[Editor]",
        "DistanceSpacing: 0.8",
        "[TimingPoints]",
        "0,300,4,1,0,40,1,0",
    ]));
    assert!(r.is_ok());
    assert_eq!(b.timing_points.len(), 1);
}

#[test]
fn lines_before_first_header_use_general_section() {
    let mut b = Beatmap::new();
    let r = b.from_osu(&lines(&["osu file format v14", "", "PreviewTime: 20"]));
    assert!(r.is_ok());
    assert_eq!(b.preview_time, 20);
}

#[test]
fn parse_dec_accepts_signs_and_rejects_garbage() {
    assert_eq!(parse_dec("-12.75").unwrap(), Dec { neg: true, mant: 1275, scale: 2 });
    assert_eq!(parse_dec("+3").unwrap(), Dec { neg: false, mant: 3, scale: 0 });
    assert_eq!(parse_dec(".5").unwrap(), Dec { neg: false, mant: 5, scale: 1 });
    assert_eq!(parse_dec("7.").unwrap(), Dec { neg: false, mant: 7, scale: 0 });
    assert!(parse_dec("").is_err());
    assert!(parse_dec(".").is_err());
    assert!(parse_dec("1.2.3").is_err());
    assert!(parse_dec("12a").is_err());
}

#[test]
fn dec_round_halves_away_from_zero() {
    assert_eq!(parse_dec("2.5").unwrap().round(), 3);
    assert_eq!(parse_dec("-2.5").unwrap().round(), -3);
    assert_eq!(parse_dec("2.4999").unwrap().round(), 2);
    assert_eq!(parse_dec("-0.5").unwrap().round(), -1);
    assert_eq!(parse_dec("-0.49").unwrap().round(), 0);
}

#[test]
fn passthrough_slider_path_is_its_points() {
    let mut b = Beatmap::new();
    let r = b.from_osu(&lines(&["[HitObjects]", "10,20,100,2,0,P|30:40,1"]));
    assert!(r.is_ok());
    match &b.objects[0].kind {
        HitObjectKind::Slider { slider_type, curve_points, .. } => {
            assert!(matches!(slider_type, SliderType::SliderPassthrough));
            assert_eq!(*curve_points, vec![(10 * 65536, 20 * 65536), (30 * 65536, 40 * 65536)]);
        },
        _ => panic!("expected a slider"),
    }
}

#[test]
fn catmull_token_maps_to_bezier() {
    let mut b = Beatmap::new();
    let r = b.from_osu(&lines(&["[HitObjects]", "0,0,100,2,0,C|10:10|20:0,1"]));
    assert!(r.is_ok());
    match &b.objects[0].kind {
        HitObjectKind::Slider { slider_type, .. } => {
            assert!(matches!(slider_type, SliderType::SliderBezier));
        },
        _ => panic!("expected a slider"),
    }
}

#[test]
fn unknown_slider_token_leaves_no_path() {
    let mut b = Beatmap::new();
    let r = b.from_osu(&lines(&["[HitObjects]", "10,20,100,2,0,X|30:40,1"]));
    assert!(r.is_ok());
    match &b.objects[0].kind {
        HitObjectKind::Slider { slider_type, curve_points, .. } => {
            assert!(matches!(slider_type, SliderType::SliderNone));
            assert!(curve_points.is_empty());
        },
        _ => panic!("expected a slider"),
    }
    // The extra control point was still attached.
    assert_eq!(b.objects[0].points, vec![(10, 20), (30, 40)]);
}

#[test]
fn unknown_hitsound_code_falls_back_to_normal() {
    let mut b = Beatmap::new();
    let r = b.from_osu(&lines(&["[HitObjects]", "1,2,3,1,7,x"]));
    assert!(r.is_ok());
    assert!(matches!(b.objects[0].hitsound, HitSoundType::Normal));
}

#[test]
fn parsing_twice_accumulates() {
    let mut b = Beatmap::new();
    assert!(b.from_osu(&lines(&["[HitObjects]", "256,192,1000,12,0,3000"])).is_ok());
    assert!(b.from_osu(&lines(&["[HitObjects]", "256,192,5000,12,0,6000"])).is_ok());
    assert_eq!(b.objects.len(), 2);
    assert_eq!(b.objects[1].time_start, 5000);
}

#[test]
fn empty_input_gives_empty_document() {
    let mut b = Beatmap::new();
    assert!(b.from_osu(&lines(&[])).is_ok());
    assert_eq!(b.objects.len(), 0);
    assert_eq!(b.timing_points.len(), 0);
    assert_eq!(b.title, "");
    assert_eq!(b.id, 0);
}

#[test]
fn sample_codes_map_to_categories() {
    let mut b = Beatmap::new();
    let r = b.from_osu(&lines(&[
        "[TimingPoints]",
        "0,300,4,1,0,40,1,0",
        "1,300,4,2,0,40,1,0",
        "2,300,4,9,0,40,1,0",
    ]));
    assert!(r.is_ok());
    assert!(matches!(b.timing_points[0].sample_type, SampleSet::NORMAL));
    assert!(matches!(b.timing_points[1].sample_type, SampleSet::SOFT));
    assert!(matches!(b.timing_points[2].sample_type, SampleSet::NONE));
}
