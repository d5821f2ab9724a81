//! The map document and its section-oriented parser: a single forward pass
//! over the lines of a chart file, dispatching each line on the current
//! section, with the whole pass specified by one recursive fold
//! (`parse_osu_spec`).
use vstd::prelude::*;
use crate::num::{
    Dec, ParseError, parse_int_spec, parse_dec_spec, parse_int_range, parse_dec, NUM_MAG_CAP,
};
use crate::text::{trim_spec, trim_str, find_first, find_char, split_by, split_str, str_eq};
use crate::hit_object::{
    HitObject, HitObjectKind, HitObjectType, SliderType, HitSoundType, fx_of_points,
};
use crate::bezier::{tess_points_of, VERT_CAP};

verus! {

/// A sample-set category.
#[derive(PartialEq, Eq, Structural, Copy, Clone, Debug)]
pub enum SampleSet {
    NONE,
    NORMAL,
    SOFT,
}

impl Default for SampleSet {
    fn default() -> (r: SampleSet)
        ensures
            r == SampleSet::NONE,
    {
        SampleSet::NONE
    }
}

/// The section of the chart file a line belongs to.
#[derive(PartialEq, Eq, Structural, Copy, Clone, Debug)]
pub enum SectionType {
    General,
    Editor,
    Metadata,
    Difficulty,
    Events,
    TimingPoints,
    Colours,
    HitObjects,
}

/// One tempo or velocity-multiplier record. The sign of the raw second
/// field of its source record decides which: negative means an inherited
/// record carrying a velocity multiplier, non-negative an uninherited
/// record carrying the tempo in milliseconds per beat.
#[derive(PartialEq, Eq, Structural, Copy, Clone, Debug)]
pub struct TimingPoint {
    pub inherited: bool,
    /// Start time in milliseconds, rounded to the nearest integer.
    pub time_start: i64,
    /// Milliseconds per beat; meaningful only when not inherited.
    pub beat_length: Dec,
    /// Signed velocity multiplier code; meaningful only when inherited.
    pub velocity: i64,
    /// Beats per measure.
    pub meter: i64,
    pub sample_type: SampleSet,
    pub sample_type_custom: i64,
    pub sample_volume: i64,
    pub kiai: bool,
}

impl TimingPoint {
    /// The effective slider-velocity multiplier of an inherited record:
    /// exactly `velocity / -100`, kept as a decimal with two fractional
    /// digits. A non-negative code gives a negative (or negative-zero)
    /// multiplier; the sign flip is load-bearing.
    pub fn get_slider_multiplier(&self) -> (r: Dec)
        requires
            -(NUM_MAG_CAP as int) <= self.velocity <= NUM_MAG_CAP as int,
        ensures
            r == (Dec {
                neg: self.velocity >= 0,
                mant: (if self.velocity >= 0 {
                    self.velocity as int
                } else {
                    -self.velocity as int
                }) as u64,
                scale: 2,
            }),
            r.wf(),
    {
        if self.velocity >= 0 {
            Dec { neg: true, mant: self.velocity as u64, scale: 2 }
        } else {
            Dec { neg: false, mant: (-self.velocity) as u64, scale: 2 }
        }
    }
}

/// Derived statistics of a map; filled by consumers, not by the parser.
#[derive(PartialEq, Eq, Structural, Copy, Clone, Debug)]
pub struct BeatmapStat {
    pub circles: i64,
    pub sliders: i64,
    pub spinners: i64,
    pub min_bpm: i64,
    pub max_bpm: i64,
}

impl Default for BeatmapStat {
    fn default() -> (r: BeatmapStat)
        ensures
            r == (BeatmapStat { circles: 0, sliders: 0, spinners: 0, min_bpm: 0, max_bpm: 0 }),
    {
        BeatmapStat { circles: 0, sliders: 0, spinners: 0, min_bpm: 0, max_bpm: 0 }
    }
}

/// One combo color, with the alpha channel defaulting to one.
#[derive(PartialEq, Eq, Structural, Copy, Clone, Debug)]
pub struct Rgba {
    pub red: i64,
    pub green: i64,
    pub blue: i64,
    pub alpha: Dec,
}

/// The mathematical shadow of one hit object.
#[verifier::ext_equal]
pub struct ObjModel {
    pub tag: HitObjectType,
    pub time_start: int,
    pub end_combo: bool,
    pub combo_index: int,
    pub combo_number: int,
    pub hitsound: HitSoundType,
    /// Raw control points in game units.
    pub points: Seq<(int, int)>,
    pub slider_type: SliderType,
    pub repeats: int,
    /// Spinner duration.
    pub length: int,
    /// Tessellated slider path in fixed-point coordinates.
    pub curve: Seq<(int, int)>,
}

pub open spec fn obj_model(h: HitObject) -> ObjModel {
    ObjModel {
        tag: h.kind_tag(),
        time_start: h.time_start as int,
        end_combo: h.end_combo,
        combo_index: h.combo_index as int,
        combo_number: h.combo_number as int,
        hitsound: h.hitsound,
        points: h.points@.map_values(|p: (i32, i32)| (p.0 as int, p.1 as int)),
        slider_type: h.slider_type_of(),
        repeats: h.repeats_of(),
        length: h.length_of(),
        curve: h.curve_view(),
    }
}

/// The mathematical shadow of a whole map document.
#[verifier::ext_equal]
pub struct BmModel {
    pub id: int,
    pub set_id: int,
    pub objects: Seq<ObjModel>,
    pub timing_points: Seq<TimingPoint>,
    pub audio_filename: Seq<char>,
    pub stack_leniency: Dec,
    pub beatmap_set_id: int,
    pub letterbox_in_breaks: bool,
    pub widescreen_storyboard: bool,
    pub epilepsy_warning: bool,
    pub audio_lead_in: int,
    pub preview_time: int,
    pub countdown_type: int,
    pub sample_set: SampleSet,
    pub hp_drain: Dec,
    pub circle_size: Dec,
    pub overall_difficulty: Dec,
    pub approach_rate: Dec,
    pub slider_multiplier: Dec,
    pub slider_tick_rate: Dec,
    pub title: Seq<char>,
    pub title_unicode: Seq<char>,
    pub artist: Seq<char>,
    pub artist_unicode: Seq<char>,
    pub creator: Seq<char>,
    pub difficulty: Seq<char>,
    pub source: Seq<char>,
    pub tags: Seq<char>,
    pub colors: Seq<Rgba>,
    pub stat: BeatmapStat,
}

/// The map document: everything one parse pass of a chart file yields.
#[derive(Debug)]
pub struct Beatmap {
    pub id: i64,
    pub set_id: i64,
    pub objects: Vec<HitObject>,
    pub timing_points: Vec<TimingPoint>,
    pub audio_filename: String,
    pub stack_leniency: Dec,
    pub beatmap_set_id: i64,
    pub letterbox_in_breaks: bool,
    pub widescreen_storyboard: bool,
    pub epilepsy_warning: bool,
    pub audio_lead_in: i64,
    pub preview_time: i64,
    pub countdown_type: i64,
    pub sample_set: SampleSet,
    pub hp_drain: Dec,
    pub circle_size: Dec,
    pub overall_difficulty: Dec,
    pub approach_rate: Dec,
    pub slider_multiplier: Dec,
    pub slider_tick_rate: Dec,
    pub title: String,
    pub title_unicode: String,
    pub artist: String,
    pub artist_unicode: String,
    pub creator: String,
    pub difficulty: String,
    pub source: String,
    pub tags: String,
    pub colors: Vec<Rgba>,
    pub stat: BeatmapStat,
}

impl View for Beatmap {
    type V = BmModel;

    open spec fn view(&self) -> BmModel {
        BmModel {
            id: self.id as int,
            set_id: self.set_id as int,
            objects: self.objects@.map_values(|h: HitObject| obj_model(h)),
            timing_points: self.timing_points@,
            audio_filename: self.audio_filename@,
            stack_leniency: self.stack_leniency,
            beatmap_set_id: self.beatmap_set_id as int,
            letterbox_in_breaks: self.letterbox_in_breaks,
            widescreen_storyboard: self.widescreen_storyboard,
            epilepsy_warning: self.epilepsy_warning,
            audio_lead_in: self.audio_lead_in as int,
            preview_time: self.preview_time as int,
            countdown_type: self.countdown_type as int,
            sample_set: self.sample_set,
            hp_drain: self.hp_drain,
            circle_size: self.circle_size,
            overall_difficulty: self.overall_difficulty,
            approach_rate: self.approach_rate,
            slider_multiplier: self.slider_multiplier,
            slider_tick_rate: self.slider_tick_rate,
            title: self.title@,
            title_unicode: self.title_unicode@,
            artist: self.artist@,
            artist_unicode: self.artist_unicode@,
            creator: self.creator@,
            difficulty: self.difficulty@,
            source: self.source@,
            tags: self.tags@,
            colors: self.colors@,
            stat: self.stat,
        }
    }
}

/// The document a parse pass starts from: ids and scalars zero, strings
/// empty, no objects, no timing points, no colors.
pub open spec fn empty_model() -> BmModel {
    BmModel {
        id: 0,
        set_id: 0,
        objects: Seq::empty(),
        timing_points: Seq::empty(),
        audio_filename: Seq::empty(),
        stack_leniency: Dec { neg: false, mant: 0, scale: 0 },
        beatmap_set_id: 0,
        letterbox_in_breaks: false,
        widescreen_storyboard: false,
        epilepsy_warning: false,
        audio_lead_in: 0,
        preview_time: 0,
        countdown_type: 0,
        sample_set: SampleSet::NONE,
        hp_drain: Dec { neg: false, mant: 0, scale: 0 },
        circle_size: Dec { neg: false, mant: 0, scale: 0 },
        overall_difficulty: Dec { neg: false, mant: 0, scale: 0 },
        approach_rate: Dec { neg: false, mant: 0, scale: 0 },
        slider_multiplier: Dec { neg: false, mant: 0, scale: 0 },
        slider_tick_rate: Dec { neg: false, mant: 0, scale: 0 },
        title: Seq::empty(),
        title_unicode: Seq::empty(),
        artist: Seq::empty(),
        artist_unicode: Seq::empty(),
        creator: Seq::empty(),
        difficulty: Seq::empty(),
        source: Seq::empty(),
        tags: Seq::empty(),
        colors: Seq::empty(),
        stat: BeatmapStat { circles: 0, sliders: 0, spinners: 0, min_bpm: 0, max_bpm: 0 },
    }
}

impl Beatmap {
    pub fn new() -> (r: Beatmap)
        ensures
            r@ == empty_model(),
    {
        let r = Beatmap {
            id: 0,
            set_id: 0,
            objects: Vec::new(),
            timing_points: Vec::new(),
            audio_filename: String::new(),
            stack_leniency: Dec::zero(),
            beatmap_set_id: 0,
            letterbox_in_breaks: false,
            widescreen_storyboard: false,
            epilepsy_warning: false,
            audio_lead_in: 0,
            preview_time: 0,
            countdown_type: 0,
            sample_set: SampleSet::NONE,
            hp_drain: Dec::zero(),
            circle_size: Dec::zero(),
            overall_difficulty: Dec::zero(),
            approach_rate: Dec::zero(),
            slider_multiplier: Dec::zero(),
            slider_tick_rate: Dec::zero(),
            title: String::new(),
            title_unicode: String::new(),
            artist: String::new(),
            artist_unicode: String::new(),
            creator: String::new(),
            difficulty: String::new(),
            source: String::new(),
            tags: String::new(),
            colors: Vec::new(),
            stat: BeatmapStat { circles: 0, sliders: 0, spinners: 0, min_bpm: 0, max_bpm: 0 },
        };
        proof {
            assert(r@ =~= empty_model());
        }
        r
    }
}

/// An integer field of a record: a signed whole number within the 32-bit
/// range; anything else is malformed.
pub open spec fn int_field(v: Seq<char>) -> Option<int> {
    match parse_int_spec(v) {
        Some(x) => if -2147483648 <= x <= 2147483647 {
            Some(x)
        } else {
            None
        },
        None => None,
    }
}

/// Decode an integer field within the 32-bit range.
pub fn parse_int_field(v: &str) -> (r: Result<i64, ParseError>)
    ensures
        r is Ok <==> int_field(v@) is Some,
        r is Ok ==> r.unwrap() == int_field(v@).unwrap(),
        r is Err ==> r->Err_0 == ParseError::MalformedNumber,
{
    parse_int_range(v, -2147483648, 2147483647)
}

/// The section a bracketed header line switches to, if it is one.
pub open spec fn header_section(line: Seq<char>) -> Option<SectionType> {
    if line == "[General]"@ {
        Some(SectionType::General)
    } else if line == "[Editor]"@ {
        Some(SectionType::Editor)
    } else if line == "[Metadata]"@ {
        Some(SectionType::Metadata)
    } else if line == "[Difficulty]"@ {
        Some(SectionType::Difficulty)
    } else if line == "[Events]"@ {
        Some(SectionType::Events)
    } else if line == "[TimingPoints]"@ {
        Some(SectionType::TimingPoints)
    } else if line == "[Colours]"@ {
        Some(SectionType::Colours)
    } else if line == "[HitObjects]"@ {
        Some(SectionType::HitObjects)
    } else {
        None
    }
}

/// Key and value of a key/value line: the text before the first `:` and
/// the trimmed text after it. A line without `:` carries no record.
pub open spec fn kv_of(line: Seq<char>) -> Option<(Seq<char>, Seq<char>)> {
    match find_first(line, ':') {
        None => None,
        Some(i) => Some((line.take(i), trim_spec(line.skip(i + 1)))),
    }
}

/// What a line does to the document in the General section.
pub open spec fn step_general(m: BmModel, line: Seq<char>) -> Result<BmModel, ParseError> {
    match kv_of(line) {
        None => Ok(m),
        Some((k, v)) => {
            if k == "AudioFilename"@ {
                Ok(BmModel { audio_filename: v, ..m })
            } else if k == "AudioLeadIn"@ {
                match int_field(v) {
                    Some(x) => Ok(BmModel { audio_lead_in: x, ..m }),
                    None => Err(ParseError::MalformedNumber),
                }
            } else if k == "PreviewTime"@ {
                match int_field(v) {
                    Some(x) => Ok(BmModel { preview_time: x, ..m }),
                    None => Err(ParseError::MalformedNumber),
                }
            } else if k == "Countdown"@ {
                match int_field(v) {
                    Some(x) => Ok(BmModel { countdown_type: x, ..m }),
                    None => Err(ParseError::MalformedNumber),
                }
            } else if k == "SampleSet"@ {
                let s = if v == "Normal"@ {
                    SampleSet::NORMAL
                } else if v == "Soft"@ {
                    SampleSet::SOFT
                } else {
                    SampleSet::NONE
                };
                Ok(BmModel { sample_set: s, ..m })
            } else if k == "StackLeniency"@ {
                match parse_dec_spec(v) {
                    Some(d) => Ok(BmModel { stack_leniency: d, ..m }),
                    None => Err(ParseError::MalformedNumber),
                }
            } else if k == "LetterboxInBreaks"@ {
                match int_field(v) {
                    Some(x) => Ok(
                        if x == 1 {
                            BmModel { letterbox_in_breaks: true, ..m }
                        } else {
                            m
                        },
                    ),
                    None => Err(ParseError::MalformedNumber),
                }
            } else {
                Ok(m)
            }
        },
    }
}

/// What a line does to the document in the Metadata section.
pub open spec fn step_metadata(m: BmModel, line: Seq<char>) -> Result<BmModel, ParseError> {
    match kv_of(line) {
        None => Ok(m),
        Some((k, v)) => {
            if k == "Title"@ {
                Ok(BmModel { title: v, ..m })
            } else if k == "Artist"@ {
                Ok(BmModel { artist: v, ..m })
            } else if k == "Creator"@ {
                Ok(BmModel { creator: v, ..m })
            } else if k == "Version"@ {
                Ok(BmModel { difficulty: v, ..m })
            } else if k == "Source"@ {
                Ok(BmModel { source: v, ..m })
            } else if k == "Tags"@ {
                Ok(BmModel { tags: v, ..m })
            } else if k == "BeatmapID"@ {
                match int_field(v) {
                    Some(x) => Ok(BmModel { id: x, ..m }),
                    None => Err(ParseError::MalformedNumber),
                }
            } else if k == "BeatmapSetID"@ {
                match int_field(v) {
                    Some(x) => Ok(BmModel { set_id: x, ..m }),
                    None => Err(ParseError::MalformedNumber),
                }
            } else {
                Ok(m)
            }
        },
    }
}

/// What a line does to the document in the Difficulty section.
pub open spec fn step_difficulty(m: BmModel, line: Seq<char>) -> Result<BmModel, ParseError> {
    match kv_of(line) {
        None => Ok(m),
        Some((k, v)) => {
            if k == "HPDrainRate"@ || k == "CircleSize"@ || k == "OverallDifficulty"@ || k
                == "ApproachRate"@ || k == "SliderMultiplier"@ || k == "SliderTickRate"@ {
                match parse_dec_spec(v) {
                    Some(d) => Ok(
                        if k == "HPDrainRate"@ {
                            BmModel { hp_drain: d, ..m }
                        } else if k == "CircleSize"@ {
                            BmModel { circle_size: d, ..m }
                        } else if k == "OverallDifficulty"@ {
                            BmModel { overall_difficulty: d, ..m }
                        } else if k == "ApproachRate"@ {
                            BmModel { approach_rate: d, ..m }
                        } else if k == "SliderMultiplier"@ {
                            BmModel { slider_multiplier: d, ..m }
                        } else {
                            BmModel { slider_tick_rate: d, ..m }
                        },
                    ),
                    None => Err(ParseError::MalformedNumber),
                }
            } else {
                Ok(m)
            }
        },
    }
}

/// What a line does to the document in the Colours section: the value is a
/// comma-separated red, green, blue triple; alpha defaults to one.
pub open spec fn step_colours(m: BmModel, line: Seq<char>) -> Result<BmModel, ParseError> {
    match kv_of(line) {
        None => Ok(m),
        Some((k, v)) => {
            let frags = split_by(v, ',');
            if frags.len() < 3 {
                Err(ParseError::MalformedRecord)
            } else {
                match (int_field(frags[0]), int_field(frags[1]), int_field(frags[2])) {
                    (Some(r), Some(g), Some(b)) => Ok(
                        BmModel {
                            colors: m.colors.push(
                                Rgba {
                                    red: r as i64,
                                    green: g as i64,
                                    blue: b as i64,
                                    alpha: Dec { neg: false, mant: 1, scale: 0 },
                                },
                            ),
                            ..m
                        },
                    ),
                    _ => Err(ParseError::MalformedNumber),
                }
            }
        },
    }
}


/// The sample-set category a numeric code selects.
pub open spec fn sample_set_of_code(x: int) -> SampleSet {
    if x == 1 {
        SampleSet::NORMAL
    } else if x == 2 {
        SampleSet::SOFT
    } else {
        SampleSet::NONE
    }
}

/// The hit-sound category a numeric code selects.
pub open spec fn hitsound_of_code(x: int) -> HitSoundType {
    if x == 0 {
        HitSoundType::Normal
    } else if x == 1 {
        HitSoundType::Whistle
    } else if x == 2 {
        HitSoundType::Finish
    } else if x == 3 {
        HitSoundType::Clap
    } else {
        HitSoundType::Normal
    }
}

/// The kiai flag field: a signed whole number within the 8-bit range.
pub open spec fn kiai_field(v: Seq<char>) -> Option<int> {
    match parse_int_spec(v) {
        Some(x) => if -128 <= x <= 127 {
            Some(x)
        } else {
            None
        },
        None => None,
    }
}

/// What a line does to the document in the TimingPoints section: a record
/// is taken only with more than six fields; the sign of the second field
/// decides inherited-ness.
pub open spec fn step_timing(m: BmModel, line: Seq<char>) -> Result<BmModel, ParseError> {
    let toks = split_by(line, ',');
    if toks.len() <= 6 {
        Ok(m)
    } else if toks.len() == 7 {
        Err(ParseError::MalformedRecord)
    } else {
        match (parse_dec_spec(toks[0]), int_field(toks[2]), int_field(toks[3]), int_field(
            toks[4],
        ), int_field(toks[5]), kiai_field(toks[7]), parse_dec_spec(toks[1])) {
            (Some(time), Some(mt), Some(sc), Some(cu), Some(vo), Some(ki), Some(vel)) => Ok(
                BmModel {
                    timing_points: m.timing_points.push(
                        TimingPoint {
                            inherited: vel.neg,
                            time_start: time.round_spec() as i64,
                            beat_length: if vel.neg {
                                Dec { neg: false, mant: 0, scale: 0 }
                            } else {
                                vel
                            },
                            velocity: if vel.neg {
                                vel.round_spec() as i64
                            } else {
                                0
                            },
                            meter: mt as i64,
                            sample_type: sample_set_of_code(sc),
                            sample_type_custom: cu as i64,
                            sample_volume: vo as i64,
                            kiai: ki > 0,
                        },
                    ),
                    ..m
                },
            ),
            _ => Err(ParseError::MalformedNumber),
        }
    }
}

/// The extra control points of a slider descriptor, each token a
/// colon-separated coordinate pair, taken from index `i` on.
pub open spec fn parse_extra_points(parts: Seq<Seq<char>>, i: int) -> Result<
    Seq<(int, int)>,
    ParseError,
>
    decreases parts.len() - i,
{
    if i >= parts.len() {
        Ok(Seq::empty())
    } else {
        let sub = split_by(parts[i], ':');
        if sub.len() < 2 {
            Err(ParseError::MalformedRecord)
        } else {
            match (int_field(sub[0]), int_field(sub[1])) {
                (Some(px), Some(py)) => match parse_extra_points(parts, i + 1) {
                    Ok(rest) => Ok(seq![(px, py)] + rest),
                    Err(e) => Err(e),
                },
                _ => Err(ParseError::MalformedNumber),
            }
        }
    }
}

/// Control points beyond the capacity of the curve engine are dropped.
pub open spec fn capped_points(all: Seq<(int, int)>) -> Seq<(int, int)> {
    if all.len() > VERT_CAP {
        all.take(VERT_CAP as int)
    } else {
        all
    }
}

/// The slider sub-type its descriptor token selects.
pub open spec fn slider_type_of_token(t: Seq<char>) -> SliderType {
    if t == "B"@ || t == "C"@ {
        SliderType::SliderBezier
    } else if t == "P"@ {
        SliderType::SliderPassthrough
    } else if t == "L"@ {
        SliderType::SliderLinear
    } else {
        SliderType::SliderNone
    }
}

/// Raw game-unit points as fixed-point coordinates.
pub open spec fn fx_scale_pts(pts: Seq<(int, int)>) -> Seq<(int, int)> {
    pts.map_values(|p: (int, int)| (p.0 * 65536, p.1 * 65536))
}

/// The tessellated path a slider of the given sub-type and control points
/// carries after preparation.
pub open spec fn slider_curve_of(st: SliderType, pts: Seq<(int, int)>) -> Seq<(int, int)> {
    match st {
        SliderType::SliderLinear | SliderType::SliderPassthrough => fx_scale_pts(pts),
        SliderType::SliderBezier | SliderType::SliderCatmul => tess_points_of(fx_scale_pts(pts)),
        SliderType::SliderNone => Seq::empty(),
    }
}

pub open spec fn circle_model(ts: int, hs: int, x: int, y: int) -> ObjModel {
    ObjModel {
        tag: HitObjectType::Circle,
        time_start: ts,
        end_combo: false,
        combo_index: 0,
        combo_number: 1,
        hitsound: hitsound_of_code(hs),
        points: seq![(x, y)],
        slider_type: SliderType::SliderNone,
        repeats: 0,
        length: 0,
        curve: Seq::empty(),
    }
}

pub open spec fn spinner_model(ts: int, hs: int, x: int, y: int, len: int) -> ObjModel {
    ObjModel {
        tag: HitObjectType::Spinner,
        time_start: ts,
        end_combo: false,
        combo_index: 0,
        combo_number: 1,
        hitsound: hitsound_of_code(hs),
        points: seq![(x, y)],
        slider_type: SliderType::SliderNone,
        repeats: 0,
        length: len,
        curve: Seq::empty(),
    }
}

pub open spec fn slider_model(ts: int, hs: int, pts: Seq<(int, int)>, st: SliderType, reps: int)
    -> ObjModel {
    ObjModel {
        tag: HitObjectType::Slider,
        time_start: ts,
        end_combo: false,
        combo_index: 0,
        combo_number: 1,
        hitsound: hitsound_of_code(hs),
        points: pts,
        slider_type: st,
        repeats: reps,
        length: 0,
        curve: slider_curve_of(st, pts),
    }
}

/// What a line does to the document in the HitObjects section: a record is
/// taken only with more than five fields; a type code of exactly 12 is a
/// spinner, 2 or 6 a slider, anything else a circle.
pub open spec fn step_hitobjects(m: BmModel, line: Seq<char>) -> Result<BmModel, ParseError> {
    let toks = split_by(line, ',');
    if toks.len() <= 5 {
        Ok(m)
    } else {
        match (int_field(toks[3]), int_field(toks[2]), int_field(toks[4]), int_field(toks[0]),
        int_field(toks[1])) {
            (Some(ht), Some(ts), Some(hs), Some(x), Some(y)) => {
                if ht == 12 {
                    match int_field(toks[5]) {
                        Some(te) => Ok(
                            BmModel {
                                objects: m.objects.push(spinner_model(ts, hs, x, y, te - ts)),
                                ..m
                            },
                        ),
                        None => Err(ParseError::MalformedNumber),
                    }
                } else if ht == 2 || ht == 6 {
                    if toks.len() == 6 {
                        Err(ParseError::MalformedRecord)
                    } else {
                        match int_field(toks[6]) {
                            Some(reps) => {
                                let parts = split_by(toks[5], '|');
                                let st = slider_type_of_token(parts[0]);
                                match parse_extra_points(parts, 1) {
                                    Ok(extras) => {
                                        let pts = capped_points(seq![(x, y)] + extras);
                                        Ok(
                                            BmModel {
                                                objects: m.objects.push(
                                                    slider_model(ts, hs, pts, st, reps),
                                                ),
                                                ..m
                                            },
                                        )
                                    },
                                    Err(e) => Err(e),
                                }
                            },
                            None => Err(ParseError::MalformedNumber),
                        }
                    }
                } else {
                    Ok(BmModel { objects: m.objects.push(circle_model(ts, hs, x, y)), ..m })
                }
            },
            _ => Err(ParseError::MalformedNumber),
        }
    }
}

/// What one raw line does to the document and the current section: a
/// bracketed header switches the section; anything else is interpreted by
/// the active section; Editor and Events are left unparsed.
pub open spec fn apply_line_spec(m: BmModel, sec: SectionType, raw: Seq<char>) -> Result<
    (BmModel, SectionType),
    ParseError,
> {
    let line = trim_spec(raw);
    match header_section(line) {
        Some(s) => Ok((m, s)),
        None => {
            let st = match sec {
                SectionType::General => step_general(m, line),
                SectionType::Metadata => step_metadata(m, line),
                SectionType::Difficulty => step_difficulty(m, line),
                SectionType::TimingPoints => step_timing(m, line),
                SectionType::HitObjects => step_hitobjects(m, line),
                SectionType::Colours => step_colours(m, line),
                SectionType::Editor => Ok(m),
                SectionType::Events => Ok(m),
            };
            match st {
                Ok(m2) => Ok((m2, sec)),
                Err(e) => Err(e),
            }
        },
    }
}

/// The whole parse: a single forward pass over the lines, starting in the
/// General section; the first malformed field aborts the pass.
pub open spec fn parse_osu_spec(m: BmModel, sec: SectionType, lines: Seq<Seq<char>>) -> Result<
    (BmModel, SectionType),
    ParseError,
>
    decreases lines.len(),
{
    if lines.len() == 0 {
        Ok((m, sec))
    } else {
        match apply_line_spec(m, sec, lines[0]) {
            Ok(p) => parse_osu_spec(p.0, p.1, lines.skip(1)),
            Err(e) => Err(e),
        }
    }
}

pub open spec fn str_views(ls: Seq<String>) -> Seq<Seq<char>> {
    ls.map_values(|s: String| s@)
}

/// A format a map document can be read from.
pub trait FileFormat {
    fn from_osu(&mut self, lines: &Vec<String>) -> Result<(), ParseError>;
}


/// Split a key/value line on its first `:`, trimming the value.
fn split_kv<'a>(line: &'a str) -> (r: Option<(&'a str, &'a str)>)
    ensures
        match r {
            None => kv_of(line@) is None,
            Some(kv) => kv_of(line@) == Some((kv.0@, kv.1@)),
        },
{
    let n = line.unicode_len();
    match find_char(line, ':') {
        None => None,
        Some(i) => {
            proof {
                crate::text::lemma_find_first_props(line@, ':');
            }
            let key = line.substring_char(0, i);
            let raw_v = line.substring_char(i + 1, n);
            let value = trim_str(raw_v);
            proof {
                assert(key@ =~= line@.take(i as int));
                assert(raw_v@ =~= line@.skip(i as int + 1));
            }
            Some((key, value))
        },
    }
}

impl Beatmap {
    /// Interpret one General-section line.
    fn apply_general(&mut self, line: &str) -> (r: Result<(), ParseError>)
        ensures
            (match step_general(old(self)@, line@) {
                Ok(m2) => r is Ok && final(self)@ == m2,
                Err(e) => r is Err && r->Err_0 == e,
            }),
    {
        match split_kv(line) {
            None => Ok(()),
            Some((key, value)) => {
                if str_eq(key, "AudioFilename") {
                    self.audio_filename = String::from_str(value);
                    proof {
                        assert(self@ =~= (BmModel { audio_filename: value@, ..old(self)@ }));
                    }
                    Ok(())
                } else if str_eq(key, "AudioLeadIn") {
                    match parse_int_field(value) {
                        Ok(v) => {
                            self.audio_lead_in = v;
                            proof {
                                assert(self@ =~= (BmModel {
                                    audio_lead_in: v as int,
                                    ..old(self)@
                                }));
                            }
                            Ok(())
                        },
                        Err(e) => Err(e),
                    }
                } else if str_eq(key, "PreviewTime") {
                    match parse_int_field(value) {
                        Ok(v) => {
                            self.preview_time = v;
                            proof {
                                assert(self@ =~= (BmModel {
                                    preview_time: v as int,
                                    ..old(self)@
                                }));
                            }
                            Ok(())
                        },
                        Err(e) => Err(e),
                    }
                } else if str_eq(key, "Countdown") {
                    match parse_int_field(value) {
                        Ok(v) => {
                            self.countdown_type = v;
                            proof {
                                assert(self@ =~= (BmModel {
                                    countdown_type: v as int,
                                    ..old(self)@
                                }));
                            }
                            Ok(())
                        },
                        Err(e) => Err(e),
                    }
                } else if str_eq(key, "SampleSet") {
                    let ss = if str_eq(value, "Normal") {
                        SampleSet::NORMAL
                    } else if str_eq(value, "Soft") {
                        SampleSet::SOFT
                    } else {
                        SampleSet::NONE
                    };
                    self.sample_set = ss;
                    proof {
                        assert(self@ =~= (BmModel { sample_set: ss, ..old(self)@ }));
                    }
                    Ok(())
                } else if str_eq(key, "StackLeniency") {
                    match parse_dec(value) {
                        Ok(d) => {
                            self.stack_leniency = d;
                            proof {
                                assert(self@ =~= (BmModel { stack_leniency: d, ..old(self)@ }));
                            }
                            Ok(())
                        },
                        Err(e) => Err(e),
                    }
                } else if str_eq(key, "LetterboxInBreaks") {
                    match parse_int_field(value) {
                        Ok(v) => {
                            if v == 1 {
                                self.letterbox_in_breaks = true;
                                proof {
                                    assert(self@ =~= (BmModel {
                                        letterbox_in_breaks: true,
                                        ..old(self)@
                                    }));
                                }
                            }
                            Ok(())
                        },
                        Err(e) => Err(e),
                    }
                } else {
                    Ok(())
                }
            },
        }
    }

    /// Interpret one Metadata-section line.
    fn apply_metadata(&mut self, line: &str) -> (r: Result<(), ParseError>)
        ensures
            (match step_metadata(old(self)@, line@) {
                Ok(m2) => r is Ok && final(self)@ == m2,
                Err(e) => r is Err && r->Err_0 == e,
            }),
    {
        match split_kv(line) {
            None => Ok(()),
            Some((key, value)) => {
                if str_eq(key, "Title") {
                    self.title = String::from_str(value);
                    proof {
                        assert(self@ =~= (BmModel { title: value@, ..old(self)@ }));
                    }
                    Ok(())
                } else if str_eq(key, "Artist") {
                    self.artist = String::from_str(value);
                    proof {
                        assert(self@ =~= (BmModel { artist: value@, ..old(self)@ }));
                    }
                    Ok(())
                } else if str_eq(key, "Creator") {
                    self.creator = String::from_str(value);
                    proof {
                        assert(self@ =~= (BmModel { creator: value@, ..old(self)@ }));
                    }
                    Ok(())
                } else if str_eq(key, "Version") {
                    self.difficulty = String::from_str(value);
                    proof {
                        assert(self@ =~= (BmModel { difficulty: value@, ..old(self)@ }));
                    }
                    Ok(())
                } else if str_eq(key, "Source") {
                    self.source = String::from_str(value);
                    proof {
                        assert(self@ =~= (BmModel { source: value@, ..old(self)@ }));
                    }
                    Ok(())
                } else if str_eq(key, "Tags") {
                    self.tags = String::from_str(value);
                    proof {
                        assert(self@ =~= (BmModel { tags: value@, ..old(self)@ }));
                    }
                    Ok(())
                } else if str_eq(key, "BeatmapID") {
                    match parse_int_field(value) {
                        Ok(v) => {
                            self.id = v;
                            proof {
                                assert(self@ =~= (BmModel { id: v as int, ..old(self)@ }));
                            }
                            Ok(())
                        },
                        Err(e) => Err(e),
                    }
                } else if str_eq(key, "BeatmapSetID") {
                    match parse_int_field(value) {
                        Ok(v) => {
                            self.set_id = v;
                            proof {
                                assert(self@ =~= (BmModel { set_id: v as int, ..old(self)@ }));
                            }
                            Ok(())
                        },
                        Err(e) => Err(e),
                    }
                } else {
                    Ok(())
                }
            },
        }
    }

    /// Interpret one Difficulty-section line.
    fn apply_difficulty(&mut self, line: &str) -> (r: Result<(), ParseError>)
        ensures
            (match step_difficulty(old(self)@, line@) {
                Ok(m2) => r is Ok && final(self)@ == m2,
                Err(e) => r is Err && r->Err_0 == e,
            }),
    {
        match split_kv(line) {
            None => Ok(()),
            Some((key, value)) => {
                let k_hp = str_eq(key, "HPDrainRate");
                let k_cs = str_eq(key, "CircleSize");
                let k_od = str_eq(key, "OverallDifficulty");
                let k_ar = str_eq(key, "ApproachRate");
                let k_sm = str_eq(key, "SliderMultiplier");
                let k_st = str_eq(key, "SliderTickRate");
                if k_hp || k_cs || k_od || k_ar || k_sm || k_st {
                    match parse_dec(value) {
                        Ok(d) => {
                            if k_hp {
                                self.hp_drain = d;
                                proof {
                                    assert(self@ =~= (BmModel { hp_drain: d, ..old(self)@ }));
                                }
                            } else if k_cs {
                                self.circle_size = d;
                                proof {
                                    assert(self@ =~= (BmModel { circle_size: d, ..old(self)@ }));
                                }
                            } else if k_od {
                                self.overall_difficulty = d;
                                proof {
                                    assert(self@ =~= (BmModel {
                                        overall_difficulty: d,
                                        ..old(self)@
                                    }));
                                }
                            } else if k_ar {
                                self.approach_rate = d;
                                proof {
                                    assert(self@ =~= (BmModel {
                                        approach_rate: d,
                                        ..old(self)@
                                    }));
                                }
                            } else if k_sm {
                                self.slider_multiplier = d;
                                proof {
                                    assert(self@ =~= (BmModel {
                                        slider_multiplier: d,
                                        ..old(self)@
                                    }));
                                }
                            } else {
                                self.slider_tick_rate = d;
                                proof {
                                    assert(self@ =~= (BmModel {
                                        slider_tick_rate: d,
                                        ..old(self)@
                                    }));
                                }
                            }
                            Ok(())
                        },
                        Err(e) => Err(e),
                    }
                } else {
                    Ok(())
                }
            },
        }
    }

    /// Interpret one Colours-section line.
    fn apply_colours(&mut self, line: &str) -> (r: Result<(), ParseError>)
        ensures
            (match step_colours(old(self)@, line@) {
                Ok(m2) => r is Ok && final(self)@ == m2,
                Err(e) => r is Err && r->Err_0 == e,
            }),
    {
        match split_kv(line) {
            None => Ok(()),
            Some((key, value)) => {
                let frags = split_str(value, ',');
                proof {
                    assert(frags@.len() == split_by(value@, ',').len());
                }
                if frags.len() < 3 {
                    return Err(ParseError::MalformedRecord);
                }
                proof {
                    assert(frags@[0]@ == split_by(value@, ',')[0]);
                    assert(frags@[1]@ == split_by(value@, ',')[1]);
                    assert(frags@[2]@ == split_by(value@, ',')[2]);
                }
                let rv = match parse_int_field(frags[0]) {
                    Ok(v) => v,
                    Err(e) => {
                        return Err(e);
                    },
                };
                let gv = match parse_int_field(frags[1]) {
                    Ok(v) => v,
                    Err(e) => {
                        return Err(e);
                    },
                };
                let bv = match parse_int_field(frags[2]) {
                    Ok(v) => v,
                    Err(e) => {
                        return Err(e);
                    },
                };
                let color = Rgba { red: rv, green: gv, blue: bv, alpha: Dec::one() };
                self.colors.push(color);
                proof {
                    assert(self@ =~= (BmModel {
                        colors: old(self)@.colors.push(color),
                        ..old(self)@
                    }));
                }
                Ok(())
            },
        }
    }

    /// Interpret one TimingPoints-section line.
    fn apply_timing(&mut self, line: &str) -> (r: Result<(), ParseError>)
        ensures
            (match step_timing(old(self)@, line@) {
                Ok(m2) => r is Ok && final(self)@ == m2,
                Err(e) => r is Err && r->Err_0 == e,
            }),
    {
        let toks = split_str(line, ',');
        proof {
            assert(toks@.len() == split_by(line@, ',').len());
        }
        if toks.len() <= 6 {
            return Ok(());
        }
        if toks.len() == 7 {
            return Err(ParseError::MalformedRecord);
        }
        proof {
            assert(toks@[0]@ == split_by(line@, ',')[0]);
            assert(toks@[1]@ == split_by(line@, ',')[1]);
            assert(toks@[2]@ == split_by(line@, ',')[2]);
            assert(toks@[3]@ == split_by(line@, ',')[3]);
            assert(toks@[4]@ == split_by(line@, ',')[4]);
            assert(toks@[5]@ == split_by(line@, ',')[5]);
            assert(toks@[7]@ == split_by(line@, ',')[7]);
        }
        let time = match parse_dec(toks[0]) {
            Ok(d) => d,
            Err(e) => {
                return Err(e);
            },
        };
        let mt = match parse_int_field(toks[2]) {
            Ok(v) => v,
            Err(e) => {
                return Err(e);
            },
        };
        let sc = match parse_int_field(toks[3]) {
            Ok(v) => v,
            Err(e) => {
                return Err(e);
            },
        };
        let cu = match parse_int_field(toks[4]) {
            Ok(v) => v,
            Err(e) => {
                return Err(e);
            },
        };
        let vo = match parse_int_field(toks[5]) {
            Ok(v) => v,
            Err(e) => {
                return Err(e);
            },
        };
        let ki = match parse_int_range(toks[7], -128, 127) {
            Ok(v) => v,
            Err(e) => {
                return Err(e);
            },
        };
        let vel = match parse_dec(toks[1]) {
            Ok(d) => d,
            Err(e) => {
                return Err(e);
            },
        };
        let tp = TimingPoint {
            inherited: vel.neg,
            time_start: time.round(),
            beat_length: if vel.neg {
                Dec::zero()
            } else {
                vel
            },
            velocity: if vel.neg {
                vel.round()
            } else {
                0
            },
            meter: mt,
            sample_type: if sc == 1 {
                SampleSet::NORMAL
            } else if sc == 2 {
                SampleSet::SOFT
            } else {
                SampleSet::NONE
            },
            sample_type_custom: cu,
            sample_volume: vo,
            kiai: ki > 0,
        };
        self.timing_points.push(tp);
        proof {
            assert(self@ =~= (BmModel {
                timing_points: old(self)@.timing_points.push(tp),
                ..old(self)@
            }));
        }
        Ok(())
    }
}


impl Beatmap {
    /// Interpret one HitObjects-section line.
    #[verifier::rlimit(100)]
    #[verifier::spinoff_prover]
    #[verifier::loop_isolation(false)]
    fn apply_hitobjects(&mut self, line: &str) -> (r: Result<(), ParseError>)
        ensures
            (match step_hitobjects(old(self)@, line@) {
                Ok(m2) => r is Ok && final(self)@ == m2,
                Err(e) => r is Err && r->Err_0 == e,
            }),
    {
        let toks = split_str(line, ',');
        let ghost stoks = split_by(line@, ',');
        proof {
            assert(toks@.len() == stoks.len());
        }
        if toks.len() <= 5 {
            return Ok(());
        }
        proof {
            assert(toks@[0]@ == stoks[0]);
            assert(toks@[1]@ == stoks[1]);
            assert(toks@[2]@ == stoks[2]);
            assert(toks@[3]@ == stoks[3]);
            assert(toks@[4]@ == stoks[4]);
            assert(toks@[5]@ == stoks[5]);
        }
        let ht = match parse_int_field(toks[3]) {
            Ok(v) => v,
            Err(e) => {
                return Err(e);
            },
        };
        let ts = match parse_int_field(toks[2]) {
            Ok(v) => v,
            Err(e) => {
                return Err(e);
            },
        };
        let hs = match parse_int_field(toks[4]) {
            Ok(v) => v,
            Err(e) => {
                return Err(e);
            },
        };
        let x = match parse_int_field(toks[0]) {
            Ok(v) => v,
            Err(e) => {
                return Err(e);
            },
        };
        let y = match parse_int_field(toks[1]) {
            Ok(v) => v,
            Err(e) => {
                return Err(e);
            },
        };
        let hitsound = if hs == 0 {
            HitSoundType::Normal
        } else if hs == 1 {
            HitSoundType::Whistle
        } else if hs == 2 {
            HitSoundType::Finish
        } else if hs == 3 {
            HitSoundType::Clap
        } else {
            HitSoundType::Normal
        };
        if ht == 12 {
            let te = match parse_int_field(toks[5]) {
                Ok(v) => v,
                Err(e) => {
                    return Err(e);
                },
            };
            let mut obj = HitObject::new(HitObjectType::Spinner);
            obj.with_params(ts, false, hitsound);
            obj.add_point((x as i32, y as i32));
            obj.with_spinner_length(te - ts);
            proof {
                assert(obj.points@.map_values(|p: (i32, i32)| (p.0 as int, p.1 as int)) =~= seq![
                    (x as int, y as int)]);
                assert(obj_model(obj) =~= spinner_model(
                    ts as int,
                    hs as int,
                    x as int,
                    y as int,
                    te - ts,
                ));
            }
            self.objects.push(obj);
            proof {
                assert(self@.objects =~= old(self)@.objects.push(
                    spinner_model(ts as int, hs as int, x as int, y as int, te - ts),
                ));
                assert(self@ =~= (BmModel {
                    objects: old(self)@.objects.push(
                        spinner_model(ts as int, hs as int, x as int, y as int, te - ts),
                    ),
                    ..old(self)@
                }));
            }
            Ok(())
        } else if ht == 2 || ht == 6 {
            if toks.len() == 6 {
                return Err(ParseError::MalformedRecord);
            }
            proof {
                assert(toks@[6]@ == stoks[6]);
            }
            let reps = match parse_int_field(toks[6]) {
                Ok(v) => v,
                Err(e) => {
                    return Err(e);
                },
            };
            let parts = split_str(toks[5], '|');
            let ghost sparts = split_by(stoks[5], '|');
            proof {
                assert(crate::text::views_of(parts@) == sparts);
                assert(parts@[0]@ == sparts[0]);
            }
            let st = if str_eq(parts[0], "B") || str_eq(parts[0], "C") {
                SliderType::SliderBezier
            } else if str_eq(parts[0], "P") {
                SliderType::SliderPassthrough
            } else if str_eq(parts[0], "L") {
                SliderType::SliderLinear
            } else {
                SliderType::SliderNone
            };
            proof {
                assert(st == slider_type_of_token(sparts[0]));
            }
            let mut obj = HitObject::new(HitObjectType::Slider);
            obj.kind = HitObjectKind::Slider {
                slider_type: st,
                slider_repeats: reps,
                curve_points: Vec::new(),
            };
            obj.with_params(ts, false, hitsound);
            obj.add_point((x as i32, y as i32));
            let ghost first: Seq<(int, int)> = seq![(x as int, y as int)];
            let ghost mut extras: Seq<(int, int)> = Seq::empty();
            proof {
                assert(first + extras =~= first);
                assert(obj.points@.map_values(|p: (i32, i32)| (p.0 as int, p.1 as int)) =~= first);
                assert(capped_points(first + extras) =~= first);
            }
            let np = parts.len();
            let mut j: usize = 1;
            while j < np
                invariant
                    np == parts@.len(),
                    1 <= j <= np,
                    crate::text::views_of(parts@) == sparts,
                    sparts.len() == np,
                    obj.kind_tag() == HitObjectType::Slider,
                    obj.slider_type_of() == st,
                    obj.repeats_of() == reps as int,
                    obj.length_of() == 0,
                    obj.time_start == ts,
                    obj.end_combo == false,
                    obj.combo_index == 0,
                    obj.combo_number == 1,
                    obj.hitsound == hitsound,
                    obj.curve_view() == Seq::<(int, int)>::empty(),
                    first.len() == 1,
                    obj.points@.map_values(|p: (i32, i32)| (p.0 as int, p.1 as int))
                        == capped_points(first + extras),
                    (match parse_extra_points(sparts, j as int) {
                        Ok(rest) => parse_extra_points(sparts, 1) == Ok::<
                            Seq<(int, int)>,
                            ParseError,
                        >(extras + rest),
                        Err(e) => parse_extra_points(sparts, 1) == Err::<
                            Seq<(int, int)>,
                            ParseError,
                        >(e),
                    }),
                decreases np - j,
            {
                proof {
                    assert(parts@[j as int]@ == sparts[j as int]);
                }
                let sub = split_str(parts[j], ':');
                proof {
                    assert(sub@.len() == split_by(sparts[j as int], ':').len());
                }
                if sub.len() < 2 {
                    proof {
                        assert(parse_extra_points(sparts, j as int) == Err::<
                            Seq<(int, int)>,
                            ParseError,
                        >(ParseError::MalformedRecord));
                        assert(parse_extra_points(sparts, 1) == Err::<
                            Seq<(int, int)>,
                            ParseError,
                        >(ParseError::MalformedRecord));
                    }
                    return Err(ParseError::MalformedRecord);
                }
                proof {
                    assert(sub@[0]@ == split_by(sparts[j as int], ':')[0]);
                    assert(sub@[1]@ == split_by(sparts[j as int], ':')[1]);
                }
                let px = match parse_int_field(sub[0]) {
                    Ok(v) => v,
                    Err(e) => {
                        proof {
                            assert(parse_extra_points(sparts, j as int) == Err::<
                                Seq<(int, int)>,
                                ParseError,
                            >(ParseError::MalformedNumber));
                            assert(parse_extra_points(sparts, 1) == Err::<
                                Seq<(int, int)>,
                                ParseError,
                            >(ParseError::MalformedNumber));
                        }
                        return Err(e);
                    },
                };
                let py = match parse_int_field(sub[1]) {
                    Ok(v) => v,
                    Err(e) => {
                        proof {
                            assert(parse_extra_points(sparts, j as int) == Err::<
                                Seq<(int, int)>,
                                ParseError,
                            >(ParseError::MalformedNumber));
                            assert(parse_extra_points(sparts, 1) == Err::<
                                Seq<(int, int)>,
                                ParseError,
                            >(ParseError::MalformedNumber));
                        }
                        return Err(e);
                    },
                };
                let ghost pre_pts = obj.points@;
                obj.add_point((px as i32, py as i32));
                proof {
                    let all = first + extras;
                    let all2 = first + (extras + seq![(px as int, py as int)]);
                    assert(all2 =~= all + seq![(px as int, py as int)]);
                    if all.len() >= VERT_CAP {
                        assert(capped_points(all).len() == VERT_CAP);
                        assert(pre_pts.len() == VERT_CAP);
                        assert(obj.points@ == pre_pts);
                        assert(capped_points(all2) =~= capped_points(all));
                    } else {
                        assert(pre_pts.len() == all.len());
                        assert(obj.points@ == pre_pts.push((px as i32, py as i32)));
                        assert(obj.points@.map_values(|p: (i32, i32)| (p.0 as int, p.1 as int))
                            =~= capped_points(all).push((px as int, py as int)));
                        assert(capped_points(all2) =~= capped_points(all).push(
                            (px as int, py as int),
                        ));
                    }
                    let ghost oldex = extras;
                    extras = extras + seq![(px as int, py as int)];
                    // Chain the fold equation one token forward.
                    match parse_extra_points(sparts, j as int + 1) {
                        Ok(rest) => {
                            assert(parse_extra_points(sparts, j as int) == Ok::<
                                Seq<(int, int)>,
                                ParseError,
                            >(seq![(px as int, py as int)] + rest));
                            assert((oldex + (seq![(px as int, py as int)] + rest)) =~= (extras
                                + rest));
                        },
                        Err(e) => {
                            assert(parse_extra_points(sparts, j as int) == Err::<
                                Seq<(int, int)>,
                                ParseError,
                            >(e));
                        },
                    }
                }
                j = j + 1;
            }
            proof {
                assert(parse_extra_points(sparts, np as int) == Ok::<
                    Seq<(int, int)>,
                    ParseError,
                >(Seq::empty()));
                assert(extras + Seq::<(int, int)>::empty() =~= extras);
                assert(parse_extra_points(sparts, 1) == Ok::<Seq<(int, int)>, ParseError>(extras));
                assert(capped_points(first + extras).len() >= 1);
                assert(obj.points@.len() == capped_points(first + extras).len());
                assert(obj.points@.len() <= VERT_CAP);
            }
            let ghost pts = capped_points(first + extras);
            let ghost pre_obj = obj;
            obj.prepare_slider();
            proof {
                assert(fx_of_points(pre_obj.points@) =~= fx_scale_pts(pts));
                assert(obj.curve_view() == slider_curve_of(st, pts));
                assert(obj_model(obj) =~= slider_model(ts as int, hs as int, pts, st, reps as int));
            }
            self.objects.push(obj);
            proof {
                assert(self@.objects =~= old(self)@.objects.push(
                    slider_model(ts as int, hs as int, pts, st, reps as int),
                ));
                assert(self@ =~= (BmModel {
                    objects: old(self)@.objects.push(
                        slider_model(ts as int, hs as int, pts, st, reps as int),
                    ),
                    ..old(self)@
                }));
            }
            Ok(())
        } else {
            let mut obj = HitObject::new(HitObjectType::Circle);
            obj.with_params(ts, false, hitsound);
            obj.add_point((x as i32, y as i32));
            proof {
                assert(obj.points@.map_values(|p: (i32, i32)| (p.0 as int, p.1 as int)) =~= seq![
                    (x as int, y as int)]);
                assert(obj_model(obj) =~= circle_model(ts as int, hs as int, x as int, y as int));
            }
            self.objects.push(obj);
            proof {
                assert(self@.objects =~= old(self)@.objects.push(
                    circle_model(ts as int, hs as int, x as int, y as int),
                ));
                assert(self@ =~= (BmModel {
                    objects: old(self)@.objects.push(
                        circle_model(ts as int, hs as int, x as int, y as int),
                    ),
                    ..old(self)@
                }));
            }
            Ok(())
        }
    }
}

impl FileFormat for Beatmap {
    /// Parse the lines of a chart file into this document, in one forward
    /// pass starting in the General section. On the first malformed field
    /// the pass stops and no document is produced.
    #[verifier::loop_isolation(false)]
    fn from_osu(&mut self, lines: &Vec<String>) -> (r: Result<(), ParseError>)
        ensures
            (match parse_osu_spec(old(self)@, SectionType::General, str_views(lines@)) {
                Ok(p) => r is Ok && final(self)@ == p.0,
                Err(e) => r is Err && r->Err_0 == e,
            }),
    {
        let ghost m0 = old(self)@;
        let ghost all = str_views(lines@);
        let mut sec = SectionType::General;
        let mut i: usize = 0;
        let n = lines.len();
        proof {
            assert(all.skip(0) =~= all);
        }
        while i < n
            invariant
                n == lines@.len(),
                i <= n,
                all == str_views(lines@),
                parse_osu_spec(m0, SectionType::General, all) == parse_osu_spec(
                    self@,
                    sec,
                    all.skip(i as int),
                ),
            decreases n - i,
        {
            let t = trim_str(lines[i].as_str());
            proof {
                assert(all[i as int] == lines@[i as int]@);
                assert(all.skip(i as int)[0] == all[i as int]);
                assert(t@ == trim_spec(all[i as int]));
            }
            let ghost pre = self@;
            let ghost psec = sec;
            let mut res: Result<(), ParseError> = Ok(());
            if str_eq(t, "[General]") {
                sec = SectionType::General;
            } else if str_eq(t, "[Editor]") {
                sec = SectionType::Editor;
            } else if str_eq(t, "[Metadata]") {
                sec = SectionType::Metadata;
            } else if str_eq(t, "[Difficulty]") {
                sec = SectionType::Difficulty;
            } else if str_eq(t, "[Events]") {
                sec = SectionType::Events;
            } else if str_eq(t, "[TimingPoints]") {
                sec = SectionType::TimingPoints;
            } else if str_eq(t, "[Colours]") {
                sec = SectionType::Colours;
            } else if str_eq(t, "[HitObjects]") {
                sec = SectionType::HitObjects;
            } else {
                proof {
                    assert(header_section(t@) is None);
                }
                res = match sec {
                    SectionType::General => self.apply_general(t),
                    SectionType::Metadata => self.apply_metadata(t),
                    SectionType::Difficulty => self.apply_difficulty(t),
                    SectionType::TimingPoints => self.apply_timing(t),
                    SectionType::HitObjects => self.apply_hitobjects(t),
                    SectionType::Colours => self.apply_colours(t),
                    SectionType::Editor => Ok(()),
                    SectionType::Events => Ok(()),
                };
            }
            match res {
                Ok(()) => {
                    proof {
                        assert(apply_line_spec(pre, psec, all[i as int]) == Ok::<
                            (BmModel, SectionType),
                            ParseError,
                        >((self@, sec)));
                        assert(all.skip(i as int).skip(1) =~= all.skip(i as int + 1));
                        assert(parse_osu_spec(pre, psec, all.skip(i as int)) == parse_osu_spec(
                            self@,
                            sec,
                            all.skip(i as int + 1),
                        ));
                    }
                },
                Err(e) => {
                    proof {
                        assert(apply_line_spec(pre, psec, all[i as int]) == Err::<
                            (BmModel, SectionType),
                            ParseError,
                        >(e));
                        assert(parse_osu_spec(pre, psec, all.skip(i as int)) == Err::<
                            (BmModel, SectionType),
                            ParseError,
                        >(e));
                        assert(parse_osu_spec(m0, SectionType::General, all) == Err::<
                            (BmModel, SectionType),
                            ParseError,
                        >(e));
                    }
                    return Err(e);
                },
            }
            i = i + 1;
        }
        proof {
            assert(all.skip(n as int) =~= Seq::<Seq<char>>::empty());
        }
        Ok(())
    }
}


/// The tessellated path of a linear or passthrough slider is its raw
/// control points reinterpreted as fixed-point coordinates: same order,
/// same count.
pub proof fn lemma_plain_path_is_control_points(st: SliderType, pts: Seq<(int, int)>)
    requires
        st == SliderType::SliderLinear || st == SliderType::SliderPassthrough,
    ensures
        slider_curve_of(st, pts) == fx_scale_pts(pts),
        slider_curve_of(st, pts).len() == pts.len(),
        forall|i: int|
            0 <= i < pts.len() ==> slider_curve_of(st, pts)[i] == ((#[trigger] pts[i]).0 * 65536,
            pts[i].1 * 65536),
{
}

/// The sign of the raw velocity field of an accepted timing record alone
/// decides whether the record is inherited, and the stored value matches
/// the source field exactly: negative gives the rounded velocity code,
/// non-negative the tempo, unrounded.
pub proof fn lemma_timing_sign_selects(m: BmModel, line: Seq<char>)
    requires
        step_timing(m, line) is Ok,
        step_timing(m, line).unwrap().timing_points.len() == m.timing_points.len() + 1,
    ensures
        ({
            let field = parse_dec_spec(split_by(line, ',')[1]);
            let rec = step_timing(m, line).unwrap().timing_points.last();
            &&& field is Some
            &&& rec.inherited == field.unwrap().neg
            &&& (field.unwrap().neg ==> rec.velocity == field.unwrap().round_spec())
            &&& (!field.unwrap().neg ==> rec.beat_length == field.unwrap())
        }),
{
    let toks = split_by(line, ',');
    if toks.len() <= 6 {
        assert(false);
    } else if toks.len() == 7 {
        assert(false);
    } else {
        match (parse_dec_spec(toks[0]), int_field(toks[2]), int_field(toks[3]), int_field(
            toks[4],
        ), int_field(toks[5]), kiai_field(toks[7]), parse_dec_spec(toks[1])) {
            (Some(time), Some(mt), Some(sc), Some(cu), Some(vo), Some(ki), Some(vel)) => {
                crate::num::lemma_parse_dec_wf(toks[1]);
                crate::num::lemma_round_spec_bounds(vel);
                crate::num::lemma_parse_dec_wf(toks[0]);
                crate::num::lemma_round_spec_bounds(time);
                let tp = TimingPoint {
                    inherited: vel.neg,
                    time_start: time.round_spec() as i64,
                    beat_length: if vel.neg {
                        Dec { neg: false, mant: 0, scale: 0 }
                    } else {
                        vel
                    },
                    velocity: if vel.neg {
                        vel.round_spec() as i64
                    } else {
                        0
                    },
                    meter: mt as i64,
                    sample_type: sample_set_of_code(sc),
                    sample_type_custom: cu as i64,
                    sample_volume: vo as i64,
                    kiai: ki > 0,
                };
                let m2 = step_timing(m, line).unwrap();
                assert(m2.timing_points == m.timing_points.push(tp));
                assert(m2.timing_points.last() == tp);
            },
            _ => {
                assert(false);
            },
        }
    }
}

} // verus!
