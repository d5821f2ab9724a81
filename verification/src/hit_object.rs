//! One playable chart element: a tap circle, a spinner, or a slider. The
//! kind-specific fields live on a tagged variant, so a circle cannot carry
//! slider data; the fields every element shares sit on the object itself.
use vstd::prelude::*;
use crate::bezier::{Bezier, tess_points_of, fx128_seq, VERT_CAP};

verus! {

#[derive(PartialEq, Eq, Structural, Copy, Clone, Debug)]
pub enum HitObjectType {
    Circle,
    Spinner,
    Slider,
}

impl Default for HitObjectType {
    fn default() -> (r: HitObjectType)
        ensures
            r == HitObjectType::Circle,
    {
        HitObjectType::Circle
    }
}

#[derive(PartialEq, Eq, Structural, Copy, Clone, Debug)]
pub enum SliderType {
    SliderNone,
    SliderCatmul,
    SliderBezier,
    SliderLinear,
    SliderPassthrough,
}

impl Default for SliderType {
    fn default() -> (r: SliderType)
        ensures
            r == SliderType::SliderNone,
    {
        SliderType::SliderNone
    }
}

#[derive(PartialEq, Eq, Structural, Copy, Clone, Debug)]
pub enum HitSoundType {
    Normal,
    Whistle,
    Finish,
    Clap,
}

impl Default for HitSoundType {
    fn default() -> (r: HitSoundType)
        ensures
            r == HitSoundType::Normal,
    {
        HitSoundType::Normal
    }
}

/// The kind-specific part of a chart element.
#[derive(Debug)]
pub enum HitObjectKind {
    Circle,
    /// A spinner and its duration in milliseconds.
    Spinner { length: i64 },
    /// A slider: its curve sub-type, its repeat count, and the tessellated
    /// path derived from the control points.
    Slider { slider_type: SliderType, slider_repeats: i64, curve_points: Vec<(i128, i128)> },
}

/// The raw control points as fixed-point coordinates.
pub open spec fn fx_of_points(pts: Seq<(i32, i32)>) -> Seq<(int, int)> {
    pts.map_values(|p: (i32, i32)| (p.0 as int * 65536, p.1 as int * 65536))
}

/// One chart element.
#[derive(Debug)]
pub struct HitObject {
    pub kind: HitObjectKind,
    /// Raw control points in game units; exactly one for circles and
    /// spinners, two or more for sliders.
    pub points: Vec<(i32, i32)>,
    /// Start time in milliseconds.
    pub time_start: i64,
    pub end_combo: bool,
    pub combo_index: i64,
    pub combo_number: i64,
    pub hitsound: HitSoundType,
}

impl HitObject {
    /// The variant tag of this element.
    pub open spec fn kind_tag(self) -> HitObjectType {
        match self.kind {
            HitObjectKind::Circle => HitObjectType::Circle,
            HitObjectKind::Spinner { .. } => HitObjectType::Spinner,
            HitObjectKind::Slider { .. } => HitObjectType::Slider,
        }
    }

    /// The slider sub-type; `SliderNone` for anything but a slider.
    pub open spec fn slider_type_of(self) -> SliderType {
        match self.kind {
            HitObjectKind::Slider { slider_type, .. } => slider_type,
            _ => SliderType::SliderNone,
        }
    }

    /// The slider repeat count; zero for anything but a slider.
    pub open spec fn repeats_of(self) -> int {
        match self.kind {
            HitObjectKind::Slider { slider_repeats, .. } => slider_repeats as int,
            _ => 0,
        }
    }

    /// The spinner duration; zero for anything but a spinner.
    pub open spec fn length_of(self) -> int {
        match self.kind {
            HitObjectKind::Spinner { length } => length as int,
            _ => 0,
        }
    }

    /// The tessellated slider path, in fixed-point coordinates; empty for
    /// anything but a prepared slider.
    pub open spec fn curve_view(self) -> Seq<(int, int)> {
        match self.kind {
            HitObjectKind::Slider { curve_points, .. } => fx128_seq(curve_points@),
            _ => Seq::empty(),
        }
    }

    pub fn new(obj_type: HitObjectType) -> (r: HitObject)
        ensures
            r.kind_tag() == obj_type,
            r.points@.len() == 0,
            r.time_start == 0,
            !r.end_combo,
            r.combo_index == 0,
            r.combo_number == 1,
            r.hitsound == HitSoundType::Normal,
            r.slider_type_of() == SliderType::SliderNone,
            r.repeats_of() == 0,
            r.length_of() == 0,
            r.curve_view() == Seq::<(int, int)>::empty(),
    {
        let kind = match obj_type {
            HitObjectType::Circle => HitObjectKind::Circle,
            HitObjectType::Spinner => HitObjectKind::Spinner { length: 0 },
            HitObjectType::Slider => HitObjectKind::Slider {
                slider_type: SliderType::SliderNone,
                slider_repeats: 0,
                curve_points: Vec::new(),
            },
        };
        proof {
            match &kind {
                HitObjectKind::Slider { curve_points, .. } => {
                    assert(fx128_seq(curve_points@) =~= Seq::<(int, int)>::empty());
                },
                _ => {},
            }
        }
        HitObject {
            kind,
            points: Vec::new(),
            time_start: 0,
            end_combo: false,
            combo_index: 0,
            combo_number: 1,
            hitsound: HitSoundType::Normal,
        }
    }

    /// Set the shared fields of the element.
    pub fn with_params(&mut self, time_start: i64, end_combo: bool, hitsound: HitSoundType)
        ensures
            *final(self) == (HitObject { time_start, end_combo, hitsound, ..*old(self) }),
    {
        self.time_start = time_start;
        self.end_combo = end_combo;
        self.hitsound = hitsound;
    }

    /// Set the duration of a spinner; anything else is left untouched.
    pub fn with_spinner_length(&mut self, length: i64)
        ensures
            old(self).kind_tag() == HitObjectType::Spinner ==> *final(self) == (HitObject {
                kind: HitObjectKind::Spinner { length },
                ..*old(self)
            }),
            old(self).kind_tag() != HitObjectType::Spinner ==> *final(self) == *old(self),
    {
        match &self.kind {
            HitObjectKind::Spinner { .. } => {
                self.kind = HitObjectKind::Spinner { length };
            },
            _ => {},
        }
    }

    /// Attach one control point. Only sliders take more than one point:
    /// on a circle or spinner that already has its point, the call is
    /// silently ignored, as is a point beyond the capacity of the curve
    /// engine.
    pub fn add_point(&mut self, point: (i32, i32))
        ensures
            final(self).kind == old(self).kind,
            final(self).time_start == old(self).time_start,
            final(self).end_combo == old(self).end_combo,
            final(self).combo_index == old(self).combo_index,
            final(self).combo_number == old(self).combo_number,
            final(self).hitsound == old(self).hitsound,
            final(self).points@ == (if (old(self).kind_tag() != HitObjectType::Slider && old(
                self,
            ).points@.len() > 0) || old(self).points@.len() >= VERT_CAP {
                old(self).points@
            } else {
                old(self).points@.push(point)
            }),
    {
        let is_slider = match &self.kind {
            HitObjectKind::Slider { .. } => true,
            _ => false,
        };
        if (!is_slider && self.points.len() > 0) || self.points.len() >= VERT_CAP {
        } else {
            self.points.push(point);
        }
    }

    /// The path a prepared slider carries: for the linear and passthrough
    /// sub-types the raw control points reinterpreted as fixed-point
    /// coordinates; for the curve sub-types the curve engine's tessellation;
    /// for everything else whatever was there before.
    pub open spec fn prepared_curve(self) -> Seq<(int, int)> {
        if self.kind_tag() == HitObjectType::Slider {
            match self.slider_type_of() {
                SliderType::SliderLinear | SliderType::SliderPassthrough => fx_of_points(
                    self.points@,
                ),
                SliderType::SliderBezier | SliderType::SliderCatmul => tess_points_of(
                    fx_of_points(self.points@),
                ),
                SliderType::SliderNone => self.curve_view(),
            }
        } else {
            self.curve_view()
        }
    }

    /// Derive the slider path from the control points. Runs the curve
    /// engine for the curve sub-types; must be called once, after all
    /// control points are attached.
    pub fn prepare_slider(&mut self)
        requires
            old(self).points@.len() <= VERT_CAP,
            old(self).kind_tag() == HitObjectType::Slider && (old(self).slider_type_of()
                == SliderType::SliderBezier || old(self).slider_type_of()
                == SliderType::SliderCatmul) ==> old(self).points@.len() >= 1,
        ensures
            final(self).points@ == old(self).points@,
            final(self).time_start == old(self).time_start,
            final(self).end_combo == old(self).end_combo,
            final(self).combo_index == old(self).combo_index,
            final(self).combo_number == old(self).combo_number,
            final(self).hitsound == old(self).hitsound,
            final(self).kind_tag() == old(self).kind_tag(),
            final(self).slider_type_of() == old(self).slider_type_of(),
            final(self).repeats_of() == old(self).repeats_of(),
            final(self).length_of() == old(self).length_of(),
            final(self).curve_view() == old(self).prepared_curve(),
    {
        let (st, reps) = match &self.kind {
            HitObjectKind::Slider { slider_type, slider_repeats, .. } => (
                *slider_type,
                *slider_repeats,
            ),
            _ => {
                return ;
            },
        };
        match st {
            SliderType::SliderNone => {},
            SliderType::SliderLinear | SliderType::SliderPassthrough => {
                let mut cps: Vec<(i128, i128)> = Vec::new();
                let mut i: usize = 0;
                let n = self.points.len();
                while i < n
                    invariant
                        n == self.points@.len(),
                        i <= n,
                        fx128_seq(cps@) == fx_of_points(self.points@).take(i as int),
                    decreases n - i,
                {
                    let p = self.points[i];
                    let ghost pc = cps@;
                    cps.push((p.0 as i128 * 65536, p.1 as i128 * 65536));
                    proof {
                        assert(fx128_seq(pc).len() == pc.len());
                        assert(pc.len() == i as int);
                        assert(cps@ == pc.push(
                            ((p.0 as int * 65536) as i128, (p.1 as int * 65536) as i128),
                        ));
                        let goal = fx_of_points(self.points@).take(i as int + 1);
                        assert forall|t: int| 0 <= t < cps@.len() implies #[trigger] fx128_seq(
                            cps@,
                        )[t] == goal[t] by {
                            if t < i as int {
                                assert(cps@[t] == pc[t]);
                                assert(fx128_seq(pc)[t] == fx_of_points(self.points@).take(
                                    i as int,
                                )[t]);
                            } else {
                                assert(cps@[t].0 as int == p.0 as int * 65536 && cps@[t].1 as int
                                    == p.1 as int * 65536);
                                assert(fx_of_points(self.points@)[t] == (self.points@[t].0 as int
                                    * 65536, self.points@[t].1 as int * 65536));
                            }
                        }
                        assert(fx128_seq(cps@) =~= goal);
                    }
                    i = i + 1;
                }
                proof {
                    assert(fx_of_points(self.points@).take(n as int) =~= fx_of_points(
                        self.points@,
                    ));
                }
                self.kind = HitObjectKind::Slider {
                    slider_type: st,
                    slider_repeats: reps,
                    curve_points: cps,
                };
            },
            SliderType::SliderBezier | SliderType::SliderCatmul => {
                let mut curve = Bezier::new();
                let mut i: usize = 0;
                let n = self.points.len();
                while i < n
                    invariant
                        n == self.points@.len(),
                        n <= VERT_CAP,
                        i <= n,
                        curve.wf(),
                        !curve.is_tessellated(),
                        curve.verts() == fx_of_points(self.points@).take(i as int),
                    decreases n - i,
                {
                    curve.add_vertexi(self.points[i]);
                    proof {
                        assert(curve.verts() =~= fx_of_points(self.points@).take(i as int + 1));
                    }
                    i = i + 1;
                }
                proof {
                    assert(fx_of_points(self.points@).take(n as int) =~= fx_of_points(
                        self.points@,
                    ));
                }
                let cps = curve.get_tesselated_points();
                self.kind = HitObjectKind::Slider {
                    slider_type: st,
                    slider_repeats: reps,
                    curve_points: cps,
                };
            },
        }
    }

    pub fn get_time_start(&self) -> (r: i64)
        ensures
            r == self.time_start,
    {
        self.time_start
    }
}

} // verus!
