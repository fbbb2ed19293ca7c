//! Sun sensor: which bodies can hide the Sun from it, the noise chain its
//! readings pass through, and what a reading reports.
//!
//! The sensor measures the satellite→Sun unit vector rotated into the body
//! frame, passed through its noise models in the order they were added:
//!
//! ```text
//! d_eci  = normalize(sun_pos_eci - sc_pos_eci)
//! d_body = noise(R_bi · d_eci)
//! ```
//!
//! When some body can block the Sun the sensor also reports the
//! illumination fraction, and in total eclipse it reports no direction.
//! The vector arithmetic is the caller's; this type holds the configuration
//! and decides what a reading reports.
use vstd::prelude::*;

use crate::earth::Decimal;
use crate::reading::FloatClass;

verus! {

/// The shadow geometry of an occulting body.
#[derive(Debug, Clone, Copy, PartialEq, Eq, Structural)]
pub enum ShadowModel {
    /// A cylinder the body's width: umbra only.
    Cylindrical,
    /// Umbra and penumbra cones: a partial eclipse gives a fraction.
    Conical,
}

/// The shadow geometry a sun sensor gives the central body: conical, since
/// a sensor reports the penumbra as a fraction.
pub const SENSOR_CENTRAL_SHADOW_MODEL: ShadowModel = ShadowModel::Conical;

/// A body that can block the Sun.
#[derive(Debug, Clone, Copy, PartialEq, Eq, Structural)]
pub struct OccultingBody {
    /// The body's radius [km].
    pub radius: Decimal,
    /// The shape of its shadow.
    pub shadow_model: ShadowModel,
    /// Whether it is the body the orbit is about.
    pub central: bool,
}

impl OccultingBody {
    /// The central body, casting a shadow of `radius`.
    pub fn central(radius: Decimal, shadow_model: ShadowModel) -> (b: Self)
        requires
            radius.positive(),
        ensures
            b == (OccultingBody { radius, shadow_model, central: true }),
    {
        OccultingBody { radius, shadow_model, central: true }
    }

    /// A body other than the central one, such as the Earth seen from a
    /// lunar orbit.
    pub fn distant(radius: Decimal, shadow_model: ShadowModel) -> (b: Self)
        requires
            radius.positive(),
        ensures
            b == (OccultingBody { radius, shadow_model, central: false }),
    {
        OccultingBody { radius, shadow_model, central: false }
    }

    /// Whether this is the central body.
    pub fn is_central(&self) -> (r: bool)
        ensures
            r == self.central,
    {
        self.central
    }
}

/// What a sensor holds: its noise chain, the bodies that can hide the Sun,
/// and the geometry a central body is given.
pub struct SensorModel<N> {
    pub noise: Seq<N>,
    pub occulters: Seq<OccultingBody>,
    pub central_shadow_model: ShadowModel,
}

/// Sun sensor measuring the Sun direction in the body frame, with the noise
/// models of type `N` its readings pass through.
pub struct SunSensor<N> {
    noise: Vec<N>,
    occulters: Vec<OccultingBody>,
    central_shadow_model: ShadowModel,
}

impl<N> View for SunSensor<N> {
    type V = SensorModel<N>;

    closed spec fn view(&self) -> SensorModel<N> {
        SensorModel {
            noise: self.noise@,
            occulters: self.occulters@,
            central_shadow_model: self.central_shadow_model,
        }
    }
}

/// The occulters after [`SunSensor::with_shadow_model`]: every central body
/// takes the new geometry, the rest keep their own.
pub open spec fn remodelled(occulters: Seq<OccultingBody>, model: ShadowModel) -> Seq<
    OccultingBody,
> {
    occulters.map_values(
        |o: OccultingBody|
            if o.central {
                OccultingBody { shadow_model: model, ..o }
            } else {
                o
            },
    )
}

/// A sensor after [`SunSensor::with_shadow_model`].
pub open spec fn with_model<N>(s: SensorModel<N>, model: ShadowModel) -> SensorModel<N> {
    SensorModel {
        central_shadow_model: model,
        occulters: remodelled(s.occulters, model),
        ..s
    }
}

/// A sensor after [`SunSensor::with_shadow_body`].
pub open spec fn with_body<N>(s: SensorModel<N>, radius: Decimal) -> SensorModel<N> {
    SensorModel {
        occulters: seq![
            OccultingBody { radius, shadow_model: s.central_shadow_model, central: true },
        ],
        ..s
    }
}

/// What a reading reports, before its numbers.
#[derive(Debug, Clone, Copy, PartialEq, Eq, Structural)]
pub enum Sighting {
    /// Total eclipse: no direction, and an illumination of zero.
    Eclipse,
    /// Sunlit but with no direction to measure (at the Sun's centre): no
    /// direction, and the illumination as measured.
    NoDirection,
    /// The direction rotated into the body frame and passed through the
    /// noise models in order; it is reported normalized when the result
    /// still has a direction, with the illumination as measured.
    Direction,
}

/// What a reading reports: total eclipse wherever the illumination is at
/// most zero; else a direction wherever the satellite→Sun vector has one.
pub open spec fn sighting(illumination: FloatClass, has_direction: bool) -> Sighting {
    if illumination is NegInfinity || illumination is Negative || illumination is Zero {
        Sighting::Eclipse
    } else if !has_direction {
        Sighting::NoDirection
    } else {
        Sighting::Direction
    }
}

impl<N> SunSensor<N> {
    /// An ideal sun sensor (no noise, no eclipse) for Earth orbit.
    pub fn new() -> (s: Self)
        ensures
            s@.noise == Seq::<N>::empty(),
            s@.occulters == Seq::<OccultingBody>::empty(),
            s@.central_shadow_model == SENSOR_CENTRAL_SHADOW_MODEL,
    {
        SunSensor {
            noise: Vec::new(),
            occulters: Vec::new(),
            central_shadow_model: SENSOR_CENTRAL_SHADOW_MODEL,
        }
    }

    /// A sun sensor for Earth orbit, shadowed by the Earth with a conical
    /// shadow.
    pub fn for_earth() -> (s: Self)
        ensures
            s@.noise == Seq::<N>::empty(),
            s@.occulters == seq![
                OccultingBody {
                    radius: crate::earth::r_value(),
                    shadow_model: ShadowModel::Conical,
                    central: true,
                },
            ],
            s@.central_shadow_model == ShadowModel::Conical,
    {
        Self::new().with_shadow_body(crate::earth::r())
    }

    /// Adds a noise model after those already there.
    pub fn with_noise(self, noise: N) -> (s: Self)
        ensures
            s@ == (SensorModel { noise: self@.noise.push(noise), ..self@ }),
    {
        let mut s = self;
        s.noise.push(noise);
        s
    }

    /// Drops the shadow, keeping everything else.
    pub fn without_shadow(self) -> (s: Self)
        ensures
            s@ == (SensorModel { occulters: Seq::<OccultingBody>::empty(), ..self@ }),
    {
        let mut s = self;
        s.occulters = Vec::new();
        s
    }

    /// Makes the central body, of `radius`, the only body that can hide the
    /// Sun, with the geometry the sensor gives a central body.
    pub fn with_shadow_body(self, radius: Decimal) -> (s: Self)
        requires
            radius.positive(),
        ensures
            s@ == with_body(self@, radius),
    {
        let mut s = self;
        let mut occulters: Vec<OccultingBody> = Vec::new();
        occulters.push(OccultingBody::central(radius, s.central_shadow_model));
        s.occulters = occulters;
        proof {
            assert(s@.occulters =~= with_body(self@, radius).occulters);
        }
        s
    }

    /// Sets the geometry of the central body, whether it is named before or
    /// after; a distant occulter keeps its own.
    pub fn with_shadow_model(self, model: ShadowModel) -> (s: Self)
        ensures
            s@ == with_model(self@, model),
    {
        let mut s = self;
        s.central_shadow_model = model;
        let ghost before = s.occulters@;
        let mut i: usize = 0;
        while i < s.occulters.len()
            invariant
                i <= s.occulters@.len(),
                s.occulters@.len() == before.len(),
                before == self@.occulters,
                s.noise@ == self@.noise,
                s.central_shadow_model == model,
                forall|k: int|
                    0 <= k < i ==> #[trigger] s.occulters@[k] == remodelled(before, model)[k],
                forall|k: int| i <= k < before.len() ==> #[trigger] s.occulters@[k] == before[k],
            decreases before.len() - i,
        {
            let o = s.occulters[i];
            if o.central {
                s.occulters.set(i, OccultingBody { shadow_model: model, ..o });
            }
            i = i + 1;
        }
        proof {
            assert(s.occulters@ =~= remodelled(before, model));
        }
        s
    }

    /// Adds a body that can block the Sun, beside those already there.
    pub fn with_occulter(self, occulter: OccultingBody) -> (s: Self)
        ensures
            s@ == (SensorModel { occulters: self@.occulters.push(occulter), ..self@ }),
    {
        let mut s = self;
        s.occulters.push(occulter);
        s
    }

    /// The bodies that can hide the Sun.
    pub fn occulters(&self) -> (o: &Vec<OccultingBody>)
        ensures
            o@ == self@.occulters,
    {
        &self.occulters
    }

    /// The geometry the sensor gives a central body.
    pub fn central_shadow_model(&self) -> (m: ShadowModel)
        ensures
            m == self@.central_shadow_model,
    {
        self.central_shadow_model
    }

    /// The noise models, in the order a reading passes through them.
    pub fn noise(&self) -> (n: &Vec<N>)
        ensures
            n@ == self@.noise,
    {
        &self.noise
    }

    /// The noise models, to be applied to a reading in order.
    pub fn noise_mut(&mut self) -> (n: &mut Vec<N>)
        ensures
            n@ == old(self)@.noise,
            final(self)@ == (SensorModel { noise: final(n)@, ..old(self)@ }),
    {
        &mut self.noise
    }

    /// What a reading reports, given the illumination the occulters leave
    /// and whether the satellite→Sun vector has a direction.
    pub fn measure(&self, illumination: FloatClass, has_direction: bool) -> (s: Sighting)
        ensures
            s == sighting(illumination, has_direction),
    {
        match illumination {
            FloatClass::NegInfinity | FloatClass::Negative | FloatClass::Zero => Sighting::Eclipse,
            _ => if !has_direction {
                Sighting::NoDirection
            } else {
                Sighting::Direction
            },
        }
    }
}

impl<N> Default for SunSensor<N> {
    /// The ideal sensor of [`SunSensor::new`].
    fn default() -> (s: Self)
        ensures
            s@.noise == Seq::<N>::empty(),
            s@.occulters == Seq::<OccultingBody>::empty(),
            s@.central_shadow_model == SENSOR_CENTRAL_SHADOW_MODEL,
    {
        Self::new()
    }
}

/// The geometry reaches the central body whichever order the two builders
/// are called in.
pub proof fn law_builder_order<N>(s: SensorModel<N>, radius: Decimal, model: ShadowModel)
    ensures
        with_body(with_model(s, model), radius) == with_model(with_body(s, radius), model),
        with_body(with_model(s, model), radius).occulters == seq![
            OccultingBody { radius, shadow_model: model, central: true },
        ],
{
    assert(remodelled(with_body(s, radius).occulters, model) =~= seq![
        OccultingBody { radius, shadow_model: model, central: true },
    ]);
}

/// A reading is an eclipse exactly where the illumination is at most zero;
/// a sunlit reading reports a direction exactly where one exists.
pub proof fn law_eclipse_reports_no_direction(illumination: FloatClass, has_direction: bool)
    ensures
        (sighting(illumination, has_direction) == Sighting::Eclipse) <==> (illumination
            is NegInfinity || illumination is Negative || illumination is Zero),
        sighting(illumination, has_direction) == Sighting::Direction ==> has_direction,
{
}

/// Setting the shadow geometry reaches every central body and no other:
/// each central occulter takes the new geometry with its radius kept, a
/// distant one is left as it was, and the noise chain is untouched.
pub proof fn law_the_geometry_reaches_only_central_bodies<N>(s: SensorModel<N>, model: ShadowModel)
    ensures
        with_model(s, model).occulters.len() == s.occulters.len(),
        with_model(s, model).noise == s.noise,
        with_model(s, model).central_shadow_model == model,
        forall|i: int|
            0 <= i < s.occulters.len() ==> {
                let o = s.occulters[i];
                let o2 = #[trigger] with_model(s, model).occulters[i];
                &&& o2.radius == o.radius
                &&& o2.central == o.central
                &&& o2.shadow_model == (if o.central {
                    model
                } else {
                    o.shadow_model
                })
            },
{
}

} // verus!
