use orts::earth::{r, Decimal};
use orts::reading::FloatClass;
use orts::sun_sensor::{
    OccultingBody, ShadowModel, Sighting, SunSensor, SENSOR_CENTRAL_SHADOW_MODEL,
};

/// The geometry a caller asks for reaches the body it names, whichever
/// order the two builders are called in.
#[test]
fn the_shadow_model_survives_either_builder_order() {
    let model_first = SunSensor::<u8>::new()
        .with_shadow_model(ShadowModel::Cylindrical)
        .with_shadow_body(r());
    let body_first = SunSensor::<u8>::new()
        .with_shadow_body(r())
        .with_shadow_model(ShadowModel::Cylindrical);
    for sensor in [model_first, body_first] {
        assert_eq!(sensor.occulters().len(), 1);
        assert_eq!(
            sensor.occulters()[0].shadow_model,
            ShadowModel::Cylindrical,
            "the sensor's conical default must not override the caller"
        );
    }
}

#[test]
fn a_new_sensor_has_no_noise_and_no_shadow() {
    let s = SunSensor::<u8>::new();
    assert!(s.noise().is_empty());
    assert!(s.occulters().is_empty());
    assert_eq!(s.central_shadow_model(), SENSOR_CENTRAL_SHADOW_MODEL);
    assert_eq!(SENSOR_CENTRAL_SHADOW_MODEL, ShadowModel::Conical);
}

#[test]
fn for_earth_is_shadowed_by_the_earth_with_a_conical_shadow() {
    let s = SunSensor::<u8>::for_earth();
    assert_eq!(
        s.occulters().as_slice(),
        &[OccultingBody {
            radius: Decimal { mantissa: 6378137, scale: 3 },
            shadow_model: ShadowModel::Conical,
            central: true,
        }]
    );
}

#[test]
fn noise_models_chain_in_the_order_they_were_added() {
    let s = SunSensor::new().with_noise(1u8).with_noise(2).with_noise(3);
    assert_eq!(s.noise().as_slice(), &[1, 2, 3]);
    let mut s = s;
    s.noise_mut().push(4);
    assert_eq!(s.noise().as_slice(), &[1, 2, 3, 4]);
}

#[test]
fn without_shadow_keeps_the_noise_and_the_geometry() {
    let s = SunSensor::for_earth()
        .with_noise(7u8)
        .with_shadow_model(ShadowModel::Cylindrical)
        .without_shadow();
    assert!(s.occulters().is_empty());
    assert_eq!(s.noise().as_slice(), &[7]);
    assert_eq!(s.central_shadow_model(), ShadowModel::Cylindrical);
}

#[test]
fn a_distant_occulter_keeps_its_own_geometry() {
    let earth = OccultingBody::distant(r(), ShadowModel::Conical);
    assert!(!earth.is_central());
    let moon = Decimal { mantissa: 17374, scale: 1 };
    let s = SunSensor::<u8>::new()
        .with_shadow_body(moon)
        .with_occulter(earth)
        .with_shadow_model(ShadowModel::Cylindrical);
    assert_eq!(s.occulters().len(), 2);
    assert_eq!(s.occulters()[0].shadow_model, ShadowModel::Cylindrical);
    assert!(s.occulters()[0].is_central());
    assert_eq!(s.occulters()[1], earth);
}

#[test]
fn total_eclipse_reports_no_direction() {
    let s = SunSensor::<u8>::for_earth();
    assert_eq!(s.measure(FloatClass::Zero, true), Sighting::Eclipse);
    assert_eq!(s.measure(FloatClass::Negative, true), Sighting::Eclipse);
    assert_eq!(s.measure(FloatClass::Zero, false), Sighting::Eclipse);
}

#[test]
fn a_sunlit_reading_reports_a_direction_where_there_is_one() {
    let s = SunSensor::<u8>::new();
    assert_eq!(s.measure(FloatClass::Positive, true), Sighting::Direction);
    assert_eq!(s.measure(FloatClass::Positive, false), Sighting::NoDirection);
}

#[test]
fn the_default_sensor_is_the_new_one() {
    let s: SunSensor<u8> = Default::default();
    assert!(s.noise().is_empty());
    assert!(s.occulters().is_empty());
    assert_eq!(s.central_shadow_model(), SENSOR_CENTRAL_SHADOW_MODEL);
}
