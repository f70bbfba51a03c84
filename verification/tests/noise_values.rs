use infini_jump::level_generator::perlin::{PerlinLevelGenerator, GROUND_COLOR, GROUND_THRESHOLD};
use infini_jump::level_generator::perlin_generator::{
    SimplePerlinLevelGenerator, LAYER_COLORS, LAYER_THRESHOLDS,
};
use infini_jump::level_generator::sample::{NoiseValue, FRACTION_RANGE, INFINITY_BITS, SIGN_BIT};
use infini_jump::level_generator::terrain::{layers_crossed, TerrainLayer};

fn value(v: f64) -> NoiseValue {
    NoiseValue::from_bits(v.to_bits())
}

fn interesting_values() -> Vec<f64> {
    vec![
        0.0,
        -0.0,
        f64::MIN_POSITIVE,
        -f64::MIN_POSITIVE,
        5e-324,
        -5e-324,
        2.2250738585072009e-308,
        0.1,
        0.19999999999999998,
        0.2,
        0.20000000000000004,
        0.25,
        0.4,
        0.5,
        0.6,
        0.7,
        0.8,
        0.8000000000000002,
        0.9,
        1.0,
        -0.2,
        -0.5,
        -1.0,
        1.5,
        2.0,
        1e300,
        -1e300,
        f64::MAX,
        f64::MIN,
        f64::INFINITY,
        f64::NEG_INFINITY,
        f64::NAN,
        -f64::NAN,
    ]
}

#[test]
fn encoding_constants_are_those_of_binary64() {
    assert_eq!(SIGN_BIT, (-0.0f64).to_bits());
    assert_eq!(INFINITY_BITS, f64::INFINITY.to_bits());
    assert_eq!(FRACTION_RANGE, 1u64 << 52);
}

#[test]
fn bits_round_trip() {
    for v in interesting_values() {
        assert_eq!(value(v).to_bits(), v.to_bits());
        assert_eq!(value(v).bits, v.to_bits());
    }
}

#[test]
fn is_nan_agrees_with_the_machine() {
    for v in interesting_values() {
        assert_eq!(value(v).is_nan(), v.is_nan(), "value {:?}", v);
    }
    assert!(NoiseValue::from_bits(0x7FF0_0000_0000_0001).is_nan());
    assert!(NoiseValue::from_bits(0xFFFF_FFFF_FFFF_FFFF).is_nan());
    assert!(!NoiseValue::from_bits(0x7FF0_0000_0000_0000).is_nan());
    assert!(!NoiseValue::from_bits(0xFFF0_0000_0000_0000).is_nan());
}

#[test]
fn exceeds_agrees_with_the_machine_comparison() {
    for a in interesting_values() {
        for b in interesting_values() {
            assert_eq!(value(a).exceeds(&value(b)), a > b, "{:?} > {:?}", a, b);
        }
    }
}

#[test]
fn exceeds_agrees_on_a_sweep_of_values() {
    let mut v = -1.25f64;
    while v <= 1.25 {
        for t in [0.2f64, 0.4, 0.6, 0.8, -0.3, 0.0] {
            assert_eq!(value(v).exceeds(&value(t)), v > t, "{:?} > {:?}", v, t);
        }
        v += 0.0078125;
    }
}

#[test]
fn zeros_do_not_exceed_each_other() {
    assert!(!value(0.0).exceeds(&value(-0.0)));
    assert!(!value(-0.0).exceeds(&value(0.0)));
    assert!(value(5e-324).exceeds(&value(-0.0)));
    assert!(value(0.0).exceeds(&value(-5e-324)));
}

#[test]
fn nothing_exceeds_nan_and_nan_exceeds_nothing() {
    for v in interesting_values() {
        assert!(!value(v).exceeds(&value(f64::NAN)));
        assert!(!value(f64::NAN).exceeds(&value(v)));
    }
}

#[test]
fn thresholds_are_the_encodings_of_the_four_levels() {
    assert_eq!(LAYER_THRESHOLDS[0], 0.2f64.to_bits());
    assert_eq!(LAYER_THRESHOLDS[1], 0.4f64.to_bits());
    assert_eq!(LAYER_THRESHOLDS[2], 0.6f64.to_bits());
    assert_eq!(LAYER_THRESHOLDS[3], 0.8f64.to_bits());
    assert_eq!(GROUND_THRESHOLD, 0.2f64.to_bits());
}

#[test]
fn thresholds_ascend() {
    for z in 1..4 {
        let upper = NoiseValue::from_bits(LAYER_THRESHOLDS[z]);
        let lower = NoiseValue::from_bits(LAYER_THRESHOLDS[z - 1]);
        assert!(upper.exceeds(&lower));
        assert!(!lower.exceeds(&upper));
    }
}

#[test]
fn simple_generator_has_four_layers() {
    let layers = SimplePerlinLevelGenerator::layers();
    assert_eq!(layers.len(), 4);
    for z in 0..4 {
        assert_eq!(layers[z].threshold.bits, LAYER_THRESHOLDS[z]);
        assert_eq!(layers[z].color, LAYER_COLORS[z]);
    }
    assert_eq!(LAYER_COLORS, ["#FF5733", "#C70039", "#900C3F", "#581845"]);
}

#[test]
fn perlin_generator_has_one_layer() {
    let layers = PerlinLevelGenerator::layers();
    assert_eq!(layers.len(), 1);
    assert_eq!(layers[0].threshold.bits, 0.2f64.to_bits());
    assert_eq!(layers[0].color, "#FF5733");
    assert_eq!(GROUND_COLOR, "#FF5733");
}

#[test]
fn layer_cardinality_for_reference_thresholds() {
    let layers = SimplePerlinLevelGenerator::layers();
    let cases: [(f64, usize); 16] = [
        (-1.0, 0),
        (0.0, 0),
        (0.1, 0),
        (0.2, 0),
        (0.20000000000000004, 1),
        (0.25, 1),
        (0.4, 1),
        (0.5, 2),
        (0.6, 2),
        (0.6000000000000001, 3),
        (0.7, 3),
        (0.8, 3),
        (0.8000000000000002, 4),
        (0.9, 4),
        (1.0, 4),
        (f64::INFINITY, 4),
    ];
    for (v, expected) in cases {
        assert_eq!(layers_crossed(value(v), &layers), expected, "value {:?}", v);
    }
    assert_eq!(layers_crossed(value(f64::NAN), &layers), 0);
}

#[test]
fn layers_crossed_counts_thresholds_below_the_value() {
    let layers = SimplePerlinLevelGenerator::layers();
    let mut v = -0.5f64;
    while v <= 1.5 {
        let expected = [0.2f64, 0.4, 0.6, 0.8].iter().filter(|t| v > **t).count();
        assert_eq!(layers_crossed(value(v), &layers), expected, "value {:?}", v);
        v += 0.001953125;
    }
}

#[test]
fn layers_crossed_counts_each_threshold_on_its_own() {
    // Thresholds that do not ascend: each one that the value exceeds counts.
    let layers = vec![
        TerrainLayer { threshold: value(0.8), color: "#000000" },
        TerrainLayer { threshold: value(0.1), color: "#111111" },
        TerrainLayer { threshold: value(0.5), color: "#222222" },
        TerrainLayer { threshold: value(f64::NAN), color: "#333333" },
    ];
    assert_eq!(layers_crossed(value(0.05), &layers), 0);
    assert_eq!(layers_crossed(value(0.3), &layers), 1);
    assert_eq!(layers_crossed(value(0.6), &layers), 2);
    assert_eq!(layers_crossed(value(0.9), &layers), 3);
    assert_eq!(layers_crossed(value(0.9), &Vec::new()), 0);
}
