use adaptive_brightness::brightness_curve::BrightnessCurve;

#[test]
fn brightness_curve_empty_curve() {
    let curve = BrightnessCurve::from_steps(vec![]);
    assert_eq!(100, curve.target_brightness(0));
    assert_eq!(100, curve.target_brightness(100));
    assert_eq!(100, curve.target_brightness(1000));
}

#[test]
fn brightness_curve_single_value_curve() {
    let curve = BrightnessCurve::from_steps(vec![(50, 42)]);
    assert_eq!(42, curve.target_brightness(0));
    assert_eq!(42, curve.target_brightness(50));
    assert_eq!(42, curve.target_brightness(100));
}

#[test]
fn brightness_curve_double_value_curve() {
    let curve = BrightnessCurve::from_steps(vec![(50, 30), (250, 80)]);
    assert_eq!(30, curve.target_brightness(0));
    assert_eq!(30, curve.target_brightness(20));
    assert_eq!(30, curve.target_brightness(50));
    assert_eq!(42.5 as u32, curve.target_brightness(100));
    assert_eq!(55, curve.target_brightness(150));
    assert_eq!(67.5 as u32, curve.target_brightness(200));
    assert_eq!(80, curve.target_brightness(250));
    assert_eq!(80, curve.target_brightness(300));
}

#[test]
fn brightness_curve_multi_value_curve() {
    let curve = BrightnessCurve::from_steps(vec![(0, 0), (100, 20), (150, 50), (250, 100)]);
    assert_eq!(0, curve.target_brightness(0));
    assert_eq!(5, curve.target_brightness(25));
    assert_eq!(10, curve.target_brightness(50));
    assert_eq!(15, curve.target_brightness(75));
    assert_eq!(20, curve.target_brightness(100));
    assert_eq!(35, curve.target_brightness(125));
    assert_eq!(50, curve.target_brightness(150));
    assert_eq!(55, curve.target_brightness(160));
    assert_eq!(60, curve.target_brightness(170));
    assert_eq!(65, curve.target_brightness(180));
    assert_eq!(70, curve.target_brightness(190));
    assert_eq!(75, curve.target_brightness(200));
    assert_eq!(80, curve.target_brightness(210));
    assert_eq!(85, curve.target_brightness(220));
    assert_eq!(90, curve.target_brightness(230));
    assert_eq!(95, curve.target_brightness(240));
    assert_eq!(100, curve.target_brightness(250));
    assert_eq!(100, curve.target_brightness(300));
}

#[test]
fn brightness_curve_unordered_value_curve() {
    let curve = BrightnessCurve::from_steps(vec![
        (10, 10),
        (100, 100),
        (0, 0),
        (40, 40),
        (80, 80),
        (60, 60),
    ]);
    for i in 0..=10 {
        assert_eq!(10 * i, curve.target_brightness(10 * i));
    }
}
