use orbit_propagator::renderer::Renderer;
use orbit_propagator::sample::SGP4TLE;

#[test]
fn renderer_starts_with_sample() {
    let r = Renderer::new();
    assert_eq!(r.t_until, 900);
    assert_eq!(r.t_since, 90);
    assert_eq!(r.t_until_str, "900");
    assert_eq!(r.tle_input, SGP4TLE);
    assert_eq!(r.tle_validation_error, "");
    assert_eq!(r.tle.name, "SGP4(SGP4)");
}

#[test]
fn update_with_non_number_changes_nothing() {
    let mut r = Renderer::new();
    r.t_until_str = "12a".to_string();
    r.tle_input = String::new();
    assert!(!r.update_graph());
    assert_eq!(r.t_until, 900);
    assert_eq!(r.tle_validation_error, "");
}

#[test]
fn update_with_valid_text_replaces_element_set() {
    let mut r = Renderer::new();
    r.t_until_str = "120".to_string();
    r.tle_input = "ISS (ZARYA)
1 25544U 98067A   26209.15252568  .00010831  00000-0  20282-3 0  9993
2 25544  51.6320  97.3682 0007093 345.6120  14.4666 15.49220842578109"
        .to_string();
    r.tle_validation_error = "old".to_string();
    assert!(r.update_graph());
    assert_eq!(r.t_until, 120);
    assert_eq!(r.tle.name, "ISS(ZARYA)");
    assert_eq!(r.tle_validation_error, "");
}

#[test]
fn update_with_invalid_text_keeps_element_set() {
    let mut r = Renderer::new();
    r.t_until_str = "-30".to_string();
    r.tle_input = "just a name".to_string();
    assert!(r.update_graph());
    assert_eq!(r.t_until, -30);
    assert_eq!(r.tle.name, "SGP4(SGP4)");
    assert_eq!(r.tle_validation_error, "Row missing");
}

#[test]
fn current_point_index_cases() {
    let mut r = Renderer::new();
    assert_eq!(r.current_point_index(900), Some(89));
    assert_eq!(r.current_point_index(50), Some(49));
    assert_eq!(r.current_point_index(0), None);
    r.t_since = 0;
    assert_eq!(r.current_point_index(10), None);
    r.t_since = -1;
    assert_eq!(r.current_point_index(10), Some(9));
}
