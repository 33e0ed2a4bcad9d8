use orbit_propagator::ground_track::{julian_day_number_jan_0, GroundTrack};

#[test]
#[allow(non_snake_case)]
fn test_epoch_into_days_since_J2000() {
    let epoch_year_julian_fraction = "80275.98708465".to_string();
    let ground_track = GroundTrack::new(epoch_year_julian_fraction);
    let parts = ground_track.epoch_parts().unwrap();
    let jd_jan_0 = parts.julian_day_number_jan_0 as f64 - 0.5;
    let jd = jd_jan_0 + parts.day_of_year.parse::<f64>().unwrap();
    let days_since_j2000 = jd - 2451545.0;
    assert_eq!(days_since_j2000, -7030.512915350031);
}

#[test]
fn epoch_parts_of_sample() {
    let g = GroundTrack::new("80275.98708465".to_string());
    assert_eq!(g.epoch_year_julian_fraction, "80275.98708465");
    let p = g.epoch_parts().unwrap();
    assert_eq!(p.year, 1980);
    assert_eq!(p.julian_day_number_jan_0, 2444239);
    assert_eq!(p.day_of_year, "275.98708465");
}

#[test]
fn epoch_century_rule() {
    let p = GroundTrack::new("26209.15252568".to_string()).epoch_parts().unwrap();
    assert_eq!(p.year, 2026);
    assert_eq!(GroundTrack::new("56001.0".to_string()).epoch_parts().unwrap().year, 2056);
    assert_eq!(GroundTrack::new("57001.0".to_string()).epoch_parts().unwrap().year, 1957);
    assert_eq!(GroundTrack::new("-9001.0".to_string()).epoch_parts().unwrap().year, 1991);
    assert_eq!(GroundTrack::new("+5001.0".to_string()).epoch_parts().unwrap().year, 2005);
}

#[test]
fn epoch_refused() {
    assert!(GroundTrack::new("8".to_string()).epoch_parts().is_none());
    assert!(GroundTrack::new("ab275.5".to_string()).epoch_parts().is_none());
    assert!(GroundTrack::new("80275,5".to_string()).epoch_parts().is_none());
    assert!(GroundTrack::new("80".to_string()).epoch_parts().is_none());
}

#[test]
fn julian_day_numbers() {
    assert_eq!(julian_day_number_jan_0(2000), 2451544);
    assert_eq!(julian_day_number_jan_0(1980), 2444239);
    assert_eq!(julian_day_number_jan_0(2001) - julian_day_number_jan_0(2000), 366);
    assert_eq!(julian_day_number_jan_0(1901) - julian_day_number_jan_0(1900), 365);
}
