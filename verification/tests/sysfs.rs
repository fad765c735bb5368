use t2_fancontrol::error::FanControlError;
use t2_fancontrol::sysfs::{
    discover_temperature_sources, fan_name_of, finish_fan_discovery, first_usable_path, input_to_base_path,
    join_suffix, parse_attribute, read_temperature, text_less, FanEndpoint, SysfsWrite,
    TemperatureSnapshot, TemperatureSource,
};
use t2_fancontrol::text::IntErrorKind;

fn fan(name: &str) -> FanEndpoint {
    FanEndpoint {
        name: name.to_string(),
        base_path: format!("/sys/x/{name}"),
        min_speed: 1000,
        max_speed: 6000,
        current_speed: None,
        manual_enabled: None,
    }
}

fn source(name: &str) -> TemperatureSource {
    TemperatureSource { name: name.to_string(), path: format!("/t/{name}"), last_temp_c: Some(1) }
}

#[test]
fn join_suffix_appends_to_file_name() {
    assert_eq!(join_suffix("/sys/dev/fan1", "_input"), "/sys/dev/fan1_input");
    assert_eq!(join_suffix("fan2", "_max"), "fan2_max");
    assert_eq!(join_suffix("/", "_input"), "/fan_input");
}

#[test]
fn input_to_base_path_strips_input() {
    assert_eq!(input_to_base_path("/sys/dev/fan1_input"), Ok("/sys/dev/fan1".to_string()));
    assert_eq!(input_to_base_path("/sys/dev/_input"), Ok("/sys/dev/".to_string()));
    assert_eq!(
        input_to_base_path("/sys/dev/fan1_output"),
        Err(FanControlError::InvalidFanPath("/sys/dev/fan1_output".to_string()))
    );
    assert_eq!(
        input_to_base_path("/sys/dev/.."),
        Err(FanControlError::InvalidFanPath("/sys/dev/..".to_string()))
    );
    assert_eq!(
        input_to_base_path("/sys/dev/put"),
        Err(FanControlError::InvalidFanPath("/sys/dev/put".to_string()))
    );
}

#[test]
fn fan_names() {
    assert_eq!(fan_name_of("/sys/dev/fan1"), Ok("fan1".to_string()));
    assert_eq!(fan_name_of("/"), Err(FanControlError::InvalidFanPath("/".to_string())));
}

#[test]
fn attribute_values() {
    assert_eq!(parse_attribute("/a", " 2400\n"), Ok(2400));
    assert_eq!(
        parse_attribute("/a", "\n"),
        Err(FanControlError::ParseInt { path: "/a".to_string(), source: IntErrorKind::Empty })
    );
    assert_eq!(
        parse_attribute("/b", "12x"),
        Err(FanControlError::ParseInt { path: "/b".to_string(), source: IntErrorKind::InvalidDigit })
    );
    assert_eq!(
        parse_attribute("/c", "4294967296"),
        Err(FanControlError::ParseInt { path: "/c".to_string(), source: IntErrorKind::PosOverflow })
    );
}

#[test]
fn temperatures_from_millidegrees() {
    assert_eq!(read_temperature(Ok(45999)), Ok(45));
    assert_eq!(read_temperature(Ok(300000)), Ok(44));
    assert_eq!(read_temperature(Err(FanControlError::NoFans)), Err(FanControlError::NoFans));
}

#[test]
fn snapshot_from_readings() {
    let mut sources = vec![source("CPU"), source("GPU"), source("NVMe")];
    let snap = TemperatureSnapshot::read_from(&mut sources, &vec![Some(50), None, Some(30)]);
    assert_eq!(snap, TemperatureSnapshot { cpu_temp_c: Some(50), gpu_temp_c: None });
    assert_eq!(sources[0].last_temp_c, Some(50));
    assert_eq!(sources[1].last_temp_c, None);
    assert_eq!(sources[2].last_temp_c, Some(30));
    assert_eq!(sources[2].name, "NVMe");
    assert_eq!(sources[2].path, "/t/NVMe");
}

#[test]
fn snapshot_last_source_wins() {
    let mut sources = vec![source("GPU"), source("GPU")];
    let snap = TemperatureSnapshot::read_from(&mut sources, &vec![Some(40), Some(41)]);
    assert_eq!(snap.gpu_temp_c, Some(41));
    assert_eq!(snap.cpu_temp_c, None);
}

#[test]
fn effective_temperature_is_the_hotter_one() {
    let s = |c, g| TemperatureSnapshot { cpu_temp_c: c, gpu_temp_c: g };
    assert_eq!(s(Some(50), Some(70)).effective_temp_c(), Some(70));
    assert_eq!(s(Some(80), Some(70)).effective_temp_c(), Some(80));
    assert_eq!(s(Some(50), None).effective_temp_c(), Some(50));
    assert_eq!(s(None, Some(60)).effective_temp_c(), Some(60));
    assert_eq!(s(None, None).effective_temp_c(), None);
    assert_eq!(TemperatureSnapshot::default(), s(None, None));
}

#[test]
fn refresh_state_records_readings() {
    let mut f = fan("fan1");
    assert_eq!(f.refresh_state(Ok(2000), Ok(1)), Ok(()));
    assert_eq!(f.current_speed, Some(2000));
    assert_eq!(f.manual_enabled, Some(true));
    assert_eq!(f.refresh_state(Ok(2100), Ok(0)), Ok(()));
    assert_eq!(f.manual_enabled, Some(false));
}

#[test]
fn refresh_state_stops_at_first_failure() {
    let mut f = fan("fan1");
    let e = FanControlError::Protocol("x".to_string());
    assert_eq!(f.refresh_state(Err(e.clone()), Ok(1)), Err(e.clone()));
    assert_eq!(f.current_speed, None);
    assert_eq!(f.manual_enabled, None);
    assert_eq!(f.refresh_state(Ok(1500), Err(e.clone())), Err(e));
    assert_eq!(f.current_speed, Some(1500));
    assert_eq!(f.manual_enabled, None);
}

#[test]
fn writes() {
    let f = fan("fan1");
    assert_eq!(
        f.set_manual(true),
        SysfsWrite { path: "/sys/x/fan1_manual".to_string(), value: "1".to_string() }
    );
    assert_eq!(f.set_manual(false).value, "0");
    assert_eq!(
        f.set_speed(3000),
        SysfsWrite { path: "/sys/x/fan1_output".to_string(), value: "3000".to_string() }
    );
    assert_eq!(f.set_speed(10).value, "1000");
    assert_eq!(f.set_speed(9000).value, "6000");
}

#[test]
fn percent_to_rpm_values() {
    let f = fan("fan1");
    assert_eq!(f.percent_to_rpm(0), 1000);
    assert_eq!(f.percent_to_rpm(50), 3500);
    assert_eq!(f.percent_to_rpm(100), 6000);
    assert_eq!(f.percent_to_rpm(33), 2650);
    let mut g = fan("fan2");
    g.min_speed = 5000;
    g.max_speed = 1000;
    assert_eq!(g.percent_to_rpm(100), 5000);
}

#[test]
fn fans_from_reads() {
    let f = FanEndpoint::from_reads("fan1".into(), "/b/fan1".into(), Ok(1), Ok(2), Ok(3), Ok(0))
        .unwrap();
    assert_eq!((f.min_speed, f.max_speed), (1, 2));
    assert_eq!(f.current_speed, Some(3));
    assert_eq!(f.manual_enabled, Some(false));
    let e = FanControlError::Protocol("unreadable".to_string());
    let g = FanEndpoint::from_reads("fan1".into(), "/b/fan1".into(), Ok(1), Ok(2), Err(e.clone()), Err(e.clone()))
        .unwrap();
    assert_eq!(g.current_speed, None);
    assert_eq!(g.manual_enabled, None);
    let min_err = FanControlError::NoFans;
    assert_eq!(
        FanEndpoint::from_reads("f".into(), "/f".into(), Err(min_err.clone()), Err(e.clone()), Ok(1), Ok(1))
            .unwrap_err(),
        min_err
    );
    assert_eq!(
        FanEndpoint::from_reads("f".into(), "/f".into(), Ok(1), Err(e.clone()), Ok(1), Ok(1)).unwrap_err(),
        e
    );
}

#[test]
fn first_usable_sensor_path() {
    let paths: Vec<String> = vec!["/a".into(), "/b".into(), "/c".into()];
    assert_eq!(first_usable_path(&paths, &vec![false, true, true]), Some("/b".to_string()));
    assert_eq!(first_usable_path(&paths, &vec![false, false, false]), None);
    assert_eq!(first_usable_path(&Vec::new(), &Vec::new()), None);
}

#[test]
fn fans_are_sorted_by_name() {
    let fans = vec![fan("fan2"), fan("fan10"), fan("fan1"), fan("Fan3")];
    let sorted = finish_fan_discovery(fans).unwrap();
    let names: Vec<&str> = sorted.iter().map(|f| f.name.as_str()).collect();
    assert_eq!(names, vec!["Fan3", "fan1", "fan10", "fan2"]);
}

#[test]
fn fan_sort_is_stable() {
    let mut a = fan("fan1");
    a.min_speed = 1;
    let mut b = fan("fan1");
    b.min_speed = 2;
    let sorted = finish_fan_discovery(vec![fan("fan2"), a, b]).unwrap();
    assert_eq!(sorted[0].min_speed, 1);
    assert_eq!(sorted[1].min_speed, 2);
    assert_eq!(sorted[2].name, "fan2");
}

#[test]
fn no_fans_is_an_error() {
    assert_eq!(finish_fan_discovery(Vec::new()).unwrap_err(), FanControlError::NoFans);
}

#[test]
fn text_order_matches_str() {
    for (a, b) in [("a", "b"), ("ab", "a"), ("", "a"), ("a", ""), ("é", "z"), ("fan1", "fan10"), ("x", "x")] {
        assert_eq!(text_less(a, b), a < b, "{a:?} {b:?}");
    }
}

#[test]
fn temperature_sources() {
    let both = discover_temperature_sources(Some("/c".into()), Some("/g".into()));
    assert_eq!(both.len(), 2);
    assert_eq!((both[0].name.as_str(), both[0].path.as_str()), ("CPU", "/c"));
    assert_eq!((both[1].name.as_str(), both[1].path.as_str()), ("GPU", "/g"));
    assert!(both.iter().all(|s| s.last_temp_c.is_none()));
    let gpu = discover_temperature_sources(None, Some("/g".into()));
    assert_eq!(gpu.len(), 1);
    assert_eq!(gpu[0].name, "GPU");
    assert!(discover_temperature_sources(None, None).is_empty());
}
