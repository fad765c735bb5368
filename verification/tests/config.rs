use t2_fancontrol::config::{curve_for_preset, default_curve_for, normalize_curve, AppConfig, CurvePoint, PresetKind};
use t2_fancontrol::config_file::{
    candidate_config_paths, config_from_candidates, parse_config, primary_config_path,
};

fn p(temp_c: u8, speed_percent: u8) -> CurvePoint {
    CurvePoint { temp_c, speed_percent }
}

const ALL: [PresetKind; 4] = [
    PresetKind::Quiet,
    PresetKind::Balanced,
    PresetKind::Performance,
    PresetKind::Custom,
];

#[test]
fn preset_names() {
    assert_eq!(PresetKind::Quiet.as_str(), "Quiet");
    assert_eq!(PresetKind::Balanced.as_str(), "Balanced");
    assert_eq!(PresetKind::Performance.as_str(), "Performance");
    assert_eq!(PresetKind::Custom.as_str(), "Custom");
    assert_eq!(PresetKind::Performance.ui_label(), "Power");
    assert_eq!(PresetKind::Quiet.ui_label(), "Quiet");
    assert_eq!(PresetKind::Balanced.ui_label(), "Balanced");
    assert_eq!(PresetKind::Custom.ui_label(), "Custom");
    assert_eq!(PresetKind::default(), PresetKind::Balanced);
}

#[test]
fn preset_from_str_accepts_old_names() {
    assert_eq!(PresetKind::from_str("Silent"), Some(PresetKind::Quiet));
    assert_eq!(PresetKind::from_str("All-round"), Some(PresetKind::Balanced));
    assert_eq!(PresetKind::from_str("High performance"), Some(PresetKind::Performance));
    assert_eq!(PresetKind::from_str("Power"), None);
    assert_eq!(PresetKind::from_str("quiet"), None);
    assert_eq!(PresetKind::from_str(" Quiet"), None);
    assert_eq!(PresetKind::from_str(""), None);
}

#[test]
fn preset_name_round_trip() {
    for preset in ALL {
        assert_eq!(PresetKind::from_str(preset.as_str()), Some(preset));
    }
}

#[test]
fn default_curves() {
    assert_eq!(
        default_curve_for(PresetKind::Quiet),
        vec![p(20, 1), p(70, 10), p(85, 55), p(100, 100)]
    );
    assert_eq!(
        default_curve_for(PresetKind::Balanced),
        vec![p(20, 15), p(60, 30), p(80, 50), p(100, 100)]
    );
    assert_eq!(
        default_curve_for(PresetKind::Performance),
        vec![p(20, 15), p(40, 35), p(75, 75), p(85, 100)]
    );
    assert_eq!(
        default_curve_for(PresetKind::Custom),
        vec![p(35, 25), p(50, 45), p(70, 72), p(85, 100)]
    );
}

#[test]
fn default_config_values() {
    let c = AppConfig::default();
    assert_eq!(c.active_preset, PresetKind::Balanced);
    assert!(c.automatic_control_enabled);
    assert!(!c.autostart_enabled);
    assert_eq!(c.custom_curve, default_curve_for(PresetKind::Custom));
}

#[test]
fn curve_for_preset_uses_custom_curve_only_for_custom() {
    let mut c = AppConfig::default();
    c.custom_curve = vec![p(30, 40)];
    c.active_preset = PresetKind::Custom;
    assert_eq!(curve_for_preset(&c), vec![p(30, 40)]);
    c.active_preset = PresetKind::Quiet;
    assert_eq!(curve_for_preset(&c), default_curve_for(PresetKind::Quiet));
}

#[test]
fn normalize_sorts_stably_and_clamps() {
    let mut curve = vec![p(90, 200), p(10, 5), p(50, 1), p(10, 7), p(120, 50), p(50, 2)];
    normalize_curve(&mut curve);
    assert_eq!(
        curve,
        vec![p(20, 5), p(20, 7), p(50, 1), p(50, 2), p(90, 100), p(100, 50)]
    );
}

#[test]
fn normalize_is_idempotent() {
    let mut curve = vec![p(255, 255), p(0, 0), p(60, 60), p(19, 101)];
    normalize_curve(&mut curve);
    let once = curve.clone();
    normalize_curve(&mut curve);
    assert_eq!(curve, once);
    assert_eq!(once, vec![p(20, 0), p(20, 100), p(60, 60), p(100, 100)]);
}

#[test]
fn normalize_empty_curve() {
    let mut curve: Vec<CurvePoint> = Vec::new();
    normalize_curve(&mut curve);
    assert!(curve.is_empty());
}

#[test]
fn parse_full_config() {
    let raw = "active_preset=Quiet\nautomatic_control_enabled=false\nautostart_enabled=true\ncustom_curve=40:20,30:10\n";
    let c = parse_config(raw).unwrap();
    assert_eq!(c.active_preset, PresetKind::Quiet);
    assert!(!c.automatic_control_enabled);
    assert!(c.autostart_enabled);
    assert_eq!(c.custom_curve, vec![p(30, 10), p(40, 20)]);
}

#[test]
fn parse_empty_text_gives_defaults() {
    let c = parse_config("").unwrap();
    let d = AppConfig::default();
    assert_eq!(c.active_preset, d.active_preset);
    assert_eq!(c.automatic_control_enabled, d.automatic_control_enabled);
    assert_eq!(c.autostart_enabled, d.autostart_enabled);
    assert_eq!(c.custom_curve, d.custom_curve);
}

#[test]
fn parse_tolerates_whitespace_and_crlf() {
    let raw = "  active_preset =  Performance  \r\n\r\n\tautostart_enabled= true\r\ncustom_curve = 50 : 60 , , 20:30 ,\r\n";
    let c = parse_config(raw).unwrap();
    assert_eq!(c.active_preset, PresetKind::Performance);
    assert!(c.autostart_enabled);
    assert_eq!(c.custom_curve, vec![p(20, 30), p(50, 60)]);
}

#[test]
fn parse_ignores_unknown_keys_and_lines_without_equals() {
    let raw = "# comment\nfan_speed=3\nnonsense\nactive_preset=Silent\n";
    let c = parse_config(raw).unwrap();
    assert_eq!(c.active_preset, PresetKind::Quiet);
}

#[test]
fn parse_keeps_preset_when_unknown() {
    let c = parse_config("active_preset=Turbo\n").unwrap();
    assert_eq!(c.active_preset, PresetKind::Balanced);
}

#[test]
fn parse_rejects_bad_bool() {
    assert!(parse_config("automatic_control_enabled=yes\n").is_none());
    assert!(parse_config("autostart_enabled=True\n").is_none());
    assert!(parse_config("autostart_enabled=\n").is_none());
}

#[test]
fn parse_rejects_bad_curve() {
    assert!(parse_config("custom_curve=20-30\n").is_none());
    assert!(parse_config("custom_curve=20:300\n").is_none());
    assert!(parse_config("custom_curve=a:3\n").is_none());
    assert!(parse_config("custom_curve=:3\n").is_none());
    assert!(parse_config("custom_curve=-1:3\n").is_none());
}

#[test]
fn parse_accepts_plus_sign_and_leading_zeros() {
    let c = parse_config("custom_curve=+040:007\n").unwrap();
    assert_eq!(c.custom_curve, vec![p(40, 7)]);
}

#[test]
fn parse_empty_curve_keeps_default() {
    let c = parse_config("custom_curve=\n").unwrap();
    assert_eq!(c.custom_curve, default_curve_for(PresetKind::Custom));
    let c = parse_config("custom_curve= , ,\n").unwrap();
    assert_eq!(c.custom_curve, default_curve_for(PresetKind::Custom));
}

#[test]
fn parse_later_lines_override() {
    let raw = "active_preset=Quiet\nactive_preset=Custom\ncustom_curve=30:30\ncustom_curve=60:60\n";
    let c = parse_config(raw).unwrap();
    assert_eq!(c.active_preset, PresetKind::Custom);
    assert_eq!(c.custom_curve, vec![p(60, 60)]);
}

#[test]
fn parse_value_may_contain_equals() {
    let c = parse_config("active_preset==Quiet\n").unwrap();
    assert_eq!(c.active_preset, PresetKind::Balanced);
}

#[test]
fn disk_format_text() {
    let c = AppConfig {
        active_preset: PresetKind::Performance,
        automatic_control_enabled: true,
        autostart_enabled: false,
        custom_curve: vec![p(35, 25), p(100, 0)],
    };
    assert_eq!(
        c.to_disk_format(),
        "active_preset=Performance\nautomatic_control_enabled=true\nautostart_enabled=false\ncustom_curve=35:25,100:0\n"
    );
    let empty = AppConfig { custom_curve: Vec::new(), ..c };
    assert_eq!(
        empty.to_disk_format(),
        "active_preset=Performance\nautomatic_control_enabled=true\nautostart_enabled=false\ncustom_curve=\n"
    );
}

#[test]
fn disk_format_round_trip() {
    for preset in ALL {
        let c = AppConfig {
            active_preset: preset,
            automatic_control_enabled: false,
            autostart_enabled: true,
            custom_curve: vec![p(250, 7), p(0, 255), p(60, 40), p(0, 1)],
        };
        let back = parse_config(&c.to_disk_format()).unwrap();
        let mut expected = c.custom_curve.clone();
        normalize_curve(&mut expected);
        assert_eq!(back.active_preset, preset);
        assert!(!back.automatic_control_enabled);
        assert!(back.autostart_enabled);
        assert_eq!(back.custom_curve, expected);
    }
}

#[test]
fn disk_format_round_trip_empty_curve() {
    let c = AppConfig { custom_curve: Vec::new(), ..AppConfig::default() };
    let back = parse_config(&c.to_disk_format()).unwrap();
    assert_eq!(back.custom_curve, default_curve_for(PresetKind::Custom));
}

#[test]
fn parsed_curve_is_normalized() {
    let c = parse_config("custom_curve=90:5, 10:200 ,50:50\n").unwrap();
    assert_eq!(c.custom_curve, vec![p(20, 100), p(50, 50), p(90, 5)]);
    let mut again = c.custom_curve.clone();
    normalize_curve(&mut again);
    assert_eq!(again, c.custom_curve);
}

#[test]
fn config_paths() {
    assert_eq!(primary_config_path(None), "/etc/t2-fancontrol/config.txt");
    assert_eq!(primary_config_path(Some("/tmp/c.txt".into())), "/tmp/c.txt");
    assert_eq!(
        candidate_config_paths("/etc/t2-fancontrol/config.txt".into(), None, Some("/home/u".into())),
        vec!["/etc/t2-fancontrol/config.txt", "/home/u/.config/t2-fancontrol/config.txt"]
    );
    assert_eq!(
        candidate_config_paths("/p".into(), Some("/x".into()), Some("/home/u".into())),
        vec!["/p", "/x/t2-fancontrol/config.txt"]
    );
    assert_eq!(candidate_config_paths("/p".into(), None, None), vec!["/p"]);
    assert_eq!(
        candidate_config_paths("/x//t2-fancontrol/config.txt".into(), Some("/x".into()), None),
        vec!["/x//t2-fancontrol/config.txt"]
    );
}

#[test]
fn loading_takes_first_readable_candidate() {
    let texts = vec![
        None,
        Some("autostart_enabled=maybe\n".to_string()),
        Some("active_preset=Quiet\n".to_string()),
        Some("active_preset=Custom\n".to_string()),
    ];
    assert_eq!(config_from_candidates(&texts).active_preset, PresetKind::Quiet);
    let none = config_from_candidates(&vec![None, Some("custom_curve=x\n".to_string())]);
    assert_eq!(none.active_preset, PresetKind::Balanced);
    assert_eq!(none.custom_curve, default_curve_for(PresetKind::Custom));
}

#[test]
fn legacy_path_joins() {
    assert_eq!(
        candidate_config_paths("/p".into(), None, Some("/home/u/".into())),
        vec!["/p", "/home/u/.config/t2-fancontrol/config.txt"]
    );
    assert_eq!(
        candidate_config_paths("/p".into(), Some("".into()), None),
        vec!["/p", "t2-fancontrol/config.txt"]
    );
    assert_eq!(
        candidate_config_paths("/p".into(), Some("/x".into()), None),
        vec!["/p", "/x/t2-fancontrol/config.txt"]
    );
}
