use nvfans::fan_control::{full_speed_listed, FanControl, SetFanStatus};
use nvfans::sensors::max_temperature;

#[test]
fn hot_sensor_selects_level_seven() {
    let mut fc = FanControl::new(None);
    let temp = max_temperature(&vec![Some(82000), Some(70000)]);
    assert_eq!(temp, Some(82));
    let step = fc.set_fan_level(temp);
    assert_eq!(step.command.as_deref(), Some("level 7"));
    assert_eq!(step.status, SetFanStatus::FanLevelSet);
    assert_eq!(step.status_after_write(true), SetFanStatus::FanLevelSet);
    assert_eq!(fc.current_rule.as_ref().unwrap().name, "level 7");
}

#[test]
fn no_sensors_write_full_speed() {
    let mut fc = FanControl::new(None);
    let temp = max_temperature(&vec![]);
    let step = fc.set_fan_level(temp);
    assert_eq!(step.command.as_deref(), Some("full-speed"));
    assert_eq!(step.status_after_write(true), SetFanStatus::FanLevelInvalid);
    assert_eq!(step.status_after_write(false), SetFanStatus::FanLevelError);
    assert!(fc.current_rule.is_none());
}

#[test]
fn configured_rule_applies() {
    let mut fc = FanControl::new(Some("10,20,5"));
    let step = fc.set_fan_level(Some(15));
    assert_eq!(step.command.as_deref(), Some("level 5"));
    assert_eq!(step.status, SetFanStatus::FanLevelSet);
}

#[test]
fn malformed_config_uses_default_table() {
    let mut fc = FanControl::new(Some("abc,20,5"));
    assert_eq!(fc.temperature_configs.len(), 4);
    let step = fc.set_fan_level(Some(78));
    assert_eq!(step.command.as_deref(), Some("level 6"));
}

#[test]
fn unchanged_temperature_writes_once() {
    let mut fc = FanControl::new(None);
    let first = fc.set_fan_level(Some(50));
    assert_eq!(first.command.as_deref(), Some("level auto"));
    assert_eq!(first.status, SetFanStatus::FanLevelSet);
    let second = fc.set_fan_level(Some(50));
    assert!(second.command.is_none());
    assert_eq!(second.status, SetFanStatus::FanLevelSet);
    assert_eq!(second.status_after_write(false), SetFanStatus::FanLevelSet);
}

#[test]
fn repeated_hot_temperature_writes_once() {
    let mut fc = FanControl::new(None);
    assert!(fc.set_fan_level(Some(90)).command.is_some());
    let again = fc.set_fan_level(Some(90));
    assert!(again.command.is_none());
    assert_eq!(again.status, SetFanStatus::FanLevelSet);
}

#[test]
fn first_overlapping_rule_wins() {
    let mut fc = FanControl::new(Some("0,50,1\n10,60,2"));
    let step = fc.set_fan_level(Some(20));
    assert_eq!(step.command.as_deref(), Some("level 1"));
    assert_eq!(fc.current_rule.as_ref().unwrap().name, "level 0");
}

#[test]
fn new_controller_has_no_rule_applied() {
    let mut fc = FanControl::new(Some("0,100,auto\n40,60,3"));
    assert!(fc.current_rule.is_none());
    let step = fc.set_fan_level(Some(150));
    assert!(step.command.is_none());
    assert_eq!(step.status, SetFanStatus::FanLevelInvalid);
    let step = fc.set_fan_level(Some(50));
    assert_eq!(step.command.as_deref(), Some("level auto"));
    assert_eq!(step.status, SetFanStatus::FanLevelSet);
}

#[test]
fn current_rule_earlier_in_table_short_circuits() {
    let mut fc = FanControl::new(Some("0,100,auto\n40,60,3"));
    assert_eq!(fc.set_fan_level(Some(50)).command.as_deref(), Some("level auto"));
    let step = fc.set_fan_level(Some(150));
    assert!(step.command.is_none());
    assert_eq!(step.status, SetFanStatus::FanLevelSet);
}

#[test]
fn temperature_outside_every_range() {
    let mut fc = FanControl::new(None);
    let step = fc.set_fan_level(Some(150));
    assert!(step.command.is_none());
    assert_eq!(step.status, SetFanStatus::FanLevelInvalid);
    let step = fc.set_fan_level(Some(-4));
    assert_eq!(step.status, SetFanStatus::FanLevelInvalid);
}

#[test]
fn failed_write_reports_error() {
    let mut fc = FanControl::new(None);
    let step = fc.set_fan_level(Some(72));
    assert_eq!(step.command.as_deref(), Some("level 5"));
    assert_eq!(step.status_after_write(false), SetFanStatus::FanLevelError);
}

#[test]
fn full_speed_in_device_status() {
    let status = "status:\t\tenabled\nlevel:\t\tauto\ncommands:\tlevel <level> (<level> is 0-7, auto, disengaged, full-speed)\n";
    assert!(full_speed_listed(status));
    assert!(!full_speed_listed("status:\t\tenabled\nlevel:\t\tauto\n"));
    assert!(!full_speed_listed("full-spee"));
    assert!(full_speed_listed("full-speed"));
}
