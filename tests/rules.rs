use nvfans::rules::{default_config, read_config_file, Temperature};
use nvfans::speed::{convert_fan_speed, convert_number_to_fan_speed, FanSpeed};

fn rule(name: &str, low: i64, high: i64, speed: FanSpeed) -> Temperature {
    Temperature { name: name.to_string(), low, high, speed }
}

fn default_table() -> Vec<Temperature> {
    vec![
        rule("level 7", 81, 100, FanSpeed::Level7),
        rule("level 6", 76, 80, FanSpeed::Level6),
        rule("level 5", 71, 75, FanSpeed::Level5),
        rule("level auto", 0, 70, FanSpeed::Auto),
    ]
}

#[test]
fn speed_tokens() {
    assert_eq!(convert_number_to_fan_speed("0"), FanSpeed::Level0);
    assert_eq!(convert_number_to_fan_speed("3"), FanSpeed::Level3);
    assert_eq!(convert_number_to_fan_speed("7"), FanSpeed::Level7);
    assert_eq!(convert_number_to_fan_speed("full-speed"), FanSpeed::FullSpeed);
    assert_eq!(convert_number_to_fan_speed("auto"), FanSpeed::Auto);
    assert_eq!(convert_number_to_fan_speed("8"), FanSpeed::Auto);
    assert_eq!(convert_number_to_fan_speed(""), FanSpeed::Auto);
    assert_eq!(convert_number_to_fan_speed("55"), FanSpeed::Auto);
}

#[test]
fn speed_commands() {
    assert_eq!(convert_fan_speed(FanSpeed::Level0), "level 0");
    assert_eq!(convert_fan_speed(FanSpeed::Level5), "level 5");
    assert_eq!(convert_fan_speed(FanSpeed::Level7), "level 7");
    assert_eq!(convert_fan_speed(FanSpeed::FullSpeed), "level full-speed");
    assert_eq!(convert_fan_speed(FanSpeed::Auto), "level auto");
}

#[test]
fn speed_commands_are_distinct() {
    let all = [
        FanSpeed::Level0,
        FanSpeed::Level1,
        FanSpeed::Level2,
        FanSpeed::Level3,
        FanSpeed::Level4,
        FanSpeed::Level5,
        FanSpeed::Level6,
        FanSpeed::Level7,
        FanSpeed::FullSpeed,
        FanSpeed::Auto,
    ];
    for a in all {
        for b in all {
            assert_eq!(convert_fan_speed(a) == convert_fan_speed(b), a == b);
        }
    }
}

#[test]
fn built_in_table() {
    assert!(default_config() == default_table());
    assert!(read_config_file(None) == default_table());
}

#[test]
fn config_line_gives_rule() {
    assert!(read_config_file(Some("10,20,5")) == vec![rule("level 0", 10, 20, FanSpeed::Level5)]);
}

#[test]
fn malformed_config_falls_back_to_default() {
    assert!(read_config_file(Some("abc,20,5")) == default_table());
    assert!(read_config_file(Some("10,20,5\n30,x,6\n")) == default_table());
}

#[test]
fn config_names_rules_by_line() {
    let rules = read_config_file(Some("# comment\n10,20,5\r\n\n30,40,full-speed\n"));
    assert!(
        rules
            == vec![
                rule("level 1", 10, 20, FanSpeed::Level5),
                rule("level 3", 30, 40, FanSpeed::FullSpeed),
            ]
    );
}

#[test]
fn config_skips_lines_of_other_shape() {
    let rules = read_config_file(Some("1,2\n1,2,3,4\n-5,+9,auto"));
    assert!(rules == vec![rule("level 2", -5, 9, FanSpeed::Auto)]);
}

#[test]
fn config_large_line_numbers() {
    let mut text = String::new();
    for _ in 0..12 {
        text.push_str("skip\n");
    }
    text.push_str("50,60,2\n");
    assert!(read_config_file(Some(&text)) == vec![rule("level 12", 50, 60, FanSpeed::Level2)]);
}

#[test]
fn empty_config_gives_empty_table() {
    assert!(read_config_file(Some("")).is_empty());
}
