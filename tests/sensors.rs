use nvfans::sensors::{max_temperature, millic_to_c, parse_temp_reading};

#[test]
fn millidegrees_truncate_toward_zero() {
    assert_eq!(millic_to_c(82000), 82);
    assert_eq!(millic_to_c(82999), 82);
    assert_eq!(millic_to_c(999), 0);
    assert_eq!(millic_to_c(-1500), -1);
    assert_eq!(millic_to_c(-999), 0);
}

#[test]
fn reading_with_newline() {
    assert_eq!(parse_temp_reading("45000\n"), Some(45000));
    assert_eq!(parse_temp_reading("45000\n\n"), Some(45000));
    assert_eq!(parse_temp_reading("45000"), Some(45000));
}

#[test]
fn reading_signs() {
    assert_eq!(parse_temp_reading("-5000\n"), Some(-5000));
    assert_eq!(parse_temp_reading("+7000"), Some(7000));
    assert_eq!(parse_temp_reading("-9223372036854775808"), Some(i64::MIN));
    assert_eq!(parse_temp_reading("9223372036854775807"), Some(i64::MAX));
}

#[test]
fn reading_invalid() {
    assert_eq!(parse_temp_reading(""), None);
    assert_eq!(parse_temp_reading("\n"), None);
    assert_eq!(parse_temp_reading("abc"), None);
    assert_eq!(parse_temp_reading("-"), None);
    assert_eq!(parse_temp_reading(" 45000"), None);
    assert_eq!(parse_temp_reading("45000\r\n"), None);
    assert_eq!(parse_temp_reading("9223372036854775808"), None);
    assert_eq!(parse_temp_reading("-9223372036854775809"), None);
    assert_eq!(parse_temp_reading("123456789012345678901234"), None);
}

#[test]
fn aggregate_takes_max_in_degrees() {
    assert_eq!(max_temperature(&vec![Some(82000), Some(70000)]), Some(82));
    assert_eq!(max_temperature(&vec![Some(70000), Some(82000)]), Some(82));
    assert_eq!(max_temperature(&vec![None, Some(45500), None]), Some(45));
    assert_eq!(max_temperature(&vec![Some(-1500), None]), Some(-1));
    assert_eq!(max_temperature(&vec![Some(i64::MIN), Some(-3000)]), Some(-3));
}

#[test]
fn aggregate_without_valid_readings() {
    assert_eq!(max_temperature(&vec![]), None);
    assert_eq!(max_temperature(&vec![None, None]), None);
}
