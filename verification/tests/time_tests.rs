use time_tracking_parser::Hour;
use time_tracking_parser::Time;

#[test]
fn test_time_creation_valid() {
    let time = Time::new(7, 30).unwrap();
    assert_eq!(time.hour.get(), 7);
    assert_eq!(time.minute.get(), 30);
}

#[test]
fn test_time_creation_hour_boundary() {
    assert!(Time::new(1, 0).is_ok());
    assert!(Time::new(12, 0).is_ok());
    assert!(Time::new(0, 0).is_err());
    assert!(Time::new(13, 0).is_err());
}

#[test]
fn test_time_creation_minute_boundary() {
    assert!(Time::new(7, 0).is_ok());
    assert!(Time::new(7, 59).is_ok());
    assert!(Time::new(7, 60).is_err());
}

#[test]
fn test_time_to_minutes() {
    let time1 = Time::new(1, 0).unwrap();
    assert_eq!(time1.to_minutes(), 60);

    let time2 = Time::new(12, 0).unwrap();
    assert_eq!(time2.to_minutes(), 0); // 12 AM = 0 minutes

    let time3 = Time::new(7, 30).unwrap();
    assert_eq!(time3.to_minutes(), 450); // 7:30 AM = 7.5 * 60 = 450
}

#[test]
fn test_duration_minutes_same_am_pm() {
    let start = Time::new(7, 30).unwrap();
    let end = Time::new(8, 0).unwrap();
    assert_eq!(start.duration_minutes(&end), 30);
}

#[test]
fn test_duration_minutes_cross_noon() {
    let start = Time::new(11, 30).unwrap();
    let end = Time::new(1, 0).unwrap(); // 1 PM
    assert_eq!(start.duration_minutes(&end), 90); // 11:30 AM to 1:00 PM = 1.5 hours
}

#[test]
fn test_duration_minutes_same_time() {
    let start = Time::new(7, 30).unwrap();
    let end = Time::new(7, 30).unwrap();
    assert_eq!(start.duration_minutes(&end), 0);
}

#[test]
fn test_format_duration_minutes() {
    assert_eq!(Time::format_duration_minutes(0), "0:00");
    assert_eq!(Time::format_duration_minutes(60), "1:00");
    assert_eq!(Time::format_duration_minutes(90), "1:30");
    assert_eq!(Time::format_duration_minutes(420), "7:00");
    assert_eq!(Time::format_duration_minutes(450), "7:30");
}

#[test]
fn test_format_duration_decimal() {
    assert_eq!(Time::format_duration_decimal(0), "0.00");
    assert_eq!(Time::format_duration_decimal(60), "1.00");
    assert_eq!(Time::format_duration_decimal(90), "1.50");
    assert_eq!(Time::format_duration_decimal(420), "7.00");
    assert_eq!(Time::format_duration_decimal(450), "7.50");
}

#[test]
fn test_hour() {
    assert_eq!("1".parse::<Hour>().unwrap().get(), 1);
    assert_eq!("0".parse::<Hour>().unwrap().get(), 0);
    assert_eq!("12".parse::<Hour>().unwrap().get(), 12);
    assert!("13".parse::<Hour>().is_err());
    assert!("-3".parse::<Hour>().is_err());
}

#[test]
fn test_hour_twelve_same_bucket_as_zero() {
    // Hour 12 and its alias 0 occupy the same minute bucket.
    let noon = Time::new(12, 30).unwrap();
    assert_eq!(noon.to_minutes(), 30);
    let from_zero = Time::from_strings("0", "30").unwrap();
    assert_eq!(from_zero.to_minutes(), 30);
}

#[test]
fn test_from_strings_errors() {
    assert!(Time::from_strings("ab", "00").is_err());
    let e1 = Time::from_strings("ab", "00").unwrap_err();
    assert!(e1.contains("Invalid hour format: ab"));
    let e2 = Time::from_strings("25", "00").unwrap_err();
    assert!(e2.contains("Hour must be between 0 and 12, got 25"));
    let e3 = Time::from_strings("7", "xx").unwrap_err();
    assert!(e3.contains("Invalid minute format: xx"));
    let e4 = Time::from_strings("7", "75").unwrap_err();
    assert!(e4.contains("Minute must be between 0 and 59, got 75"));
}

#[test]
fn test_time_new_error_messages() {
    let e1 = Time::new(0, 0).unwrap_err();
    assert!(e1.contains("Hour must be between 1 and 12, got 0"));
    let e2 = Time::new(13, 0).unwrap_err();
    assert!(e2.contains("Hour must be between 1 and 12, got 13"));
    let e3 = Time::new(7, 60).unwrap_err();
    assert!(e3.contains("Minute must be between 0 and 59, got 60"));
}

#[test]
fn test_format_time_round_trip() {
    // A formatted H:MM parses back to the same time.
    let t = Time::new(7, 5).unwrap();
    let text = time_tracking_parser::format_time(&t);
    assert_eq!(text, "7:05");
    let parts: Vec<&str> = text.split(':').collect();
    let back = Time::from_strings(parts[0], parts[1]).unwrap();
    assert_eq!(back.hour.get(), 7);
    assert_eq!(back.minute.get(), 5);
}

#[test]
fn test_chronological_duration() {
    let three = Time::new(3, 0).unwrap();
    let one = Time::new(1, 0).unwrap();
    assert_eq!(three.chronological_duration_minutes(&one), 600);
    assert_eq!(one.chronological_duration_minutes(&three), 120);
    assert_eq!(three.chronological_duration_minutes(&three), 0);
}
