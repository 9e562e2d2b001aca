use time_tracking_parser::ProjectSummary;
use time_tracking_parser::TimeTrackingData;
use time_tracking_parser::parse_time_tracking_data;

#[test]
fn test_edge_case_midnight_crossing() {
    let input = r#"11:30-12:30 project1
12:30-1:30 project2"#;

    let data = parse_time_tracking_data(input, None, None);

    // Should handle crossing noon/midnight correctly
    assert_eq!(data.total_minutes, 120); // 2 hours total
    assert_eq!(data.dead_time_minutes, 0); // No gaps
    assert_eq!(data.projects.len(), 2);

    for project in &data.projects {
        assert_eq!(project.total_minutes, 60); // Each should be 1 hour
    }
}

#[test]
fn test_twelve_hour_time_boundaries() {
    let input = r#"12-1 project1
1-2 project2
11-12 project3"#;

    let data = parse_time_tracking_data(input, None, None);

    assert_eq!(data.total_minutes, 180); // 3 hours
    assert_eq!(data.projects.len(), 3);

    // Verify each project gets 1 hour
    for project in &data.projects {
        assert_eq!(project.total_minutes, 60);
    }
}

#[test]
fn test_performance_with_large_input() {
    // Generate a large input to test performance
    let mut input = String::new();
    for i in 0..100 {
        let start_hour = (i % 11) + 1; // Keep within 1-12 range
        let end_hour = if start_hour == 12 { 1 } else { start_hour + 1 };
        input.push_str(&format!("{start_hour}-{end_hour} project{}\n", i % 5));
        input.push_str(&format!("- note for project {}\n", i % 5));
    }

    let data = parse_time_tracking_data(&input, None, None);

    // Should handle large inputs without issues
    assert_eq!(data.projects.len(), 5); // 5 unique projects (0-4)
    assert_eq!(data.total_minutes, 100 * 60); // 100 hours
}

#[test]
fn test_complex_scenario_with_unlabeled_entry() {
    let input = r#"7-8 project1
- morning work
10-11 project2
- after break
11-1 project1
- long session
3-4
- missing project name
5-6 project3"#;

    let data = parse_time_tracking_data(input, None, None);

    // The 3-4 line has no label: one warning, and no project bucket for it.
    assert_eq!(data.warnings.len(), 1);
    assert!(data.warnings[0].contains("missing project name"));

    // Dead time: 8-10 (2 hrs), 1-3 (2 hrs), 4-5 (1 hr) = 300 minutes.
    assert_eq!(data.dead_time_minutes, 300);

    // Total includes the unlabeled 3-4 entry: 1+1+2+1+1 hours = 360 minutes.
    assert_eq!(data.total_minutes, 360);

    // Only the three labeled projects appear, name-sorted.
    assert_eq!(data.projects.len(), 3);
    let project1 = data.projects.iter().find(|p| p.name == "project1").unwrap();
    assert_eq!(project1.total_minutes, 180);
    assert_eq!(project1.notes.len(), 2);
}

#[test]
fn test_new_record_is_empty() {
    let data = TimeTrackingData::new();
    assert_eq!(data.total_minutes, 0);
    assert_eq!(data.dead_time_minutes, 0);
    assert!(data.projects.is_empty());
    assert!(data.warnings.is_empty());
    assert!(data.start_time.is_none());
    assert!(data.end_time.is_none());
}

#[test]
fn test_project_summary_accumulation() {
    let mut summary = ProjectSummary::new("alpha".to_string());
    assert_eq!(summary.name, "alpha");
    assert_eq!(summary.total_minutes, 0);
    assert!(summary.notes.is_empty());

    summary.add_time(30);
    summary.add_time(45);
    assert_eq!(summary.total_minutes, 75);

    summary.add_notes(vec!["first".to_string(), "second".to_string()]);
    summary.add_notes(vec!["third".to_string()]);
    assert_eq!(summary.notes, vec!["first", "second", "third"]);
}

#[test]
fn test_validate_entries_appends_warnings() {
    // Warnings from validation follow the warnings already recorded.
    let data = parse_time_tracking_data("7-8\n2-11 project1\n10-11 project2", None, None);
    assert_eq!(data.warnings.len(), 3);
    assert!(data.warnings[0].contains("Line missing project name"));
    assert!(data.warnings[1].contains("longer than 8 hours"));
    assert!(data.warnings[2].contains("longer than 6 hours"));
}

#[test]
fn test_format_time_option_pads_hour_zero() {
    let t = time_tracking_parser::Time::from_strings("0", "5").unwrap();
    assert_eq!(time_tracking_parser::format_time_option(Some(&t), "N/A"), "00:05");
    let u = time_tracking_parser::Time::new(7, 5).unwrap();
    assert_eq!(time_tracking_parser::format_time_option(Some(&u), "N/A"), "7:05");
    assert_eq!(time_tracking_parser::format_time_option(None, "N/A"), "N/A");
}
