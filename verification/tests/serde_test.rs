use std::collections::HashMap;

use eager_alarm_edge::calendar::Weekday;

#[test]
fn test_weekday_serde() {
    let s = r#"{"days": ["Mon", "Wed", "Sun"]}"#;
    let decoded: HashMap<String, Vec<chrono::Weekday>> = serde_json::from_str(s).unwrap();
    println!("{:?}", decoded);
    let days: Vec<Weekday> = decoded["days"]
        .iter()
        .map(|day| Weekday::from_monday_index(day.num_days_from_monday()).unwrap())
        .collect();
    assert_eq!(days, vec![Weekday::Mon, Weekday::Wed, Weekday::Sun]);
}
