use route_warden::config::GroupConfig;
use route_warden::report::{format_relative_time, relative_time_text, report_rows};

#[test]
fn relative_time_format_matches_reference_style() {
    let now = 1_700_000_000_i64;
    assert_eq!(format_relative_time(None, now), "-");
    assert_eq!(format_relative_time(Some(0), now), "-");
    assert_eq!(format_relative_time(Some(now), now), "刚刚");
    assert_eq!(format_relative_time(Some(now - 5), now), "5秒前");
    assert_eq!(format_relative_time(Some(now - 120), now), "2分钟前");
    assert_eq!(format_relative_time(Some(now - 3 * 3600), now), "3小时前");
    assert_eq!(
        format_relative_time(Some(now - (2 * 24 + 5) * 3600), now),
        "2天5小时前"
    );
    assert_eq!(format_relative_time(Some(now - 3 * 24 * 3600), now), "3天前");
}

#[test]
fn relative_time_edges() {
    assert_eq!(relative_time_text(-5), Some("刚刚".to_string()));
    assert_eq!(relative_time_text(59), Some("59秒前".to_string()));
    assert_eq!(relative_time_text(60), Some("1分钟前".to_string()));
    assert_eq!(relative_time_text(3_599), Some("59分钟前".to_string()));
    assert_eq!(relative_time_text(86_399), Some("23小时前".to_string()));
    assert_eq!(relative_time_text(86_400), Some("1天前".to_string()));
    assert_eq!(relative_time_text(2_591_999), Some("29天23小时前".to_string()));
    assert_eq!(relative_time_text(2_592_000), None);
    assert_eq!(format_relative_time(Some(5), -1), "-");
    let far = format_relative_time(Some(1_600_000_000), 1_700_000_000);
    assert!(far.starts_with("2020-"));
}

#[test]
fn minute_report_uses_group_state_and_probe_summary() {
    let groups = vec![(
        "GLOBAL_BEST".to_string(),
        GroupConfig { strategy_group: "RW_GLOBAL".to_string() },
    )];
    let states = vec![Some("Node-A".to_string())];
    let summaries = vec![("GLOBAL_BEST".to_string(), "Node-A".to_string())];
    let rows = report_rows(&groups, &states, &summaries);
    assert_eq!(rows.len(), 1);
    assert_eq!(rows[0].group_key, "GLOBAL_BEST");
    assert_eq!(rows[0].strategy_group, "RW_GLOBAL");
    assert_eq!(rows[0].current_node, "Node-A");
    assert_eq!(rows[0].summary, Some(0));
}

#[test]
fn report_rows_without_state_show_na() {
    let groups = vec![
        ("A".to_string(), GroupConfig { strategy_group: "RW_A".to_string() }),
        ("B".to_string(), GroupConfig { strategy_group: "RW_B".to_string() }),
    ];
    let states = vec![None, Some("N".to_string())];
    let summaries = vec![
        ("A".to_string(), "n/a".to_string()),
        ("B".to_string(), "N".to_string()),
        ("B".to_string(), "M".to_string()),
        ("B".to_string(), "N".to_string()),
    ];
    let rows = report_rows(&groups, &states, &summaries);
    assert_eq!(rows[0].current_node, "n/a");
    assert_eq!(rows[0].summary, None);
    assert_eq!(rows[1].summary, Some(3));
}
