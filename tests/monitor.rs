use qiniu_cdn_manager::monitor::{
    busy_points, count_alert_message, count_mark_path, count_points, live_points, push_int,
    recent_alerts, series_total, traffic_of, traffic_points, ChargeTrafficResponse, DomainTraffic,
    ReqCountData,
};

fn strings(v: &[&str]) -> Vec<String> {
    v.iter().map(|s| s.to_string()).collect()
}

#[test]
fn future_empty_points_are_hidden() {
    let points = strings(&["2024-07-16-10-00", "2024-07-16-10-05", "2024-07-16-10-10", "2024-07-16-10-15"]);
    let values = vec![3i128, 0, 0, 4];
    assert_eq!(live_points(&points, &values, "2024-07-16-10-07"), vec![0, 1, 3]);
    assert_eq!(live_points(&points, &vec![1i128], "x"), vec![0]);
}

#[test]
fn alerts_look_at_latest_five() {
    let values = vec![900i128, 5, 1000, 1200, 3, 4, 2000];
    assert_eq!(recent_alerts(&values, 1000), vec![2, 3, 6]);
    assert_eq!(recent_alerts(&values, 1001), vec![3, 6]);
    assert_eq!(recent_alerts(&vec![1000i128], 1000), vec![0]);
    assert!(recent_alerts(&vec![], 1).is_empty());
}

#[test]
fn totals_and_busy_points() {
    let counts = vec![5i64, 0, 7, -1];
    assert_eq!(series_total(&counts, &vec![0, 2, 3]), 11);
    assert_eq!(series_total(&vec![i64::MAX, i64::MAX], &vec![0, 1]), 2 * i64::MAX as i128);
    let wide = vec![5i128, 0, 7];
    let (idx, vals) = busy_points(&wide, &vec![0, 1, 2]);
    assert_eq!(idx, vec![0, 2]);
    assert_eq!(vals, vec![5, 7]);
    let data = ReqCountData { points: strings(&["a", "b"]), req_count: vec![1, 2] };
    assert_eq!(count_points(&data), vec![1i128, 2]);
}

#[test]
fn traffic_series_add_both_regions() {
    let t = DomainTraffic { china: Some(vec![1, 2]), oversea: Some(vec![10]) };
    assert_eq!(traffic_points(&t, 3), vec![11i128, 2, 0]);
    let resp = ChargeTrafficResponse {
        code: Some(200),
        error: String::new(),
        time: Some(strings(&["t1"])),
        data: Some(vec![("a.com".to_string(), t.clone())]),
    };
    assert!(traffic_of(&resp, "a.com").is_some());
    assert!(traffic_of(&resp, "b.com").is_none());
}

#[test]
fn integer_text_and_alert_texts() {
    for n in [0i128, 7, -7, 1234567890, i128::MIN, i128::MAX].iter() {
        let mut out = Vec::new();
        push_int(&mut out, *n);
        assert_eq!(out.into_iter().collect::<String>(), n.to_string());
    }
    assert_eq!(
        count_alert_message("a.com", "2024-07-16 10:05:00", 1500, 1000),
        "## 🚨七牛CDN流量告警\n\n域名`a.com`在`2024-07-16 10:05:00` 5分钟内的请求次数为`1500`次, 超过告警值`1000`次，请留意！"
    );
    assert_eq!(
        count_mark_path("a.com,b.com", "2024-07-16 10:05:00", 1500),
        "/tmp/qiniu/monitor/count/a.com,b.com2024-07-1610:05:001500"
    );
}
