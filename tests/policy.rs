use qiniu_cdn_manager::analysis::{FilterType, TopIpData};
use qiniu_cdn_manager::policy::{
    clause_hits, evaluate, intersect_ips, parse_policy, plan_queries, union_ips, JoinMode,
    PolicyClause, PolicyError,
};
use qiniu_cdn_manager::text::{chars_of, parse_i64, split_by};

fn ranking(ips: &[&str], count: Option<Vec<i64>>, traffic: Option<Vec<i64>>) -> Option<TopIpData> {
    Some(TopIpData {
        ips: Some(ips.iter().map(|s| s.to_string()).collect()),
        count,
        traffic,
    })
}

fn sorted(mut v: Vec<String>) -> Vec<String> {
    v.sort();
    v
}

#[test]
fn single_count_clause_flags_ip_over_threshold() {
    let p = parse_policy("C:1:100").unwrap();
    assert_eq!(p.clauses.len(), 1);
    assert_eq!(p.clauses[0], PolicyClause { kind: FilterType::ReqCount, window_days: 1, threshold: 100 });
    let r = evaluate(&p, &vec![ranking(&["ip1", "ip2"], Some(vec![150, 50]), None)]);
    assert_eq!(r, vec!["ip1".to_string()]);
}

#[test]
fn or_policy_takes_union() {
    let p = parse_policy("C:1:100||T:1:50").unwrap();
    assert_eq!(p.join, JoinMode::Or);
    let results = vec![
        ranking(&["ip1", "ip2"], Some(vec![150, 50]), None),
        ranking(&["ip2"], None, Some(vec![60 * 1048576])),
    ];
    let r = sorted(evaluate(&p, &results));
    assert_eq!(r, vec!["ip1".to_string(), "ip2".to_string()]);
}

#[test]
fn and_policy_takes_intersection() {
    let p = parse_policy("C:1:100&&T:1:50").unwrap();
    assert_eq!(p.join, JoinMode::And);
    let results = vec![
        ranking(&["ip1", "ip2"], Some(vec![150, 50]), None),
        ranking(&["ip2"], None, Some(vec![60 * 1048576])),
    ];
    let r = evaluate(&p, &results);
    assert!(r.is_empty());
}

#[test]
fn traffic_threshold_is_in_megabytes() {
    let c = PolicyClause { kind: FilterType::Traffic, window_days: 1, threshold: 50 };
    let data = ranking(&["a", "b", "c"], None, Some(vec![50 * 1048576, 50 * 1048576 - 1, 60]));
    assert_eq!(clause_hits(&c, &data), vec!["a".to_string()]);
}

#[test]
fn missing_data_contributes_nothing() {
    let c = PolicyClause { kind: FilterType::ReqCount, window_days: 3, threshold: 1 };
    assert!(clause_hits(&c, &None).is_empty());
    let p = parse_policy("C:1:1||C:2:1").unwrap();
    let r = evaluate(&p, &vec![None, ranking(&["x"], Some(vec![5]), None)]);
    assert_eq!(r, vec!["x".to_string()]);
}

#[test]
fn duplicate_ips_appear_once() {
    let c = PolicyClause { kind: FilterType::ReqCount, window_days: 1, threshold: 1 };
    let data = ranking(&["a", "a", "b"], Some(vec![5, 6, 0]), None);
    assert_eq!(clause_hits(&c, &data), vec!["a".to_string()]);
    let u = sorted(union_ips(&vec!["a".to_string(), "b".to_string()], &vec!["b".to_string(), "c".to_string()]));
    assert_eq!(u, vec!["a".to_string(), "b".to_string(), "c".to_string()]);
    let i = intersect_ips(&vec!["a".to_string(), "b".to_string()], &vec!["b".to_string(), "c".to_string()]);
    assert_eq!(i, vec!["b".to_string()]);
}

#[test]
fn malformed_policies_are_configuration_errors() {
    assert_eq!(parse_policy("C:1:abc").unwrap_err(), PolicyError::MalformedClause);
    assert_eq!(parse_policy("C:1:100&&T:1:50||X:1:1").unwrap_err(), PolicyError::TooManyClauses);
    assert_eq!(parse_policy("").unwrap_err(), PolicyError::Missing);
    assert_eq!(parse_policy("X:1:1").unwrap_err(), PolicyError::MalformedClause);
    assert_eq!(parse_policy("C:0:1").unwrap_err(), PolicyError::MalformedClause);
    assert_eq!(parse_policy("C:1").unwrap_err(), PolicyError::MalformedClause);
    assert_eq!(parse_policy("C:1:1||").unwrap_err(), PolicyError::MalformedClause);
}

#[test]
fn query_windows_end_on_the_given_day() {
    let p = parse_policy("C:1:100||T:3:50").unwrap();
    let q = plan_queries(&p, "2024-07-16").unwrap();
    assert_eq!(q.len(), 2);
    assert_eq!(q[0].kind, FilterType::ReqCount);
    assert_eq!(q[0].start_date, "2024-07-16");
    assert_eq!(q[0].end_date, "2024-07-16");
    assert_eq!(q[1].kind, FilterType::Traffic);
    assert_eq!(q[1].start_date, "2024-07-14");
    assert_eq!(q[1].end_date, "2024-07-16");
    assert_eq!(plan_queries(&p, "2024/07/16").unwrap_err(), PolicyError::BadDate);
    let far = parse_policy("C:9223372036854775807:1").unwrap();
    assert_eq!(plan_queries(&far, "2024-07-16").unwrap_err(), PolicyError::WindowOutOfRange);
}

#[test]
fn decimal_parsing_follows_std() {
    let cases = ["0", "42", "+7", "-7", "9223372036854775807", "-9223372036854775808",
        "9223372036854775808", "", "-", "+", "1a", " 1", "007"];
    for c in cases.iter() {
        assert_eq!(parse_i64(&chars_of(c)), c.parse::<i64>().ok(), "{}", c);
    }
}

#[test]
fn splitting_follows_std() {
    let cases = [("a||b", "||"), ("||", "||"), ("", "||"), ("a|||b", "||"), ("x:y:z", ":"), ("abc", ":")];
    for (s, d) in cases.iter() {
        let got: Vec<String> = split_by(&chars_of(s), &chars_of(d)).into_iter().map(|v| v.into_iter().collect()).collect();
        let want: Vec<String> = s.split(d).map(|x| x.to_string()).collect();
        assert_eq!(got, want);
    }
}

use qiniu_cdn_manager::policy::plan_diagnosis;

#[test]
fn diagnosis_plan_fails_before_lookups() {
    assert_eq!(plan_diagnosis("C:1:abc", "2024-07-16").unwrap_err(), PolicyError::MalformedClause);
    assert_eq!(plan_diagnosis("C:1:100&&T:1:50||X:1:1", "2024-07-16").unwrap_err(), PolicyError::TooManyClauses);
    let (p, q) = plan_diagnosis("T:2:10", "2024-03-01").unwrap();
    assert_eq!(p.clauses.len(), 1);
    assert_eq!(q[0].start_date, "2024-02-29");
}
