use qiniu_cdn_manager::analysis::Freq;
use qiniu_cdn_manager::domain::{acl_param, IpACLType};
use qiniu_cdn_manager::utils::{
    get_isp_name_from_code, get_region_name_from_code, max_length, select_domains, QyRobot,
};

fn strings(v: &[&str]) -> Vec<String> {
    v.iter().map(|s| s.to_string()).collect()
}

#[test]
fn region_and_carrier_names() {
    assert_eq!(get_region_name_from_code("china"), "中国");
    assert_eq!(get_region_name_from_code("unknown"), "未知地区");
    assert_eq!(get_region_name_from_code("mars"), "未知地区");
    assert_eq!(get_isp_name_from_code("unicom"), "联通");
    assert_eq!(get_isp_name_from_code("x"), "其他");
}

#[test]
fn column_width_of_first_items() {
    let v = strings(&["ab", "abcd", "a"]);
    assert_eq!(max_length(&v, 1), 2);
    assert_eq!(max_length(&v, 10), 4);
    assert_eq!(max_length(&v, -1), 4);
    assert_eq!(max_length(&v, 0), 0);
    assert_eq!(max_length(&strings(&["中"]), 5), 3);
}

#[test]
fn domains_selected_less_excluded() {
    let listed = strings(&["a.com", "b.com", "c.com"]);
    assert_eq!(select_domains(Some("b.com"), None, &listed), strings(&["a.com", "c.com"]));
    assert_eq!(select_domains(None, Some("x.com,y.com"), &listed), strings(&["x.com", "y.com"]));
    assert_eq!(select_domains(Some("y.com"), Some("x.com,y.com"), &listed), strings(&["x.com"]));
}

#[test]
fn frequency_names() {
    assert_eq!(Freq::from_text("1day"), Some(Freq::OneDay));
    assert_eq!(Freq::from_text("5min"), Some(Freq::FiveMin));
    assert_eq!(Freq::from_text("1hour"), Some(Freq::OneHour));
    assert_eq!(Freq::from_text("2day"), None);
    assert_eq!(Freq::OneHour.as_str(), "1hour");
}

#[test]
fn robot_and_acl_bodies() {
    let r = QyRobot::new("https://hook".to_string());
    assert_eq!(r.url.as_deref(), Some("https://hook"));
    let m = QyRobot::markdown_message("hi");
    assert_eq!(m.msgtype, "markdown");
    assert_eq!(m.markdown, vec![("content".to_string(), "hi".to_string())]);
    let p = acl_param(IpACLType::Black, strings(&["1.1.1.1"]));
    assert_eq!(p.ip_acltype, "black");
    assert_eq!(acl_param(IpACLType::Blank, vec![]).ip_acltype, "");
}

use qiniu_cdn_manager::domain::{diagnosis_message, plan_acl, AclError, AclUpdate, IpACL};

fn online(kind: &str, values: &[&str]) -> IpACL {
    IpACL { ip_acltype: kind.to_string(), ip_aclvalues: strings(values) }
}

fn applied(u: AclUpdate) -> (IpACLType, Vec<String>) {
    match u {
        AclUpdate::Apply { kind, values } => (kind, values),
        AclUpdate::Unchanged => panic!("expected a change"),
    }
}

#[test]
fn acl_requests_are_checked() {
    assert_eq!(plan_acl(true, true, false, "1.1.1.1", true, None).unwrap_err(), AclError::ConflictingModes);
    assert_eq!(plan_acl(false, false, false, "1.1.1.1", true, None).unwrap_err(), AclError::ConflictingModes);
    assert_eq!(plan_acl(true, false, false, "", true, None).unwrap_err(), AclError::NoIps);
    assert_eq!(plan_acl(true, false, false, "1.1.1.1", false, None).unwrap_err(), AclError::NoOnlineAcl);
    let o = online("white", &["2.2.2.2"]);
    assert_eq!(plan_acl(true, false, false, "d2.2.2.2", false, Some(&o)).unwrap_err(), AclError::ModeMismatch);
}

#[test]
fn acl_close_and_rewrite() {
    assert_eq!(applied(plan_acl(false, false, true, "", false, None).unwrap()), (IpACLType::Blank, vec![]));
    assert_eq!(
        applied(plan_acl(true, false, false, "1.1.1.1,2.2.2.2", true, None).unwrap()),
        (IpACLType::Black, strings(&["1.1.1.1", "2.2.2.2"]))
    );
}

#[test]
fn acl_append_merges_with_online_list() {
    let o = online("black", &["1.1.1.1", "2.2.2.2", "3.3.3.3"]);
    assert_eq!(
        applied(plan_acl(true, false, false, "4.4.4.4,d2.2.2.2", false, Some(&o)).unwrap()),
        (IpACLType::Black, strings(&["4.4.4.4", "1.1.1.1", "3.3.3.3"]))
    );
    assert!(matches!(plan_acl(true, false, false, "1.1.1.1", false, Some(&o)).unwrap(), AclUpdate::Unchanged));
    let single = online("black", &["1.1.1.1"]);
    assert_eq!(
        applied(plan_acl(true, false, false, "d1.1.1.1", false, Some(&single)).unwrap()),
        (IpACLType::Blank, vec![])
    );
    let white = online("white", &["9.9.9.9"]);
    assert_eq!(
        applied(plan_acl(true, false, false, "4.4.4.4", false, Some(&white)).unwrap()),
        (IpACLType::Black, strings(&["4.4.4.4"]))
    );
}

#[test]
fn notification_text() {
    let m = diagnosis_message("a.com", None, &strings(&["1.1.1.1", "2.2.2.2"]));
    assert_eq!(
        m,
        "## 🔔七牛云CDN IP黑/白名单修改\n\n`a.com`采用`覆盖`模式添加了以下IP到黑名单:\n\n- 1.1.1.1\n\n- 2.2.2.2\n\n> `d`开头表示移除\n\n🚀🚀🚀"
    );
    assert!(diagnosis_message("a.com", Some(false), &vec![]).contains("`追加`"));
}
