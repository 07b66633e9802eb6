use netcom_toolkit::backup::{
    backup_data, DEFAULT_CONFIG, FTTH_NODES, PING_TEST_LIST_IP, REPORT_TEMPLATE, RF_NODES,
};
use netcom_toolkit::clock::{dynamic_ips_file_name, dynamic_ips_stamp, report_file_name, report_stamp};
use netcom_toolkit::credentials::{credentials_file_text, decode_user_password, CredentialError};
use netcom_toolkit::json::{
    check_default_ro_to, json_file_to_hash_string, read_json_file_to_vec, JsonShapeError, JsonValue,
};
use netcom_toolkit::menu::{get_ip_selection, ip_segment_node_choice, menu_action, MenuAction, NodeChoice};

fn strings(v: &[&str]) -> Vec<String> {
    v.iter().map(|s| s.to_string()).collect()
}

fn to_json(v: &serde_json::Value) -> JsonValue {
    match v {
        serde_json::Value::Null => JsonValue::Null,
        serde_json::Value::Bool(b) => JsonValue::Bool(*b),
        serde_json::Value::Number(n) => JsonValue::Number(n.to_string()),
        serde_json::Value::String(s) => JsonValue::Str(s.clone()),
        serde_json::Value::Array(a) => JsonValue::Array(a.iter().map(to_json).collect()),
        serde_json::Value::Object(m) => {
            JsonValue::Object(m.iter().map(|(k, x)| (k.clone(), to_json(x))).collect())
        }
    }
}

fn parse(text: &str) -> JsonValue {
    to_json(&serde_json::from_str::<serde_json::Value>(text).unwrap())
}

fn s(t: &str) -> JsonValue {
    JsonValue::Str(t.to_string())
}

#[test]
fn credentials_round_trip() {
    let t = credentials_file_text("admin", "s3cret");
    assert_eq!(t, "YWRtaW4=\nczNjcmV0\n");
    let lines: Vec<String> = t.lines().map(|l| l.to_string()).collect();
    assert_eq!(
        decode_user_password(&lines),
        Ok(("admin".to_string(), "s3cret".to_string()))
    );
    let u = credentials_file_text("ñandú", "");
    let lines: Vec<String> = u.lines().map(|l| l.to_string()).collect();
    assert_eq!(decode_user_password(&lines), Ok(("ñandú".to_string(), "".to_string())));
}

#[test]
fn credentials_errors() {
    assert_eq!(decode_user_password(&Vec::new()), Err(CredentialError::Empty));
    assert_eq!(decode_user_password(&strings(&["***"])), Err(CredentialError::BadBase64));
    assert_eq!(decode_user_password(&strings(&["/w=="])), Err(CredentialError::BadUtf8));
    assert_eq!(
        decode_user_password(&strings(&["YWRtaW4=", "x", "czNjcmV0"])),
        Ok(("admin".to_string(), "s3cret".to_string()))
    );
    assert_eq!(
        decode_user_password(&strings(&["YWRtaW4="])),
        Ok(("admin".to_string(), "admin".to_string()))
    );
}

#[test]
fn named_lists_are_read_from_an_object() {
    let doc = JsonValue::Object(vec![
        ("Castillito".to_string(), JsonValue::Array(vec![s("1"), s("52"), JsonValue::Number("7".to_string()), s("10.1.52.1:22")])),
        ("X".to_string(), s("no list")),
    ]);
    let r = read_json_file_to_vec(&doc).unwrap();
    assert_eq!(
        r,
        vec![
            ("Castillito".to_string(), strings(&["1", "52", "10.1.52.1:22"])),
            ("X".to_string(), Vec::new()),
        ]
    );
    assert_eq!(read_json_file_to_vec(&JsonValue::Array(Vec::new())), Err(JsonShapeError::RootNotObject));
    assert_eq!(JsonShapeError::RootNotObject.describe(), "JSON root is not an object");
}

#[test]
fn string_members_of_an_object() {
    let doc = JsonValue::Object(vec![
        ("CEC".to_string(), s("10.1.20.1:22")),
        ("N".to_string(), JsonValue::Number("5".to_string())),
        ("IL".to_string(), s("10.1.8.1:22")),
    ]);
    assert_eq!(
        json_file_to_hash_string(&doc),
        vec![
            ("CEC".to_string(), "10.1.20.1:22".to_string()),
            ("IL".to_string(), "10.1.8.1:22".to_string()),
        ]
    );
    assert!(json_file_to_hash_string(&s("x")).is_empty());
}

#[test]
fn default_routers() {
    let config = parse(backup_data("default_config"));
    assert_eq!(check_default_ro_to(&config, "login"), "10.0.0.8:22");
    assert_eq!(check_default_ro_to(&config, "segment"), "10.0.0.8:22");
    assert_eq!(check_default_ro_to(&config, "other"), "");
    let partial = JsonValue::Object(vec![("default_ro_test_login".to_string(), JsonValue::Bool(true))]);
    assert_eq!(check_default_ro_to(&partial, "login"), "");
    assert_eq!(check_default_ro_to(&JsonValue::Null, "segment"), "");
}

#[test]
fn backup_files_by_name() {
    assert_eq!(backup_data("ping_test_list_ip"), PING_TEST_LIST_IP);
    assert_eq!(backup_data("report_template"), REPORT_TEMPLATE);
    assert_eq!(backup_data("ftth_nodes"), FTTH_NODES);
    assert_eq!(backup_data("rf_nodes"), RF_NODES);
    assert_eq!(backup_data("default_config"), DEFAULT_CONFIG);
    assert_eq!(backup_data("nothing"), "error");
    assert!(FTTH_NODES.starts_with("{\"CEC\":\"10.1.20.1:22\","));
    assert_eq!(REPORT_TEMPLATE.lines().count(), 31);
}

#[test]
fn backup_nodes_read_as_json() {
    let ftth = json_file_to_hash_string(&parse(backup_data("ftth_nodes")));
    assert_eq!(ftth.len(), 5);
    assert!(ftth.contains(&("MRD".to_string(), "10.1.44.1:22".to_string())));
    let rf = read_json_file_to_vec(&parse(backup_data("rf_nodes"))).unwrap();
    assert_eq!(rf.len(), 16);
    assert!(rf.contains(&("Guacara".to_string(), strings(&["10", "44", "10.10.44.1:22"]))));
}

#[test]
fn menu_options() {
    assert_eq!(menu_action(" 2\n", true), MenuAction::RunPingTests);
    assert_eq!(menu_action("+3", true), MenuAction::FindIpAndSegments);
    assert_eq!(menu_action("4", true), MenuAction::FindDynamicIps);
    assert_eq!(menu_action("5\r\n", true), MenuAction::LatencyReport);
    assert_eq!(menu_action("1", true), MenuAction::LogOut);
    assert_eq!(menu_action("1", false), MenuAction::LogIn);
    assert_eq!(menu_action("6", false), MenuAction::NotAvailable);
    assert_eq!(menu_action("7", false), MenuAction::Close);
    assert_eq!(menu_action("0", true), MenuAction::InvalidOption);
    assert_eq!(menu_action("9", true), MenuAction::InvalidOption);
    assert_eq!(menu_action("abc", true), MenuAction::NotANumber);
    assert_eq!(menu_action("4294967296", true), MenuAction::NotANumber);
    assert_eq!(menu_action("", true), MenuAction::NotANumber);
}

#[test]
fn logged_out_user_is_asked_to_log_in() {
    for k in 2..=5 {
        assert_eq!(menu_action(&k.to_string(), false), MenuAction::NeedsLogin);
    }
}

#[test]
fn router_choice() {
    let nodes = vec![
        ("Castillito".to_string(), strings(&["1", "52", "10.1.52.1:22"])),
        ("Guacara".to_string(), strings(&["10", "44", "10.10.44.1:22"])),
        ("Broken".to_string(), strings(&["1", "2"])),
    ];
    assert_eq!(
        ip_segment_node_choice("2\n", &nodes),
        NodeChoice::Chosen("10".to_string(), "44".to_string(), "10.10.44.1:22".to_string())
    );
    assert_eq!(ip_segment_node_choice("0", &nodes), NodeChoice::Zero);
    assert_eq!(ip_segment_node_choice("4", &nodes), NodeChoice::OutOfRange);
    assert_eq!(ip_segment_node_choice("3", &nodes), NodeChoice::Malformed);
    assert_eq!(ip_segment_node_choice("x", &nodes), NodeChoice::Cancelled);
}

#[test]
fn address_choice() {
    let ips = strings(&["10.1.52.1", "10.1.60.1"]);
    assert_eq!(get_ip_selection("1", &ips), Some("10.1.52.1".to_string()));
    assert_eq!(get_ip_selection(" 2 ", &ips), Some("10.1.60.1".to_string()));
    assert_eq!(get_ip_selection("3", &ips), None);
    assert_eq!(get_ip_selection("0", &ips), None);
    assert_eq!(get_ip_selection("-1", &ips), None);
}

#[test]
fn stamped_file_names() {
    assert_eq!(report_file_name("19-11-2025", "09-05-PM"), "Reporte19-11-2025_09-05-pm.txt");
    assert_eq!(dynamic_ips_file_name("01-02-2024", "12-00-AM"), "IP_Dinamicas_01-02-2024_12-00-am.txt");
}

#[test]
fn clock_stamps_have_their_shape() {
    let r = report_stamp();
    let d: Vec<char> = r.date.chars().collect();
    assert!(d.len() >= 10 && d[2] == '/' && d[5] == '/');
    let t: Vec<char> = r.time.chars().collect();
    assert_eq!(t.len(), 8);
    assert!(r.time.ends_with("am") || r.time.ends_with("pm"));
    assert!(r.file_name.starts_with("Reporte") && r.file_name.ends_with("m.txt"));
    let n = dynamic_ips_stamp();
    assert!(n.starts_with("IP_Dinamicas_") && n.ends_with(".txt"));
}
