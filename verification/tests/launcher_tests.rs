use netcom_toolkit::backup::{backup_data, PING_TEST_LIST_IP};
use netcom_toolkit::cli::{ping_command, plan_start, StartPlan, TestMode};
use netcom_toolkit::launcher::{
    check_total_test_for_report, command_ping_test_or_report, drop_comment_lines,
    return_clean_vec_list_ip,
};

fn strings(v: &[&str]) -> Vec<String> {
    v.iter().map(|s| s.to_string()).collect()
}

fn two_tests() -> Vec<String> {
    strings(&[
        "T1", "8.8.8.8", "10.0.0.2", "10.0.0.8:22", "T2", "1.1.1.1", "10.0.0.3", "10.0.0.5:22",
    ])
}

#[test]
fn ping_command_text() {
    assert_eq!(ping_command("8.8.8.8", "10.0.0.2"), "ping 8.8.8.8 src-address=10.0.0.2");
}

#[test]
fn start_reads_a_report_request() {
    let args = strings(&["api", "T", "8.8.8.8", "10.0.0.2", "10.0.0.8:22", "u", "p", "5", "2"]);
    match plan_start(&args) {
        StartPlan::Run(q) => {
            assert_eq!(q.title, "T");
            assert_eq!(q.destination, "8.8.8.8");
            assert_eq!(q.source, "10.0.0.2");
            assert_eq!(q.address, "10.0.0.8:22");
            assert_eq!(q.username, "u");
            assert_eq!(q.password, "p");
            assert_eq!(q.test_id, 5);
            assert_eq!(q.mode, TestMode::Report);
            assert_eq!(q.command, "ping 8.8.8.8 src-address=10.0.0.2");
        }
        other => panic!("unexpected plan {:?}", other),
    }
}

#[test]
fn start_modes_and_errors() {
    let mut args = strings(&["api", "T", "d", "s", "h:22", "u", "p", "-3", "7"]);
    match plan_start(&args) {
        StartPlan::Run(q) => {
            assert_eq!(q.mode, TestMode::Invalid);
            assert_eq!(q.test_id, -3);
        }
        other => panic!("unexpected plan {:?}", other),
    }
    args[8] = "x".to_string();
    assert!(matches!(plan_start(&args), StartPlan::BadMode));
    args.pop();
    assert!(matches!(plan_start(&args), StartPlan::MissingMode));
    args[7] = "id".to_string();
    assert!(matches!(plan_start(&args), StartPlan::BadTestId));
    args.pop();
    assert!(matches!(plan_start(&args), StartPlan::Usage));
}

#[test]
fn report_batch_lines() {
    let r = command_ping_test_or_report(&two_tests(), "u", "p", 2, "C:\\x\\api.exe");
    assert_eq!(
        r,
        strings(&[
            "ECHO OFF\n",
            "START /B \"\" \"C:\\x\\api.exe\" T1 8.8.8.8 10.0.0.2 10.0.0.8:22 u p 2\n",
            "START /B \"\" \"C:\\x\\api.exe\" T2 1.1.1.1 10.0.0.3 10.0.0.5:22 u p 2\n",
        ])
    );
}

#[test]
fn live_test_batch_lines() {
    let r = command_ping_test_or_report(&two_tests(), "u", "p", 1, "C:\\x\\api.exe");
    assert_eq!(
        r,
        strings(&[
            "ECHO OFF\n",
            "\"C:\\x\\terminal\\wt.exe\" -M -w 1 --title 1-4 \"C:\\x\\api.exe\" T1 8.8.8.8 10.0.0.2 10.0.0.8:22 u p 1",
            "; -w 1 sp --title 1-4 -V -c \"C:\\x\\api.exe\" T2 1.1.1.1 10.0.0.3 10.0.0.5:22 u p 1; mf right ",
        ])
    );
}

#[test]
fn live_test_panes_and_tabs() {
    let mut list = Vec::new();
    for k in 0..5 {
        list.extend(strings(&[&format!("T{}", k), "d", "s", "h"]));
    }
    let r = command_ping_test_or_report(&list, "u", "p", 1, "a\\api.exe");
    assert_eq!(r.len(), 6);
    assert_eq!(r[3], "; -w 1 sp --title 1-4 -H -c \"a\\api.exe\" T2 d s h u p 1; mf left");
    assert_eq!(r[4], "; -w 1 sp --title 1-4 -H -c \"a\\api.exe\" T3 d s h u p 1");
    assert_eq!(r[5], "; -w 1 new-tab --title 5-8 \"a\\api.exe\" T4 d s h u p 1");
}

#[test]
fn other_mode_gives_no_lines() {
    assert!(command_ping_test_or_report(&two_tests(), "u", "p", 3, "api.exe").is_empty());
}

#[test]
fn extra_tests_are_dropped_for_the_report() {
    let mut list = two_tests();
    list.extend(strings(&["T3", "9.9.9.9", "10.0.0.4", "10.0.0.6:22"]));
    let (kept, names) = check_total_test_for_report(list, 2);
    assert_eq!(names, strings(&["T1", "T2"]));
    assert_eq!(kept, two_tests());
}

#[test]
fn template_that_fits_keeps_everything() {
    let (kept, names) = check_total_test_for_report(two_tests(), 2);
    assert_eq!(names, strings(&["T1", "T2"]));
    assert_eq!(kept, two_tests());
}

#[test]
fn comment_lines_are_dropped() {
    let lines = strings(&["#01 heading", "$12 line", "", "# x", "y"]);
    assert_eq!(drop_comment_lines(&lines), strings(&["$12 line", "", "y"]));
}

#[test]
fn backup_test_list_cleans_into_groups_of_four() {
    let lines: Vec<String> = backup_data("ping_test_list_ip").lines().map(|l| l.to_string()).collect();
    assert_eq!(backup_data("ping_test_list_ip"), PING_TEST_LIST_IP);
    let r = return_clean_vec_list_ip(&lines);
    assert_eq!(r.len(), 76);
    assert_eq!(&r[0..4], &strings(&["Proveedor_FIBEX", "8.8.8.8", "45.182.140.24", "10.0.0.8:22"])[..]);
    assert_eq!(
        &r[72..76],
        &strings(&["TD_Int_VLAN3006_Copey_Dayco", "172.16.0.25", "172.16.0.26", "10.1.32.1:22"])[..]
    );
    for k in 0..19 {
        assert!(r[4 * k + 3].contains(':'));
    }
    assert!(r.iter().all(|s| !s.contains('\n')));
}

#[test]
fn cleaning_turns_quotes_into_line_breaks() {
    let lines = strings(&["  {\"A\"=[\"1\",\"2\"],  "]);
    assert_eq!(return_clean_vec_list_ip(&lines), strings(&["A", "1", "2"]));
}
