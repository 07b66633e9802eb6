use netcom_toolkit::report::{
    collect_results, make_the_report, record_test_result, remove_chars_from_vec,
    replace_text, report_from_results, sort_by_leading_number, FillOutcome, ReportOutcome,
};

fn strings(v: &[&str]) -> Vec<String> {
    v.iter().map(|s| s.to_string()).collect()
}

fn text(v: &[char]) -> String {
    v.iter().collect()
}

fn template() -> Vec<String> {
    strings(&[
        "#01 Report _date_ _hour_am_pm_",
        "$03 Fibex: Proveedor_FIBEX",
        "#02",
        "$04 Digitel: Proveedor_Digitel",
    ])
}

fn results() -> netcom_toolkit::report::ReportMap {
    let mut m = linked_hash_map::LinkedHashMap::new();
    record_test_result(&mut m, "Proveedor_FIBEX".to_string(), "12.50 ms".to_string(), " ".to_string());
    record_test_result(
        &mut m,
        "Proveedor_Digitel".to_string(),
        "30.00 ms 🚨".to_string(),
        "5.00 % PL 🚨".to_string(),
    );
    m
}

#[test]
fn first_results_of_a_title_are_kept() {
    let mut m = linked_hash_map::LinkedHashMap::new();
    record_test_result(&mut m, "A".to_string(), "1 ms".to_string(), "".to_string());
    record_test_result(&mut m, "A".to_string(), "2 ms".to_string(), "9 %".to_string());
    assert_eq!(m.len(), 1);
    assert_eq!(m.get("A"), Some(&("1 ms".to_string(), "".to_string())));
}

#[test]
fn template_lines_are_filled_in_passes() {
    let names = strings(&["Proveedor_FIBEX", "Proveedor_Digitel"]);
    match replace_text(&template(), &results(), "19/11/2025", "09:05 pm", &names) {
        FillOutcome::Done(lines) => {
            let lines: Vec<String> = lines.iter().map(|l| text(l)).collect();
            assert_eq!(
                lines,
                strings(&[
                    "01 Report 19/11/2025 09:05 pm",
                    "02",
                    "04 Digitel: [\"30.00 ms 🚨\",\"5.00 % PL 🚨\"]",
                    "03 Fibex: [\"12.50 ms\",\" \"]",
                ])
            );
        }
        other => panic!("unexpected outcome {:?}", other),
    }
}

#[test]
fn report_text_is_sorted_and_cleaned() {
    let names = strings(&["Proveedor_FIBEX", "Proveedor_Digitel"]);
    match make_the_report(&template(), &results(), "19/11/2025", "09:05 pm", &names) {
        ReportOutcome::Done(t) => assert_eq!(
            t,
            " Report 19/11/2025 09:05 pm\n\n Fibex: 12.50 ms \n Digitel: 30.00 ms 🚨5.00 % PL 🚨"
        ),
        other => panic!("unexpected outcome {:?}", other),
    }
}

#[test]
fn line_that_is_never_filled_is_reported() {
    let names = strings(&["Proveedor_FIBEX"]);
    let t = strings(&["$03 Fibex: Proveedor_FIBEX", "plain line"]);
    assert!(matches!(replace_text(&t, &results(), "d", "t", &names), FillOutcome::Stuck));
    assert!(matches!(make_the_report(&t, &results(), "d", "t", &names), ReportOutcome::Stuck));
}

#[test]
fn invalid_argument_line_stops_the_report() {
    let names = strings(&["Proveedor_FIBEX"]);
    let t = strings(&["Invalid ar...", "$03 Fibex: Proveedor_FIBEX"]);
    assert!(matches!(replace_text(&t, &results(), "d", "t", &names), FillOutcome::Exited));
}

#[test]
fn short_line_is_reported() {
    let names = strings(&["Proveedor_FIBEX"]);
    let t = strings(&["#", "$03 Fibex: Proveedor_FIBEX"]);
    assert!(matches!(make_the_report(&t, &results(), "d", "t", &names), ReportOutcome::ShortLine));
}

#[test]
fn missing_result_lines_carry_over() {
    let names = strings(&["A", "B"]);
    let read = vec![(Some("1 ms".to_string()), None), (None, Some("2 %".to_string()))];
    let m = collect_results(&names, &read);
    assert_eq!(m.get("A"), Some(&("1 ms".to_string(), "".to_string())));
    assert_eq!(m.get("B"), Some(&("1 ms".to_string(), "2 %".to_string())));
    let t = strings(&["$01 a: A", "$02 b: B"]);
    match report_from_results(&t, &names, &read, "d", "t") {
        ReportOutcome::Done(r) => assert_eq!(r, " a: 1 ms\n b: 1 ms2 %"),
        other => panic!("unexpected outcome {:?}", other),
    }
}

#[test]
fn noise_characters_are_removed() {
    let r = remove_chars_from_vec(strings(&["[a],\"b\"", "c"]), &['[', ']', '"', ',']);
    assert_eq!(r, strings(&["ab", "c"]));
}

#[test]
fn lines_sort_by_their_number() {
    let r = sort_by_leading_number(strings(&["10 x", "2 y", "z", "3", "", "2 w"]));
    assert_eq!(r, strings(&["2 y", "2 w", "3", "10 x", "z", ""]));
}
