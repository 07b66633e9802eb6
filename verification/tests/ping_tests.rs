use netcom_toolkit::ping::{
    calculate_average_ttl, monitor_step, parse_latency_value, parse_latency_value_upload,
    process_ssh_terminal, report_process_ssh_terminal, scan_ping_output, slide_window,
    upload_process_ssh_terminal, LatencyText, PingEvent, ScanMode, PING_RESULTS_END_LINE,
};
use netcom_toolkit::trace::trace_hops;

fn chars(s: &str) -> Vec<char> {
    s.chars().collect()
}

const HEADER: &str = "  SEQ HOST                                     SIZE TTL TIME       STATUS\n";

#[test]
fn live_reply_with_ms_and_us() {
    let out = format!("{}    0 8.8.8.8                                    56 117 12ms412us\n", HEADER);
    match process_ssh_terminal(out.as_bytes()) {
        PingEvent::Reply { line, latency, ttl } => {
            assert_eq!(line, chars("    0 8.8.8.8                                    56 117 12ms412us\n"));
            assert_eq!(ttl, Some(117));
            match latency {
                LatencyText::MsUs { ms, us } => {
                    assert_eq!(ms, chars("12"));
                    // the split keeps the unit in front of the microseconds
                    assert_eq!(us, chars("ms412"));
                }
                other => panic!("unexpected latency {:?}", other),
            }
        }
        other => panic!("unexpected event {:?}", other),
    }
}

#[test]
fn live_reply_in_milliseconds() {
    let out = "    3 1.1.1.1    56 58 9ms\n";
    match process_ssh_terminal(out.as_bytes()) {
        PingEvent::Reply { latency: LatencyText::Ms(ms), ttl, .. } => {
            assert_eq!(ms, chars("9"));
            assert_eq!(ttl, Some(58));
        }
        other => panic!("unexpected event {:?}", other),
    }
}

#[test]
fn report_reply_has_no_ttl() {
    let out = "    3 1.1.1.1    56 58 850us\n";
    match report_process_ssh_terminal(out.as_bytes()) {
        PingEvent::Reply { latency: LatencyText::Us(us), ttl, .. } => {
            assert_eq!(us, chars("850"));
            assert_eq!(ttl, None);
        }
        other => panic!("unexpected event {:?}", other),
    }
}

#[test]
fn upload_reply_reads_first_word_with_unit() {
    let out = "    0 8.8.8.8 56 117 12ms412us\n";
    match upload_process_ssh_terminal(out.as_bytes()) {
        PingEvent::Reply { latency: LatencyText::MsUs { ms, us }, ttl, .. } => {
            assert_eq!(ms, chars("12"));
            assert_eq!(us, chars("412"));
            assert_eq!(ttl, Some(117));
        }
        other => panic!("unexpected event {:?}", other),
    }
}

#[test]
fn ttl_that_does_not_parse_reads_zero() {
    let out = "    0 8.8.8.8 56 x 3ms\n";
    match process_ssh_terminal(out.as_bytes()) {
        PingEvent::Reply { ttl, .. } => assert_eq!(ttl, Some(0)),
        other => panic!("unexpected event {:?}", other),
    }
}

#[test]
fn timeout_line_is_lost() {
    let out = format!("{}    1 8.8.8.8                                               timeout\n", HEADER);
    assert!(matches!(process_ssh_terminal(out.as_bytes()), PingEvent::Lost { .. }));
}

#[test]
fn invalid_argument_only_stops_the_live_test() {
    let out = "bad command: Invalid ar...\n";
    assert!(matches!(process_ssh_terminal(out.as_bytes()), PingEvent::InvalidArgument { .. }));
    assert!(matches!(report_process_ssh_terminal(out.as_bytes()), PingEvent::End));
}

#[test]
fn summary_line_is_skipped() {
    let out = "    sent=4 received=4 packet-loss=0% min-rtt=11ms avg-rtt=12ms max-rtt=13ms\n";
    assert!(matches!(process_ssh_terminal(out.as_bytes()), PingEvent::End));
}

#[test]
fn invalid_utf8_stops_the_scan() {
    let out: Vec<u8> = vec![0xff, b'\n', b'9', b'm', b's', b'\n'];
    assert!(matches!(scan_ping_output(&out, ScanMode::LiveTest), PingEvent::ReadError));
}

#[test]
fn trailing_zero_bytes_give_no_sample() {
    let mut buf = [0u8; 128];
    let head = HEADER.as_bytes();
    buf[..head.len()].copy_from_slice(head);
    assert!(matches!(process_ssh_terminal(&buf), PingEvent::End));
}

#[test]
fn latency_value_without_unit_is_missing() {
    assert!(matches!(parse_latency_value(&chars("a b c d e")), LatencyText::Missing));
    assert!(matches!(parse_latency_value_upload(&chars("a b c")), LatencyText::Missing));
}

#[test]
fn average_ttl_of_values() {
    assert_eq!(calculate_average_ttl(&vec![117, 118, 119]), 118);
    assert_eq!(calculate_average_ttl(&vec![64, 65]), 64);
    assert_eq!(calculate_average_ttl(&vec![-7, 2]), -2);
    assert_eq!(calculate_average_ttl(&vec![]), 0);
}

#[test]
fn monitor_moves_down_then_wraps() {
    let s = monitor_step(3, 10);
    assert_eq!(s.print_at, Some(3));
    assert_eq!(s.next_line, 4);
    assert!(!s.clear_result_lines);
    assert!(s.clear_screen);
    assert!(!s.drop_oldest);
    let w = monitor_step(PING_RESULTS_END_LINE, 100);
    assert_eq!(w.print_at, None);
    assert_eq!(w.next_line, 0);
    assert!(w.clear_result_lines);
    assert!(!w.clear_screen);
    assert!(w.drop_oldest);
}

#[test]
fn window_drops_oldest_at_cap() {
    let mut v = vec![1, 2, 3];
    slide_window(&mut v, 3);
    assert_eq!(v, vec![2, 3]);
    slide_window(&mut v, 3);
    assert_eq!(v, vec![2, 3]);
}

#[test]
fn trace_reads_hops_and_skips_headers() {
    let out = "Columns: LDRS\n# HOST: router\n1 10.0.0.1 0.0% 20 1.2ms 1.5ms 0.9ms 3.4ms 0.5ms\n2 172.16.0.1 5.0%% 20 2.0ms 2.5ms 1.9ms 4.0ms\nshort line\n";
    let r = trace_hops(out.as_bytes());
    assert!(!r.read_error);
    assert_eq!(r.hops.len(), 2);
    let h = &r.hops[0];
    assert_eq!(h.count, 1);
    assert_eq!(h.host, "10.0.0.1");
    assert_eq!(h.loss, "0.0");
    assert_eq!(h.sent, 20);
    assert_eq!(h.last, "1.2");
    assert_eq!(h.avg, "1.5");
    assert_eq!(h.best, "0.9");
    assert_eq!(h.worst, "3.4");
    assert_eq!(h.stdev, Some("0.5".to_string()));
    let g = &r.hops[1];
    assert_eq!(g.count, 2);
    assert_eq!(g.loss, "5.0");
    assert_eq!(g.stdev, None);
}

#[test]
fn trace_stops_at_invalid_utf8() {
    let mut out: Vec<u8> = b"1 h 0% 1 1ms 1ms 1ms 1ms\n".to_vec();
    out.extend_from_slice(&[0xc3, b'\n']);
    out.extend_from_slice(b"2 h 0% 1 1ms 1ms 1ms 1ms\n");
    let r = trace_hops(&out);
    assert!(r.read_error);
    assert_eq!(r.hops.len(), 1);
}
