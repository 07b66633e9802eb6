use netcom_toolkit::ip::{
    decimal_exec, find_available_management_ip, find_available_segments,
    find_ip_or_segment_in_use, gateway_queries, octets_exec, signed_decimal_exec, sort_ip_addresses,
    RouteError,
};

fn strings(v: &[&str]) -> Vec<String> {
    v.iter().map(|s| s.to_string()).collect()
}

#[test]
fn addresses_sort_by_octets() {
    let r = sort_ip_addresses(strings(&["10.0.0.10", "10.0.0.2", "9.1.1.1", "192.168.0.1"]));
    assert_eq!(r, strings(&["9.1.1.1", "10.0.0.2", "10.0.0.10", "192.168.0.1"]));
}

#[test]
fn sort_is_stable_for_equal_addresses() {
    let dup = sort_ip_addresses(strings(&["10.0.0.5", "10.0.0.1", "10.0.0.5"]));
    assert_eq!(dup, strings(&["10.0.0.1", "10.0.0.5", "10.0.0.5"]));
    // no piece parses, so all compare equal and keep their order
    let same = sort_ip_addresses(strings(&["b", "a", "c"]));
    assert_eq!(same, strings(&["b", "a", "c"]));
}

#[test]
fn octets_skip_pieces_that_are_no_byte() {
    assert_eq!(octets_exec("10.300.x.4"), vec![10u8, 4]);
    assert_eq!(octets_exec("192.168.0.0/29"), vec![192u8, 168, 0]);
}

#[test]
fn decimal_texts() {
    assert_eq!(decimal_exec(0), vec!['0']);
    assert_eq!(decimal_exec(254), vec!['2', '5', '4']);
    assert_eq!(signed_decimal_exec(-12), vec!['-', '1', '2']);
}

#[test]
fn gateways_in_use_from_a_listing() {
    let chunk = b"0 A dst-address=0.0.0.0/0 gateway=10.1.52.130 distance=1\n1 A dst-address=10.0.0.0/8 gateway=10.1.52.131 distance=1\n2 A dst-address=192.168.0.0/29 gateway=10.1.52.130 distance=1".to_vec();
    let r = find_ip_or_segment_in_use(&vec![chunk], "gateway=").unwrap();
    assert_eq!(r, strings(&["10.1.52.130", "10.1.52.131"]));
}

#[test]
fn first_line_of_a_chunk_is_kept_in_debug_form() {
    let chunks = vec![b"x gateway=10.9.9.9\n".to_vec(), b"y gateway=10.1.1.1\n".to_vec()];
    let r = find_ip_or_segment_in_use(&chunks, "gateway=").unwrap();
    // each chunk completes a line, which is kept as `Ok("...")`
    assert_eq!(r, strings(&["10.1.1.1\")", "10.9.9.9\")"]));
}

#[test]
fn segments_in_use_from_a_listing() {
    let chunk = b"0 ADC dst-address=192.168.1.8/29 gateway=bridge\n1 ADC dst-address=192.168.1.0/29 gateway=bridge\n".to_vec();
    let r = find_ip_or_segment_in_use(&vec![Vec::new(), chunk], "dst-address=").unwrap();
    assert_eq!(r.len(), 2);
    assert!(r.contains(&"192.168.1.8/29".to_string()));
    assert!(r.contains(&"192.168.1.0/29".to_string()));
}

#[test]
fn listing_that_ends_in_bad_utf8_is_refused() {
    let chunks = vec![vec![b'a', b' ', 0xff]];
    assert_eq!(find_ip_or_segment_in_use(&chunks, "gateway="), Err(RouteError::InvalidUtf8));
}

#[test]
fn free_management_addresses() {
    let in_use = strings(&["10.1.52.130", "10.1.55.254", "10.9.9.9"]);
    let r = find_available_management_ip(&in_use, "1", "52");
    assert!(!r.segment_unreadable);
    assert_eq!(r.ips.len(), 498);
    assert_eq!(r.ips[0], "10.1.52.131");
    assert_eq!(r.ips[497], "10.1.55.253");
    assert!(!r.ips.contains(&"10.1.52.130".to_string()));
    assert!(r.ips.contains(&"10.1.53.130".to_string()));
}

#[test]
fn unreadable_segment_counts_as_zero() {
    let r = find_available_management_ip(&Vec::new(), "10", "x");
    assert!(r.segment_unreadable);
    assert_eq!(r.ips.len(), 500);
    assert_eq!(r.ips[0], "10.10.0.130");
}

#[test]
fn free_segments_are_the_unused_ones_sorted() {
    let complete = strings(&["192.168.0.16", "192.168.0.8", "192.168.0.0", "192.168.0.8"]);
    let in_use = strings(&["192.168.0.0"]);
    let r = find_available_segments(&complete, &in_use);
    assert_eq!(r, strings(&["192.168.0.8", "192.168.0.16"]));
}

#[test]
fn gateway_queries_of_a_node() {
    let q = gateway_queries("1", "52");
    assert_eq!(q.len(), 5);
    assert_eq!(q[0], "ip route print terse without-paging where gateway~\"10.1.52\"\r\n");
    assert_eq!(q[4], "ip route print terse without-paging where gateway~\"10.1.56\"\r\n");
}
