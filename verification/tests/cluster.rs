use cachecannon::cluster::{
    build_topology, discovery_failure, judge, received, slots_of, Address, ClusterError, Parsed,
    Received, SlotRange, SlotsReply,
};

/// The reply of a node to `CLUSTER SLOTS`.
fn wire(ranges: &[(u16, u16, &str, u16)]) -> Vec<u8> {
    let mut s = format!("*{}\r\n", ranges.len());
    for (start, end, ip, port) in ranges {
        s += &format!("*3\r\n:{start}\r\n:{end}\r\n*2\r\n${}\r\n{ip}\r\n:{port}\r\n", ip.len());
    }
    s.into_bytes()
}

fn ranges_in(bytes: &[u8]) -> Vec<SlotRange> {
    match received(bytes, bytes.len()) {
        Received::Ranges(r) => r,
        other => panic!("{other:?}"),
    }
}

fn read(ranges: &[SlotRange]) -> Vec<Address> {
    ranges.iter().map(|r| Address::Valid(r.address.clone())).collect()
}

fn range(start: u16, end: u16, address: &str) -> SlotRange {
    SlotRange { start, end, address: address.to_string() }
}

#[test]
fn a_topology_maps_every_slot() {
    let bytes = wire(&[
        (8_000, 16_383, "10.0.0.2", 6379),
        (0, 3_999, "10.0.0.1", 6379),
        (4_000, 7_999, "10.0.0.2", 6379),
    ]);
    let ranges = ranges_in(&bytes);
    // They come by first slot.
    assert_eq!(ranges[0].start, 0);
    assert_eq!(ranges[0].address, "10.0.0.1:6379");
    let t = build_topology(&ranges, &read(&ranges)).unwrap();
    assert_eq!(t.endpoints, vec!["10.0.0.1:6379", "10.0.0.2:6379"]);
    assert_eq!(t.slot_table.len(), 16_384);
    assert_eq!(t.slot_table[0], 0);
    assert_eq!(t.slot_table[3_999], 0);
    assert_eq!(t.slot_table[4_000], 1);
    assert_eq!(t.slot_table[16_383], 1);
}

#[test]
fn a_reply_is_read_until_it_is_whole() {
    let bytes = wire(&[(0, 16_383, "10.0.0.1", 6379)]);
    for n in 1..bytes.len() {
        assert!(matches!(received(&bytes[..n], 1), Received::More), "{n} bytes");
    }
    assert!(matches!(received(&bytes, 1), Received::Ranges(_)));
    assert!(matches!(
        received(&bytes, 0),
        Received::Failed(ClusterError::Closed)
    ));
}

#[test]
fn replies_that_are_no_slot_map_fail() {
    let failure = |bytes: &[u8]| match received(bytes, bytes.len()) {
        Received::Failed(e) => e.message(),
        other => panic!("{other:?}"),
    };
    assert_eq!(failure(b"-ERR no cluster\r\n"), "CLUSTER SLOTS returned error: ERR no cluster");
    assert_eq!(failure(b"+OK\r\n"), "failed to parse CLUSTER SLOTS response as slot map");
    assert_eq!(failure(b"*0\r\n"), "CLUSTER SLOTS returned empty slot map");
    assert!(failure(b"?\r\n").starts_with("failed to parse CLUSTER SLOTS response: "));
    assert!(matches!(judge(SlotsReply::Incomplete), Received::More));
    assert_eq!(
        discovery_failure(vec![ClusterError::NotSlots, ClusterError::Closed]).message(),
        "connection closed before complete response"
    );
    assert_eq!(discovery_failure(Vec::new()).message(), "no seed nodes provided");
    assert_eq!(ClusterError::Io("refused".into()).message(), "refused");
}

#[test]
fn gaps_and_bad_addresses_are_errors() {
    let ranges = vec![range(0, 99, "a:1"), range(200, 16_383, "b:1")];
    let e = build_topology(&ranges, &read(&ranges)).unwrap_err();
    assert_eq!(e.message(), "CLUSTER SLOTS does not cover slot 100");

    let ranges = vec![range(0, 16_384, "a:1")];
    let e = build_topology(&ranges, &read(&ranges)).unwrap_err();
    assert_eq!(e.message(), "CLUSTER SLOTS names slot 16384");

    let ranges = vec![range(0, 16_383, "nowhere")];
    let e = build_topology(&ranges, &vec![Address::Invalid("invalid socket address syntax".into())])
        .unwrap_err();
    assert_eq!(
        e.message(),
        "invalid primary address 'nowhere': invalid socket address syntax"
    );
}

#[test]
fn later_ranges_win() {
    let ranges = vec![range(0, 16_383, "a:1"), range(5, 5, "b:1"), range(9, 3, "a:1")];
    let t = build_topology(&ranges, &read(&ranges)).unwrap();
    assert_eq!((t.slot_table[4], t.slot_table[5], t.slot_table[6]), (0, 1, 0));
}

#[test]
fn an_empty_slot_map_has_no_topology() {
    let e = build_topology(&Vec::new(), &Vec::new()).unwrap_err();
    assert_eq!(e.message(), "CLUSTER SLOTS returned empty slot map");
}

#[test]
fn parsed_replies_are_told_apart() {
    assert!(matches!(slots_of(Parsed::Incomplete), SlotsReply::Incomplete));
    let refused = slots_of(Parsed::Error(b"ERR no".to_vec()));
    assert!(matches!(refused, SlotsReply::Refused(m) if m == "ERR no"));
    let other = resp_proto::Value::Integer(3);
    assert!(matches!(slots_of(Parsed::Whole(other)), SlotsReply::NotSlots));
    let none = resp_proto::Value::Array(Vec::new());
    assert!(matches!(slots_of(Parsed::Whole(none)), SlotsReply::Ranges(r) if r.is_empty()));
}

#[test]
fn many_ranges_may_share_a_primary() {
    let mut ranges = vec![range(0, 16_383, "a:1")];
    for _ in 0..0x1_0000 {
        ranges.push(range(7, 7, "b:1"));
    }
    let t = build_topology(&ranges, &read(&ranges)).unwrap();
    assert_eq!((t.slot_table[6], t.slot_table[7]), (0, 1));
}
