use bebop::trace::{hex16, mtrace_record, MTraceEvent, TraceConfig};

#[test]
fn memory_trace_records_are_one_json_line() {
    let event = MTraceEvent {
        is_write: false,
        addr: 0x8000_0100,
        rows: 2,
        line_bytes: 16,
        row_stride: 1,
        vbank_id: 3,
        pbank_id: 5,
        group_id: 1,
    };
    let record = String::from_utf8(mtrace_record(42, &event)).unwrap();
    assert_eq!(
        record,
        r#"{"type":"mtrace","clk":42,"event":"read","addr":"0x0000000080000100","rows":2,"line_bytes":16,"row_stride":1,"vbank_id":3,"pbank_id":5,"group_id":1}"#
    );
    let write = MTraceEvent { is_write: true, ..event };
    assert!(String::from_utf8(mtrace_record(0, &write)).unwrap().contains(r#""event":"write""#));
}

#[test]
fn addresses_print_as_sixteen_hex_digits() {
    assert_eq!(hex16(0), b"0000000000000000".to_vec());
    assert_eq!(hex16(u64::MAX), b"ffffffffffffffff".to_vec());
    assert_eq!(hex16(0xdead_beef), b"00000000deadbeef".to_vec());
}

#[test]
fn trace_config_leaves_bank_digests_off() {
    let cfg = TraceConfig::new(true, false);
    assert!(cfg.itrace && !cfg.mtrace && !cfg.btrace);
}
