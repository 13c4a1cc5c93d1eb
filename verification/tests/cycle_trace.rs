use bebop::cycle_trace::{parse_record, trace_contents, trace_file_name, summary_contents, CycleTraceCollector, CycleTraceError, TraceField};
use bebop::text::{decimal, parse_i64, parse_unsigned};

fn feed(collector: &mut CycleTraceCollector, hart: u32, bytes: &[u8]) -> Vec<(Vec<u8>, Vec<u8>)> {
    let mut written = Vec::new();
    for byte in bytes {
        if let Some(record) = collector.push_uart_byte(hart, *byte).unwrap() {
            written.push((trace_file_name(&record.path), trace_contents(record.start, record.end)));
        }
    }
    written
}

#[test]
fn writes_bemu_compatible_cycle_files_from_uart_records() {
    let mut collector = CycleTraceCollector::new();
    let written = feed(&mut collector, 0, b"normal UART output\n@BCT,2,7,9,-1,-1,100,160\n");
    assert_eq!(written.len(), 1);
    assert_eq!(written[0].0, b"trace-7-9.txt".to_vec());
    assert_eq!(String::from_utf8(written[0].1.clone()).unwrap(), "start 100\nend 160\nelapsed 60\n");
    let summary = collector.finish().unwrap();
    assert_eq!(
        String::from_utf8(summary_contents(&summary)).unwrap(),
        "first_start 100\nlast_end 160\ntrace_span 60\ntraced_cycle_sum 60\ntrace_count 1\n"
    );
}

#[test]
fn collector_without_records_has_no_summary() {
    let mut collector = CycleTraceCollector::new();
    assert!(feed(&mut collector, 3, b"hello\nworld\n").is_empty());
    assert!(collector.finish().is_none());
}

#[test]
fn harts_keep_separate_lines_and_the_summary_spans_all_records() {
    let mut collector = CycleTraceCollector::new();
    let a = b"@BCT,1,1,0,0,0,50,70\n";
    let b = b"@BCT,3,2,0,4,0,10,30\r\n";
    let mut written = Vec::new();
    for i in 0..a.len().max(b.len()) {
        if i < a.len() {
            if let Some(r) = collector.push_uart_byte(0, a[i]).unwrap() {
                written.push(trace_file_name(&r.path));
            }
        }
        if i < b.len() {
            if let Some(r) = collector.push_uart_byte(1, b[i]).unwrap() {
                written.push(trace_file_name(&r.path));
            }
        }
    }
    assert_eq!(written, vec![b"trace-1.txt".to_vec(), b"trace-2-0-4.txt".to_vec()]);
    let summary = collector.finish().unwrap();
    assert_eq!(summary.first_start, 10);
    assert_eq!(summary.last_end, 70);
    assert_eq!(summary.trace_span, 60);
    assert_eq!(summary.traced_cycle_sum, 40);
    assert_eq!(summary.trace_count, 2);
}

#[test]
fn malformed_records_are_refused_with_their_reason() {
    assert!(matches!(parse_record(b"@BCT,1,2,3\n"), Err(CycleTraceError::InvalidRecord)));
    assert!(matches!(parse_record(b"@BCTX,1,0,0,0,0,1,2\n"), Err(CycleTraceError::InvalidRecord)));
    assert!(matches!(
        parse_record(b"@BCT,x,0,0,0,0,1,2\n"),
        Err(CycleTraceError::InvalidField { field: TraceField::Depth })
    ));
    assert!(matches!(parse_record(b"@BCT,0,0,0,0,0,1,2\n"), Err(CycleTraceError::DepthOutOfRange { depth: 0 })));
    assert!(matches!(parse_record(b"@BCT,5,0,0,0,0,1,2\n"), Err(CycleTraceError::DepthOutOfRange { depth: 5 })));
    assert!(matches!(
        parse_record(b"@BCT,2,0,q,0,0,1,2\n"),
        Err(CycleTraceError::InvalidField { field: TraceField::Path { index: 1 } })
    ));
    assert!(matches!(parse_record(b"@BCT,2,0,-3,0,0,1,2\n"), Err(CycleTraceError::NegativePathComponent)));
    assert!(matches!(
        parse_record(b"@BCT,1,0,0,0,0,-1,2\n"),
        Err(CycleTraceError::InvalidField { field: TraceField::Start })
    ));
    assert!(matches!(
        parse_record(b"@BCT,1,0,0,0,0,1,99999999999999999999\n"),
        Err(CycleTraceError::InvalidField { field: TraceField::End })
    ));
    assert!(matches!(parse_record(b"@BCT,1,0,0,0,0,9,2\n"), Err(CycleTraceError::EndBeforeStart)));
    assert!(matches!(parse_record(b"@BCT\xff\n"), Err(CycleTraceError::NotUtf8)));
    assert!(matches!(parse_record(b"plain text\n"), Ok(None)));
}

#[test]
fn a_refused_record_is_not_counted() {
    let mut collector = CycleTraceCollector::new();
    for byte in b"@BCT,1,0,0,0,0,9,2" {
        assert!(collector.push_uart_byte(0, *byte).unwrap().is_none());
    }
    assert!(collector.push_uart_byte(0, b'\n').is_err());
    assert!(collector.finish().is_none());
}

#[test]
fn numbers_parse_as_rust_parses_them() {
    assert_eq!(parse_unsigned(b"+42", u64::MAX), Some(42));
    assert_eq!(parse_unsigned(b"007", u64::MAX), Some(7));
    assert_eq!(parse_unsigned(b"18446744073709551615", u64::MAX), Some(u64::MAX));
    assert_eq!(parse_unsigned(b"18446744073709551616", u64::MAX), None);
    assert_eq!(parse_unsigned(b"+", u64::MAX), None);
    assert_eq!(parse_unsigned(b"", u64::MAX), None);
    assert_eq!(parse_unsigned(b"-1", u64::MAX), None);
    assert_eq!(parse_i64(b"-9223372036854775808"), Some(i64::MIN));
    assert_eq!(parse_i64(b"9223372036854775807"), Some(i64::MAX));
    assert_eq!(parse_i64(b"9223372036854775808"), None);
    assert_eq!(parse_i64(b"-"), None);
}

#[test]
fn decimal_rendering_parses_back() {
    for n in [0u64, 9, 10, 160, 1234567, u64::MAX] {
        let text = decimal(n);
        assert_eq!(String::from_utf8(text.clone()).unwrap(), n.to_string());
        assert_eq!(parse_unsigned(&text, u64::MAX), Some(n));
    }
}
