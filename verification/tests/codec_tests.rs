use pinger::csv_codec::{csv_chunk, csv_header_line, csv_row_line, parse_csv_row};
use pinger::json_codec::{appended_history, encode_history, parse_history};
use pinger::stats::PingStats;

fn sample_stats() -> PingStats {
    // 20, 25, 30, 1200, 15, 22, 18, 19 ms over ten probes
    let samples: Vec<u64> = vec![2000, 2500, 3000, 120000, 1500, 2200, 1800, 1900];
    let mut st = PingStats::new("1.2.3.4".to_string());
    st.recompute(10, &samples);
    st.timestamp_ms = 0; // pin the timestamp so the rendered text is fixed
    st
}

const EXPECTED_ROW: &str = "1.2.3.4,1970-01-01T00:00:00+00:00,10,8,20.00,15.00,1200.00,168.63,7,0,0,0,0,0,0,0,0,0,0,1";

#[test]
fn csv_header_names_every_column() {
    assert_eq!(
        csv_header_line(),
        "target,timestamp,sent,received,loss_percent,min,max,avg,0-50ms,50-100ms,100-150ms,\
         150-200ms,200-250ms,250-300ms,300-350ms,350-400ms,400-450ms,450-500ms,500-999ms,>1000ms"
    );
}

#[test]
fn csv_row_renders_fixed_precision() {
    assert_eq!(csv_row_line(&sample_stats()), EXPECTED_ROW);
}

#[test]
fn csv_row_absent_extremes_render_empty() {
    let mut st = PingStats::new("1.2.3.4".to_string());
    st.recompute(4, &Vec::new());
    st.timestamp_ms = 0;
    assert_eq!(
        csv_row_line(&st),
        "1.2.3.4,1970-01-01T00:00:00+00:00,4,0,100.00,,,,0,0,0,0,0,0,0,0,0,0,0,0"
    );
}

#[test]
fn csv_round_trip_reproduces_snapshot() {
    let st = sample_stats();
    let row = csv_row_line(&st);
    let back = parse_csv_row(&row).expect("the row the writer produced must read back");
    assert_eq!(back.target, st.target);
    assert_eq!(back.sent, st.sent);
    assert_eq!(back.received, st.received);
    assert_eq!(back.loss_centi_percent, st.loss_centi_percent);
    assert_eq!(back.min_centi_ms, st.min_centi_ms);
    assert_eq!(back.max_centi_ms, st.max_centi_ms);
    assert_eq!(back.avg_centi_ms, st.avg_centi_ms);
    assert_eq!(back.latency_buckets, st.latency_buckets);
    // the timestamp text is re-read through chrono
    assert_eq!(back.timestamp_ms, 0);
}

#[test]
fn csv_rejects_malformed_rows() {
    assert!(parse_csv_row("").is_none());
    assert!(parse_csv_row("too,few,fields").is_none());
    // received exceeding sent is inconsistent
    assert!(parse_csv_row(
        "h,t,1,8,20.00,15.00,1200.00,168.63,7,0,0,0,0,0,0,0,0,0,0,1"
    )
    .is_none());
    // bucket counts must sum to received
    assert!(parse_csv_row(
        "h,t,10,8,20.00,15.00,1200.00,168.63,9,0,0,0,0,0,0,0,0,0,0,1"
    )
    .is_none());
    // a latency field must be fixed-point
    assert!(parse_csv_row(
        "h,t,10,8,20.00,abc,1200.00,168.63,7,0,0,0,0,0,0,0,0,0,0,1"
    )
    .is_none());
}

#[test]
fn csv_chunk_opens_new_tables_with_the_header() {
    let st = sample_stats();
    let fresh = csv_chunk(&st, false);
    let grown = csv_chunk(&st, true);
    assert_eq!(fresh, format!("{}\n{}\n", csv_header_line(), EXPECTED_ROW));
    assert_eq!(grown, format!("{}\n", EXPECTED_ROW));
}

#[test]
fn csv_output_matches_csv_crate_reading() {
    let st = sample_stats();
    let text = csv_chunk(&st, false);
    let mut reader = csv::Reader::from_reader(text.as_bytes());
    let headers = reader.headers().expect("header row").clone();
    assert_eq!(&headers[0], "target");
    assert_eq!(&headers[19], ">1000ms");
    let records: Vec<csv::StringRecord> = reader.records().map(|r| r.expect("row")).collect();
    assert_eq!(records.len(), 1);
    assert_eq!(&records[0][0], "1.2.3.4");
    assert_eq!(&records[0][2], "10");
    assert_eq!(&records[0][4], "20.00");
    assert_eq!(&records[0][8], "7");
}

#[test]
fn json_history_round_trip() {
    let st = sample_stats();
    let mut st2 = PingStats::new("1.2.3.4".to_string());
    st2.recompute(3, &vec![1050, 1225]);
    st2.timestamp_ms = 86_400_000;
    let list = vec![st.clone(), st2.clone()];
    let text = encode_history(&list);
    let back = parse_history(&text).expect("the history the writer produced must read back");
    assert_eq!(back.len(), 2);
    assert_eq!(back[0].target, st.target);
    assert_eq!(back[0].sent, 10);
    assert_eq!(back[0].latency_buckets, st.latency_buckets);
    assert_eq!(back[1].sent, 3);
    assert_eq!(back[1].received, 2);
    assert_eq!(back[1].loss_centi_percent, 3333);
    assert_eq!(back[1].min_centi_ms, Some(1050));
    assert_eq!(back[1].max_centi_ms, Some(1225));
    assert_eq!(back[1].avg_centi_ms, Some(1138));
}

#[test]
fn json_empty_history() {
    let list: Vec<PingStats> = Vec::new();
    assert_eq!(encode_history(&list), "[]");
    assert_eq!(parse_history("[]").expect("empty history").len(), 0);
}

#[test]
fn json_rejects_malformed_histories() {
    assert!(parse_history("").is_none());
    assert!(parse_history("{}").is_none());
    assert!(parse_history("[\nnot an object\n]").is_none());
}

#[test]
fn json_append_grows_the_list() {
    let st = sample_stats();
    let first = appended_history(None, st.clone());
    assert_eq!(first.len(), 1);
    let text = encode_history(&first);
    let mut st2 = PingStats::new("1.2.3.4".to_string());
    st2.recompute(1, &vec![500]);
    let second = appended_history(Some(&text), st2);
    assert_eq!(second.len(), 2);
    assert_eq!(second[0].sent, 10);
    assert_eq!(second[1].sent, 1);
    // an unreadable history is started afresh, as the reader did
    let refreshed = appended_history(Some("garbage"), sample_stats());
    assert_eq!(refreshed.len(), 1);
}

#[test]
fn json_output_matches_serde_json_reading() {
    let st = sample_stats();
    let text = encode_history(&vec![st]);
    let value: serde_json::Value = serde_json::from_str(&text).expect("valid JSON");
    let arr = value.as_array().expect("an array");
    assert_eq!(arr.len(), 1);
    let obj = &arr[0];
    assert_eq!(obj["target"].as_str(), Some("1.2.3.4"));
    assert_eq!(obj["timestamp"].as_str(), Some("1970-01-01T00:00:00+00:00"));
    assert_eq!(obj["sent"].as_u64(), Some(10));
    assert_eq!(obj["received"].as_u64(), Some(8));
    assert_eq!(obj["loss_percent"].as_f64(), Some(20.0));
    assert_eq!(obj["min"].as_f64(), Some(15.0));
    assert_eq!(obj["max"].as_f64(), Some(1200.0));
    assert_eq!(obj["avg"].as_f64(), Some(168.63));
    assert_eq!(obj["latency_buckets"]["0-50ms"].as_u64(), Some(7));
    assert_eq!(obj["latency_buckets"][">1000ms"].as_u64(), Some(1));
}

#[test]
fn json_null_for_absent_extremes() {
    let mut st = PingStats::new("1.2.3.4".to_string());
    st.recompute(2, &Vec::new());
    let text = encode_history(&vec![st]);
    let value: serde_json::Value = serde_json::from_str(&text).expect("valid JSON");
    assert!(value[0]["min"].is_null());
    assert!(value[0]["max"].is_null());
    assert!(value[0]["avg"].is_null());
}
