use stock_pipeline::buffer::{RetentionBuffer, BUFFER_CAPACITY};
use stock_pipeline::process::{
    indicators, last_sma_window, latest_timestamp, prepare, sma_windows, SeriesFigures, SMA_WINDOW,
};
use stock_pipeline::query::{parse_count, tail, QueryError};
use stock_pipeline::schedule::{parse_from, parse_symbols, ConfigError, Scheduler};
use stock_pipeline::series::{series_from_fetch, sort_points, FetchOutcome, Point, QuoteSeries};

fn pt(timestamp: u64, close: f64) -> Point<f64> {
    Point { timestamp, close }
}

fn series(symbol: &str, points: Vec<Point<f64>>) -> QuoteSeries<f64> {
    QuoteSeries { symbol: symbol.to_string(), points }
}

#[test]
fn empty_series_yields_no_record() {
    assert!(prepare(series("AAPL", vec![])).is_none());
}

#[test]
fn non_empty_series_yields_one_record() {
    let r = prepare(series("MSFT", vec![pt(5, 1.0), pt(3, 2.0)]));
    let r = r.expect("a record");
    assert_eq!(r.symbol, "MSFT");
    assert_eq!(r.points.len(), 2);
}

#[test]
fn single_point_series() {
    let r = prepare(series("AAPL", vec![pt(100, 10.0)])).unwrap();
    assert_eq!(latest_timestamp(&r.points), 100);
    assert_eq!(r.points[0].close, 10.0);
    assert_eq!(last_sma_window(r.points.len(), SMA_WINDOW), None);
    assert!(sma_windows(r.points.len(), SMA_WINDOW).is_empty());
}

#[test]
fn unsorted_series_is_put_in_time_order() {
    let r = prepare(series("AAPL", vec![pt(2, 12.0), pt(1, 10.0), pt(3, 9.0)])).unwrap();
    let ts: Vec<u64> = r.points.iter().map(|p| p.timestamp).collect();
    let closes: Vec<f64> = r.points.iter().map(|p| p.close).collect();
    assert_eq!(ts, vec![1, 2, 3]);
    assert_eq!(closes, vec![10.0, 12.0, 9.0]);
    assert_eq!(latest_timestamp(&r.points), 3);
    assert_eq!(last_sma_window(3, SMA_WINDOW), None);
    let figures = SeriesFigures { pct_change: -0.1, period_min: 9.0, period_max: 12.0, last_sma: 0.0 };
    let rec = indicators(&r, figures);
    assert_eq!(rec.symbol, "AAPL");
    assert_eq!(rec.timestamp, 3);
    assert_eq!(rec.price, 9.0);
    assert_eq!(rec.pct_change, -0.1);
    assert_eq!(rec.period_min, 9.0);
    assert_eq!(rec.period_max, 12.0);
    assert_eq!(rec.last_sma, 0.0);
}

#[test]
fn sort_keeps_order_of_equal_timestamps() {
    let r = sort_points(vec![pt(2, 1.0), pt(1, 2.0), pt(2, 3.0), pt(1, 4.0), pt(0, 5.0)]);
    let closes: Vec<f64> = r.iter().map(|p| p.close).collect();
    assert_eq!(closes, vec![5.0, 2.0, 4.0, 1.0, 3.0]);
}

#[test]
fn sort_of_empty_and_sorted() {
    assert!(sort_points::<f64>(vec![]).is_empty());
    let r = sort_points(vec![pt(1, 1.0), pt(2, 2.0), pt(3, 3.0)]);
    let ts: Vec<u64> = r.iter().map(|p| p.timestamp).collect();
    assert_eq!(ts, vec![1, 2, 3]);
}

#[test]
fn sma_windows_ranges() {
    assert_eq!(sma_windows(5, 3), vec![(0, 3), (1, 4), (2, 5)]);
    assert_eq!(sma_windows(5, 5), vec![(0, 5)]);
    assert_eq!(sma_windows(5, 10), vec![]);
    assert_eq!(sma_windows(5, 1), vec![]);
    assert_eq!(sma_windows(5, 0), vec![]);
    assert_eq!(sma_windows(0, 3), vec![]);
    assert_eq!(last_sma_window(35, 30), Some((5, 35)));
    assert_eq!(last_sma_window(29, 30), None);
}

#[test]
fn fetch_failures_become_empty_series() {
    let s = series_from_fetch::<f64>("UBER".to_string(), FetchOutcome::Failed);
    assert_eq!(s.symbol, "UBER");
    assert!(s.points.is_empty());
    let s = series_from_fetch::<f64>("UBER".to_string(), FetchOutcome::TimedOut);
    assert!(s.points.is_empty());
    let s = series_from_fetch("GOOG".to_string(), FetchOutcome::Fetched(vec![pt(9, 1.5)]));
    assert_eq!(s.symbol, "GOOG");
    assert_eq!(s.points.len(), 1);
    assert_eq!(s.points[0].timestamp, 9);
    assert_eq!(s.points[0].close, 1.5);
}

#[test]
fn buffer_keeps_fifty_newest_first() {
    let mut b = RetentionBuffer::new();
    for i in 0..51u32 {
        b.insert(i);
    }
    assert_eq!(b.len(), BUFFER_CAPACITY);
    let all = b.snapshot(100);
    assert_eq!(all.len(), 50);
    let expected: Vec<u32> = (1..51u32).rev().collect();
    assert_eq!(all, expected);
}

#[test]
fn buffer_snapshot_sizes() {
    let mut b = RetentionBuffer::new();
    assert!(b.snapshot(3).is_empty());
    b.insert("a".to_string());
    b.insert("b".to_string());
    b.insert("c".to_string());
    assert_eq!(b.snapshot(2), vec!["c".to_string(), "b".to_string()]);
    assert_eq!(b.snapshot(0), Vec::<String>::new());
    assert_eq!(b.snapshot(10).len(), 3);
}

#[test]
fn buffer_bounded_while_queried() {
    let mut b = RetentionBuffer::new();
    for i in 0..200u64 {
        b.insert(i);
        let s = b.snapshot(usize::MAX);
        assert!(s.len() <= 50);
        assert_eq!(s[0], i);
        for w in s.windows(2) {
            assert_eq!(w[0], w[1] + 1);
        }
    }
}

#[test]
fn tail_zero_is_empty() {
    let mut b = RetentionBuffer::new();
    for i in 0..5u8 {
        b.insert(i);
    }
    assert_eq!(tail(&b, "0"), Ok(vec![]));
    assert_eq!(tail(&b, "1"), Ok(vec![4]));
    assert_eq!(tail(&b, "9"), Ok(vec![4, 3, 2, 1, 0]));
}

#[test]
fn tail_rejects_non_numbers() {
    let b: RetentionBuffer<u8> = RetentionBuffer::new();
    assert_eq!(tail(&b, "abc"), Err(QueryError::BadCount));
    assert_eq!(tail(&b, ""), Err(QueryError::BadCount));
    assert_eq!(tail(&b, "-1"), Err(QueryError::BadCount));
}

#[test]
fn count_parsing() {
    assert_eq!(parse_count("0"), Some(0));
    assert_eq!(parse_count("42"), Some(42));
    assert_eq!(parse_count("+7"), Some(7));
    assert_eq!(parse_count("007"), Some(7));
    assert_eq!(parse_count("+"), None);
    assert_eq!(parse_count("1a"), None);
    assert_eq!(parse_count(" 1"), None);
    assert_eq!(parse_count(&usize::MAX.to_string()), Some(usize::MAX));
    assert_eq!(parse_count("99999999999999999999999"), None);
}

#[test]
fn symbols_split_on_commas() {
    assert_eq!(parse_symbols("AAPL,MSFT,UBER,GOOG"), vec!["AAPL", "MSFT", "UBER", "GOOG"]);
    assert_eq!(parse_symbols("AAPL"), vec!["AAPL"]);
    assert_eq!(parse_symbols(""), vec![""]);
    assert_eq!(parse_symbols("A,,B,"), vec!["A", "", "B", ""]);
}

#[test]
fn from_is_read_as_rfc3339() {
    assert_eq!(parse_from("2020-01-01T00:00:00Z"), Ok(1577836800));
    assert_eq!(parse_from("2020-01-01T02:00:00+02:00"), Ok(1577836800));
    assert_eq!(parse_from("yesterday"), Err(ConfigError::BadFrom));
    assert_eq!(parse_from(""), Err(ConfigError::BadFrom));
}

#[test]
fn scheduler_emits_one_request_per_symbol() {
    let mut s = Scheduler::new(parse_symbols("AAPL,MSFT"), 10);
    let r = s.tick(99);
    assert_eq!(r.len(), 2);
    assert_eq!(r[0].symbol, "AAPL");
    assert_eq!(r[1].symbol, "MSFT");
    assert!(r.iter().all(|q| q.from == 10 && q.to == 99));
    s.record_delivery(true);
    assert_eq!(s.tick(100).len(), 2);
    s.record_delivery(false);
    assert!(!s.running);
    assert!(s.tick(130).is_empty());
    s.record_delivery(true);
    assert!(s.tick(160).is_empty());
}
