use write_router::batch::{ParseError, WriteBatch};
use write_router::line_protocol::ParseFailure;

fn b(s: &str) -> Vec<u8> {
    s.as_bytes().to_vec()
}

#[test]
fn one_operation_per_table_in_order_of_first_appearance() {
    let payload = b"cpu,host=a usage=1 10\nmem free=2 11\ncpu,host=b,rack=r1 usage=3,idle=4 12\n";
    let batch = WriteBatch::parse(payload).unwrap();
    assert_eq!(batch.table_count(), 2);
    let ops = batch.ops();
    assert_eq!(ops[0].table, b("cpu"));
    assert_eq!(ops[0].columns, vec![b("host"), b("usage"), b("rack"), b("idle")]);
    assert_eq!(ops[0].rows, 2);
    assert_eq!(ops[1].table, b("mem"));
    assert_eq!(ops[1].columns, vec![b("free")]);
    assert_eq!(ops[1].rows, 1);
}

#[test]
fn empty_payload_is_an_empty_batch() {
    assert_eq!(WriteBatch::parse(b"").unwrap().table_count(), 0);
    assert_eq!(WriteBatch::parse(b"\n\n# nothing\n").unwrap().table_count(), 0);
}

#[test]
fn repeated_column_in_a_line_is_kept_once() {
    let batch = WriteBatch::parse(b"t,a=1,a=2 a=3,b=4").unwrap();
    assert_eq!(batch.ops()[0].columns, vec![b("a"), b("b")]);
    assert_eq!(batch.ops()[0].rows, 1);
}

#[test]
fn first_malformed_line_is_reported_with_its_number() {
    let payload = b"cpu a=1\n# comment\n\nbroken\nalso broken but later\n";
    assert_eq!(
        WriteBatch::parse(payload).unwrap_err(),
        ParseError { line: 4, reason: ParseFailure::MissingFields }
    );
    assert_eq!(
        WriteBatch::parse(b"cpu,x a=1").unwrap_err(),
        ParseError { line: 1, reason: ParseFailure::MalformedTag }
    );
    assert_eq!(
        WriteBatch::parse(b"cpu a=1\ncpu a=1 zz").unwrap_err(),
        ParseError { line: 2, reason: ParseFailure::MalformedTimestamp }
    );
}

#[test]
fn rows_count_the_lines_of_each_table() {
    let mut payload = Vec::new();
    for i in 0..50 {
        payload.extend_from_slice(format!("t{} v={}\n", i % 3, i).as_bytes());
    }
    let batch = WriteBatch::parse(&payload).unwrap();
    let ops = batch.ops();
    assert_eq!(ops.len(), 3);
    assert_eq!(ops[0].rows, 17);
    assert_eq!(ops[1].rows, 17);
    assert_eq!(ops[2].rows, 16);
    let total: usize = ops.iter().map(|o| o.rows).sum();
    assert_eq!(total, 50);
}
