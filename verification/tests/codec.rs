use classroom_helper::csvtext::{data_rows, encode_csv, parse_csv};

#[test]
fn encode_then_parse_is_the_identity() {
    let records = vec![
        vec![String::from("plain"), String::from("with,comma"), String::from("with \"quote\"")],
        vec![String::from(""), String::from("line\nbreak"), String::from("end")],
    ];
    let text = encode_csv(&records);
    assert_eq!(parse_csv(&text), records);
}

#[test]
fn fields_are_quoted_only_when_needed() {
    let records = vec![vec![String::from("a"), String::from("b,c"), String::from("d")]];
    assert_eq!(encode_csv(&records), "a,\"b,c\",d\n");
    let records = vec![vec![String::from("say \"hi\"")]];
    assert_eq!(encode_csv(&records), "\"say \"\"hi\"\"\"\n");
}

#[test]
fn parser_takes_crlf_and_doubled_quotes() {
    let text = "a,\"b\"\"c\",d\r\nx,,z\n";
    let records = parse_csv(text);
    assert_eq!(records.len(), 2);
    assert_eq!(records[0], ["a", "b\"c", "d"]);
    assert_eq!(records[1], ["x", "", "z"]);
}

#[test]
fn last_record_needs_no_terminator() {
    let records = parse_csv("a,b\nc,d");
    assert_eq!(records.len(), 2);
    assert_eq!(records[1], ["c", "d"]);
}

#[test]
fn data_rows_drop_the_header_and_blank_lines() {
    let rows = data_rows("\u{feff}h1,h2\n\nv1,v2\n\n");
    assert_eq!(rows.len(), 1);
    assert_eq!(rows[0], ["v1", "v2"]);
}
