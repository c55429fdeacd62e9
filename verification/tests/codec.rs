use septem::data_file::{encode_data, parse_data};
use septem::recorder::{Accumulator, RecorderError};

fn prods(names: &[&str]) -> Vec<String> {
    names.iter().map(|s| s.to_string()).collect()
}

#[test]
fn encode_empty_accumulator_is_header_only() {
    let acc = Accumulator::new();
    assert_eq!(encode_data(&acc), "name,time,is_prod\n");
}

#[test]
fn encode_plain_records() {
    let mut acc = Accumulator::new();
    acc.add_data("firefox".to_string(), 42, true);
    acc.add_data("vim".to_string(), 7, false);
    assert_eq!(encode_data(&acc), "name,time,is_prod\nfirefox,42,true\nvim,7,false\n");
}

#[test]
fn encode_quotes_names_that_need_it() {
    let mut acc = Accumulator::new();
    acc.add_data("a,b".to_string(), 1, false);
    acc.add_data("he\"llo".to_string(), 2, false);
    assert_eq!(
        encode_data(&acc),
        "name,time,is_prod\n\"a,b\",1,false\n\"he\"\"llo\",2,false\n"
    );
}

#[test]
fn parse_reads_back_what_was_encoded() {
    let mut acc = Accumulator::new();
    acc.add_data("firefox".to_string(), 42, true);
    acc.add_data("vim".to_string(), 7, false);
    let text = encode_data(&acc);
    let reloaded = parse_data(&text, &prods(&["vim"])).expect("round trip");
    assert_eq!(reloaded.len(), 2);
    // Seconds come back exactly; productivity is recomputed from the list.
    assert_eq!(reloaded.get(&"firefox".to_string()), Some((42, false)));
    assert_eq!(reloaded.get(&"vim".to_string()), Some((7, true)));
}

#[test]
fn parse_round_trips_awkward_names() {
    let mut acc = Accumulator::new();
    acc.add_data("a,b".to_string(), 1, false);
    acc.add_data("he\"llo".to_string(), 2, false);
    acc.add_data("line\nbreak".to_string(), 3, false);
    acc.add_data("tab\u{9}and \u{e9}".to_string(), 4, false);
    acc.add_data(String::new(), 5, false);
    let text = encode_data(&acc);
    let reloaded = parse_data(&text, &prods(&[])).expect("round trip");
    assert_eq!(reloaded.get(&"a,b".to_string()), Some((1, false)));
    assert_eq!(reloaded.get(&"he\"llo".to_string()), Some((2, false)));
    assert_eq!(reloaded.get(&"line\nbreak".to_string()), Some((3, false)));
    assert_eq!(reloaded.get(&"tab\u{9}and \u{e9}".to_string()), Some((4, false)));
    assert_eq!(reloaded.get(&String::new()), Some((5, false)));
}

#[test]
fn parse_header_only_file_gives_empty_accumulator() {
    // A freshly created data file holds the header with no trailing newline.
    let acc = parse_data("name,time,is_prod", &prods(&[])).expect("header only");
    assert_eq!(acc.len(), 0);
    let acc = parse_data("name,time,is_prod\n", &prods(&[])).expect("header only");
    assert_eq!(acc.len(), 0);
}

#[test]
fn parse_accepts_a_file_without_final_newline() {
    let acc = parse_data("name,time,is_prod\nvim,7,true", &prods(&[])).expect("last row bare");
    assert_eq!(acc.get(&"vim".to_string()), Some((7, false)));
}

#[test]
fn parse_rejects_a_non_numeric_time() {
    let r = parse_data("name,time,is_prod\nx,abc,true\n", &prods(&[]));
    assert!(matches!(r, Err(RecorderError::CsvError(_))));
}

#[test]
fn parse_rejects_a_time_too_large_for_the_counter() {
    let r = parse_data("name,time,is_prod\nx,18446744073709551616,true\n", &prods(&[]));
    assert!(matches!(r, Err(RecorderError::CsvError(_))));
    let ok = parse_data("name,time,is_prod\nx,18446744073709551615,true\n", &prods(&[]));
    assert_eq!(ok.expect("fits exactly").get(&"x".to_string()), Some((u64::MAX, false)));
}

#[test]
fn parse_rejects_missing_fields_and_bad_flags() {
    assert!(matches!(
        parse_data("name,time,is_prod\nx,5\n", &prods(&[])),
        Err(RecorderError::CsvError(_))
    ));
    assert!(matches!(
        parse_data("name,time,is_prod\nx,5,maybe\n", &prods(&[])),
        Err(RecorderError::CsvError(_))
    ));
    assert!(matches!(
        parse_data("name,time,is_prod\n\"unterminated,5,true\n", &prods(&[])),
        Err(RecorderError::CsvError(_))
    ));
}

#[test]
fn parse_sums_rows_that_share_a_name() {
    let acc = parse_data("name,time,is_prod\na,5,false\na,7,false\n", &prods(&[])).expect("rows");
    assert_eq!(acc.len(), 1);
    assert_eq!(acc.get(&"a".to_string()), Some((12, false)));
}
