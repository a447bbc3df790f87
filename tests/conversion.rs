use dkb_to_ynab::amount::{convert_number_format, format_cents, OutAndInflow, RecordError};
use dkb_to_ynab::convert::{
    convert_rows, detect_dialect, output_rows, read_input_csv, write_output_csv, InputError,
};
use dkb_to_ynab::date::convert_dt_format;
use dkb_to_ynab::records::{decode_row, OutputRecord, RawRecord, SourceDialect};

const DEBIT_TITLES: &str = "\"Buchungstag\";\"Wertstellung\";\"Buchungstext\";\"Auftraggeber / Beguenstigter\";\"Verwendungszweck\";\"Kontonummer\";\"BLZ\";\"Betrag (EUR)\";\"Glaeubiger-ID\";\"Mandatsreferenz\";\"Kundenreferenz\";\n";
const CREDIT_TITLES: &str = "\"Umsatz abgerechnet\";\"Wertstellung\";\"Belegdatum\";\"Beschreibung\";\"Betrag (EUR)\";\"Urspruenglicher Betrag\";\n";

fn debit_file(rows: &[&str]) -> Vec<u8> {
    let mut s = String::from("\"Kontonummer:\";\"DE12345678 / Girokonto\";\n\n\"Von:\";\"01.09.2016\";\n\"Kontostand vom 05.09.2016:\";\"1.000,00 EUR\";\n\n");
    s.push_str(DEBIT_TITLES);
    for r in rows {
        s.push_str(r);
        s.push('\n');
    }
    s.into_bytes()
}

fn credit_file(rows: &[&str]) -> Vec<u8> {
    let mut s = String::from("\"Kreditkarte:\";\"1234********5678 Kreditkarte\";\n\n\"Von:\";\"01.08.2016\";\n\"Saldo:\";\"-9.99 EUR\";\n\n");
    s.push_str(CREDIT_TITLES);
    for r in rows {
        s.push_str(r);
        s.push('\n');
    }
    s.into_bytes()
}

fn debit_row(wertstellung: &str, auftraggeber: &str, zweck: &str, betrag: &str) -> String {
    format!(
        "\"02.09.2016\";\"{}\";\"Lastschrift\";\"{}\";\"{}\";\"DE75xxxx\";\"AARBDE5WDOM\";\"{}\";\"DE95xxxx    \";\"xxxxx-01-1        \";\"\";",
        wertstellung, auftraggeber, zweck, betrag
    )
}

fn output_text(content: &[u8]) -> String {
    let records = read_input_csv(content).unwrap();
    String::from_utf8(write_output_csv(&records).unwrap()).unwrap()
}

#[test]
fn debit_end_to_end() {
    let row = debit_row("02.09.2016", "Stromio GmbH", "ABSCHLAG Strom 09/16 VK: 123456789", "-95,00");
    let out = output_text(&debit_file(&[&row]));
    assert_eq!(
        out,
        "Date,Payee,Category,Memo,Outflow,Inflow\n2016/09/02,Stromio GmbH,,ABSCHLAG Strom 09/16 VK: 123456789,95.00,\n"
    );
}

#[test]
fn credit_end_to_end() {
    let content = credit_file(&["\"Nein\";\"30.08.2016\";\"29.08.2016\";\"NETFLIX.COM866-579-7172\";\"-9,99\";\"\";"]);
    let out = output_text(&content);
    assert_eq!(
        out,
        "Date,Payee,Category,Memo,Outflow,Inflow\n2016/08/30,,,NETFLIX.COM866-579-7172,9.99,\n"
    );
}

#[test]
fn positive_amount_is_inflow() {
    let row = debit_row("02.09.2016", "Arbeitgeber", "Gehalt", "50,00");
    let records = read_input_csv(&debit_file(&[&row])).unwrap();
    assert_eq!(records.len(), 1);
    assert_eq!(records[0].outflow, "");
    assert_eq!(records[0].inflow, "50.00");
}

#[test]
fn unparseable_amount_leaves_both_flows_empty() {
    let row = debit_row("02.09.2016", "Someone", "Nothing", "");
    let records = read_input_csv(&debit_file(&[&row])).unwrap();
    assert_eq!(records.len(), 1);
    assert_eq!(records[0].outflow, "");
    assert_eq!(records[0].inflow, "");
    assert_eq!(records[0].date, "2016/09/02");
}

#[test]
fn unknown_marker_is_refused() {
    let content = b"\"Depot:\";\"123\";\n\"a\";\"b\";\n".to_vec();
    assert!(matches!(read_input_csv(&content), Err(InputError::UnknownFileType)));
}

#[test]
fn missing_or_short_header_is_malformed() {
    assert!(matches!(read_input_csv(b""), Err(InputError::MalformedHeader)));
    assert!(matches!(read_input_csv(b"\"Kontonummer:\"\n"), Err(InputError::MalformedHeader)));
    assert!(matches!(
        read_input_csv(b"\"Kontonummer:\";\"a\";\"b\";\n"),
        Err(InputError::MalformedHeader)
    ));
}

#[test]
fn header_without_trailing_delimiter_is_accepted() {
    let content = b"\"Kreditkarte:\";\"x\"\n\"a\";\"b\";\"c\";\"d\";\"e\";\"f\"\n\"Ja\";\"01.01.2016\";\"01.01.2016\";\"Shop\";\"-1,00\";\"\"\n".to_vec();
    let records = read_input_csv(&content).unwrap();
    assert_eq!(records.len(), 1);
    assert_eq!(records[0].memo, "Shop");
    assert_eq!(records[0].outflow, "1.00");
}

#[test]
fn detection_by_marker() {
    assert_eq!(detect_dialect(&String::from("Kontonummer:")).unwrap(), SourceDialect::Debit);
    assert_eq!(detect_dialect(&String::from("Kreditkarte:")).unwrap(), SourceDialect::Credit);
    assert_eq!(detect_dialect(&String::from("Kontonummer")).unwrap_err(), InputError::UnknownFileType);
    assert_eq!(detect_dialect(&String::from("")).unwrap_err(), InputError::UnknownFileType);
}

#[test]
fn footer_rows_and_non_utf8_rows_are_skipped() {
    let a = debit_row("01.09.2016", "A", "first", "-1,00");
    let b = debit_row("03.09.2016", "B", "second", "2,00");
    let mut content = debit_file(&[&a, "\"Summe\";\"3,00\";", &b]);
    content.extend_from_slice(b"\"Gr\xfc\xdfe\";\"x\";\"x\";\"x\";\"x\";\"x\";\"x\";\"x\";\"x\";\"x\";\"x\";\n");
    let records = read_input_csv(&content).unwrap();
    assert_eq!(records.len(), 2);
    assert_eq!(records[0].memo, "first");
    assert_eq!(records[0].outflow, "1.00");
    assert_eq!(records[1].memo, "second");
    assert_eq!(records[1].inflow, "2.00");
    assert_eq!(records[1].date, "2016/09/03");
}

#[test]
fn first_well_formed_row_is_dropped() {
    let rows = vec![
        Some(vec!["Kontonummer:".to_string(), "x".to_string()]),
        None,
        Some(vec!["short".to_string()]),
        Some(vec!["t".to_string(); 11]),
        Some(vec!["v".to_string(); 11]),
    ];
    let records = convert_rows(&rows).unwrap();
    assert_eq!(records.len(), 1);
    assert_eq!(records[0].payee, "v");
    assert_eq!(records[0].date, "");
    let only_titles = vec![Some(vec!["Kreditkarte:".to_string(), "x".to_string()]), Some(vec!["t".to_string(); 6])];
    assert_eq!(convert_rows(&only_titles).unwrap().len(), 0);
}

#[test]
fn decode_row_arity() {
    let six: Vec<String> = ["Nein", "30.08.2016", "29.08.2016", "Shop", "-9,99", ""].iter().map(|s| s.to_string()).collect();
    assert!(decode_row(SourceDialect::Credit, &six).is_some());
    let mut seven = six.clone();
    seven.push(String::new());
    assert!(decode_row(SourceDialect::Credit, &seven).is_some());
    let mut bad = six.clone();
    bad.push("x".to_string());
    assert!(decode_row(SourceDialect::Credit, &bad).is_none());
    assert!(decode_row(SourceDialect::Debit, &six).is_none());
    let rec = OutputRecord::from_raw(decode_row(SourceDialect::Credit, &six).unwrap());
    assert_eq!(rec.date, "2016/08/30");
    assert_eq!(rec.payee, "");
    assert_eq!(rec.category, "");
    assert_eq!(rec.memo, "Shop");
    assert_eq!(rec.outflow, "9.99");
    assert_eq!(rec.inflow, "");
}

#[test]
fn amount_reading() {
    assert_eq!(convert_number_format("-95,00"), Ok(-9500));
    assert_eq!(convert_number_format("1.234,56 EUR"), Ok(123456));
    assert_eq!(convert_number_format("0,05"), Ok(5));
    assert_eq!(convert_number_format("-2147483648"), Ok(i32::MIN));
    assert_eq!(convert_number_format("21474836,47"), Ok(i32::MAX));
    assert_eq!(convert_number_format("21474836,48"), Err(RecordError::AmountFormat));
    assert_eq!(convert_number_format("-21474836,49"), Err(RecordError::AmountFormat));
    assert_eq!(convert_number_format(""), Err(RecordError::AmountFormat));
    assert_eq!(convert_number_format("EUR"), Err(RecordError::AmountFormat));
    assert_eq!(convert_number_format("-"), Err(RecordError::AmountFormat));
    assert_eq!(convert_number_format("1-0"), Ok(10));
    assert_eq!(convert_number_format("5-"), Ok(5));
    assert_eq!(convert_number_format("--5"), Ok(-5));
    assert_eq!(convert_number_format("EUR -1,50"), Ok(-150));
    assert_eq!(convert_number_format("-EUR"), Err(RecordError::AmountFormat));
}

#[test]
fn cents_writing() {
    assert_eq!(format_cents(995), "9.95");
    assert_eq!(format_cents(5), "0.05");
    assert_eq!(format_cents(0), "0.00");
    assert_eq!(format_cents(9500), "95.00");
    assert_eq!(format_cents(2147483648), "21474836.48");
}

#[test]
fn amount_round_trip() {
    for s in ["-95,00", "50,00", "0,07", "1.234,56", "-0,10"] {
        let v = convert_number_format(s).unwrap();
        let text = if v < 0 {
            format!("-{}", format_cents((-(v as i64)) as u64))
        } else {
            format_cents(v as u64)
        };
        assert_eq!(convert_number_format(&text), Ok(v));
    }
}

#[test]
fn flow_split() {
    let out = OutAndInflow::from_cents(Some(-999));
    assert_eq!((out.outflow.as_str(), out.inflow.as_str()), ("9.99", ""));
    let zero = OutAndInflow::from_cents(Some(0));
    assert_eq!((zero.outflow.as_str(), zero.inflow.as_str()), ("", "0.00"));
    let none = OutAndInflow::from_cents(None);
    assert_eq!((none.outflow.as_str(), none.inflow.as_str()), ("", ""));
    let min = OutAndInflow::from_cents(Some(i32::MIN));
    assert_eq!(min.outflow, "21474836.48");
}

#[test]
fn date_conversion() {
    assert_eq!(convert_dt_format("02.09.2016"), "2016/09/02");
    assert_eq!(convert_dt_format("29.02.2016"), "2016/02/29");
    assert_eq!(convert_dt_format("01.01.0999"), "0999/01/01");
    assert_eq!(convert_dt_format("29.02.2015"), "");
    assert_eq!(convert_dt_format("31.04.2016"), "");
    assert_eq!(convert_dt_format("00.01.2016"), "");
    assert_eq!(convert_dt_format("2.9.2016"), "");
    assert_eq!(convert_dt_format("2016-09-02"), "");
    assert_eq!(convert_dt_format(""), "");
}

#[test]
fn output_quotes_where_needed() {
    let rec = OutputRecord {
        date: "2016/09/02".to_string(),
        payee: "Mueller, Hans".to_string(),
        category: String::new(),
        memo: "say \"hi\"".to_string(),
        outflow: String::new(),
        inflow: "1.00".to_string(),
    };
    let rows = output_rows(&vec![rec]);
    assert_eq!(rows.len(), 2);
    assert_eq!(rows[0], vec!["Date", "Payee", "Category", "Memo", "Outflow", "Inflow"]);
    let records = vec![OutputRecord {
        date: "2016/09/02".to_string(),
        payee: "Mueller, Hans".to_string(),
        category: String::new(),
        memo: "say \"hi\"".to_string(),
        outflow: String::new(),
        inflow: "1.00".to_string(),
    }];
    let text = String::from_utf8(write_output_csv(&records).unwrap()).unwrap();
    assert_eq!(
        text,
        "Date,Payee,Category,Memo,Outflow,Inflow\n2016/09/02,\"Mueller, Hans\",,\"say \"\"hi\"\"\",,1.00\n"
    );
}

#[test]
fn empty_input_writes_only_titles() {
    let text = String::from_utf8(write_output_csv(&Vec::new()).unwrap()).unwrap();
    assert_eq!(text, "Date,Payee,Category,Memo,Outflow,Inflow\n");
}

#[test]
fn decode_row_keeps_every_field_in_place() {
    let f: Vec<String> = (0..11).map(|i| format!("f{}", i)).collect();
    match decode_row(SourceDialect::Debit, &f) {
        Some(RawRecord::Debit(d)) => {
            assert_eq!(d.buchungstag, "f0");
            assert_eq!(d.wertstellung, "f1");
            assert_eq!(d.buchungstext, "f2");
            assert_eq!(d.auftraggeber, "f3");
            assert_eq!(d.verwendungszweck, "f4");
            assert_eq!(d.kontonummer, "f5");
            assert_eq!(d.blz, "f6");
            assert_eq!(d.betrag, "f7");
            assert_eq!(d.glaeubiger_id, "f8");
            assert_eq!(d.mandatsref, "f9");
            assert_eq!(d.kundenreg, "f10");
        }
        _ => panic!("expected a debit record"),
    }
    let c: Vec<String> = (0..6).map(|i| format!("c{}", i)).collect();
    match decode_row(SourceDialect::Credit, &c) {
        Some(RawRecord::Credit(r)) => {
            assert_eq!(r.abgerechnet, "c0");
            assert_eq!(r.wertstellung, "c1");
            assert_eq!(r.belegdatum, "c2");
            assert_eq!(r.beschreibung, "c3");
            assert_eq!(r.betrag, "c4");
            assert_eq!(r.original_betrag, "c5");
        }
        _ => panic!("expected a credit record"),
    }
}
