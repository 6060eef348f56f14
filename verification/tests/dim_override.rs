use h7cad::dim_override::{
    handle, int_override, pairs, put_record, real_override, set_override, ExtendedData,
    ExtendedDataRecord, XDataValue, DIMASZ, DIMGAP, DIMLDRBLK, DIMLWD, DIMSCALE, DIMTAD, DSTYLE_APP,
};

fn ctrl(s: &str) -> XDataValue {
    XDataValue::ControlString(s.to_string())
}

fn xd(values: Vec<XDataValue>) -> ExtendedData {
    ExtendedData {
        records: vec![
            ExtendedDataRecord { application_name: "OTHER".to_string(), values: vec![XDataValue::Integer16(DIMSCALE)] },
            ExtendedDataRecord { application_name: DSTYLE_APP.to_string(), values },
        ],
    }
}

fn sample() -> ExtendedData {
    xd(vec![
        ctrl("{"),
        XDataValue::Integer16(DIMSCALE),
        XDataValue::Real(2.5f64.to_bits()),
        XDataValue::Integer16(DIMTAD),
        XDataValue::Integer16(1),
        XDataValue::Integer16(DIMLDRBLK),
        XDataValue::Handle(0x1F),
        ctrl("}"),
    ])
}

#[test]
fn pairs_skip_the_brackets() {
    let ps = pairs(&sample());
    let codes: Vec<i16> = ps.iter().map(|(c, _)| *c).collect();
    assert_eq!(codes, vec![DIMSCALE, DIMTAD, DIMLDRBLK]);
    assert!(pairs(&ExtendedData { records: vec![] }).is_empty());
}

#[test]
fn typed_reads() {
    let x = sample();
    assert_eq!(real_override(&x, DIMSCALE).map(f64::from_bits), Some(2.5));
    assert_eq!(int_override(&x, DIMTAD), Some(1));
    assert_eq!(handle(&x, DIMLDRBLK), Some(0x1F));
    assert_eq!(real_override(&x, DIMTAD), None);
    assert_eq!(int_override(&x, DIMASZ), None);
    assert_eq!(handle(&x, DIMSCALE), None);
}

#[test]
fn distance_and_scale_factor_read_as_reals() {
    let x = xd(vec![
        XDataValue::Integer16(DIMGAP),
        XDataValue::Distance(0.09f64.to_bits()),
        XDataValue::Integer16(DIMASZ),
        XDataValue::ScaleFactor(0.18f64.to_bits()),
    ]);
    assert_eq!(real_override(&x, DIMGAP).map(f64::from_bits), Some(0.09));
    assert_eq!(real_override(&x, DIMASZ).map(f64::from_bits), Some(0.18));
}

#[test]
fn a_trailing_code_without_value_is_ignored() {
    let x = xd(vec![XDataValue::Integer16(DIMLWD)]);
    assert!(pairs(&x).is_empty());
}

fn with_record(values: Option<Vec<XDataValue>>) -> ExtendedData {
    match values {
        Some(v) => xd(v),
        None => ExtendedData { records: vec![] },
    }
}

#[test]
fn set_then_read_gives_the_new_value_and_keeps_the_rest() {
    let stored = h7cad::dim_override::set(&sample(), DIMTAD, Some(XDataValue::Integer16(4)));
    let x = with_record(stored);
    assert_eq!(int_override(&x, DIMTAD), Some(4));
    assert_eq!(real_override(&x, DIMSCALE).map(f64::from_bits), Some(2.5));
    assert_eq!(handle(&x, DIMLDRBLK), Some(0x1F));
    let codes: Vec<i16> = pairs(&x).iter().map(|(c, _)| *c).collect();
    assert_eq!(codes, vec![DIMSCALE, DIMLDRBLK, DIMTAD]);
}

#[test]
fn set_writes_brackets_around_the_pairs() {
    let stored = h7cad::dim_override::set(&ExtendedData { records: vec![] }, DIMLWD, Some(XDataValue::Integer16(35))).unwrap();
    assert_eq!(stored.len(), 4);
    assert!(matches!(&stored[0], XDataValue::ControlString(s) if s == "{"));
    assert!(matches!(stored[1], XDataValue::Integer16(DIMLWD)));
    assert!(matches!(stored[2], XDataValue::Integer16(35)));
    assert!(matches!(&stored[3], XDataValue::ControlString(s) if s == "}"));
}

#[test]
fn clearing_the_last_override_drops_the_record() {
    let one = with_record(h7cad::dim_override::set(&ExtendedData { records: vec![] }, DIMASZ, Some(XDataValue::Real(1.0f64.to_bits()))));
    assert!(h7cad::dim_override::set(&one, DIMASZ, None).is_none());
    let x = with_record(h7cad::dim_override::set(&sample(), DIMSCALE, None));
    assert_eq!(real_override(&x, DIMSCALE), None);
    assert_eq!(int_override(&x, DIMTAD), Some(1));
}

fn app_names(x: &ExtendedData) -> Vec<String> {
    x.records.iter().map(|r| r.application_name.clone()).collect()
}

#[test]
fn set_override_writes_into_the_record_and_keeps_other_applications() {
    let mut x = sample();
    set_override(&mut x, DIMTAD, Some(XDataValue::Integer16(4)));
    assert_eq!(app_names(&x), vec!["OTHER", DSTYLE_APP]);
    let codes: Vec<i16> = pairs(&x).iter().map(|(c, _)| *c).collect();
    assert_eq!(codes, vec![DIMSCALE, DIMLDRBLK, DIMTAD]);
    assert_eq!(int_override(&x, DIMTAD), Some(4));
    assert_eq!(real_override(&x, DIMSCALE).map(f64::from_bits), Some(2.5));
    assert!(matches!(x.records[0].values[..], [XDataValue::Integer16(DIMSCALE)]));
    set_override(&mut x, DIMGAP, Some(XDataValue::Real(0.5f64.to_bits())));
    assert_eq!(real_override(&x, DIMGAP).map(f64::from_bits), Some(0.5));
}

#[test]
fn set_override_adds_a_record_and_clearing_the_last_drops_it() {
    let mut x = ExtendedData {
        records: vec![ExtendedDataRecord { application_name: "OTHER".to_string(), values: vec![] }],
    };
    set_override(&mut x, DIMASZ, Some(XDataValue::Real(1.0f64.to_bits())));
    assert_eq!(app_names(&x), vec!["OTHER", DSTYLE_APP]);
    assert_eq!(real_override(&x, DIMASZ).map(f64::from_bits), Some(1.0));
    set_override(&mut x, DIMASZ, None);
    assert_eq!(app_names(&x), vec!["OTHER"]);
    assert!(pairs(&x).is_empty());
    // Clearing with nothing stored changes nothing.
    set_override(&mut x, DIMLWD, None);
    assert_eq!(app_names(&x), vec!["OTHER"]);
}

#[test]
fn put_record_replaces_appends_or_removes_the_first_record() {
    let mut x = ExtendedData {
        records: vec![
            ExtendedDataRecord { application_name: "A".to_string(), values: vec![XDataValue::Integer16(1)] },
            ExtendedDataRecord { application_name: "B".to_string(), values: vec![XDataValue::Integer16(2)] },
        ],
    };
    put_record(&mut x, "A", Some(vec![XDataValue::Integer16(9)]));
    assert_eq!(app_names(&x), vec!["A", "B"]);
    assert!(matches!(x.records[0].values[..], [XDataValue::Integer16(9)]));
    put_record(&mut x, "C", Some(vec![]));
    assert_eq!(app_names(&x), vec!["A", "B", "C"]);
    put_record(&mut x, "A", None);
    assert_eq!(app_names(&x), vec!["B", "C"]);
    put_record(&mut x, "Z", None);
    assert_eq!(app_names(&x), vec!["B", "C"]);
}
