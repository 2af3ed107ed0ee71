use csv::StringRecord;
use dsv_util::operators::behead;

#[test]
fn behead_on_an_empty_stream_is_empty() {
    let out = behead::run(Vec::new()).unwrap();
    assert!(out.is_empty());
}

#[test]
fn behead_drops_exactly_the_first_row() {
    let records = vec![
        StringRecord::from(vec!["name", "age"]),
        StringRecord::from(vec!["amy", "30"]),
        StringRecord::from(vec!["bob", "25"]),
    ];
    let out = behead::run(records).unwrap();
    assert_eq!(
        out,
        vec![StringRecord::from(vec!["amy", "30"]), StringRecord::from(vec!["bob", "25"])]
    );
}
