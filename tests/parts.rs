use rust_hdl::parts::PartDetails;

fn part(pins: Vec<u64>) -> PartDetails {
    PartDetails {
        label: "U1".to_string(),
        manufacturer: "maker".to_string(),
        description: "buffer".to_string(),
        comment: String::new(),
        hide_pin_designators: false,
        pins: pins.into_iter().map(|p| (p, format!("P{}", p))).collect(),
        suppliers: vec![],
        designator: "U1".to_string(),
        size: "0603".to_string(),
    }
}

#[test]
fn pin_numbers_must_be_unique() {
    assert!(part(vec![1, 2, 3]).pins_unique());
    assert!(part(vec![]).pins_unique());
    assert!(!part(vec![1, 2, 1]).pins_unique());
}
