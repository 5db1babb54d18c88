use coinprs::conf::{get_config, CellAlignment, Color};

#[test]
fn tests_can_run() {
    assert_eq!(2 + 2, 4);
}

#[test]
fn default_config() {
    let _conf = get_config(None, None);
}

#[test]
fn parse_align() {
    let success_values = vec![
        "center",
        "CenTer",
        "CENTER",
        "C",
        "c",
        "l",
        "L",
        "r",
        "R",
        "rightleft",
        "rleft", // returns right
    ];
    // should return dynamic values
    let success_values: Vec<CellAlignment> = success_values
        .iter()
        .map(|x| coinprs::conf::parse_align(&x.to_string()))
        .collect();
    assert_eq!(success_values.len(), 11);

    // should return defaults
    let fail_values = vec!["", "#", "aasdasdas"];
    let fail_values: Vec<CellAlignment> = fail_values.iter().map(|x| coinprs::conf::parse_align(x)).collect();
    assert_eq!(fail_values.len(), 3);
}

#[test]
fn parse_tint() {
    // should return dynamic values
    let success_values = vec!["red", "RED", "rEd", "blue", "#FF0000", "FF0000"];
    let success_values: Vec<Color> = success_values
        .iter()
        .map(|x| coinprs::conf::parse_tint(&x.to_string()))
        .collect();
    assert_eq!(success_values.len(), 6);

    // should return default values
    let fail_values = vec!["avsjfsdh", "", "rred", "re d", "#", "xzcsadewksgnsdjfn"];
    let fail_values: Vec<Color> = fail_values
        .iter()
        .map(|x| coinprs::conf::parse_tint(&x.to_string()))
        .collect();
    assert_eq!(fail_values.len(), 6);
}

#[test]
fn to_currency() {
    let success_values = vec!["usd", "USD", "Usd", "blue", "#FF0000", "FF0000"];
    let success_values: Vec<Color> = success_values
        .iter()
        .map(|x| coinprs::conf::parse_tint(&x.to_string()))
        .collect();
    assert_eq!(success_values.len(), 6);
}

#[test]
fn parse_align_reads_first_letter() {
    assert_eq!(coinprs::conf::parse_align("center"), CellAlignment::Center);
    assert_eq!(coinprs::conf::parse_align("CENTER"), CellAlignment::Center);
    assert_eq!(coinprs::conf::parse_align("rleft"), CellAlignment::Right);
    assert_eq!(coinprs::conf::parse_align("L"), CellAlignment::Left);
    assert_eq!(coinprs::conf::parse_align(""), CellAlignment::Left);
    assert_eq!(coinprs::conf::parse_align("#"), CellAlignment::Left);
    assert_eq!(coinprs::conf::parse_align("écrit"), CellAlignment::Left);
}
