use coinprs::conf::{parse_tint, Color};

#[test]
fn it_works() {
    assert_eq!(2 + 2, 4);
}

#[test]
fn it_works_2() {
    let tint = parse_tint(&"#FFFFFF".to_owned());
    assert_eq!(Color::White, tint);
}
