use coinprs::conf::{get_config, lookup_tint_name, parse_hex_rgb, parse_tint, tint_from_lookup, CellAlignment, Color, ConfKind, ConfNode};
use coinprs::currency::{currency_choice, money_decimals, parse_usize, requested_assets, to_asset, AssetEntry};
use coinprs::table::{
    get_cell, get_field_by_name, minutes_since, get_header, get_skeleton, get_table_row, get_visible_cols,
    row_cells_at, sort_rows, Cell, Figure, RowData,
};
use coinprs::text::{ascii_lowercase, signed_text, unsigned_text};

fn scalar(s: &str) -> ConfNode {
    ConfNode { shown: s.to_string(), kind: ConfKind::Scalar }
}

fn table(entries: Vec<(&str, ConfNode)>) -> ConfNode {
    ConfNode {
        shown: "{..}".to_string(),
        kind: ConfKind::Table(entries.into_iter().map(|(k, v)| (k.to_string(), v)).collect()),
    }
}

fn array(items: Vec<ConfNode>) -> ConfNode {
    ConfNode { shown: "[..]".to_string(), kind: ConfKind::Array(items) }
}

fn figure(shown: &str, hundredths: i64) -> Figure {
    Figure { shown: shown.to_string(), hundredths }
}

fn row(currency: &str, desc: &str, price: i64) -> RowData {
    RowData {
        tint: "red".to_string(),
        currency: currency.to_string(),
        desc: desc.to_string(),
        amount: figure("0.3", 30),
        price: figure("$10.00", price),
        value: figure("$3.00", 300),
        market_cap: figure("1.02B", 102000000000),
        day_vol: figure("22.3M", 2230000000),
        day_change: figure("3", 312),
        day_change_up: true,
        updated_at: 1_600_000_000,
    }
}

/// Settings with header and data styles and the given `table` entries besides them.
fn styled_settings(
    headers: Vec<(&str, ConfNode)>,
    data: Vec<(&str, ConfNode)>,
    extra: Vec<(&str, ConfNode)>,
) -> ConfNode {
    let mut t = vec![("localize", table(vec![("headers", table(headers)), ("data", table(data))]))];
    t.extend(extra);
    table(vec![("table", table(t))])
}

/// Settings with header styles and the given `table` entries besides them.
fn settings(header: Vec<(&str, ConfNode)>, extra: Vec<(&str, ConfNode)>) -> ConfNode {
    styled_settings(header, vec![], extra)
}

fn contents(cells: &[Cell]) -> Vec<String> {
    cells.iter().map(|c| c.content.clone()).collect()
}

#[test]
fn tint_names_hex_codes_and_fallback() {
    assert_eq!(parse_tint(&"red".to_string()), Color::Rgb { r: 255, g: 0, b: 0 });
    assert_eq!(parse_tint(&"rEd".to_string()), Color::Rgb { r: 255, g: 0, b: 0 });
    assert_eq!(parse_tint(&"blue".to_string()), Color::Rgb { r: 0, g: 0, b: 255 });
    assert_eq!(parse_tint(&"green".to_string()), Color::Rgb { r: 0, g: 128, b: 0 });
    assert_eq!(parse_tint(&"white".to_string()), Color::White);
    assert_eq!(parse_tint(&"#FF0000".to_string()), Color::Rgb { r: 255, g: 0, b: 0 });
    assert_eq!(parse_tint(&"00ff00extra".to_string()), Color::Rgb { r: 0, g: 255, b: 0 });
    assert_eq!(parse_tint(&"#facade".to_string()), Color::Rgb { r: 250, g: 202, b: 222 });
    assert_eq!(parse_tint(&"".to_string()), Color::White);
    assert_eq!(parse_tint(&"#".to_string()), Color::White);
    assert_eq!(parse_tint(&"rred".to_string()), Color::White);
    assert_eq!(parse_tint(&"#icyblue".to_string()), Color::White);
}

#[test]
fn hex_codes_as_tint_reads_them() {
    assert_eq!(parse_hex_rgb("#+F+F+F"), Some((15, 15, 15)));
    assert_eq!(parse_hex_rgb("0a0B0c"), Some((10, 11, 12)));
    assert_eq!(parse_hex_rgb("#12345"), None);
    assert_eq!(parse_hex_rgb("-1-1-1"), None);
    assert_eq!(parse_hex_rgb("é12345"), None);
}

#[test]
fn config_source_defaults() {
    let c = get_config(None, None);
    assert_eq!(c.files, vec!["coinprs"]);
    assert_eq!(c.env_prefix, "APP");
    let c = get_config(None, Some("/home/u"));
    assert_eq!(c.files, vec!["coinprs", "/home/u/coinprs", "/home/u/.config/coinprs"]);
    let c = get_config(Some("/tmp/my.yml"), Some("/home/u"));
    assert_eq!(c.files, vec!["/tmp/my.yml"]);
}

#[test]
fn decimal_texts() {
    assert_eq!(unsigned_text(0), "0");
    assert_eq!(unsigned_text(1234), "1234");
    assert_eq!(unsigned_text(u64::MAX), u64::MAX.to_string());
    assert_eq!(signed_text(-5), "-5");
    assert_eq!(signed_text(i64::MIN), i64::MIN.to_string());
    assert_eq!(ascii_lowercase("RED é Z"), "red é z");
}

#[test]
fn usize_parsing() {
    assert_eq!(parse_usize("4"), Some(4));
    assert_eq!(parse_usize("+7"), Some(7));
    assert_eq!(parse_usize("007"), Some(7));
    assert_eq!(parse_usize(""), None);
    assert_eq!(parse_usize("+"), None);
    assert_eq!(parse_usize("-1"), None);
    assert_eq!(parse_usize("1.5"), None);
    assert_eq!(parse_usize("99999999999999999999999"), None);
    assert_eq!(parse_usize(&usize::MAX.to_string()), Some(usize::MAX));
}

fn entry(name: &str, info: Vec<(&str, &str)>) -> AssetEntry {
    vec![(name.to_string(), info.into_iter().map(|(k, v)| (k.to_string(), v.to_string())).collect())]
}

#[test]
fn assets_read_with_defaults() {
    let a = to_asset(&entry("bitcoin", vec![("desc", "cold storage"), ("amount", "0.00432"), ("tint", "#icyblue"), ("decimals", "4")]), Some(2));
    assert_eq!(a.name, "bitcoin");
    assert_eq!(a.desc, "cold storage");
    assert_eq!(a.tint, "#icyblue");
    assert_eq!(a.amount, Some("0.00432".to_string()));
    assert_eq!(a.decimals, 4);
    let b = to_asset(&entry("dogecoin", vec![]), None);
    assert_eq!(b.desc, "");
    assert_eq!(b.tint, "");
    assert_eq!(b.amount, None);
    assert_eq!(b.decimals, 3);
    let g = to_asset(&entry("dogecoin", vec![]), Some(2));
    assert_eq!(g.decimals, 2);
    let c = to_asset(&entry("ethereum", vec![("decimals", "many")]), Some(5));
    assert_eq!(c.decimals, 0);
}

#[test]
fn each_asset_price_asked_once() {
    let assets = vec![
        entry("bitcoin", vec![]),
        entry("bitcoin", vec![("desc", "cold")]),
        entry("ethereum", vec![]),
        entry("bitcoin", vec![]),
        entry("dogecoin", vec![]),
    ];
    assert_eq!(requested_assets(&assets), vec!["bitcoin", "ethereum", "dogecoin"]);
}

fn names(rows: &[RowData]) -> Vec<String> {
    rows.iter().map(|r| format!("{}/{}", r.currency, r.desc)).collect()
}

#[test]
fn default_order_is_by_asset_name() {
    let rows = vec![row("bitcoin", "one", 1), row("aave", "x", 2), row("bitcoin", "two", 3)];
    let conf = settings(vec![], vec![]);
    let out = sort_rows(&conf, &conf, rows);
    assert_eq!(names(&out), vec!["aave/x", "bitcoin/two", "bitcoin/one"]);
}

#[test]
fn inverse_setting_flips_the_order() {
    let rows = || vec![row("bitcoin", "one", 1), row("aave", "x", 2), row("bitcoin", "two", 3)];
    let off = settings(vec![], vec![("sort", table(vec![("inverse", scalar("no"))]))]);
    let on = settings(vec![], vec![("sort", table(vec![("inverse", scalar("yes"))]))]);
    let a = sort_rows(&off, &off, rows());
    let mut b = sort_rows(&on, &on, rows());
    assert_eq!(names(&b), vec!["bitcoin/one", "bitcoin/two", "aave/x"]);
    b.reverse();
    assert_eq!(names(&a), names(&b));
    assert_eq!(a.len(), 3);
}

#[test]
fn sort_key_setting_chooses_the_column() {
    let rows = || vec![row("a", "p3", 300), row("b", "p1", 100), row("c", "p2", 200), row("d", "p1b", 100)];
    let by_price = settings(vec![], vec![("sort", table(vec![("key", scalar("price")), ("inverse", scalar("t"))]))]);
    let out = sort_rows(&by_price, &by_price, rows());
    assert_eq!(names(&out), vec!["b/p1", "d/p1b", "c/p2", "a/p3"]);
    let by_amount = settings(vec![], vec![("sort", table(vec![("key", scalar("amount")), ("inverse", scalar("t"))]))]);
    let plain = settings(vec![], vec![("sort", table(vec![("inverse", scalar("t"))]))]);
    assert_eq!(names(&sort_rows(&by_amount, &by_amount, rows())), names(&sort_rows(&plain, &plain, rows())));
    assert_eq!(names(&sort_rows(&plain, &plain, rows())), vec!["d/p1b", "c/p2", "b/p1", "a/p3"]);
}

#[test]
fn header_cells_follow_settings() {
    let conf = settings(vec![("num", table(vec![("text", scalar("#")), ("tint", scalar("green")), ("align", scalar("center"))]))], vec![]);
    let header = get_skeleton(&conf, &conf, &"USD".to_string());
    assert_eq!(header.len(), 10);
    assert_eq!(header[0].content, "#");
    assert_eq!(header[0].align, Some(CellAlignment::Center));
    assert_eq!(header[0].fg, Color::Rgb { r: 0, g: 128, b: 0 });
    assert_eq!(header[9].content, "update");
    assert_eq!(header[9].align, Some(CellAlignment::Left));
    assert_eq!(header[9].fg, Color::White);
    let h = get_header(&vec![], vec!["desc".to_string(), "num".to_string()]);
    assert_eq!(contents(&h), vec!["desc", "num"]);
}

#[test]
fn visible_columns_setting() {
    let conf = settings(vec![], vec![("visible", array(vec![scalar("num"), scalar("currency")]))]);
    assert_eq!(get_visible_cols(&conf), vec!["num", "currency"]);
    let bad = settings(vec![], vec![("visible", array(vec![scalar("num"), table(vec![])]))]);
    assert_eq!(get_visible_cols(&bad), Vec::<String>::new());
    let header = get_skeleton(&conf, &conf, &"USD".to_string());
    assert_eq!(contents(&header), vec!["num", "currency"]);
    assert_eq!(get_skeleton(&bad, &bad, &"USD".to_string()).len(), 10);
}

#[test]
fn cells_take_row_tint_and_alignment() {
    let head = vec![(
        "desc".to_string(),
        table(vec![("tint", scalar("tint")), ("align", scalar("right"))]),
    ), (
        "num".to_string(),
        table(vec![("tint", scalar(""))]),
    )];
    let c = get_cell(&head, "desc", "text".to_string(), &"blue".to_string());
    assert_eq!(c.content, "text");
    assert_eq!(c.fg, Color::Rgb { r: 0, g: 0, b: 255 });
    assert_eq!(c.align, Some(CellAlignment::Right));
    let n = get_cell(&head, "num", "1".to_string(), &"blue".to_string());
    assert_eq!(n.fg, Color::White);
    assert_eq!(n.align, Some(CellAlignment::Left));
}

#[test]
fn default_row_cells() {
    let conf = settings(vec![], vec![("visible", array(vec![]))]);
    let r = row("bitcoin", "cold", 1000);
    let cells = row_cells_at(&conf, 0, &r, 1_600_000_150, 0);
    assert_eq!(
        contents(&cells),
        vec!["1", "bitcoin", "0.3", "cold", "$3.00", "$10.00", "1.02B", "22.3M", "3%", "2m"]
    );
    assert_eq!(cells[8].fg, Color::Green);
    assert_eq!(cells[8].align, None);
    assert_eq!(cells[9].fg, Color::Green);
    assert_eq!(row_cells_at(&conf, 4, &r, 1_600_000_240, 5)[9].fg, Color::Yellow);
    assert_eq!(row_cells_at(&conf, 4, &r, 1_600_000_360, 0)[9].fg, Color::Red);
    assert_eq!(row_cells_at(&conf, 4, &r, 1_599_999_800, 500)[9].content, "-3m");
    assert_eq!(row_cells_at(&conf, 4, &r, 1_599_999_800, 500)[9].fg, Color::Red);
    let mut down = row("bitcoin", "cold", 1000);
    down.day_change_up = false;
    assert_eq!(row_cells_at(&conf, 4, &down, 1_600_000_000, 0)[8].fg, Color::Red);
    let now = get_table_row(&conf, &conf, 9, &r).unwrap();
    assert_eq!(now.len(), 10);
    assert_eq!(now[0].content, "10");
    assert!(now[9].content.ends_with('m'));
}

#[test]
fn visible_row_cells() {
    let conf = styled_settings(
        vec![],
        vec![("bitcoin", table(vec![("align", scalar("c"))]))],
        vec![("visible", array(vec![scalar("num"), scalar("currency"), scalar("desc")]))],
    );
    let r = row("bitcoin", "cold", 1000);
    let cells = get_table_row(&conf, &conf, 0, &r).unwrap();
    assert_eq!(contents(&cells), vec!["1", "bitcoin", "cold"]);
    assert_eq!(cells[1].align, Some(CellAlignment::Center));
    assert_eq!(cells[2].align, Some(CellAlignment::Left));
    assert_eq!(get_field_by_name(&r, "tint"), "red");
    let header = get_skeleton(&conf, &conf, &"USD".to_string());
    assert_eq!(contents(&header), vec!["num", "currency", "desc"]);
    assert_eq!(header.len(), cells.len());
}

#[test]
fn totals_currency_choice() {
    let c = currency_choice(&vec!["eur".to_string(), "btc".to_string()]);
    assert_eq!(c.name, "EUR");
    assert_eq!(c.iso_code, "EUR");
    let c = currency_choice(&vec!["btc".to_string()]);
    assert_eq!(c.name, "BTC");
    assert_eq!(c.iso_code, "USD");
    let c = currency_choice(&vec!["Usd".to_string()]);
    assert_eq!(c.iso_code, "USD");
}

#[test]
fn sorting_keeps_every_row() {
    let rows = || vec![row("b", "1", 5), row("a", "2", 5), row("c", "3", 1), row("a", "4", 9)];
    let conf = settings(vec![], vec![]);
    let mut before = names(&rows());
    let mut after = names(&sort_rows(&conf, &conf, rows()));
    before.sort();
    after.sort();
    assert_eq!(before, after);
}

#[test]
fn header_and_default_rows_have_ten_cells() {
    let conf = settings(vec![], vec![("visible", scalar("not a list"))]);
    let bare = table(vec![]);
    assert_eq!(get_skeleton(&bare, &bare, &"USD".to_string()).len(), 10);
    let header = get_skeleton(&conf, &conf, &"USD".to_string());
    let cells = row_cells_at(&conf, 0, &row("bitcoin", "x", 1), 1_600_000_000, 0);
    assert_eq!(header.len(), 10);
    assert_eq!(cells.len(), 10);
}

#[test]
fn readme_sample_styles() {
    let conf = table(vec![(
        "table",
        table(vec![
            ("title", scalar("we like the coin")),
            (
                "localize",
                table(vec![
                    ("headers", table(vec![("num", table(vec![("text", scalar("#")), ("tint", scalar("green")), ("align", scalar("center"))]))])),
                    ("data", table(vec![("num", table(vec![("tint", scalar("blue"))]))])),
                ]),
            ),
        ]),
    )]);
    let header = get_skeleton(&conf, &conf, &"USD".to_string());
    assert_eq!(header[0].content, "#");
    assert_eq!(header[0].align, Some(CellAlignment::Center));
    assert_eq!(header[0].fg, Color::Rgb { r: 0, g: 128, b: 0 });
    let cells = get_table_row(&conf, &conf, 0, &row("bitcoin", "x", 1)).unwrap();
    assert_eq!(cells.len(), 10);
    assert_eq!(cells[0].content, "1");
    assert_eq!(cells[0].fg, Color::Rgb { r: 0, g: 0, b: 255 });
}

#[test]
fn global_decimals_setting() {
    let conf = table(vec![("money", table(vec![("decimals", scalar("2"))]))]);
    assert_eq!(money_decimals(&conf), Some(2));
    assert_eq!(money_decimals(&table(vec![])), None);
    let bad = table(vec![("money", table(vec![("decimals", scalar("two"))]))]);
    assert_eq!(money_decimals(&bad), None);
}

#[test]
fn tint_lookup_and_its_answer() {
    assert_eq!(lookup_tint_name(&"RED".to_string()), Some((255, 0, 0)));
    assert_eq!(lookup_tint_name(&"#FF0000".to_string()), None);
    assert_eq!(tint_from_lookup(&"#00ff00".to_string(), None), Color::Rgb { r: 0, g: 255, b: 0 });
    assert_eq!(tint_from_lookup(&"anything".to_string(), Some((1, 2, 3))), Color::Rgb { r: 1, g: 2, b: 3 });
    assert_eq!(tint_from_lookup(&"x".to_string(), Some((255, 255, 255))), Color::White);
    assert_eq!(tint_from_lookup(&"x".to_string(), None), Color::White);
}

#[test]
fn minutes_count_as_chrono_does() {
    assert_eq!(minutes_since(1_600_000_119, 999_999_999, 1_600_000_000), 1);
    assert_eq!(minutes_since(1_600_000_000, 0, 1_600_000_000), 0);
    assert_eq!(minutes_since(1_599_999_940, 0, 1_600_000_000), -1);
    assert_eq!(minutes_since(1_599_999_940, 1, 1_600_000_000), 0);
}
