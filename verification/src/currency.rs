//! Assets as the settings describe them, and the assets to ask prices for.

use vstd::prelude::*;
use crate::conf::{node_child, node_get, node_str, ConfKind, ConfNode};
use crate::text::str_eq;

verus! {

/// One entry of the `assets` list: the asset's name mapped to its settings
/// (`desc`, `tint`, `amount`, `decimals`), all as text. Names are distinct
/// within an entry and within its settings.
pub type AssetEntry = Vec<(String, Vec<(String, String)>)>;

/// A tracked asset.
pub struct Asset {
    pub name: String,
    pub desc: String,
    pub tint: String,
    /// The amount held, as written in the settings; a missing amount, or one
    /// that is no number, counts as nothing held.
    pub amount: Option<String>,
    pub decimals: usize,
}

/// The setting stored under `key`: the first entry with that name.
pub open spec fn text_lookup(t: Seq<(String, String)>, key: Seq<char>) -> Option<Seq<char>>
    decreases t.len(),
{
    if t.len() == 0 {
        None
    } else if t[0].0@ == key {
        Some(t[0].1@)
    } else {
        text_lookup(t.drop_first(), key)
    }
}

/// Whether every character is a decimal digit.
pub open spec fn all_digits(s: Seq<char>) -> bool {
    forall|i: int| 0 <= i < s.len() ==> '0' <= #[trigger] s[i] && s[i] <= '9'
}

/// The number written by a string of decimal digits.
pub open spec fn digits_value(s: Seq<char>) -> nat
    decreases s.len(),
{
    if s.len() == 0 {
        0
    } else {
        digits_value(s.drop_last()) * 10 + ((s.last() as u32) - 48) as nat
    }
}

/// A `usize` as `str::parse` reads it: an optional `+`, then one or more
/// decimal digits whose value fits.
pub open spec fn usize_of_text(s: Seq<char>) -> Option<usize> {
    let d = if s.len() > 0 && s[0] == '+' { s.drop_first() } else { s };
    if d.len() > 0 && all_digits(d) && digits_value(d) <= usize::MAX {
        Some(digits_value(d) as usize)
    } else {
        None
    }
}

/// A digit string's value is at least that of any of its prefixes.
proof fn lemma_digits_prefix(s: Seq<char>, k: int)
    requires
        all_digits(s),
        0 <= k <= s.len(),
    ensures
        digits_value(s.subrange(0, k)) <= digits_value(s),
    decreases s.len() - k,
{
    if k < s.len() {
        lemma_digits_prefix(s, k + 1);
        assert(s.subrange(0, k + 1).drop_last() =~= s.subrange(0, k));
        assert('0' <= s[k] && s[k] <= '9');
    } else {
        assert(s.subrange(0, k) =~= s);
    }
}

/// Reads a `usize` written in decimal.
pub fn parse_usize(s: &str) -> (r: Option<usize>)
    ensures
        r == usize_of_text(s@),
{
    let cs = crate::text::chars_of(s);
    let start: usize = if cs.len() > 0 && cs[0] == '+' { 1 } else { 0 };
    let ghost d = if s@.len() > 0 && s@[0] == '+' { s@.drop_first() } else { s@ };
    assert(d =~= s@.subrange(start as int, s@.len() as int));
    if start >= cs.len() {
        return None;
    }
    let mut value: usize = 0;
    let mut i: usize = start;
    assert(d.subrange(0, 0) =~= Seq::<char>::empty());
    while i < cs.len()
        invariant
            start <= i <= cs.len(),
            cs@ == s@,
            d == (if s@.len() > 0 && s@[0] == '+' { s@.drop_first() } else { s@ }),
            d.len() > 0,
            d =~= s@.subrange(start as int, s@.len() as int),
            all_digits(d.subrange(0, i - start)),
            value as nat == digits_value(d.subrange(0, i - start)),
        decreases cs.len() - i,
    {
        let c = cs[i];
        if !('0' <= c && c <= '9') {
            assert(d[i - start] == c);
            assert(!all_digits(d));
            return None;
        }
        let digit: usize = ((c as u8) - 48) as usize;
        let ghost k: int = i - start;
        assert(d.subrange(0, k + 1).drop_last() =~= d.subrange(0, k));
        assert(d.subrange(0, k + 1).last() == c);
        assert(digits_value(d.subrange(0, k + 1)) == value * 10 + digit);
        assert(all_digits(d.subrange(0, k + 1))) by {
            assert forall|j: int| 0 <= j < k + 1 implies '0' <= #[trigger] d.subrange(0, k + 1)[j]
                && d.subrange(0, k + 1)[j] <= '9' by {
                if j < k {
                    assert(d.subrange(0, k + 1)[j] == d.subrange(0, k)[j]);
                }
            }
        }
        match value.checked_mul(10) {
            Some(v10) => match v10.checked_add(digit) {
                Some(v) => {
                    value = v;
                },
                None => {
                    proof {
                        if all_digits(d) {
                            lemma_digits_prefix(d, k + 1);
                        }
                    }
                    return None;
                },
            },
            None => {
                proof {
                    if all_digits(d) {
                        lemma_digits_prefix(d, k + 1);
                    }
                }
                return None;
            },
        }
        i = i + 1;
    }
    assert(d.subrange(0, d.len() as int) =~= d);
    Some(value)
}

/// The setting under `key` in `info`.
pub fn get_text<'a>(info: &'a Vec<(String, String)>, key: &str) -> (r: Option<&'a String>)
    ensures
        r is None <==> text_lookup(info@, key@) is None,
        r matches Some(v) ==> text_lookup(info@, key@) == Some(v@),
{
    let mut i: usize = 0;
    assert(info@.skip(0) =~= info@);
    while i < info.len()
        invariant
            i <= info.len(),
            text_lookup(info@, key@) == text_lookup(info@.skip(i as int), key@),
        decreases info.len() - i,
    {
        if str_eq(info[i].0.as_str(), key) {
            return Some(&info[i].1);
        }
        assert(info@.skip(i as int).drop_first() =~= info@.skip(i + 1));
        i = i + 1;
    }
    None
}

/// The text of a setting, empty when it is absent.
pub open spec fn text_or_empty(t: Option<Seq<char>>) -> Seq<char> {
    match t {
        Some(s) => s,
        None => Seq::empty(),
    }
}

/// The number of decimals an asset is shown with: its own `decimals`
/// setting (0 when it is no number); without one the global setting
/// `global`, and 3 when there is none.
pub open spec fn decimals_setting(info: Seq<(String, String)>, global: Option<usize>) -> usize {
    match text_lookup(info, "decimals"@) {
        Some(t) => match usize_of_text(t) {
            Some(v) => v,
            None => 0,
        },
        None => match global {
            Some(g) => g,
            None => 3,
        },
    }
}

/// An asset's own `decimals` setting, when it reads as a number, is the
/// number of decimals it is shown with, whatever the global setting is; only
/// without its own setting does the global one (then 3) apply.
pub proof fn law_own_decimals_override_global(
    info: Seq<(String, String)>,
    global: Option<usize>,
    other: Option<usize>,
    own: Seq<char>,
    v: usize,
)
    requires
        text_lookup(info, "decimals"@) == Some(own),
        usize_of_text(own) == Some(v),
    ensures
        decimals_setting(info, global) == v,
        decimals_setting(info, global) == decimals_setting(info, other),
{
}

/// Without an own `decimals` setting an asset is shown with the global
/// number of decimals, and with 3 when there is none.
pub proof fn law_global_decimals_apply_without_own(info: Seq<(String, String)>, global: Option<usize>)
    requires
        text_lookup(info, "decimals"@) is None,
    ensures
        global matches Some(g) ==> decimals_setting(info, global) == g,
        global is None ==> decimals_setting(info, global) == 3,
{
}

/// The global number of decimals `money.decimals`, when it is set to a number.
pub open spec fn money_decimals_setting(conf: ConfNode) -> Option<usize> {
    match node_child(conf, "money"@) {
        Some(m) => match node_child(m, "decimals"@) {
            Some(d) => match node_str(d) {
                Some(t) => usize_of_text(t),
                None => None,
            },
            None => None,
        },
        None => None,
    }
}

/// Reads the global number of decimals `money.decimals`; nothing when it is
/// absent or is no number.
pub fn money_decimals(conf: &ConfNode) -> (r: Option<usize>)
    ensures
        r == money_decimals_setting(*conf),
{
    match node_get(conf, "money") {
        Some(m) => match node_get(m, "decimals") {
            Some(d) => match &d.kind {
                ConfKind::Scalar => parse_usize(d.shown.as_str()),
                _ => None,
            },
            None => None,
        },
        None => None,
    }
}

/// Reads an asset from its settings entry: the entry's (first) name, and its
/// description, tint and amount (empty or absent when missing) and decimals
/// (falling back to the global `money.decimals`, read by `money_decimals`,
/// then to 3).
pub fn to_asset(x: &AssetEntry, global_decimals: Option<usize>) -> (r: Asset)
    requires
        x@.len() > 0,
    ensures
        r.name@ == x@[0].0@,
        r.desc@ == text_or_empty(text_lookup(x@[0].1@, "desc"@)),
        r.tint@ == text_or_empty(text_lookup(x@[0].1@, "tint"@)),
        r.amount is None <==> text_lookup(x@[0].1@, "amount"@) is None,
        r.amount matches Some(a) ==> text_lookup(x@[0].1@, "amount"@) == Some(a@),
        r.decimals == decimals_setting(x@[0].1@, global_decimals),
{
    let asset_type: &String = &x[0].0;
    let info: &Vec<(String, String)> = &x[0].1;
    let desc: String = match get_text(info, "desc") {
        Some(i) => i.clone(),
        None => String::new(),
    };
    let tint: String = match get_text(info, "tint") {
        Some(i) => i.clone(),
        None => String::new(),
    };
    let amount: Option<String> = match get_text(info, "amount") {
        Some(i) => Some(i.clone()),
        None => None,
    };
    let decimals: usize = match get_text(info, "decimals") {
        Some(i) => match parse_usize(i.as_str()) {
            Some(v) => v,
            None => 0,
        },
        None => match global_decimals {
            Some(g) => g,
            None => 3,
        },
    };
    Asset { name: asset_type.clone(), desc, tint, amount, decimals }
}

/// The name of an assets-list entry.
pub open spec fn entry_name(e: AssetEntry) -> Seq<char> {
    e@[0].0@
}

/// The distinct asset names of the list, in the order they first occur: the
/// assets whose prices are asked for, each once.
pub open spec fn requested_names(assets: Seq<AssetEntry>) -> Seq<Seq<char>>
    decreases assets.len(),
{
    if assets.len() == 0 {
        Seq::empty()
    } else {
        let r = requested_names(assets.drop_last());
        let k = entry_name(assets.last());
        if r.contains(k) {
            r
        } else {
            r.push(k)
        }
    }
}

/// Every entry of the assets list names an asset.
pub open spec fn entries_named(assets: Seq<AssetEntry>) -> bool {
    forall|i: int| 0 <= i < assets.len() ==> (#[trigger] assets[i])@.len() > 0
}

/// Prices are asked once for each asset of the list and for nothing else:
/// the requested names are distinct and are exactly the names in the list.
pub proof fn law_each_asset_requested_once(assets: Seq<AssetEntry>)
    requires
        entries_named(assets),
    ensures
        requested_names(assets).no_duplicates(),
        forall|i: int| 0 <= i < assets.len() ==> requested_names(assets).contains(entry_name(#[trigger] assets[i])),
        forall|k: Seq<char>| #[trigger] requested_names(assets).contains(k) ==> exists|i: int| 0 <= i < assets.len() && entry_name(assets[i]) == k,
    decreases assets.len(),
{
    if assets.len() > 0 {
        let t = assets.drop_last();
        assert(entries_named(t)) by {
            assert forall|i: int| 0 <= i < t.len() implies (#[trigger] t[i])@.len() > 0 by {
                assert(t[i] == assets[i]);
            }
        }
        law_each_asset_requested_once(t);
        let r = requested_names(t);
        let k = entry_name(assets.last());
        assert forall|i: int| 0 <= i < assets.len() implies requested_names(assets).contains(entry_name(#[trigger] assets[i])) by {
            if i < assets.len() - 1 {
                assert(t[i] == assets[i]);
                assert(r.contains(entry_name(t[i])));
                if !r.contains(k) {
                    let j = choose|j: int| 0 <= j < r.len() && r[j] == entry_name(t[i]);
                    assert(r.push(k)[j] == entry_name(t[i]));
                }
            } else {
                if !r.contains(k) {
                    assert(r.push(k)[r.len() as int] == k);
                }
            }
        }
        assert forall|key: Seq<char>| #[trigger] requested_names(assets).contains(key) implies exists|i: int| 0 <= i < assets.len() && entry_name(assets[i]) == key by {
            if r.contains(key) {
                let i = choose|i: int| 0 <= i < t.len() && entry_name(t[i]) == key;
                assert(t[i] == assets[i]);
            } else {
                let j = choose|j: int| 0 <= j < r.push(k).len() && r.push(k)[j] == key;
                assert(key == k);
                assert(entry_name(assets[assets.len() - 1]) == key);
            }
        }
        if !r.contains(k) {
            assert forall|a: int, b: int| 0 <= a < b < r.push(k).len() implies r.push(k)[a] != r.push(k)[b] by {
                if b == r.len() {
                    assert(r[a] == r.push(k)[a]);
                }
            }
        }
    }
}

/// Whether `names` holds `k`.
fn holds_name(names: &Vec<String>, k: &str) -> (r: bool)
    ensures
        r == names@.map_values(|s: String| s@).contains(k@),
{
    let ghost v = names@.map_values(|s: String| s@);
    for i in 0..names.len()
        invariant
            v == names@.map_values(|s: String| s@),
            forall|j: int| 0 <= j < i ==> v[j] != k@,
    {
        if str_eq(names[i].as_str(), k) {
            assert(v[i as int] == k@);
            return true;
        }
    }
    false
}

/// The assets to ask prices for: each asset named in the list once, in the
/// order the names first occur.
pub fn requested_assets(assets: &Vec<AssetEntry>) -> (r: Vec<String>)
    requires
        entries_named(assets@),
    ensures
        r@.map_values(|s: String| s@) == requested_names(assets@),
{
    let mut already: Vec<String> = Vec::new();
    for i in 0..assets.len()
        invariant
            entries_named(assets@),
            already@.map_values(|s: String| s@) == requested_names(assets@.subrange(0, i as int)),
    {
        assert(assets@[i as int]@.len() > 0);
        let keyname: &String = &assets[i][0].0;
        let ghost prev = already@.map_values(|s: String| s@);
        assert(assets@.subrange(0, i + 1).drop_last() =~= assets@.subrange(0, i as int));
        assert(assets@.subrange(0, i + 1).last() == assets@[i as int]);
        if !holds_name(&already, keyname.as_str()) {
            already.push(keyname.clone());
            assert(already@.map_values(|s: String| s@) =~= prev.push(keyname@));
        }
    }
    assert(assets@.subrange(0, assets.len() as int) =~= assets@);
    already
}

/// Names what `str::to_uppercase` gives: the text in Unicode upper case.
pub uninterp spec fn upper_case(s: Seq<char>) -> Seq<char>;

/// The text in upper case, by `str::to_uppercase`.
#[verifier::external_body]
fn to_upper_case(s: &str) -> (r: String)
    ensures
        r@ == upper_case(s@),
{
    s.to_uppercase()
}

/// Names whether `rusty_money::iso::find` knows a currency by this ISO code.
pub uninterp spec fn iso_code_known(code: Seq<char>) -> bool;

/// Whether `rusty_money::iso::find` finds a currency with this ISO code.
#[verifier::external_body]
fn iso_code_exists(code: &str) -> (r: bool)
    ensures
        r == iso_code_known(code@),
{
    rusty_money::iso::find(code).is_some()
}

/// The currency of the table's totals: the name it is shown by, and the ISO
/// code of the currency amounts are formatted in.
pub struct CurrencyChoice {
    pub name: String,
    pub iso_code: String,
}

/// The ISO code amounts are formatted in for a currency name: the name
/// itself when it is a known code, US dollars otherwise.
pub open spec fn iso_code_for(name: Seq<char>) -> Seq<char> {
    if iso_code_known(name) {
        name
    } else {
        "USD"@
    }
}

/// Chooses the currency of the totals: the first configured currency, in
/// upper case as ISO codes are written; amounts are formatted in that
/// currency when it is known, in US dollars otherwise.
pub fn currency_choice(base_curr: &Vec<String>) -> (r: CurrencyChoice)
    requires
        base_curr@.len() > 0,
    ensures
        r.name@ == upper_case(base_curr@[0]@),
        r.iso_code@ == iso_code_for(upper_case(base_curr@[0]@)),
{
    let main_curr: String = to_upper_case(base_curr[0].as_str());
    let iso_code: String = if iso_code_exists(main_curr.as_str()) {
        main_curr.clone()
    } else {
        "USD".to_owned()
    };
    CurrencyChoice { name: main_curr, iso_code }
}

} // verus!
