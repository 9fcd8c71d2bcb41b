use iati_json_parser::json::Json;
use iati_json_parser::number::decimal_units_of;
use iati_json_parser::project::{filter_activity, is_human_text};

fn text(s: &str) -> Json {
    Json::Str(s.to_string())
}

fn num(s: &str) -> Json {
    Json::Number(s.to_string())
}

fn obj(entries: Vec<(&str, Json)>) -> Json {
    Json::Object(entries.into_iter().map(|(k, v)| (k.to_string(), v)).collect())
}

fn field<'a>(j: &'a Json, key: &str) -> Option<&'a Json> {
    match j {
        Json::Object(e) => e.iter().find(|(k, _)| k == key).map(|(_, v)| v),
        _ => None,
    }
}

fn transaction(code: Option<i64>, date: Option<&str>, amount: Option<&str>) -> Json {
    let mut e = Vec::new();
    if let Some(c) = code {
        e.push(("transaction-type", obj(vec![("code", num(&c.to_string()))])));
    }
    if let Some(d) = date {
        e.push(("transaction-date", obj(vec![("iso-date", text(d))])));
    }
    if let Some(a) = amount {
        e.push((
            "value",
            obj(vec![("currency", text("USD")), ("value-date", text("2020-01-01")), ("#text", num(a))]),
        ));
    }
    obj(e)
}

#[test]
fn incomplete_transactions_are_dropped() {
    let act = obj(vec![
        ("iati-identifier", text("XM-1")),
        (
            "transaction",
            Json::Array(vec![
                transaction(Some(1), Some("2020-01-01"), Some("100")),
                transaction(None, Some("2020-01-01"), Some("5")),
                transaction(Some(3), None, Some("6")),
                transaction(Some(4), Some("2020-02-02"), None),
            ]),
        ),
    ]);
    let out = filter_activity(&act);
    let txs = field(&out, "transaction").unwrap();
    match txs {
        Json::Array(a) => {
            assert_eq!(a.len(), 1);
            assert_eq!(field(&a[0], "transaction-type"), Some(&num("1")));
            assert_eq!(field(&a[0], "transaction-date"), Some(&text("2020-01-01")));
            assert_eq!(field(&a[0], "transaction-value"), Some(&num("100")));
            assert_eq!(field(&a[0], "transaction-currency"), Some(&text("USD")));
        }
        _ => panic!("transactions should be an array"),
    }
}

#[test]
fn transaction_amount_falls_back_to_value_key() {
    let t = obj(vec![
        ("transaction-type", obj(vec![("code", num("2"))])),
        ("transaction-date", obj(vec![("iso-date", text("2021-03-04"))])),
        ("value", obj(vec![("value", num("7"))])),
    ]);
    let out = filter_activity(&obj(vec![("transaction", t)]));
    let txs = field(&out, "transaction").unwrap();
    let expected = Json::Array(vec![obj(vec![
        ("transaction-type", num("2")),
        ("transaction-date", text("2021-03-04")),
        ("transaction-value", num("7")),
    ])]);
    assert_eq!(txs, &expected);
}

#[test]
fn sectors_sorted_and_purpose_is_first_maximum() {
    let sector = |code: &str, pct: Option<&str>| {
        let mut e = vec![("code", text(code))];
        if let Some(p) = pct {
            e.push(("percentage", num(p)));
        }
        obj(e)
    };
    let act = obj(vec![(
        "sector",
        Json::Array(vec![
            sector("A", Some("20")),
            sector("B", Some("40.5")),
            sector("C", None),
            sector("D", Some("40.5")),
            obj(vec![("percentage", num("99"))]),
        ]),
    )]);
    let out = filter_activity(&act);
    let meta = field(&out, "meta").unwrap();
    let codes: Vec<Json> = match field(meta, "sectors").unwrap() {
        Json::Array(a) => a.iter().map(|s| field(s, "dac_code").unwrap().clone_tree()).collect(),
        _ => panic!("sectors should be an array"),
    };
    assert_eq!(codes, vec![text("B"), text("D"), text("A"), text("C")]);
    let purpose = field(meta, "purpose").unwrap();
    assert_eq!(field(purpose, "dac_code"), Some(&text("B")));
    assert_eq!(field(purpose, "percentage"), Some(&num("40.5")));
}

trait CloneTree {
    fn clone_tree(&self) -> Json;
}

impl CloneTree for Json {
    fn clone_tree(&self) -> Json {
        self.copy()
    }
}

#[test]
fn single_sector_object_becomes_purpose() {
    let act = obj(vec![("sector", obj(vec![("code", num("11220")), ("narrative", text("Primary education"))]))]);
    let out = filter_activity(&act);
    let meta = field(&out, "meta").unwrap();
    let expected_item = obj(vec![("dac_code", num("11220")), ("name", text("Primary education"))]);
    assert_eq!(field(meta, "sectors"), Some(&Json::Array(vec![expected_item.copy()])));
    assert_eq!(field(meta, "purpose"), Some(&expected_item));
}

#[test]
fn projection_is_repeatable() {
    let act = obj(vec![
        ("iati-identifier", text("XM-2")),
        ("title", obj(vec![("narrative", text("Clean water for all"))])),
        ("sector", obj(vec![("code", num("140")), ("percentage", num("100"))])),
        ("transaction", transaction(Some(3), Some("2022-01-01"), Some("10"))),
    ]);
    let a = filter_activity(&act);
    let b = filter_activity(&act);
    assert_eq!(a, b);
}

#[test]
fn unlisted_fields_are_dropped_and_listed_ones_reshaped() {
    let act = obj(vec![
        ("iati-identifier", text("XM-3")),
        ("secret-field", text("gone")),
        ("title", obj(vec![("narrative", text("T"))])),
        ("reporting-org", obj(vec![("ref", text("XM-ORG")), ("type", num("10"))])),
        ("description", obj(vec![("type", num("1"))])),
        ("default-currency", text("EUR")),
    ]);
    let out = filter_activity(&act);
    let expected = obj(vec![
        ("iati-identifier", text("XM-3")),
        ("title", text("T")),
        ("reporting-org", obj(vec![("id", text("XM-ORG")), ("type", num("10"))])),
        ("description", Json::Array(vec![obj(vec![("type", num("1"))])])),
        ("default-currency", text("EUR")),
    ]);
    assert_eq!(out, expected);
}

#[test]
fn title_without_narrative_is_omitted() {
    let out = filter_activity(&obj(vec![("title", obj(vec![("lang", text("en"))]))]));
    assert_eq!(out, obj(vec![]));
}

#[test]
fn non_object_activity_projects_to_empty_object() {
    assert_eq!(filter_activity(&text("not an activity")), obj(vec![]));
    assert_eq!(filter_activity(&Json::Array(vec![])), obj(vec![]));
}

#[test]
fn codes_fall_back_to_default_fields() {
    let act = obj(vec![
        ("default-aid-type", obj(vec![("code", text("C01"))])),
        ("finance-type", obj(vec![("code", num("110"))])),
        ("default-finance-type", obj(vec![("code", num("410"))])),
    ]);
    let out = filter_activity(&act);
    let meta = field(&out, "meta").unwrap();
    assert_eq!(field(meta, "aid_type"), Some(&obj(vec![("code", text("C01"))])));
    assert_eq!(field(meta, "finance_type"), Some(&obj(vec![("code", num("110"))])));
}

#[test]
fn markers_and_related_activities_keep_known_keys() {
    let act = obj(vec![
        (
            "policy-marker",
            Json::Array(vec![
                obj(vec![("code", num("1")), ("significance", num("2")), ("vocabulary", num("1"))]),
                obj(vec![("vocabulary", num("1"))]),
            ]),
        ),
        ("related-activity", obj(vec![("ref", text("XM-9")), ("type", num("1"))])),
    ]);
    let out = filter_activity(&act);
    let meta = field(&out, "meta").unwrap();
    assert_eq!(
        field(meta, "policy_markers"),
        Some(&Json::Array(vec![obj(vec![("code", num("1")), ("significance", num("2"))])]))
    );
    assert_eq!(
        field(meta, "related_activities"),
        Some(&Json::Array(vec![obj(vec![("ref", text("XM-9")), ("type", num("1"))])]))
    );
}

#[test]
fn short_or_wordless_narratives_stay_out_of_results() {
    let act = obj(vec![
        ("title", obj(vec![("narrative", text("  A well for the village  "))])),
        ("description", obj(vec![("narrative", text("abc"))])),
        ("location", obj(vec![("narrative", text("abcdefg"))])),
        ("other", obj(vec![("deep", obj(vec![("narrative", text("12 34"))]))])),
        ("more", obj(vec![("narrative", text("A well for the village"))])),
        ("extra", obj(vec![("narrative", text("Second note here"))])),
    ]);
    let out = filter_activity(&act);
    let meta = field(&out, "meta").unwrap();
    assert_eq!(
        field(meta, "results"),
        Some(&text("A well for the village Second note here"))
    );
}

#[test]
fn no_meta_without_derived_fields() {
    let out = filter_activity(&obj(vec![("iati-identifier", text("XM-4"))]));
    assert_eq!(out, obj(vec![("iati-identifier", text("XM-4"))]));
}

#[test]
fn human_text_rules() {
    assert!(is_human_text("  ab c  "));
    assert!(is_human_text("a good note"));
    assert!(!is_human_text("abc"));
    assert!(!is_human_text("  ab  "));
    assert!(!is_human_text("abcdef"));
    assert!(!is_human_text("12 34"));
    assert!(!is_human_text("é a"));
    assert!(is_human_text("é ab"));
    assert!(!is_human_text("   "));
}

#[test]
fn decimal_units_exact_values() {
    let units = |s: &str| decimal_units_of(&s.chars().collect());
    assert_eq!(units("50"), 50 * 10i128.pow(19));
    assert_eq!(units("33.3"), 333 * 10i128.pow(18));
    assert_eq!(units("-1.5"), -15 * 10i128.pow(18));
    assert_eq!(units("0.0000000000000000001"), 1);
    assert_eq!(units("1e5"), 10i128.pow(24));
    assert_eq!(units("1e-7"), 10i128.pow(12));
    assert_eq!(units("1.5E+2"), 150 * 10i128.pow(19));
    assert_eq!(units("-2.5e-1"), -25 * 10i128.pow(17));
    assert_eq!(units("10e-20"), 1);
    assert_eq!(units("1e-20"), 0);
    assert_eq!(units("1e19"), 0);
    assert_eq!(units("1e18"), 10i128.pow(37));
    assert_eq!(units("1e-0"), 10i128.pow(19));
    assert_eq!(units("1e"), 0);
    assert_eq!(units("1e+"), 0);
    assert_eq!(units("1e5x"), 0);
    assert_eq!(units("1e999"), 0);
    assert_eq!(units("1."), 0);
    assert_eq!(units(".5"), 0);
    assert_eq!(units(""), 0);
    assert_eq!(units("10000000000000000000"), 0);
    assert_eq!(units("9999999999999999999"), 9999999999999999999i128 * 10i128.pow(19));
}

#[test]
fn exponent_percentages_order_exactly() {
    let sector = |code: &str, pct: &str| obj(vec![("code", text(code)), ("percentage", num(pct))]);
    let act = obj(vec![(
        "sector",
        Json::Array(vec![sector("Z", "0"), sector("T", "1e-7"), sector("H", "1.5e1")]),
    )]);
    let out = filter_activity(&act);
    let meta = field(&out, "meta").unwrap();
    let codes: Vec<Json> = match field(meta, "sectors").unwrap() {
        Json::Array(a) => a.iter().map(|s| field(s, "dac_code").unwrap().copy()).collect(),
        _ => panic!("sectors should be an array"),
    };
    assert_eq!(codes, vec![text("H"), text("T"), text("Z")]);
}
