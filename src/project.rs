use vstd::prelude::*;
use crate::number::{decimal_units, decimal_units_of};
use crate::text::{alphabetic, chars_of, has_char, is_letter, texts, trim_text, trimmed};
use crate::json::{
    Json, JsonModel, copy_all, entry_if, entry_views, field, field_of, items_of, lemma_array_view,
    lemma_object_view, views,
};

verus! {

/// The model of a looked-up field, if any.
pub open spec fn opt_view(o: Option<&Json>) -> Option<JsonModel> {
    match o {
        Some(x) => Some(x@),
        None => None,
    }
}

/// How one item of a repeated field is reshaped, or dropped (`None`).
pub enum ItemRule {
    Transaction,
    Sector,
    PolicyMarker,
    Related,
}

/// `#text` of the value element, else its `value` key.
pub open spec fn transaction_amount(val: Option<JsonModel>) -> Option<JsonModel> {
    match field_of(val, "#text"@) {
        Some(x) => Some(x),
        None => field_of(val, "value"@),
    }
}

/// A transaction with its type code, date and amount, plus its currency
/// when given; none when any of the first three is missing.
pub open spec fn transaction_item(t: JsonModel) -> Option<JsonModel> {
    let tt = field_of(field(t, "transaction-type"@), "code"@);
    let td = field_of(field(t, "transaction-date"@), "iso-date"@);
    let val = field(t, "value"@);
    let tv = transaction_amount(val);
    if tt is Some && td is Some && tv is Some {
        Some(
            JsonModel::Object(
                seq![
                    ("transaction-type"@, tt->0),
                    ("transaction-date"@, td->0),
                    ("transaction-value"@, tv->0),
                ] + entry_if("transaction-currency"@, field_of(val, "currency"@)),
            ),
        )
    } else {
        None
    }
}

/// A sector with its code, and its name and percentage when given.
pub open spec fn sector_item(s: JsonModel) -> Option<JsonModel> {
    match field(s, "code"@) {
        Some(c) => Some(
            JsonModel::Object(
                seq![("dac_code"@, c)] + entry_if("name"@, field(s, "narrative"@)) + entry_if(
                    "percentage"@,
                    field(s, "percentage"@),
                ),
            ),
        ),
        None => None,
    }
}

/// The entries that a policy marker keeps.
pub open spec fn marker_entries(m: JsonModel) -> Seq<(Seq<char>, JsonModel)> {
    entry_if("code"@, field(m, "code"@)) + entry_if("significance"@, field(m, "significance"@))
        + entry_if("name"@, field(m, "narrative"@))
}

/// The entries that a related activity keeps.
pub open spec fn related_entries(r: JsonModel) -> Seq<(Seq<char>, JsonModel)> {
    entry_if("ref"@, field(r, "ref"@)) + entry_if("type"@, field(r, "type"@))
}

pub open spec fn item_rule(rule: ItemRule, t: JsonModel) -> Option<JsonModel> {
    match rule {
        ItemRule::Transaction => transaction_item(t),
        ItemRule::Sector => sector_item(t),
        ItemRule::PolicyMarker => if marker_entries(t).len() > 0 {
            Some(JsonModel::Object(marker_entries(t)))
        } else {
            None
        },
        ItemRule::Related => if related_entries(t).len() > 0 {
            Some(JsonModel::Object(related_entries(t)))
        } else {
            None
        },
    }
}

/// The reshaped items of `s` that the rule keeps, in order.
pub open spec fn kept(rule: ItemRule, s: Seq<JsonModel>) -> Seq<JsonModel>
    decreases s.len(),
{
    if s.len() == 0 {
        Seq::empty()
    } else {
        match item_rule(rule, s.last()) {
            Some(x) => kept(rule, s.drop_last()).push(x),
            None => kept(rule, s.drop_last()),
        }
    }
}

/// Appends `(key, v)` when `v` is present.
fn push_entry(out: &mut Vec<(String, Json)>, key: &str, v: Option<&Json>)
    ensures
        entry_views(final(out)@) == entry_views(old(out)@) + entry_if(key@, opt_view(v)),
{
    match v {
        Some(x) => {
            out.push((key.to_owned(), x.copy()));
            assert(entry_views(final(out)@) =~= entry_views(old(out)@) + entry_if(
                key@,
                opt_view(v),
            ));
        },
        None => {
            assert(entry_views(final(out)@) =~= entry_views(old(out)@) + entry_if(
                key@,
                opt_view(v),
            ));
        },
    }
}

fn field_in<'a>(o: Option<&'a Json>, key: &str) -> (r: Option<&'a Json>)
    ensures
        opt_view(r) == field_of(opt_view(o), key@),
{
    match o {
        Some(x) => x.get(key),
        None => None,
    }
}

fn transaction_entry(t: &Json) -> (r: Option<Json>)
    ensures
        match r {
            Some(x) => transaction_item(t@) == Some(x@),
            None => transaction_item(t@) is None,
        },
{
    let tt = field_in(t.get("transaction-type"), "code");
    let td = field_in(t.get("transaction-date"), "iso-date");
    let val = t.get("value");
    let tv = match field_in(val, "#text") {
        Some(x) => Some(x),
        None => field_in(val, "value"),
    };
    match (tt, td, tv) {
        (Some(a), Some(b), Some(c)) => {
            let mut n: Vec<(String, Json)> = Vec::new();
            push_entry(&mut n, "transaction-type", Some(a));
            push_entry(&mut n, "transaction-date", Some(b));
            push_entry(&mut n, "transaction-value", Some(c));
            push_entry(&mut n, "transaction-currency", field_in(val, "currency"));
            proof {
                lemma_object_view(n);
                assert(entry_views(n@) =~= seq![
                    ("transaction-type"@, a@),
                    ("transaction-date"@, b@),
                    ("transaction-value"@, c@),
                ] + entry_if("transaction-currency"@, field_of(opt_view(val), "currency"@)));
            }
            Some(Json::Object(n))
        },
        _ => None,
    }
}

fn sector_entry(s: &Json) -> (r: Option<Json>)
    ensures
        match r {
            Some(x) => sector_item(s@) == Some(x@),
            None => sector_item(s@) is None,
        },
{
    match s.get("code") {
        Some(c) => {
            let mut n: Vec<(String, Json)> = Vec::new();
            push_entry(&mut n, "dac_code", Some(c));
            push_entry(&mut n, "name", s.get("narrative"));
            push_entry(&mut n, "percentage", s.get("percentage"));
            proof {
                lemma_object_view(n);
                assert(entry_views(n@) =~= seq![("dac_code"@, c@)] + entry_if(
                    "name"@,
                    field(s@, "narrative"@),
                ) + entry_if("percentage"@, field(s@, "percentage"@)));
            }
            Some(Json::Object(n))
        },
        None => None,
    }
}

fn marker_entry(m: &Json) -> (r: Option<Json>)
    ensures
        match r {
            Some(x) => item_rule(ItemRule::PolicyMarker, m@) == Some(x@),
            None => item_rule(ItemRule::PolicyMarker, m@) is None,
        },
{
    let mut n: Vec<(String, Json)> = Vec::new();
    push_entry(&mut n, "code", m.get("code"));
    push_entry(&mut n, "significance", m.get("significance"));
    push_entry(&mut n, "name", m.get("narrative"));
    assert(entry_views(n@) =~= marker_entries(m@));
    if n.len() > 0 {
        proof {
            lemma_object_view(n);
        }
        Some(Json::Object(n))
    } else {
        None
    }
}

fn related_entry(x: &Json) -> (r: Option<Json>)
    ensures
        match r {
            Some(y) => item_rule(ItemRule::Related, x@) == Some(y@),
            None => item_rule(ItemRule::Related, x@) is None,
        },
{
    let mut n: Vec<(String, Json)> = Vec::new();
    push_entry(&mut n, "ref", x.get("ref"));
    push_entry(&mut n, "type", x.get("type"));
    assert(entry_views(n@) =~= related_entries(x@));
    if n.len() > 0 {
        proof {
            lemma_object_view(n);
        }
        Some(Json::Object(n))
    } else {
        None
    }
}

fn apply_rule(rule: &ItemRule, t: &Json) -> (r: Option<Json>)
    ensures
        match r {
            Some(x) => item_rule(*rule, t@) == Some(x@),
            None => item_rule(*rule, t@) is None,
        },
{
    match rule {
        ItemRule::Transaction => transaction_entry(t),
        ItemRule::Sector => sector_entry(t),
        ItemRule::PolicyMarker => marker_entry(t),
        ItemRule::Related => related_entry(t),
    }
}

/// The items of `items` that the rule keeps, reshaped, in order.
pub fn keep_items(rule: &ItemRule, items: &Vec<Json>) -> (r: Vec<Json>)
    ensures
        views(r@) == kept(*rule, views(items@)),
{
    let mut out: Vec<Json> = Vec::new();
    let mut i: usize = 0;
    while i < items.len()
        invariant
            i <= items.len(),
            views(out@) == kept(*rule, views(items@).take(i as int)),
        decreases items.len() - i,
    {
        let ghost s = views(items@).take(i as int + 1);
        assert(s.drop_last() =~= views(items@).take(i as int));
        assert(s.last() == items@[i as int]@);
        match apply_rule(rule, &items[i]) {
            Some(x) => {
                out.push(x);
                assert(views(out@) =~= kept(*rule, s));
            },
            None => {},
        }
        i = i + 1;
    }
    assert(views(items@).take(items.len() as int) =~= views(items@));
    out
}

/// Free text worth keeping: once trimmed, at least four characters long, with a
/// space and at least one alphabetic character.
pub open spec fn human_text(s: Seq<char>) -> bool {
    let t = trimmed(s);
    t.len() >= 4 && t.contains(' ') && exists|i: int|
        0 <= i < t.len() && alphabetic(#[trigger] t[i])
}

/// Whether `s` reads as human free text (see `human_text`).
pub fn is_human_text(s: &str) -> (r: bool)
    ensures
        r == human_text(s@),
{
    let t = trim_text(s);
    let cs = chars_of(t);
    if cs.len() < 4 {
        return false;
    }
    if !has_char(&cs, ' ') {
        return false;
    }
    let mut i: usize = 0;
    while i < cs.len()
        invariant
            i <= cs.len(),
            cs@ == trimmed(s@),
            trimmed(s@).len() >= 4,
            trimmed(s@).contains(' '),
            forall|k: int| 0 <= k < i ==> !alphabetic(#[trigger] cs@[k]),
        decreases cs.len() - i,
    {
        if is_letter(cs[i]) {
            return true;
        }
        i = i + 1;
    }
    false
}

/// `bag` with `s` added at the end, unless it is there already.
pub open spec fn add_once(bag: Seq<Seq<char>>, s: Seq<char>) -> Seq<Seq<char>> {
    if bag.contains(s) {
        bag
    } else {
        bag.push(s)
    }
}

/// What one `narrative` entry adds to the bag: its trimmed text, when it is
/// a string of human text.
pub open spec fn note_narrative(key: Seq<char>, v: JsonModel, bag: Seq<Seq<char>>) -> Seq<
    Seq<char>,
> {
    if key == "narrative"@ {
        match v {
            JsonModel::Str(s) => if human_text(s) {
                add_once(bag, trimmed(s))
            } else {
                bag
            },
            _ => bag,
        }
    } else {
        bag
    }
}

/// The bag after a depth-first walk of `v` that notes every string held
/// under a `narrative` key, in the order met.
pub open spec fn gather(v: JsonModel, bag: Seq<Seq<char>>) -> Seq<Seq<char>>
    decreases v, 0nat,
{
    match v {
        JsonModel::Array(a) => gather_items(a, a.len() as int, bag),
        JsonModel::Object(o) => gather_entries(o, o.len() as int, bag),
        _ => bag,
    }
}

/// The bag after walking the first `n` elements of an array.
pub open spec fn gather_items(a: Seq<JsonModel>, n: int, bag: Seq<Seq<char>>) -> Seq<Seq<char>>
    decreases a, n,
{
    if n <= 0 || n > a.len() {
        bag
    } else {
        gather(a[n - 1], gather_items(a, n - 1, bag))
    }
}

/// The bag after walking the first `n` entries of an object.
pub open spec fn gather_entries(o: Seq<(Seq<char>, JsonModel)>, n: int, bag: Seq<Seq<char>>) -> Seq<
    Seq<char>,
>
    decreases o, n,
{
    if n <= 0 || n > o.len() {
        bag
    } else {
        gather(o[n - 1].1, note_narrative(o[n - 1].0, o[n - 1].1, gather_entries(o, n - 1, bag)))
    }
}

fn push_once(bag: &mut Vec<String>, s: String)
    ensures
        texts(final(bag)@) == add_once(texts(old(bag)@), s@),
{
    let mut i: usize = 0;
    while i < bag.len()
        invariant
            i <= bag.len(),
            forall|k: int| 0 <= k < i ==> bag@[k]@ != s@,
        decreases bag.len() - i,
    {
        if bag[i] == s {
            assert(texts(bag@)[i as int] == s@);
            return;
        }
        i = i + 1;
    }
    proof {
        assert forall|k: int| 0 <= k < texts(bag@).len() implies texts(bag@)[k] != s@ by {}
    }
    let ghost before = bag@;
    bag.push(s);
    assert(texts(bag@) =~= texts(before).push(s@));
}

/// Adds to `bag` every human-text string found under a `narrative` key
/// anywhere in `v`, trimmed, each text once, in the order met.
pub fn collect_narratives(v: &Json, bag: &mut Vec<String>)
    ensures
        texts(final(bag)@) == gather(v@, texts(old(bag)@)),
    decreases v,
{
    match v {
        Json::Array(a) => {
            proof {
                lemma_array_view(*a);
            }
            let ghost items = views(a@);
            let ghost start = texts(bag@);
            let mut i: usize = 0;
            while i < a.len()
                invariant
                    i <= a.len(),
                    *v == Json::Array(*a),
                    items == views(a@),
                    texts(bag@) == gather_items(items, i as int, start),
                decreases a.len() - i,
            {
                proof {
                    let aa = *a;
                    lemma_array_view(aa);
                    assert(views(aa@)[i as int] == aa@[i as int]@);
                }
                collect_narratives(&a[i], bag);
                i = i + 1;
            }
        },
        Json::Object(o) => {
            proof {
                lemma_object_view(*o);
            }
            let ghost entries = entry_views(o@);
            let ghost start = texts(bag@);
            let narrative = "narrative".to_owned();
            let mut i: usize = 0;
            while i < o.len()
                invariant
                    i <= o.len(),
                    *v == Json::Object(*o),
                    entries == entry_views(o@),
                    texts(bag@) == gather_entries(entries, i as int, start),
                    narrative@ == "narrative"@,
                decreases o.len() - i,
            {
                proof {
                    let oo = *o;
                    lemma_object_view(oo);
                    assert(entry_views(oo@)[i as int].1 == oo@[i as int].1@);
                }
                let (k, x) = (&o[i].0, &o[i].1);
                if *k == narrative {
                    match x {
                        Json::Str(s) => {
                            if is_human_text(s.as_str()) {
                                let t = trim_text(s.as_str()).to_owned();
                                push_once(bag, t);
                            }
                        },
                        _ => {},
                    }
                }
                collect_narratives(x, bag);
                i = i + 1;
            }
        },
        _ => {},
    }
}

/// The texts joined with single spaces.
pub open spec fn joined(s: Seq<Seq<char>>) -> Seq<char>
    decreases s.len(),
{
    if s.len() == 0 {
        Seq::empty()
    } else if s.len() == 1 {
        s[0]
    } else {
        joined(s.drop_last()) + " "@ + s.last()
    }
}

/// The strings of `parts` joined with single spaces.
pub fn join_spaced(parts: &Vec<String>) -> (r: String)
    ensures
        r@ == joined(texts(parts@)),
{
    let mut out = String::new();
    let mut i: usize = 0;
    while i < parts.len()
        invariant
            i <= parts.len(),
            out@ == joined(texts(parts@).take(i as int)),
        decreases parts.len() - i,
    {
        let ghost t = texts(parts@).take(i as int + 1);
        assert(t.drop_last() =~= texts(parts@).take(i as int));
        if i > 0 {
            out.append(" ");
        }
        out.append(parts[i].as_str());
        assert(out@ =~= joined(t));
        i = i + 1;
    }
    assert(texts(parts@).take(parts.len() as int) =~= texts(parts@));
    out
}

/// A sector's percentage as an exact count of units; a missing or
/// non-numeric percentage counts as zero.
pub open spec fn percent_units(item: JsonModel) -> int {
    match field(item, "percentage"@) {
        Some(JsonModel::Number(t)) => decimal_units(t),
        _ => 0,
    }
}

/// Among the first `n` items, the position of the first one whose
/// percentage is the greatest.
pub open spec fn first_max(s: Seq<JsonModel>, n: int) -> int
    decreases n,
{
    if n <= 1 {
        0
    } else {
        let m = first_max(s, n - 1);
        if percent_units(s[n - 1]) > percent_units(s[m]) {
            n - 1
        } else {
            m
        }
    }
}

/// The items from the greatest percentage down; items with equal
/// percentages keep their order.
pub open spec fn by_percentage(s: Seq<JsonModel>) -> Seq<JsonModel>
    decreases s.len(),
{
    if s.len() == 0 {
        Seq::empty()
    } else {
        let m = first_max(s, s.len() as int);
        let m = if 0 <= m < s.len() {
            m
        } else {
            0
        };
        seq![s[m]] + by_percentage(s.remove(m))
    }
}

pub proof fn lemma_first_max_range(s: Seq<JsonModel>, n: int)
    requires
        1 <= n <= s.len(),
    ensures
        0 <= first_max(s, n) < n,
    decreases n,
{
    if n > 1 {
        lemma_first_max_range(s, n - 1);
    }
}

fn percent_units_of(item: &Json) -> (r: i128)
    ensures
        r == percent_units(item@),
{
    match item.get("percentage") {
        Some(Json::Number(t)) => decimal_units_of(&chars_of(t.as_str())),
        _ => 0,
    }
}

fn first_max_index(items: &Vec<Json>) -> (r: usize)
    requires
        items.len() > 0,
    ensures
        r == first_max(views(items@), items.len() as int),
        r < items.len(),
{
    let ghost s = views(items@);
    let mut m: usize = 0;
    let mut best = percent_units_of(&items[0]);
    let mut i: usize = 1;
    while i < items.len()
        invariant
            1 <= i <= items.len(),
            s == views(items@),
            m == first_max(s, i as int),
            m < i,
            best == percent_units(s[m as int]),
        decreases items.len() - i,
    {
        let k = percent_units_of(&items[i]);
        if k > best {
            m = i;
            best = k;
        }
        i = i + 1;
    }
    m
}

/// The items ordered as `by_percentage` orders them.
pub fn sort_by_percentage(items: Vec<Json>) -> (r: Vec<Json>)
    ensures
        views(r@) == by_percentage(views(items@)),
{
    let ghost all = views(items@);
    let mut rest = items;
    let mut out: Vec<Json> = Vec::new();
    assert(views(out@) + by_percentage(views(rest@)) =~= by_percentage(all));
    while rest.len() > 0
        invariant
            views(out@) + by_percentage(views(rest@)) == by_percentage(all),
        decreases rest.len(),
    {
        let m = first_max_index(&rest);
        let ghost before = views(rest@);
        let x = rest.remove(m);
        proof {
            lemma_first_max_range(before, before.len() as int);
            assert(views(rest@) =~= before.remove(m as int));
            assert(by_percentage(before) == seq![before[m as int]] + by_percentage(
                before.remove(m as int),
            ));
        }
        let ghost out_before = views(out@);
        out.push(x);
        assert(views(out@) =~= out_before.push(before[m as int]));
        assert(views(out@) + by_percentage(views(rest@)) =~= out_before + by_percentage(before));
    }
    assert(by_percentage(views(rest@)) =~= Seq::<JsonModel>::empty());
    assert(views(out@) + by_percentage(views(rest@)) =~= views(out@));
    out
}

/// The code of a single-code field, read under `key` or, when that key is
/// absent, under `default-` + `key`.
pub open spec fn code_field(a: JsonModel, key: Seq<char>) -> Option<JsonModel> {
    let v = match field(a, key) {
        Some(x) => Some(x),
        None => field(a, "default-"@ + key),
    };
    field_of(v, "code"@)
}

/// A meta entry `{name: {"code": c}}` when a code was found.
pub open spec fn code_entry(name: Seq<char>, c: Option<JsonModel>) -> Seq<(Seq<char>, JsonModel)> {
    match c {
        Some(x) => seq![(name, JsonModel::Object(seq![("code"@, x)]))],
        None => Seq::empty(),
    }
}

/// The kept, reshaped items of a repeated field of the activity.
pub open spec fn list_of(rule: ItemRule, a: JsonModel, key: Seq<char>) -> Seq<JsonModel> {
    match field(a, key) {
        Some(v) => kept(rule, items_of(v)),
        None => Seq::empty(),
    }
}

/// The activity's sectors, from the greatest percentage down.
pub open spec fn sectors_of(a: JsonModel) -> Seq<JsonModel> {
    by_percentage(list_of(ItemRule::Sector, a, "sector"@))
}

/// A meta entry holding a list, when the list is not empty.
pub open spec fn list_entry(name: Seq<char>, l: Seq<JsonModel>) -> Seq<(Seq<char>, JsonModel)> {
    if l.len() > 0 {
        seq![(name, JsonModel::Array(l))]
    } else {
        Seq::empty()
    }
}

/// The derived summary of an activity.
pub open spec fn meta_entries(a: JsonModel) -> Seq<(Seq<char>, JsonModel)> {
    let sec = sectors_of(a);
    let bag = gather(a, Seq::empty());
    (if sec.len() > 0 {
        seq![("sectors"@, JsonModel::Array(sec)), ("purpose"@, sec[0])]
    } else {
        Seq::empty()
    }) + list_entry("policy_markers"@, list_of(ItemRule::PolicyMarker, a, "policy-marker"@))
        + code_entry("aid_type"@, code_field(a, "aid-type"@)) + code_entry(
        "finance_type"@,
        code_field(a, "finance-type"@),
    ) + list_entry("related_activities"@, list_of(ItemRule::Related, a, "related-activity"@)) + (
    if bag.len() > 0 {
        seq![("results"@, JsonModel::Str(joined(bag)))]
    } else {
        Seq::empty()
    })
}

/// The top-level fields that the projection keeps.
pub open spec fn kept_key(k: Seq<char>) -> bool {
    k == "default-currency"@ || k == "last-updated-datetime"@ || k == "iati-identifier"@ || k
        == "reporting-org"@ || k == "title"@ || k == "description"@ || k == "participating-org"@
        || k == "activity-status"@ || k == "recipient-country"@ || k == "recipient-region"@ || k
        == "location"@ || k == "transaction"@
}

/// What one top-level entry of the activity becomes, if it is kept.
pub open spec fn core_entry(k: Seq<char>, v: JsonModel) -> Option<(Seq<char>, JsonModel)> {
    if !kept_key(k) {
        None
    } else if k == "description"@ {
        Some((k, JsonModel::Array(items_of(v))))
    } else if k == "transaction"@ {
        Some((k, JsonModel::Array(kept(ItemRule::Transaction, items_of(v)))))
    } else if k == "title"@ {
        match field(v, "narrative"@) {
            Some(n) => Some((k, n)),
            None => None,
        }
    } else if k == "reporting-org"@ {
        Some(
            (
                k,
                JsonModel::Object(
                    entry_if("id"@, field(v, "ref"@)) + entry_if("type"@, field(v, "type"@))
                        + entry_if("name"@, field(v, "narrative"@)),
                ),
            ),
        )
    } else {
        Some((k, v))
    }
}

/// The kept top-level entries, reshaped, in order.
pub open spec fn core_entries(e: Seq<(Seq<char>, JsonModel)>) -> Seq<(Seq<char>, JsonModel)>
    decreases e.len(),
{
    if e.len() == 0 {
        Seq::empty()
    } else {
        match core_entry(e.last().0, e.last().1) {
            Some(x) => core_entries(e.drop_last()).push(x),
            None => core_entries(e.drop_last()),
        }
    }
}

/// The projection of one activity: its kept fields, reshaped, followed by a
/// `meta` object when there is anything to summarise. A value that is not an
/// object projects to the empty object.
pub open spec fn project(a: JsonModel) -> JsonModel {
    match a {
        JsonModel::Object(e) => {
            let m = meta_entries(a);
            JsonModel::Object(
                core_entries(e) + if m.len() > 0 {
                    seq![("meta"@, JsonModel::Object(m))]
                } else {
                    Seq::empty()
                },
            )
        },
        _ => JsonModel::Object(Seq::empty()),
    }
}

fn is_key(k: &String, lit: &str) -> (r: bool)
    ensures
        r == (k@ == lit@),
{
    *k == lit.to_owned()
}

fn is_kept_key(k: &String) -> (r: bool)
    ensures
        r == kept_key(k@),
{
    is_key(k, "default-currency") || is_key(k, "last-updated-datetime") || is_key(
        k,
        "iati-identifier",
    ) || is_key(k, "reporting-org") || is_key(k, "title") || is_key(k, "description") || is_key(
        k,
        "participating-org",
    ) || is_key(k, "activity-status") || is_key(k, "recipient-country") || is_key(
        k,
        "recipient-region",
    ) || is_key(k, "location") || is_key(k, "transaction")
}

fn core_entry_of(k: &String, v: &Json) -> (r: Option<(String, Json)>)
    ensures
        match r {
            Some(x) => core_entry(k@, v@) == Some((x.0@, x.1@)),
            None => core_entry(k@, v@) is None,
        },
{
    if !is_kept_key(k) {
        None
    } else if is_key(k, "description") {
        let items = v.items();
        proof {
            lemma_array_view(items);
        }
        Some((k.clone(), Json::Array(items)))
    } else if is_key(k, "transaction") {
        let txs = keep_items(&ItemRule::Transaction, &v.items());
        proof {
            lemma_array_view(txs);
        }
        Some((k.clone(), Json::Array(txs)))
    } else if is_key(k, "title") {
        match v.get("narrative") {
            Some(n) => Some((k.clone(), n.copy())),
            None => None,
        }
    } else if is_key(k, "reporting-org") {
        let mut ro: Vec<(String, Json)> = Vec::new();
        push_entry(&mut ro, "id", v.get("ref"));
        push_entry(&mut ro, "type", v.get("type"));
        push_entry(&mut ro, "name", v.get("narrative"));
        proof {
            lemma_object_view(ro);
            assert(entry_views(ro@) =~= entry_if("id"@, field(v@, "ref"@)) + entry_if(
                "type"@,
                field(v@, "type"@),
            ) + entry_if("name"@, field(v@, "narrative"@)));
        }
        Some((k.clone(), Json::Object(ro)))
    } else {
        Some((k.clone(), v.copy()))
    }
}

fn list_field(rule: &ItemRule, a: &Json, key: &str) -> (r: Vec<Json>)
    ensures
        views(r@) == list_of(*rule, a@, key@),
{
    match a.get(key) {
        Some(v) => keep_items(rule, &v.items()),
        None => Vec::new(),
    }
}

fn code_field_of(a: &Json, key: &str) -> (r: Option<Json>)
    ensures
        match r {
            Some(x) => code_field(a@, key@) == Some(x@),
            None => code_field(a@, key@) is None,
        },
{
    let v = match a.get(key) {
        Some(x) => Some(x),
        None => {
            let mut dk = "default-".to_owned();
            dk.append(key);
            a.get(dk.as_str())
        },
    };
    match field_in(v, "code") {
        Some(c) => Some(c.copy()),
        None => None,
    }
}

fn push_code_entry(meta: &mut Vec<(String, Json)>, name: &str, c: Option<Json>)
    ensures
        entry_views(final(meta)@) == entry_views(old(meta)@) + code_entry(
            name@,
            match c {
                Some(x) => Some(x@),
                None => None,
            },
        ),
{
    match c {
        Some(x) => {
            let ghost xv = x@;
            let inner = vec![("code".to_owned(), x)];
            proof {
                lemma_object_view(inner);
                assert(entry_views(inner@) =~= seq![("code"@, xv)]);
            }
            meta.push((name.to_owned(), Json::Object(inner)));
        },
        None => {},
    }
    assert(entry_views(final(meta)@) =~= entry_views(old(meta)@) + code_entry(
        name@,
        match c {
            Some(x) => Some(x@),
            None => None,
        },
    ));
}

fn push_list_entry(meta: &mut Vec<(String, Json)>, name: &str, l: Vec<Json>)
    ensures
        entry_views(final(meta)@) == entry_views(old(meta)@) + list_entry(name@, views(l@)),
{
    let ghost lv = views(l@);
    if l.len() > 0 {
        proof {
            lemma_array_view(l);
        }
        meta.push((name.to_owned(), Json::Array(l)));
    }
    assert(entry_views(final(meta)@) =~= entry_views(old(meta)@) + list_entry(name@, lv));
}

/// Projects one activity onto the kept fields, reshaped, with its derived
/// summary under `meta`.
pub fn filter_activity(activity: &Json) -> (r: Json)
    ensures
        r@ == project(activity@),
{
    match activity {
        Json::Object(e) => {
            proof {
                lemma_object_view(*e);
            }
            let mut meta: Vec<(String, Json)> = Vec::new();
            let sec = sort_by_percentage(list_field(&ItemRule::Sector, activity, "sector"));
            let ghost secv = views(sec@);
            if sec.len() > 0 {
                let purpose = sec[0].copy();
                proof {
                    lemma_array_view(sec);
                }
                meta.push(("sectors".to_owned(), Json::Array(sec)));
                meta.push(("purpose".to_owned(), purpose));
            }
            assert(entry_views(meta@) =~= if secv.len() > 0 {
                seq![("sectors"@, JsonModel::Array(secv)), ("purpose"@, secv[0])]
            } else {
                Seq::empty()
            });
            push_list_entry(
                &mut meta,
                "policy_markers",
                list_field(&ItemRule::PolicyMarker, activity, "policy-marker"),
            );
            push_code_entry(&mut meta, "aid_type", code_field_of(activity, "aid-type"));
            push_code_entry(&mut meta, "finance_type", code_field_of(activity, "finance-type"));
            push_list_entry(
                &mut meta,
                "related_activities",
                list_field(&ItemRule::Related, activity, "related-activity"),
            );
            let mut bag: Vec<String> = Vec::new();
            collect_narratives(activity, &mut bag);
            assert(texts(Seq::<String>::empty()) =~= Seq::<Seq<char>>::empty());
            if bag.len() > 0 {
                let text = join_spaced(&bag);
                meta.push(("results".to_owned(), Json::Str(text)));
            }
            assert(entry_views(meta@) =~= meta_entries(activity@));
            let mut out: Vec<(String, Json)> = Vec::new();
            let ghost ev = entry_views(e@);
            let mut i: usize = 0;
            while i < e.len()
                invariant
                    i <= e.len(),
                    ev == entry_views(e@),
                    entry_views(out@) == core_entries(ev.take(i as int)),
                decreases e.len() - i,
            {
                let ghost t = ev.take(i as int + 1);
                assert(t.drop_last() =~= ev.take(i as int));
                match core_entry_of(&e[i].0, &e[i].1) {
                    Some(x) => {
                        out.push(x);
                        assert(entry_views(out@) =~= core_entries(t));
                    },
                    None => {},
                }
                i = i + 1;
            }
            assert(ev.take(e.len() as int) =~= ev);
            let ghost core = entry_views(out@);
            let ghost mv = entry_views(meta@);
            if meta.len() > 0 {
                proof {
                    lemma_object_view(meta);
                }
                out.push(("meta".to_owned(), Json::Object(meta)));
            }
            proof {
                lemma_object_view(out);
            }
            assert(entry_views(out@) =~= core + if mv.len() > 0 {
                seq![("meta"@, JsonModel::Object(mv))]
            } else {
                Seq::empty()
            });
            Json::Object(out)
        },
        _ => {
            let out: Vec<(String, Json)> = Vec::new();
            proof {
                lemma_object_view(out);
            }
            assert(entry_views(out@) =~= Seq::empty());
            Json::Object(out)
        },
    }
}

} // verus!
