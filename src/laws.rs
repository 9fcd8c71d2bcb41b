use vstd::prelude::*;
use crate::convert::activities_of;
use crate::json::{JsonModel, field, field_of, items_of};
use crate::project::{
    ItemRule, add_once, by_percentage, core_entries, core_entry, first_max, gather,
    gather_entries, gather_items, human_text, item_rule, kept, kept_key, meta_entries,
    list_of, note_narrative, percent_units, project, sectors_of, transaction_amount,
    transaction_item,
};
use crate::text::{alphabetic, trimmed};

verus! {

/// Every item that a rule keeps is the reshaping of some source item.
pub proof fn lemma_kept_from_source(rule: ItemRule, s: Seq<JsonModel>)
    ensures
        forall|i: int|
            0 <= i < kept(rule, s).len() ==> exists|j: int|
                0 <= j < s.len() && item_rule(rule, #[trigger] s[j]) == Some(
                    #[trigger] kept(rule, s)[i],
                ),
    decreases s.len(),
{
    if s.len() > 0 {
        let p = s.drop_last();
        lemma_kept_from_source(rule, p);
        assert forall|i: int| 0 <= i < kept(rule, s).len() implies exists|j: int|
            0 <= j < s.len() && item_rule(rule, #[trigger] s[j]) == Some(
                #[trigger] kept(rule, s)[i],
            ) by {
            if i < kept(rule, p).len() {
                let j = choose|j: int|
                    0 <= j < p.len() && item_rule(rule, #[trigger] p[j]) == Some(kept(rule, p)[i]);
                assert(s[j] == p[j]);
            } else {
                assert(s[s.len() - 1] == s.last());
            }
        }
    }
}

/// The type code, the date and the amount of a source transaction all
/// resolve.
pub open spec fn transaction_complete(t: JsonModel) -> bool {
    &&& field_of(field(t, "transaction-type"@), "code"@) is Some
    &&& field_of(field(t, "transaction-date"@), "iso-date"@) is Some
    &&& transaction_amount(field(t, "value"@)) is Some
}

/// A transaction that lacks its type code, its date or its amount never
/// reaches the output: each kept transaction is the reshaping of a source
/// transaction in which all three resolve.
pub proof fn lemma_transactions_complete(s: Seq<JsonModel>)
    ensures
        forall|i: int|
            #![trigger kept(ItemRule::Transaction, s)[i]]
            0 <= i < kept(ItemRule::Transaction, s).len() ==> exists|j: int|
                #![trigger s[j]]
                0 <= j < s.len() && transaction_item(s[j]) == Some(
                    kept(ItemRule::Transaction, s)[i],
                ) && transaction_complete(s[j]),
{
    let k = kept(ItemRule::Transaction, s);
    lemma_kept_from_source(ItemRule::Transaction, s);
    assert forall|i: int| #![trigger k[i]] 0 <= i < k.len() implies exists|j: int|
        #![trigger s[j]]
        0 <= j < s.len() && transaction_item(s[j]) == Some(k[i]) && transaction_complete(s[j]) by {
        let j = choose|j: int|
            0 <= j < s.len() && item_rule(ItemRule::Transaction, #[trigger] s[j]) == Some(k[i]);
        assert(transaction_item(s[j]) == Some(k[i]));
    }
}

proof fn lemma_core_from_source(e: Seq<(Seq<char>, JsonModel)>)
    ensures
        forall|i: int|
            #![trigger core_entries(e)[i]]
            0 <= i < core_entries(e).len() ==> exists|m: int|
                #![trigger e[m]]
                0 <= m < e.len() && core_entry(e[m].0, e[m].1) == Some(core_entries(e)[i]),
    decreases e.len(),
{
    if e.len() > 0 {
        let p = e.drop_last();
        lemma_core_from_source(p);
        assert forall|i: int| #![trigger core_entries(e)[i]] 0 <= i < core_entries(e).len() implies exists|m: int|
            #![trigger e[m]]
            0 <= m < e.len() && core_entry(e[m].0, e[m].1) == Some(core_entries(e)[i]) by {
            if i < core_entries(p).len() {
                let m = choose|m: int|
                    #![trigger p[m]]
                    0 <= m < p.len() && core_entry(p[m].0, p[m].1) == Some(core_entries(p)[i]);
                assert(e[m] == p[m]);
            } else {
                assert(e[e.len() - 1] == e.last());
            }
        }
    }
}

/// Where the projection's entries come from: each `transaction` entry is the
/// kept transactions of a source `transaction` field, and a `meta` entry is
/// the activity's derived summary.
pub proof fn lemma_projection_layout(a: JsonModel)
    requires
        a is Object,
    ensures
        forall|i: int|
            #![trigger project(a)->Object_0[i]]
            0 <= i < project(a)->Object_0.len() && project(a)->Object_0[i].0 == "transaction"@
                ==> exists|m: int|
                #![trigger a->Object_0[m]]
                0 <= m < a->Object_0.len() && a->Object_0[m].0 == "transaction"@
                    && project(a)->Object_0[i].1 == JsonModel::Array(
                    kept(ItemRule::Transaction, items_of(a->Object_0[m].1)),
                ),
        forall|i: int|
            #![trigger project(a)->Object_0[i]]
            0 <= i < project(a)->Object_0.len() && project(a)->Object_0[i].0 == "meta"@
                ==> project(a)->Object_0[i].1 == JsonModel::Object(meta_entries(a)),
{
    let e = a->Object_0;
    let out = project(a)->Object_0;
    let core = core_entries(e);
    lemma_core_from_source(e);
    reveal_strlit("transaction");
    reveal_strlit("meta");
    reveal_strlit("description");
    reveal_strlit("title");
    reveal_strlit("reporting-org");
    reveal_strlit("default-currency");
    reveal_strlit("last-updated-datetime");
    reveal_strlit("iati-identifier");
    reveal_strlit("participating-org");
    reveal_strlit("activity-status");
    reveal_strlit("recipient-country");
    reveal_strlit("recipient-region");
    reveal_strlit("location");
    assert("meta"@.len() == 4);
    assert("transaction"@.len() == 11);
    assert("default-currency"@.len() == 16);
    assert("last-updated-datetime"@.len() == 21);
    assert("iati-identifier"@.len() == 15);
    assert("reporting-org"@.len() == 13);
    assert("title"@.len() == 5);
    assert("description"@.len() == 11);
    assert("participating-org"@.len() == 17);
    assert("activity-status"@.len() == 15);
    assert("recipient-country"@.len() == 17);
    assert("recipient-region"@.len() == 16);
    assert("location"@.len() == 8);
    assert("transaction"@ != "description"@) by {
        assert("transaction"@[0] != "description"@[0]);
    }
    assert(!kept_key("meta"@));
    assert forall|i: int|
        #![trigger out[i]]
        0 <= i < out.len() && out[i].0 == "transaction"@ implies exists|m: int|
        #![trigger e[m]]
        0 <= m < e.len() && e[m].0 == "transaction"@ && out[i].1 == JsonModel::Array(
            kept(ItemRule::Transaction, items_of(e[m].1)),
        ) by {
        if i < core.len() {
            assert(out[i] == core[i]);
            let m = choose|m: int|
                #![trigger e[m]]
                0 <= m < e.len() && core_entry(e[m].0, e[m].1) == Some(core[i]);
            assert(e[m].0 == "transaction"@);
        } else {
            assert(out[i].0 == "meta"@);
        }
    }
    assert forall|i: int|
        #![trigger out[i]]
        0 <= i < out.len() && out[i].0 == "meta"@ implies out[i].1 == JsonModel::Object(
            meta_entries(a),
        ) by {
        if i < core.len() {
            assert(out[i] == core[i]);
            let m = choose|m: int|
                #![trigger e[m]]
                0 <= m < e.len() && core_entry(e[m].0, e[m].1) == Some(core[i]);
            assert(kept_key(e[m].0));
        }
    }
}

/// In a projection, every element of a `transaction` list is the reshaping
/// of a source transaction whose type code, date and amount all resolve; a
/// transaction lacking any of them never appears.
pub proof fn lemma_projected_transactions_complete(a: JsonModel)
    requires
        a is Object,
    ensures
        forall|i: int, k: int|
            #![trigger project(a)->Object_0[i], project(a)->Object_0[i].1->Array_0[k]]
            0 <= i < project(a)->Object_0.len() && project(a)->Object_0[i].0 == "transaction"@
                && 0 <= k < project(a)->Object_0[i].1->Array_0.len() ==> project(
                a,
            )->Object_0[i].1 is Array && exists|m: int, j: int|
                #![trigger a->Object_0[m], items_of(a->Object_0[m].1)[j]]
                0 <= m < a->Object_0.len() && a->Object_0[m].0 == "transaction"@ && 0 <= j
                    < items_of(a->Object_0[m].1).len() && transaction_item(
                    items_of(a->Object_0[m].1)[j],
                ) == Some(project(a)->Object_0[i].1->Array_0[k]) && transaction_complete(
                    items_of(a->Object_0[m].1)[j],
                ),
{
    let out = project(a)->Object_0;
    let e = a->Object_0;
    lemma_projection_layout(a);
    assert forall|i: int, k: int|
        #![trigger out[i], out[i].1->Array_0[k]]
        0 <= i < out.len() && out[i].0 == "transaction"@ && 0 <= k < out[i].1->Array_0.len()
            implies out[i].1 is Array && exists|m: int, j: int|
            #![trigger e[m], items_of(e[m].1)[j]]
            0 <= m < e.len() && e[m].0 == "transaction"@ && 0 <= j < items_of(e[m].1).len()
                && transaction_item(items_of(e[m].1)[j]) == Some(out[i].1->Array_0[k])
                && transaction_complete(items_of(e[m].1)[j]) by {
        let m = choose|m: int|
            #![trigger e[m]]
            0 <= m < e.len() && e[m].0 == "transaction"@ && out[i].1 == JsonModel::Array(
                kept(ItemRule::Transaction, items_of(e[m].1)),
            );
        let src = items_of(e[m].1);
        lemma_transactions_complete(src);
        let kk = kept(ItemRule::Transaction, src);
        assert(kk[k] == out[i].1->Array_0[k]);
        let j = choose|j: int|
            #![trigger src[j]]
            0 <= j < src.len() && transaction_item(src[j]) == Some(kk[k]) && transaction_complete(
                src[j],
            );
        assert(e[m] == a->Object_0[m]);
    }
}

proof fn lemma_first_max_is_max(s: Seq<JsonModel>, n: int)
    requires
        1 <= n <= s.len(),
    ensures
        0 <= first_max(s, n) < n,
        forall|j: int|
            0 <= j < n ==> percent_units(s[first_max(s, n)]) >= percent_units(#[trigger] s[j]),
        forall|j: int|
            0 <= j < first_max(s, n) ==> percent_units(#[trigger] s[j]) < percent_units(
                s[first_max(s, n)],
            ),
    decreases n,
{
    if n > 1 {
        lemma_first_max_is_max(s, n - 1);
    }
}

proof fn lemma_by_percentage_members(s: Seq<JsonModel>)
    ensures
        by_percentage(s).len() == s.len(),
        forall|i: int|
            0 <= i < s.len() ==> exists|j: int|
                0 <= j < s.len() && #[trigger] by_percentage(s)[i] == s[j],
    decreases s.len(),
{
    if s.len() > 0 {
        lemma_first_max_is_max(s, s.len() as int);
        let m = first_max(s, s.len() as int);
        let rest = s.remove(m);
        lemma_by_percentage_members(rest);
        assert forall|i: int| 0 <= i < s.len() implies exists|j: int|
            0 <= j < s.len() && #[trigger] by_percentage(s)[i] == s[j] by {
            if i == 0 {
                assert(by_percentage(s)[0] == s[m]);
            } else {
                assert(by_percentage(s)[i] == by_percentage(rest)[i - 1]);
                let j = choose|j: int|
                    0 <= j < rest.len() && #[trigger] by_percentage(rest)[i - 1] == rest[j];
                if j < m {
                    assert(rest[j] == s[j]);
                } else {
                    assert(rest[j] == s[j + 1]);
                }
            }
        }
    }
}

/// Sectors come out from the greatest percentage down, and the first one,
/// which becomes the purpose, is the first sector with the greatest
/// percentage.
pub proof fn lemma_sectors_ordered(s: Seq<JsonModel>)
    ensures
        by_percentage(s).len() == s.len(),
        forall|i: int|
            0 <= i < by_percentage(s).len() - 1 ==> percent_units(#[trigger] by_percentage(s)[i])
                >= percent_units(by_percentage(s)[i + 1]),
        s.len() > 0 ==> {
            let m = first_max(s, s.len() as int);
            &&& 0 <= m < s.len()
            &&& by_percentage(s)[0] == s[m]
            &&& forall|j: int|
                0 <= j < s.len() ==> percent_units(s[m]) >= percent_units(#[trigger] s[j])
            &&& forall|j: int| 0 <= j < m ==> percent_units(#[trigger] s[j]) < percent_units(s[m])
        },
    decreases s.len(),
{
    lemma_by_percentage_members(s);
    if s.len() > 0 {
        lemma_first_max_is_max(s, s.len() as int);
        let m = first_max(s, s.len() as int);
        let rest = s.remove(m);
        let r = by_percentage(s);
        lemma_sectors_ordered(rest);
        lemma_by_percentage_members(rest);
        assert forall|i: int| 0 <= i < r.len() - 1 implies percent_units(#[trigger] r[i])
            >= percent_units(r[i + 1]) by {
            assert(r[i + 1] == by_percentage(rest)[i]);
            if i == 0 {
                let j = choose|j: int|
                    0 <= j < rest.len() && #[trigger] by_percentage(rest)[0] == rest[j];
                if j < m {
                    assert(rest[j] == s[j]);
                } else {
                    assert(rest[j] == s[j + 1]);
                }
            } else {
                assert(r[i] == by_percentage(rest)[i - 1]);
            }
        }
    }
}

/// When an activity has sectors, its summary opens with the ordered sector
/// list and, as the purpose, the first sector of that list.
pub proof fn lemma_purpose_is_first_sector(a: JsonModel)
    ensures
        sectors_of(a).len() > 0 ==> meta_entries(a).len() >= 2 && meta_entries(a)[0] == (
            "sectors"@,
            JsonModel::Array(sectors_of(a)),
        ) && meta_entries(a)[1] == ("purpose"@, sectors_of(a)[0]),
{
}

/// An activity with sectors projects to a `meta` entry whose `sectors` run
/// from the greatest percentage down and whose `purpose` is the first of
/// them: the first source sector with the greatest percentage.
pub proof fn lemma_projected_sectors(a: JsonModel)
    requires
        a is Object,
        sectors_of(a).len() > 0,
    ensures
        ({
            let out = project(a)->Object_0;
            let s = list_of(ItemRule::Sector, a, "sector"@);
            let sec = sectors_of(a);
            let m = first_max(s, s.len() as int);
            exists|i: int|
                #![trigger out[i]]
                0 <= i < out.len() && out[i] == ("meta"@, JsonModel::Object(meta_entries(a)))
                    && meta_entries(a)[0] == ("sectors"@, JsonModel::Array(sec))
                    && meta_entries(a)[1] == ("purpose"@, sec[0]) && sec[0] == s[m] && (forall|
                    j: int,
                | 0 <= j < s.len() ==> percent_units(s[m]) >= percent_units(#[trigger] s[j]))
                    && (forall|j: int|
                    0 <= j < m ==> percent_units(#[trigger] s[j]) < percent_units(s[m])) && (
                forall|j: int|
                    0 <= j < sec.len() - 1 ==> percent_units(#[trigger] sec[j]) >= percent_units(
                        sec[j + 1],
                    ))
        }),
{
    let s = list_of(ItemRule::Sector, a, "sector"@);
    lemma_sectors_ordered(s);
    lemma_purpose_is_first_sector(a);
    let out = project(a)->Object_0;
    let e = a->Object_0;
    let i = core_entries(e).len() as int;
    assert(out[i] == ("meta"@, JsonModel::Object(meta_entries(a))));
}

/// Projection depends on the input tree alone: two projections of the same
/// activity are identical.
pub proof fn lemma_projection_repeatable(a: JsonModel, b: JsonModel)
    requires
        a == b,
    ensures
        project(a) == project(b),
{
}

/// A text that may stand in the free-text summary.
pub open spec fn summary_text(t: Seq<char>) -> bool {
    t.len() >= 4 && t.contains(' ') && exists|i: int|
        0 <= i < t.len() && alphabetic(#[trigger] t[i])
}

pub open spec fn all_summary_texts(bag: Seq<Seq<char>>) -> bool {
    forall|i: int| 0 <= i < bag.len() ==> summary_text(#[trigger] bag[i])
}

proof fn lemma_note_keeps(key: Seq<char>, v: JsonModel, bag: Seq<Seq<char>>)
    requires
        all_summary_texts(bag),
    ensures
        all_summary_texts(note_narrative(key, v, bag)),
{
    if key == "narrative"@ {
        match v {
            JsonModel::Str(s) => {
                if human_text(s) {
                    let b = add_once(bag, trimmed(s));
                    assert forall|i: int| 0 <= i < b.len() implies summary_text(#[trigger] b[i]) by {
                        if i == bag.len() {
                            assert(b[i] == trimmed(s));
                        } else {
                            assert(b[i] == bag[i]);
                        }
                    }
                }
            },
            _ => {},
        }
    }
}

proof fn lemma_gather_keeps(v: JsonModel, bag: Seq<Seq<char>>)
    requires
        all_summary_texts(bag),
    ensures
        all_summary_texts(gather(v, bag)),
    decreases v, 0nat,
{
    match v {
        JsonModel::Array(a) => lemma_gather_items_keeps(a, a.len() as int, bag),
        JsonModel::Object(o) => lemma_gather_entries_keeps(o, o.len() as int, bag),
        _ => {},
    }
}

proof fn lemma_gather_items_keeps(a: Seq<JsonModel>, n: int, bag: Seq<Seq<char>>)
    requires
        all_summary_texts(bag),
    ensures
        all_summary_texts(gather_items(a, n, bag)),
    decreases a, n,
{
    if 0 < n <= a.len() {
        lemma_gather_items_keeps(a, n - 1, bag);
        lemma_gather_keeps(a[n - 1], gather_items(a, n - 1, bag));
    }
}

proof fn lemma_gather_entries_keeps(o: Seq<(Seq<char>, JsonModel)>, n: int, bag: Seq<Seq<char>>)
    requires
        all_summary_texts(bag),
    ensures
        all_summary_texts(gather_entries(o, n, bag)),
    decreases o, n,
{
    if 0 < n <= o.len() {
        lemma_gather_entries_keeps(o, n - 1, bag);
        let b = gather_entries(o, n - 1, bag);
        lemma_note_keeps(o[n - 1].0, o[n - 1].1, b);
        lemma_gather_keeps(o[n - 1].1, note_narrative(o[n - 1].0, o[n - 1].1, b));
    }
}

/// Only human text reaches the free-text summary: every text collected from
/// an activity is at least four characters long, has a space and has an
/// alphabetic character.
pub proof fn lemma_summary_only_human_text(a: JsonModel)
    ensures
        all_summary_texts(gather(a, Seq::empty())),
{
    lemma_gather_keeps(a, Seq::empty());
}

/// A lone `iati-activity` object under the wrapper yields the same records
/// as the same object inside an array of one.
pub proof fn lemma_single_activity_unwrapped(x: JsonModel)
    requires
        !(x is Array),
    ensures
        activities_of(
            JsonModel::Object(
                seq![("iati-activities"@, JsonModel::Object(seq![("iati-activity"@, x)]))],
            ),
        ) == activities_of(
            JsonModel::Object(
                seq![
                    (
                        "iati-activities"@,
                        JsonModel::Object(seq![("iati-activity"@, JsonModel::Array(seq![x]))]),
                    ),
                ],
            ),
        ),
        activities_of(
            JsonModel::Object(
                seq![("iati-activities"@, JsonModel::Object(seq![("iati-activity"@, x)]))],
            ),
        ) == seq![x],
{
}

} // verus!
