//! Which documents are read as an answer, and as what, stated on the documents' own entries.

use vstd::prelude::*;

use crate::entries::{entry, lemma_entry_found, written_once};
use crate::json::{record, Json, JsonView};
use crate::response::{
    decision_in, decision_keys, decision_read, decision_refused, decisions_in, decisions_read,
    decisions_refused, reads, refuses_one, response_in, response_read, result_in, OpaResponse,
    OpaResult, WireDecisionView, WireResourceDecision,
};

verus! {

/// A received document says what it is made of, and nothing is lost or changed on the way.
pub proof fn law_document_says_what_it_is_made_of(
    b: bool,
    n: serde_json::Number,
    text: String,
    items: Vec<Json>,
    entries: Vec<(String, Json)>,
)
    ensures
        Json::Null@ == JsonView::Null,
        Json::Bool(b)@ == JsonView::Bool(b),
        Json::Number(n)@ == JsonView::Number(n),
        Json::Text(text)@ == JsonView::Text(text@),
        Json::Array(items)@ == JsonView::Array(Seq::new(items@.len(), |i: int| items@[i]@)),
        Json::Object(entries)@ == JsonView::Object(
            Seq::new(entries@.len(), |i: int| (entries@[i].0@, entries@[i].1@)),
        ),
        Json::Unreadable@ == JsonView::Unreadable,
{
    assert(Json::Array(items)@->Array_0 =~= Seq::new(items@.len(), |i: int| items@[i]@));
    assert(Json::Object(entries)@->Object_0 =~= Seq::new(
        entries@.len(),
        |i: int| (entries@[i].0@, entries@[i].1@),
    ));
}

// ---- keys ----

/// Whether `key` is written twice.
pub open spec fn repeats(entries: Seq<(Seq<char>, JsonView)>, key: Seq<char>) -> bool {
    exists|i: int, j: int|
        0 <= i < j < entries.len() && (#[trigger] entries[i]).0 == key && (
        #[trigger] entries[j]).0 == key
}

/// Whether `key` is not written at all.
pub open spec fn without(entries: Seq<(Seq<char>, JsonView)>, key: Seq<char>) -> bool {
    forall|i: int| 0 <= i < entries.len() ==> (#[trigger] entries[i]).0 != key
}

proof fn lemma_entry_once(entries: Seq<(Seq<char>, JsonView)>, key: Seq<char>)
    requires
        !repeats(entries, key),
    ensures
        forall|v: JsonView| #[trigger]
            entries.contains((key, v)) <==> entry(entries, key) == Some(v),
        without(entries, key) <==> entry(entries, key) is None,
        forall|i: int|
            0 <= i < entries.len() && (#[trigger] entries[i]).0 == key ==> entry(entries, key)
                == Some(entries[i].1),
    decreases entries.len(),
{
    lemma_entry_found(entries, key);
    if entries.len() > 0 {
        let rest = entries.drop_first();
        assert(!repeats(rest, key)) by {
            if repeats(rest, key) {
                let (i, j) = choose|i: int, j: int|
                    0 <= i < j < rest.len() && (#[trigger] rest[i]).0 == key && (
                    #[trigger] rest[j]).0 == key;
                assert(entries[i + 1].0 == key && entries[j + 1].0 == key);
            }
        }
        lemma_entry_once(rest, key);
        assert forall|i: int|
            0 <= i < entries.len() && (#[trigger] entries[i]).0 == key implies entry(entries, key)
            == Some(entries[i].1) by {
            if i > 0 {
                assert(rest[i - 1] == entries[i]);
                if entries[0].0 == key {
                    assert(repeats(entries, key));
                }
            }
        }
        assert forall|v: JsonView| #[trigger] entries.contains((key, v)) <==> entry(entries, key)
            == Some(v) by {
            if entries.contains((key, v)) {
                let i = choose|i: int| 0 <= i < entries.len() && entries[i] == (key, v);
                assert(entries[i].0 == key);
            }
            if entry(entries, key) == Some(v) {
                let i = choose|i: int|
                    0 <= i < entries.len() && (#[trigger] entries[i]).0 == key;
                assert(entries[i] == (key, v));
            }
        }
    }
}

proof fn lemma_record_of_object(entries: Seq<(Seq<char>, JsonView)>, keys: Seq<Seq<char>>)
    ensures
        record(JsonView::Object(entries), keys) is Some <==> forall|k: int|
            0 <= k < keys.len() ==> !repeats(entries, #[trigger] keys[k]),
        record(JsonView::Object(entries), keys) matches Some(f) ==> f.len() == keys.len() && (
        forall|k: int| 0 <= k < keys.len() ==> #[trigger] f[k] == entry(entries, keys[k])),
{
    if written_once(entries, keys) {
        assert forall|k: int| 0 <= k < keys.len() implies !repeats(entries, #[trigger] keys[k]) by {
            if repeats(entries, keys[k]) {
                let (i, j) = choose|i: int, j: int|
                    0 <= i < j < entries.len() && (#[trigger] entries[i]).0 == keys[k] && (
                    #[trigger] entries[j]).0 == keys[k];
                assert(keys.contains(entries[i].0));
            }
        }
    } else {
        let (i, j) = choose|i: int, j: int|
            0 <= i < j < entries.len() && (#[trigger] entries[i]).0 == (#[trigger] entries[j]).0
                && keys.contains(entries[i].0);
        let k = choose|k: int| 0 <= k < keys.len() && keys[k] == entries[i].0;
        assert(entries[j].0 == keys[k]);
        assert(repeats(entries, keys[k]));
    }
}

// ---- decisions ----

/// Whether an entry of a decision may stand as it is: an echo and a reason are strings or `null`,
/// `allow` is a flag, and filters and masks are lists of readable items. Other keys hold anything.
pub open spec fn fits_a_decision(key: Seq<char>, value: JsonView) -> bool {
    &&& key == "table"@ || key == "name"@ || key == "reason"@ ==> value is Null || value is Text
    &&& key == "allow"@ ==> value is Bool
    &&& key == "rowFilters"@ || key == "columnMasks"@ ==> value is Array
        && !value->Array_0.contains(JsonView::Unreadable)
}

/// An object is a decision exactly where it writes none of a decision's keys twice and each of
/// its entries fits. The decision then says what the entries say: what is written under a key,
/// and where a key is not written, no echo and no reason, no allowance, no filters and no masks.
pub proof fn law_object_as_decision(entries: Seq<(Seq<char>, JsonView)>)
    ensures
        decision_in(JsonView::Object(entries)) is Some <==> {
            &&& !repeats(entries, "table"@)
            &&& !repeats(entries, "name"@)
            &&& !repeats(entries, "allow"@)
            &&& !repeats(entries, "reason"@)
            &&& !repeats(entries, "rowFilters"@)
            &&& !repeats(entries, "columnMasks"@)
            &&& forall|i: int|
                0 <= i < entries.len() ==> fits_a_decision(
                    (#[trigger] entries[i]).0,
                    entries[i].1,
                )
        },
        decision_in(JsonView::Object(entries)) matches Some(d) ==> {
            &&& forall|t: Seq<char>|
                d.table == Some(t) <==> #[trigger] entries.contains(("table"@, JsonView::Text(t)))
            &&& forall|t: Seq<char>|
                d.name == Some(t) <==> #[trigger] entries.contains(("name"@, JsonView::Text(t)))
            &&& forall|t: Seq<char>|
                d.reason == Some(t) <==> #[trigger] entries.contains(
                    ("reason"@, JsonView::Text(t)),
                )
            &&& d.allow <==> entries.contains(("allow"@, JsonView::Bool(true)))
            &&& without(entries, "rowFilters"@) ==> d.row_filters.len() == 0
            &&& without(entries, "columnMasks"@) ==> d.column_masks.len() == 0
            &&& forall|items: Seq<JsonView>| #[trigger]
                entries.contains(("rowFilters"@, JsonView::Array(items))) ==> d.row_filters
                    == items
            &&& forall|items: Seq<JsonView>| #[trigger]
                entries.contains(("columnMasks"@, JsonView::Array(items))) ==> d.column_masks
                    == items
        },
{
    let keys = decision_keys();
    assert(keys.len() == 6);
    assert(keys[0] == "table"@ && keys[1] == "name"@ && keys[2] == "allow"@ && keys[3]
        == "reason"@ && keys[4] == "rowFilters"@ && keys[5] == "columnMasks"@);
    lemma_record_of_object(entries, keys);
    let doc = JsonView::Object(entries);
    if record(doc, keys) is Some {
        assert(!repeats(entries, keys[0]) && !repeats(entries, keys[1]) && !repeats(
            entries,
            keys[2],
        ) && !repeats(entries, keys[3]) && !repeats(entries, keys[4]) && !repeats(
            entries,
            keys[5],
        ));
        lemma_entry_once(entries, "table"@);
        lemma_entry_once(entries, "name"@);
        lemma_entry_once(entries, "allow"@);
        lemma_entry_once(entries, "reason"@);
        lemma_entry_once(entries, "rowFilters"@);
        lemma_entry_once(entries, "columnMasks"@);
        let f = record(doc, keys)->0;
        assert(f[0] == entry(entries, "table"@) && f[1] == entry(entries, "name"@) && f[2]
            == entry(entries, "allow"@) && f[3] == entry(entries, "reason"@) && f[4] == entry(
            entries,
            "rowFilters"@,
        ) && f[5] == entry(entries, "columnMasks"@));
        if decision_in(doc) is Some {
            assert forall|i: int| 0 <= i < entries.len() implies fits_a_decision(
                (#[trigger] entries[i]).0,
                entries[i].1,
            ) by {}
        }
        if forall|i: int|
            0 <= i < entries.len() ==> fits_a_decision((#[trigger] entries[i]).0, entries[i].1) {
            lemma_fitting_entry(entries, "table"@);
            lemma_fitting_entry(entries, "name"@);
            lemma_fitting_entry(entries, "allow"@);
            lemma_fitting_entry(entries, "reason"@);
            lemma_fitting_entry(entries, "rowFilters"@);
            lemma_fitting_entry(entries, "columnMasks"@);
            assert(decision_in(doc) is Some);
        }
    } else {
        let k = choose|k: int| 0 <= k < keys.len() && repeats(entries, #[trigger] keys[k]);
        assert(k == 0 || k == 1 || k == 2 || k == 3 || k == 4 || k == 5);
    }
}

proof fn lemma_fitting_entry(entries: Seq<(Seq<char>, JsonView)>, key: Seq<char>)
    requires
        !repeats(entries, key),
        forall|i: int|
            0 <= i < entries.len() ==> fits_a_decision((#[trigger] entries[i]).0, entries[i].1),
    ensures
        entry(entries, key) matches Some(v) ==> fits_a_decision(key, v),
{
    lemma_entry_once(entries, key);
    if entry(entries, key) is Some {
        lemma_entry_found(entries, key);
        let i = choose|i: int| 0 <= i < entries.len() && (#[trigger] entries[i]).0 == key;
        assert(fits_a_decision(entries[i].0, entries[i].1));
    }
}

/// Whether a document is the text `said`, or `null` where nothing is said.
pub open spec fn says(value: JsonView, said: Option<Seq<char>>) -> bool {
    match said {
        Some(t) => value == JsonView::Text(t),
        None => value is Null,
    }
}

/// An array is a decision exactly where it is not too long and each item fits its place: `table`,
/// `name`, `allow`, `reason`, `rowFilters`, `columnMasks`. The decision then says what stands in
/// those places.
pub proof fn law_array_as_decision(items: Seq<JsonView>)
    ensures
        decision_in(JsonView::Array(items)) is Some <==> {
            &&& items.len() <= 6
            &&& items.len() > 0 ==> fits_a_decision("table"@, items[0])
            &&& items.len() > 1 ==> fits_a_decision("name"@, items[1])
            &&& items.len() > 2 ==> fits_a_decision("allow"@, items[2])
            &&& items.len() > 3 ==> fits_a_decision("reason"@, items[3])
            &&& items.len() > 4 ==> fits_a_decision("rowFilters"@, items[4])
            &&& items.len() > 5 ==> fits_a_decision("columnMasks"@, items[5])
        },
        decision_in(JsonView::Array(items)) matches Some(d) ==> {
            &&& if items.len() > 0 {
                says(items[0], d.table)
            } else {
                d.table is None
            }
            &&& if items.len() > 1 {
                says(items[1], d.name)
            } else {
                d.name is None
            }
            &&& d.allow <==> items.len() > 2 && items[2] == JsonView::Bool(true)
            &&& if items.len() > 3 {
                says(items[3], d.reason)
            } else {
                d.reason is None
            }
            &&& d.row_filters == (if items.len() > 4 {
                items[4]->Array_0
            } else {
                Seq::empty()
            })
            &&& d.column_masks == (if items.len() > 5 {
                items[5]->Array_0
            } else {
                Seq::empty()
            })
        },
{
    reveal_strlit("table");
    reveal_strlit("name");
    reveal_strlit("allow");
    reveal_strlit("reason");
    reveal_strlit("rowFilters");
    reveal_strlit("columnMasks");
    assert("table"@.len() == 5 && "name"@.len() == 4 && "allow"@.len() == 5 && "reason"@.len() == 6
        && "rowFilters"@.len() == 10 && "columnMasks"@.len() == 11);
    assert("table"@[0] == 't' && "allow"@[0] == 'a');
    let doc = JsonView::Array(items);
    if items.len() <= 6 {
        let f = record(doc, decision_keys())->0;
        assert(f.len() == 6);
        assert(f[0] == (if 0 < items.len() {
            Some(items[0])
        } else {
            None
        }));
        assert(f[1] == (if 1 < items.len() {
            Some(items[1])
        } else {
            None
        }));
        assert(f[2] == (if 2 < items.len() {
            Some(items[2])
        } else {
            None
        }));
        assert(f[3] == (if 3 < items.len() {
            Some(items[3])
        } else {
            None
        }));
        assert(f[4] == (if 4 < items.len() {
            Some(items[4])
        } else {
            None
        }));
        assert(f[5] == (if 5 < items.len() {
            Some(items[5])
        } else {
            None
        }));
    }
}

// ---- results and responses ----

/// Whether `decisions` are what `docs` hold, one for one.
pub open spec fn hold_decisions(
    docs: Seq<JsonView>,
    decisions: Seq<WireDecisionView<JsonView, JsonView>>,
) -> bool {
    &&& decisions.len() == docs.len()
    &&& forall|i: int|
        0 <= i < docs.len() ==> decision_in(#[trigger] docs[i]) == Some(decisions[i])
}

proof fn lemma_decisions(docs: Seq<JsonView>)
    ensures
        decisions_in(docs) is Some <==> forall|i: int|
            0 <= i < docs.len() ==> decision_in(#[trigger] docs[i]) is Some,
        decisions_in(docs) matches Some(ds) ==> hold_decisions(docs, ds),
{
}

/// An object is a result exactly where `resources` is written at most once, as a list of
/// decisions; the result holds those decisions in their order, and none where it is not written.
pub proof fn law_object_as_result(entries: Seq<(Seq<char>, JsonView)>)
    ensures
        result_in(JsonView::Object(entries)) is Some <==> {
            &&& !repeats(entries, "resources"@)
            &&& forall|i: int|
                0 <= i < entries.len() && (#[trigger] entries[i]).0 == "resources"@ ==> {
                    &&& entries[i].1 is Array
                    &&& forall|j: int|
                        0 <= j < entries[i].1->Array_0.len() ==> decision_in(
                            #[trigger] entries[i].1->Array_0[j],
                        ) is Some
                }
        },
        result_in(JsonView::Object(entries)) matches Some(ds) ==> {
            &&& without(entries, "resources"@) ==> ds.len() == 0
            &&& forall|docs: Seq<JsonView>| #[trigger]
                entries.contains(("resources"@, JsonView::Array(docs))) ==> hold_decisions(docs, ds)
        },
{
    let keys = seq!["resources"@];
    assert(keys.len() == 1 && keys[0] == "resources"@);
    lemma_record_of_object(entries, keys);
    let doc = JsonView::Object(entries);
    if record(doc, keys) is Some {
        assert(!repeats(entries, keys[0]));
        lemma_entry_once(entries, "resources"@);
        lemma_entry_found(entries, "resources"@);
        let f = record(doc, keys)->0;
        assert(f[0] == entry(entries, "resources"@));
        match entry(entries, "resources"@) {
            Some(v) => {
                let i = choose|i: int|
                    0 <= i < entries.len() && (#[trigger] entries[i]).0 == "resources"@;
                assert(entries[i].1 == v);
                if v is Array {
                    lemma_decisions(v->Array_0);
                }
            },
            None => {
                lemma_decisions(Seq::empty());
            },
        }
    } else {
        let k = choose|k: int| 0 <= k < keys.len() && repeats(entries, #[trigger] keys[k]);
        assert(k == 0);
    }
}

/// An array is a result exactly where it is empty, or holds one list of decisions alone.
pub proof fn law_array_as_result(items: Seq<JsonView>)
    ensures
        result_in(JsonView::Array(items)) is Some <==> items.len() == 0 || {
            &&& items.len() == 1
            &&& items[0] is Array
            &&& forall|j: int|
                0 <= j < items[0]->Array_0.len() ==> decision_in(
                    #[trigger] items[0]->Array_0[j],
                ) is Some
        },
        result_in(JsonView::Array(items)) matches Some(ds) ==> {
            &&& items.len() == 0 ==> ds.len() == 0
            &&& items.len() == 1 ==> hold_decisions(items[0]->Array_0, ds)
        },
{
    lemma_decisions(Seq::empty());
    if items.len() <= 1 {
        let f = record(JsonView::Array(items), seq!["resources"@])->0;
        assert(f[0] == (if 0 < items.len() {
            Some(items[0])
        } else {
            None
        }));
        if items.len() == 1 && items[0] is Array {
            lemma_decisions(items[0]->Array_0);
        }
    }
}

/// An object is a response exactly where `result` is written at most once, as `null` or as a
/// result; the response holds that result, and none where it is not written or `null`.
pub proof fn law_object_as_response(entries: Seq<(Seq<char>, JsonView)>)
    ensures
        response_in(JsonView::Object(entries)) is Some <==> {
            &&& !repeats(entries, "result"@)
            &&& forall|i: int|
                0 <= i < entries.len() && (#[trigger] entries[i]).0 == "result"@
                    ==> entries[i].1 is Null || result_in(entries[i].1) is Some
        },
        response_in(JsonView::Object(entries)) matches Some(r) ==> {
            &&& without(entries, "result"@) ==> r is None
            &&& entries.contains(("result"@, JsonView::Null)) ==> r is None
            &&& forall|v: JsonView| #[trigger]
                entries.contains(("result"@, v)) && !(v is Null) ==> r is Some && result_in(v) == r
        },
{
    let keys = seq!["result"@];
    assert(keys.len() == 1 && keys[0] == "result"@);
    lemma_record_of_object(entries, keys);
    let doc = JsonView::Object(entries);
    if record(doc, keys) is Some {
        assert(!repeats(entries, keys[0]));
        lemma_entry_once(entries, "result"@);
        lemma_entry_found(entries, "result"@);
        let f = record(doc, keys)->0;
        assert(f[0] == entry(entries, "result"@));
        if entry(entries, "result"@) is Some {
            let i = choose|i: int|
                0 <= i < entries.len() && (#[trigger] entries[i]).0 == "result"@;
            assert(entries[i].1 == entry(entries, "result"@)->0);
        }
    } else {
        let k = choose|k: int| 0 <= k < keys.len() && repeats(entries, #[trigger] keys[k]);
        assert(k == 0);
    }
}

/// An array is a response exactly where it is empty, or holds `null` or a result alone.
pub proof fn law_array_as_response(items: Seq<JsonView>)
    ensures
        response_in(JsonView::Array(items)) is Some <==> items.len() == 0 || (items.len() == 1 && (
        items[0] is Null || result_in(items[0]) is Some)),
        response_in(JsonView::Array(items)) matches Some(r) ==> {
            &&& items.len() == 0 || items[0] is Null ==> r is None
            &&& items.len() == 1 && !(items[0] is Null) ==> r is Some && result_in(items[0]) == r
        },
{
    if items.len() <= 1 {
        let f = record(JsonView::Array(items), seq!["result"@])->0;
        assert(f[0] == (if 0 < items.len() {
            Some(items[0])
        } else {
            None
        }));
    }
}

/// Nothing but an object or an array is a decision, a result or a response.
pub proof fn law_scalars_are_refused(doc: JsonView)
    requires
        !(doc is Object),
        !(doc is Array),
    ensures
        decision_in(doc) is None,
        result_in(doc) is None,
        response_in(doc) is None,
{
}

// ---- answers ----

/// A decision, a result and a response say what their fields hold.
pub proof fn law_answer_says_what_it_is_made_of<F, M>(
    d: WireResourceDecision<F, M>,
    result: OpaResult<F, M>,
    response: OpaResponse<F, M>,
)
    ensures
        d@.table is Some <==> d.table is Some,
        d.table is Some ==> d@.table->0 == d.table->0@,
        d@.name is Some <==> d.name is Some,
        d.name is Some ==> d@.name->0 == d.name->0@,
        d@.allow == d.allow,
        d@.reason is Some <==> d.reason is Some,
        d.reason is Some ==> d@.reason->0 == d.reason->0@,
        d@.row_filters == d.row_filters@,
        d@.column_masks == d.column_masks@,
        result@.len() == result.resources@.len(),
        forall|i: int|
            0 <= i < result.resources@.len() ==> #[trigger] result@[i] == result.resources@[i]@,
        response@ is Some <==> response.result is Some,
        response.result is Some ==> response@->0 == response.result->0@,
{
}

// ---- filters and masks ----

/// Whether `answer` may come back from `read` for the document `doc`.
pub open spec fn answers<T, R: Fn(Json) -> Option<T>>(
    read: R,
    doc: JsonView,
    answer: Option<T>,
) -> bool {
    exists|d: Json| #[trigger] call_ensures(read, (d,), answer) && d@ == doc
}

/// A decision that is read says what its document says, and each of its row filters and column
/// masks is what its reader gave for the item in that place.
pub proof fn law_reading_keeps_the_decision<
    F,
    M,
    RF: Fn(Json) -> Option<F>,
    RM: Fn(Json) -> Option<M>,
>(
    docs: WireDecisionView<JsonView, JsonView>,
    d: WireDecisionView<F, M>,
    read_filter: RF,
    read_mask: RM,
)
    requires
        decision_read(docs, d, read_filter, read_mask),
    ensures
        d.table == docs.table,
        d.name == docs.name,
        d.allow == docs.allow,
        d.reason == docs.reason,
        d.row_filters.len() == docs.row_filters.len(),
        d.column_masks.len() == docs.column_masks.len(),
        forall|i: int|
            0 <= i < d.row_filters.len() ==> answers(
                read_filter,
                docs.row_filters[i],
                Some(#[trigger] d.row_filters[i]),
            ),
        forall|i: int|
            0 <= i < d.column_masks.len() ==> answers(
                read_mask,
                docs.column_masks[i],
                Some(#[trigger] d.column_masks[i]),
            ),
{
    assert forall|i: int| 0 <= i < d.row_filters.len() implies answers(
        read_filter,
        docs.row_filters[i],
        Some(#[trigger] d.row_filters[i]),
    ) by {
        assert(reads(read_filter, docs.row_filters[i], Some(d.row_filters[i])));
    }
    assert forall|i: int| 0 <= i < d.column_masks.len() implies answers(
        read_mask,
        docs.column_masks[i],
        Some(#[trigger] d.column_masks[i]),
    ) by {
        assert(reads(read_mask, docs.column_masks[i], Some(d.column_masks[i])));
    }
}

/// A result that is read has as many decisions as its document, each read in its place.
pub proof fn law_reading_keeps_the_result<
    F,
    M,
    RF: Fn(Json) -> Option<F>,
    RM: Fn(Json) -> Option<M>,
>(
    docs: Seq<WireDecisionView<JsonView, JsonView>>,
    r: Seq<WireDecisionView<F, M>>,
    read_filter: RF,
    read_mask: RM,
)
    requires
        decisions_read(docs, r, read_filter, read_mask),
    ensures
        r.len() == docs.len(),
        forall|i: int|
            0 <= i < r.len() ==> decision_read(docs[i], #[trigger] r[i], read_filter, read_mask),
{
}

/// A response that is read has a result exactly where its document has one, with as many
/// decisions, each read in its place.
pub proof fn law_reading_keeps_the_response<
    F,
    M,
    RF: Fn(Json) -> Option<F>,
    RM: Fn(Json) -> Option<M>,
>(
    docs: Option<Seq<WireDecisionView<JsonView, JsonView>>>,
    r: Option<Seq<WireDecisionView<F, M>>>,
    read_filter: RF,
    read_mask: RM,
)
    requires
        response_read(docs, r, read_filter, read_mask),
    ensures
        r is Some <==> docs is Some,
        r is Some ==> r->0.len() == docs->0.len() && (forall|i: int|
            0 <= i < r->0.len() ==> decision_read(
                docs->0[i],
                #[trigger] r->0[i],
                read_filter,
                read_mask,
            )),
{
}

/// A well-formed document is refused only on account of an item: some row filter or column mask
/// that it lists, and that its reader gave nothing for.
pub proof fn law_refusal_has_an_item<
    F,
    M,
    RF: Fn(Json) -> Option<F>,
    RM: Fn(Json) -> Option<M>,
>(
    docs: Seq<WireDecisionView<JsonView, JsonView>>,
    read_filter: RF,
    read_mask: RM,
) -> (place: (int, int))
    requires
        decisions_refused(docs, read_filter, read_mask),
    ensures
        ({
            let (i, j) = place;
            &&& 0 <= i < docs.len()
            &&& {
                ||| 0 <= j < docs[i].row_filters.len() && answers(
                    read_filter,
                    docs[i].row_filters[j],
                    None,
                )
                ||| 0 <= j < docs[i].column_masks.len() && answers(
                    read_mask,
                    docs[i].column_masks[j],
                    None,
                )
            }
        }),
{
    let i = choose|i: int|
        0 <= i < docs.len() && decision_refused(#[trigger] docs[i], read_filter, read_mask);
    let j = if refuses_one(read_filter, docs[i].row_filters) {
        choose|j: int|
            0 <= j < docs[i].row_filters.len() && reads(
                read_filter,
                #[trigger] docs[i].row_filters[j],
                None,
            )
    } else {
        choose|j: int|
            0 <= j < docs[i].column_masks.len() && reads(
                read_mask,
                #[trigger] docs[i].column_masks[j],
                None,
            )
    };
    (i, j)
}

} // verus!
