//! What holds of the wire format and of the decisions as a whole.

use vstd::prelude::*;

use crate::access_model::{
    all_allow, denial, AccessRequest, AccessResource, Columns, ResourceKind,
};
use crate::body::{text_list, BodyView};
use crate::entries::{entry, lemma_entry_found, written_once};
use crate::json::{record, Json, JsonView};
use crate::request::{
    hands_out, has_table, optional_member, wire_grant, wire_input, wire_resource, ResourceView,
};
use crate::response::{
    decides, decision_in, decision_keys, decision_on, decision_read, decision_refused,
    decisions_in, decisions_read, decisions_refused, list_field, passed_over, passed_over_reason,
    reads, response_in, response_read, undecided_reason, WireDecisionView,
};
use crate::text::{opt_view, texts};

verus! {

// ---- decisions ----

/// A requested resource is passed over where no decision is about it, and only then.
proof fn lemma_passed_over<F, M>(
    decisions: Seq<WireDecisionView<F, M>>,
    requested: Seq<Seq<char>>,
    name: Seq<char>,
)
    ensures
        passed_over(decisions, requested).contains(name) <==> requested.contains(name) && !decides(
            decisions,
            name,
        ),
    decreases requested.len(),
{
    let over = |n: Seq<char>| !decides(decisions, n);
    reveal(Seq::filter);
    if requested.len() > 0 {
        let rest = requested.drop_last();
        lemma_passed_over(decisions, rest, name);
        assert(requested == rest.push(requested.last()));
        if rest.contains(name) {
            let i = choose|i: int| 0 <= i < rest.len() && rest[i] == name;
            assert(requested[i] == name);
        }
        if requested.contains(name) && name != requested.last() {
            let i = choose|i: int| 0 <= i < requested.len() && requested[i] == name;
            assert(rest[i] == name);
        }
        if over(requested.last()) {
            let before = rest.filter(over);
            let after = before.push(requested.last());
            assert(requested.filter(over) == after);
            if before.contains(name) {
                let i = choose|i: int| 0 <= i < before.len() && before[i] == name;
                assert(after[i] == name);
            }
            assert(after[before.len() as int] == requested.last());
            if after.contains(name) && name != requested.last() {
                let i = choose|i: int| 0 <= i < after.len() && after[i] == name;
                assert(before[i] == name);
            }
        }
        if name == requested.last() {
            assert(requested[requested.len() - 1] == name);
        }
    }
}

/// A response allows a request exactly where it holds decisions, every one of them allows, and
/// each requested resource is the subject of one.
pub proof fn law_allowed_iff_all_explicitly_allowed<F, M>(
    response: Option<Seq<WireDecisionView<F, M>>>,
    requested: Seq<Seq<char>>,
)
    ensures
        all_allow(decision_on(response, requested)) <==> {
            &&& response is Some
            &&& response->0.len() > 0
            &&& forall|i: int| 0 <= i < response->0.len() ==> (#[trigger] response->0[i]).allow
            &&& forall|name: Seq<char>| #[trigger]
                requested.contains(name) ==> decides(response->0, name)
        },
{
    let all = decision_on(response, requested);
    if response is Some && response->0.len() > 0 {
        let decisions = response->0;
        let over = passed_over(decisions, requested);
        assert forall|i: int| 0 <= i < decisions.len() implies all[i] == (
        #[trigger] decisions[i]).verdict() by {}
        if all_allow(all) {
            assert forall|i: int| 0 <= i < decisions.len() implies (
            #[trigger] decisions[i]).allow by {
                assert(all[i].allow);
            }
            assert forall|name: Seq<char>| #[trigger] requested.contains(name) implies decides(
                decisions,
                name,
            ) by {
                lemma_passed_over(decisions, requested, name);
                if !decides(decisions, name) {
                    let k = choose|k: int| 0 <= k < over.len() && over[k] == name;
                    assert(!all[decisions.len() + k].allow);
                }
            }
        }
        if (forall|i: int| 0 <= i < decisions.len() ==> (#[trigger] decisions[i]).allow) && (
        forall|name: Seq<char>| #[trigger] requested.contains(name) ==> decides(decisions, name)) {
            assert(over.len() == 0) by {
                if over.len() > 0 {
                    lemma_passed_over(decisions, requested, over[0]);
                    assert(over.contains(over[0]));
                }
            }
            assert forall|i: int| 0 <= i < all.len() implies (#[trigger] all[i]).allow by {
                assert(decisions[i].allow);
            }
        }
    } else {
        assert(!all[0].allow);
    }
}

/// A response without a result, or with a result that decides nothing, denies every request, even
/// one for no resource; the reason tells how many resources were asked for.
pub proof fn law_undecided_is_denied<F, M>(
    response: Option<Seq<WireDecisionView<F, M>>>,
    requested: Seq<Seq<char>>,
)
    requires
        response matches Some(decisions) ==> decisions.len() == 0,
    ensures
        decision_on(response, requested) == seq![
            denial::<F, M>("*"@, undecided_reason(requested.len())),
        ],
        !all_allow(decision_on(response, requested)),
{
    assert(!decision_on(response, requested)[0].allow);
}

/// A requested resource that no decision is about is denied by an entry of its own, and the
/// request with it.
pub proof fn law_passed_over_is_denied<F, M>(
    decisions: Seq<WireDecisionView<F, M>>,
    requested: Seq<Seq<char>>,
    name: Seq<char>,
)
    requires
        decisions.len() > 0,
        requested.contains(name),
        !decides(decisions, name),
    ensures
        decision_on(Some(decisions), requested).contains(denial::<F, M>(name, passed_over_reason())),
        !all_allow(decision_on(Some(decisions), requested)),
{
    let all = decision_on(Some(decisions), requested);
    let over = passed_over(decisions, requested);
    lemma_passed_over(decisions, requested, name);
    let k = choose|k: int| 0 <= k < over.len() && over[k] == name;
    assert(all[decisions.len() + k] == denial::<F, M>(name, passed_over_reason()));
}

/// Nothing else is added: each verdict after the policy's own denies a requested resource that
/// no decision is about.
pub proof fn law_only_passed_over_is_added<F, M>(
    decisions: Seq<WireDecisionView<F, M>>,
    requested: Seq<Seq<char>>,
    i: int,
)
    requires
        decisions.len() > 0,
        decisions.len() <= i < decision_on(Some(decisions), requested).len(),
    ensures
        ({
            let added = decision_on(Some(decisions), requested)[i];
            &&& added == denial::<F, M>(added.table, passed_over_reason())
            &&& requested.contains(added.table)
            &&& !decides(decisions, added.table)
        }),
{
    let over = passed_over(decisions, requested);
    let name = over[i - decisions.len()];
    assert(over.contains(name));
    lemma_passed_over(decisions, requested, name);
}

/// The policy's own decisions come first and in their order, each with its verdict, its reason,
/// its row filters and its column masks as they were.
pub proof fn law_policy_decisions_are_kept<F, M>(
    decisions: Seq<WireDecisionView<F, M>>,
    requested: Seq<Seq<char>>,
    i: int,
)
    requires
        0 <= i < decisions.len(),
    ensures
        i < decision_on(Some(decisions), requested).len(),
        ({
            let kept = decision_on(Some(decisions), requested)[i];
            &&& kept.allow == decisions[i].allow
            &&& kept.reason == decisions[i].reason
            &&& kept.row_filters == decisions[i].row_filters
            &&& kept.column_masks == decisions[i].column_masks
            &&& decisions[i].subject() matches Some(name) ==> kept.table == name
        }),
{
}

/// Wherever the policy decided anything, every requested resource has a verdict under its name.
pub proof fn law_every_requested_resource_has_a_verdict<F, M>(
    decisions: Seq<WireDecisionView<F, M>>,
    requested: Seq<Seq<char>>,
    name: Seq<char>,
)
    requires
        decisions.len() > 0,
        requested.contains(name),
    ensures
        exists|i: int|
            0 <= i < decision_on(Some(decisions), requested).len() && (
            #[trigger] decision_on(Some(decisions), requested)[i]).table == name,
{
    let all = decision_on(Some(decisions), requested);
    if decides(decisions, name) {
        let i = choose|i: int|
            0 <= i < decisions.len() && (#[trigger] decisions[i]).subject() == Some(name);
        assert(all[i].table == name);
    } else {
        law_passed_over_is_denied(decisions, requested, name);
        let i = choose|i: int|
            0 <= i < all.len() && all[i] == denial::<F, M>(name, passed_over_reason());
        assert(all[i].table == name);
    }
}

/// `name` wins over `table`.
pub proof fn law_name_wins<F, M>(decision: WireDecisionView<F, M>, name: Seq<char>)
    requires
        decision.name == Some(name),
    ensures
        decision.subject() == Some(name),
        decision.verdict().table == name,
{
}

/// A decision with neither a `name` nor a `table` matches no resource: with it or without it, at
/// any place, the same resources are passed over.
pub proof fn law_unnamed_decision_matches_nothing<F, M>(
    before: Seq<WireDecisionView<F, M>>,
    unnamed: WireDecisionView<F, M>,
    after: Seq<WireDecisionView<F, M>>,
    requested: Seq<Seq<char>>,
)
    requires
        unnamed.name is None,
        unnamed.table is None,
    ensures
        passed_over(before.push(unnamed) + after, requested) == passed_over(
            before + after,
            requested,
        ),
{
    let with = before.push(unnamed) + after;
    let without = before + after;
    assert forall|n: Seq<char>| decides(with, n) == decides(without, n) by {
        if decides(with, n) {
            let i = choose|i: int| 0 <= i < with.len() && (#[trigger] with[i]).subject() == Some(n);
            let j = if i < before.len() {
                i
            } else {
                i - 1
            };
            assert(without[j].subject() == Some(n));
        }
        if decides(without, n) {
            let i = choose|i: int|
                0 <= i < without.len() && (#[trigger] without[i]).subject() == Some(n);
            let j = if i < before.len() {
                i
            } else {
                i + 1
            };
            assert(with[j].subject() == Some(n));
        }
    }
    assert((|n: Seq<char>| !decides(with, n)) =~= (|n: Seq<char>| !decides(without, n)));
}

/// Asking for more never turns a denial into an allowance.
pub proof fn law_asking_for_more_never_allows<F, M>(
    response: Option<Seq<WireDecisionView<F, M>>>,
    requested: Seq<Seq<char>>,
    more: Seq<Seq<char>>,
)
    requires
        all_allow(decision_on(response, requested + more)),
    ensures
        all_allow(decision_on(response, requested)),
{
    law_allowed_iff_all_explicitly_allowed(response, requested + more);
    law_allowed_iff_all_explicitly_allowed(response, requested);
    assert forall|name: Seq<char>| #[trigger] requested.contains(name) implies decides(
        response->0,
        name,
    ) by {
        let i = choose|i: int| 0 <= i < requested.len() && requested[i] == name;
        assert((requested + more)[i] == name);
        assert((requested + more).contains(name));
    }
}

/// A policy that allows each resource of a request, and echoes the `name` that was sent for it or,
/// of a table or a view, the `table` that was sent, has allowed the request; nothing is added.
pub proof fn law_echoed_request_is_allowed<F, M>(req: AccessRequest, decisions: Seq<WireDecisionView<F, M>>)
    requires
        req.resources@.len() > 0,
        decisions.len() == req.resources@.len(),
        forall|i: int|
            0 <= i < decisions.len() ==> {
                let sent = wire_input(req).action.resources[i];
                let d = #[trigger] decisions[i];
                &&& d.allow
                &&& d.name == Some(sent.name) || (d.name is None && d.table == Some(sent.table)
                    && has_table(req.resources@[i].kind))
            },
    ensures
        all_allow(decision_on(Some(decisions), req.names())),
        decision_on(Some(decisions), req.names()).len() == decisions.len(),
{
    let requested = req.names();
    assert forall|name: Seq<char>| #[trigger] requested.contains(name) implies decides(
        decisions,
        name,
    ) by {
        let i = choose|i: int| 0 <= i < requested.len() && requested[i] == name;
        assert(name == req.resources@[i].own_name());
        assert(wire_input(req).action.resources[i] == wire_resource(req.resources@[i]));
        assert(decisions[i].subject() == Some(name));
    }
    law_allowed_iff_all_explicitly_allowed(Some(decisions), requested);
    let over = passed_over(decisions, requested);
    if over.len() > 0 {
        assert(over.contains(over[0]));
        lemma_passed_over(decisions, requested, over[0]);
    }
}

// ---- documents received ----

/// The documents listed under `resources` under `result`.
pub open spec fn listed_documents(doc: JsonView) -> Seq<JsonView> {
    match record(doc, seq!["result"@]) {
        Some(top) => match top[0] {
            Some(result) => match record(result, seq!["resources"@]) {
                Some(fields) => match list_field(fields[0]) {
                    Some(docs) => docs,
                    None => Seq::empty(),
                },
                None => Seq::empty(),
            },
            None => Seq::empty(),
        },
        None => Seq::empty(),
    }
}

/// Whether a document, read as a decision, literally allows `name`: its `allow` is `true`, and
/// its `name`, or its `table` where it has no `name`, is `name`.
pub open spec fn literally_allows(doc: JsonView, name: Seq<char>) -> bool {
    match record(doc, decision_keys()) {
        Some(f) => {
            &&& f[2] == Some(JsonView::Bool(true))
            &&& match f[1] {
                Some(JsonView::Text(n)) => n == name,
                None | Some(JsonView::Null) => f[0] == Some(JsonView::Text(name)),
                _ => false,
            }
        },
        None => false,
    }
}

/// A request is allowed only where the document literally allows each of its resources.
pub proof fn law_allowed_only_where_the_document_says_so<
    F,
    M,
    RF: Fn(Json) -> Option<F>,
    RM: Fn(Json) -> Option<M>,
>(
    doc: JsonView,
    response: Option<Seq<WireDecisionView<F, M>>>,
    read_filter: RF,
    read_mask: RM,
    requested: Seq<Seq<char>>,
    name: Seq<char>,
)
    requires
        response_in(doc) is Some,
        response_read(response_in(doc)->0, response, read_filter, read_mask),
        all_allow(decision_on(response, requested)),
        requested.contains(name),
    ensures
        exists|i: int|
            0 <= i < listed_documents(doc).len() && literally_allows(
                #[trigger] listed_documents(doc)[i],
                name,
            ),
{
    law_allowed_iff_all_explicitly_allowed(response, requested);
    let decisions = response->0;
    let docs = listed_documents(doc);
    let said = response_in(doc)->0->0;
    assert(decisions_in(docs) == Some(said));
    let i = choose|i: int|
        0 <= i < decisions.len() && (#[trigger] decisions[i]).subject() == Some(name);
    assert(decision_read(said[i], decisions[i], read_filter, read_mask));
    assert(decision_in(docs[i]) == Some(said[i]));
    assert(literally_allows(docs[i], name));
}

/// A document without a `result` is a response, and it denies every request.
pub proof fn law_document_without_result_denies<F, M>(
    entries: Seq<(Seq<char>, JsonView)>,
    requested: Seq<Seq<char>>,
)
    requires
        entry(entries, "result"@) is None,
    ensures
        response_in(JsonView::Object(entries)) == Some(
            None::<Seq<WireDecisionView<JsonView, JsonView>>>,
        ),
        !all_allow(decision_on::<F, M>(None, requested)),
{
    let keys = seq!["result"@];
    lemma_entry_found(entries, "result"@);
    assert forall|i: int, j: int|
        0 <= i < j < entries.len() && (#[trigger] entries[i]).0 == (
        #[trigger] entries[j]).0 implies !keys.contains(entries[i].0) by {
        assert(entries[i].0 != "result"@);
    }
    assert(written_once(entries, keys));
    law_undecided_is_denied::<F, M>(None, requested);
}

/// A decision that does not say `allow` denies, whatever filters and masks it carries.
pub proof fn law_unsaid_allow_denies(entries: Seq<(Seq<char>, JsonView)>)
    requires
        entry(entries, "allow"@) is None,
        decision_in(JsonView::Object(entries)) is Some,
    ensures
        !decision_in(JsonView::Object(entries))->0.allow,
        !decision_in(JsonView::Object(entries))->0.verdict().allow,
{
    assert(decision_keys()[2] == "allow"@);
}

proof fn lemma_entry_passes_over<V>(
    before: Seq<(Seq<char>, V)>,
    other: (Seq<char>, V),
    after: Seq<(Seq<char>, V)>,
    key: Seq<char>,
)
    requires
        other.0 != key,
    ensures
        entry(before.push(other) + after, key) == entry(before + after, key),
    decreases before.len(),
{
    let with = before.push(other) + after;
    let without = before + after;
    if before.len() == 0 {
        assert(with.drop_first() =~= without);
    } else {
        assert(with.drop_first() =~= before.drop_first().push(other) + after);
        assert(without.drop_first() =~= before.drop_first() + after);
        lemma_entry_passes_over(before.drop_first(), other, after, key);
    }
}

/// A key that a record does not know is passed over, wherever it stands and whatever it holds.
pub proof fn law_unknown_key_is_passed_over(
    before: Seq<(Seq<char>, JsonView)>,
    key: Seq<char>,
    value: JsonView,
    after: Seq<(Seq<char>, JsonView)>,
    keys: Seq<Seq<char>>,
)
    requires
        !keys.contains(key),
    ensures
        record(JsonView::Object(before.push((key, value)) + after), keys) == record(
            JsonView::Object(before + after),
            keys,
        ),
{
    let with = before.push((key, value)) + after;
    let without = before + after;
    let n = before.len() as int;
    assert forall|i: int| 0 <= i < keys.len() implies entry(with, keys[i]) == entry(
        without,
        #[trigger] keys[i],
    ) by {
        assert(keys.contains(keys[i]));
        lemma_entry_passes_over(before, (key, value), after, keys[i]);
    }
    if written_once(with, keys) {
        assert forall|i: int, j: int|
            0 <= i < j < without.len() && (#[trigger] without[i]).0 == (
            #[trigger] without[j]).0 implies !keys.contains(without[i].0) by {
            let a = if i < n {
                i
            } else {
                i + 1
            };
            let b = if j < n {
                j
            } else {
                j + 1
            };
            assert(with[a].0 == with[b].0);
        }
    }
    if written_once(without, keys) {
        assert forall|i: int, j: int|
            0 <= i < j < with.len() && (#[trigger] with[i]).0 == (
            #[trigger] with[j]).0 implies !keys.contains(with[i].0) by {
            if i != n && j != n {
                let a = if i < n {
                    i
                } else {
                    i - 1
                };
                let b = if j < n {
                    j
                } else {
                    j - 1
                };
                assert(without[a].0 == without[b].0);
            }
        }
    }
    assert(written_once(with, keys) == written_once(without, keys));
    if written_once(with, keys) {
        assert(record(JsonView::Object(with), keys)->0 =~= record(
            JsonView::Object(without),
            keys,
        )->0);
    }
}

/// A decision that writes one of its keys twice is refused, and with it every response that
/// lists it.
pub proof fn law_repeated_key_is_refused(
    doc: JsonView,
    entries: Seq<(Seq<char>, JsonView)>,
    i: int,
    j: int,
)
    requires
        0 <= i < j < entries.len(),
        entries[i].0 == entries[j].0,
        decision_keys().contains(entries[i].0),
    ensures
        decision_in(JsonView::Object(entries)) is None,
        listed_documents(doc).contains(JsonView::Object(entries)) ==> response_in(doc) is None,
{
    assert(!written_once(entries, decision_keys()));
    let docs = listed_documents(doc);
    if docs.contains(JsonView::Object(entries)) {
        let k = choose|k: int| 0 <= k < docs.len() && docs[k] == JsonView::Object(entries);
        assert(decision_in(docs[k]) is None);
        assert(decisions_in(docs) is None);
    }
}

/// Where the readers of row filters and column masks give one answer for one document, a decision
/// that is read is not also refused, and the row filters and column masks it is read into are
/// the readers' answers, one for one.
pub proof fn law_readers_decide<
    F,
    M,
    RF: Fn(Json) -> Option<F>,
    RM: Fn(Json) -> Option<M>,
>(
    docs: WireDecisionView<JsonView, JsonView>,
    decision: WireDecisionView<F, M>,
    read_filter: RF,
    read_mask: RM,
    filter_of: spec_fn(JsonView) -> Option<F>,
    mask_of: spec_fn(JsonView) -> Option<M>,
)
    requires
        forall|d: Json, r: Option<F>| #[trigger]
            call_ensures(read_filter, (d,), r) ==> r == filter_of(d@),
        forall|d: Json, r: Option<M>| #[trigger]
            call_ensures(read_mask, (d,), r) ==> r == mask_of(d@),
    ensures
        decision_read(docs, decision, read_filter, read_mask) ==> {
            &&& !decision_refused(docs, read_filter, read_mask)
            &&& docs.row_filters.map_values(filter_of) == decision.row_filters.map_values(
                |f: F| Some(f),
            )
            &&& docs.column_masks.map_values(mask_of) == decision.column_masks.map_values(
                |m: M| Some(m),
            )
        },
{
    if decision_read(docs, decision, read_filter, read_mask) {
        assert forall|i: int| 0 <= i < docs.row_filters.len() implies filter_of(
            #[trigger] docs.row_filters[i],
        ) == Some(decision.row_filters[i]) by {
            assert(reads(read_filter, docs.row_filters[i], Some(decision.row_filters[i])));
        }
        assert forall|i: int| 0 <= i < docs.column_masks.len() implies mask_of(
            #[trigger] docs.column_masks[i],
        ) == Some(decision.column_masks[i]) by {
            assert(reads(read_mask, docs.column_masks[i], Some(decision.column_masks[i])));
        }
        assert(docs.row_filters.map_values(filter_of) =~= decision.row_filters.map_values(
            |f: F| Some(f),
        ));
        assert(docs.column_masks.map_values(mask_of) =~= decision.column_masks.map_values(
            |m: M| Some(m),
        ));
    }
}

/// A row filter or a column mask that its reader refuses is never carried on: no response is
/// made of a document that lists it, by readers that give one answer for one document.
pub proof fn law_refused_item_is_never_carried<
    F,
    M,
    RF: Fn(Json) -> Option<F>,
    RM: Fn(Json) -> Option<M>,
>(
    docs: Seq<WireDecisionView<JsonView, JsonView>>,
    decisions: Seq<WireDecisionView<F, M>>,
    read_filter: RF,
    read_mask: RM,
    filter_of: spec_fn(JsonView) -> Option<F>,
    mask_of: spec_fn(JsonView) -> Option<M>,
)
    requires
        forall|d: Json, r: Option<F>| #[trigger]
            call_ensures(read_filter, (d,), r) ==> r == filter_of(d@),
        forall|d: Json, r: Option<M>| #[trigger]
            call_ensures(read_mask, (d,), r) ==> r == mask_of(d@),
        decisions_refused(docs, read_filter, read_mask),
    ensures
        !decisions_read(docs, decisions, read_filter, read_mask),
{
    if decisions_read(docs, decisions, read_filter, read_mask) {
        let i = choose|i: int|
            0 <= i < docs.len() && decision_refused(#[trigger] docs[i], read_filter, read_mask);
        assert(decision_read(docs[i], decisions[i], read_filter, read_mask));
        law_readers_decide(docs[i], decisions[i], read_filter, read_mask, filter_of, mask_of);
    }
}

/// A row filter or a column mask that came in unreadable refuses the decision that lists it.
pub proof fn law_unreadable_item_is_refused(doc: JsonView, items: Seq<JsonView>, i: int)
    requires
        record(doc, decision_keys()) is Some,
        i == 4 || i == 5,
        record(doc, decision_keys())->0[i] == Some(JsonView::Array(items)),
        items.contains(JsonView::Unreadable),
    ensures
        decision_in(doc) is None,
{
}

// ---- documents sent ----

proof fn lemma_entry_in_sum<V>(
    a: Seq<(Seq<char>, V)>,
    b: Seq<(Seq<char>, V)>,
    key: Seq<char>,
)
    ensures
        entry(a + b, key) == match entry(a, key) {
            Some(v) => Some(v),
            None => entry(b, key),
        },
    decreases a.len(),
{
    if a.len() == 0 {
        assert(a + b =~= b);
    } else {
        assert((a + b).drop_first() =~= a.drop_first() + b);
        lemma_entry_in_sum(a.drop_first(), b, key);
    }
}

/// The keys of the document of a resource.
pub open spec fn resource_keys() -> Seq<Seq<char>> {
    seq!["kind"@, "catalog"@, "schema"@, "table"@, "value"@, "name"@, "columns"@]
}

pub(crate) proof fn lemma_resource_keys_distinct()
    ensures
        resource_keys().no_duplicates(),
        resource_keys()[0] == "kind"@,
        resource_keys()[1] == "catalog"@,
        resource_keys()[2] == "schema"@,
        resource_keys()[3] == "table"@,
        resource_keys()[4] == "value"@,
        resource_keys()[5] == "name"@,
        resource_keys()[6] == "columns"@,
{
    reveal_strlit("kind");
    reveal_strlit("catalog");
    reveal_strlit("schema");
    reveal_strlit("table");
    reveal_strlit("value");
    reveal_strlit("name");
    reveal_strlit("columns");
    let keys = resource_keys();
    assert(keys[0].len() == 4 && keys[5].len() == 4);
    assert(keys[3].len() == 5 && keys[4].len() == 5);
    assert(keys[1].len() == 7 && keys[6].len() == 7);
    assert(keys[2].len() == 6);
    assert(keys[0][0] == 'k' && keys[5][0] == 'n');
    assert(keys[3][0] == 't' && keys[4][0] == 'v');
    assert(keys[1][1] == 'a' && keys[6][1] == 'o');
}

/// A member that is there only where it has a value is found under its own key alone.
proof fn lemma_optional_entry(k: Seq<char>, value: Option<Seq<char>>, key: Seq<char>)
    ensures
        entry(optional_member(k, value), key) == optional_text(
            if k == key {
                value
            } else {
                None
            },
        ),
{
    reveal_with_fuel(entry, 2);
    if value is Some {
        assert(optional_member(k, value).drop_first() =~= Seq::empty());
    }
}

/// A string, where there is one.
pub open spec fn optional_text(value: Option<Seq<char>>) -> Option<BodyView> {
    match value {
        Some(s) => Some(BodyView::Text(s)),
        None => None,
    }
}

/// What the document of a resource holds under each key: its kind and its own name always; its
/// catalog, its schema and its value where it has them; its `table` only where it is a table or a
/// view with a name; its columns always, `null` standing for all of them; and nothing else.
pub proof fn law_resource_document(r: AccessResource, key: Seq<char>)
    ensures
        entry(wire_resource(r).members(), "kind"@) == Some(BodyView::Text(r.kind.label())),
        entry(wire_resource(r).members(), "name"@) == Some(BodyView::Text(r.own_name())),
        entry(wire_resource(r).members(), "catalog"@) == optional_text(opt_view(r.catalog)),
        entry(wire_resource(r).members(), "schema"@) == optional_text(opt_view(r.schema)),
        entry(wire_resource(r).members(), "value"@) == optional_text(opt_view(r.value)),
        entry(wire_resource(r).members(), "table"@) == (if has_table(r.kind) && r.table@.len() > 0 {
            Some(BodyView::Text(r.table@))
        } else {
            None
        }),
        entry(wire_resource(r).members(), "columns"@) == Some(
            match r.columns {
                Columns::All => BodyView::Null,
                Columns::Named(c) => text_list(texts(c@)),
            },
        ),
        !resource_keys().contains(key) ==> entry(wire_resource(r).members(), key) is None,
{
    let w = wire_resource(r);
    lemma_resource_keys_distinct();
    lemma_resource_entry(w, "kind"@);
    lemma_resource_entry(w, "catalog"@);
    lemma_resource_entry(w, "schema"@);
    lemma_resource_entry(w, "table"@);
    lemma_resource_entry(w, "value"@);
    lemma_resource_entry(w, "name"@);
    lemma_resource_entry(w, "columns"@);
    lemma_resource_entry(w, key);
}

pub(crate) proof fn lemma_resource_entry(w: ResourceView, key: Seq<char>)
    ensures
        entry(w.members(), key) == (if key == "kind"@ {
            Some(BodyView::Text(w.kind))
        } else if key == "catalog"@ && w.catalog is Some {
            optional_text(w.catalog)
        } else if key == "schema"@ && w.schema is Some {
            optional_text(w.schema)
        } else if key == "table"@ && w.table.len() > 0 {
            Some(BodyView::Text(w.table))
        } else if key == "value"@ && w.value is Some {
            optional_text(w.value)
        } else if key == "name"@ {
            Some(BodyView::Text(w.name))
        } else if key == "columns"@ {
            Some(
                match w.columns {
                    Some(c) => text_list(c),
                    None => BodyView::Null,
                },
            )
        } else {
            None
        }),
{
    let table = if w.table.len() == 0 {
        None
    } else {
        Some(w.table)
    };
    let kind = seq![("kind"@, BodyView::Text(w.kind))];
    let catalog = optional_member("catalog"@, w.catalog);
    let schema = optional_member("schema"@, w.schema);
    let tables = optional_member("table"@, table);
    let value = optional_member("value"@, w.value);
    let columns = match w.columns {
        Some(c) => text_list(c),
        None => BodyView::Null,
    };
    let rest = seq![("name"@, BodyView::Text(w.name)), ("columns"@, columns)];
    lemma_entry_in_sum(kind, catalog, key);
    lemma_entry_in_sum(kind + catalog, schema, key);
    lemma_entry_in_sum(kind + catalog + schema, tables, key);
    lemma_entry_in_sum(kind + catalog + schema + tables, value, key);
    lemma_entry_in_sum(kind + catalog + schema + tables + value, rest, key);
    lemma_optional_entry("catalog"@, w.catalog, key);
    lemma_optional_entry("schema"@, w.schema, key);
    lemma_optional_entry("table"@, table, key);
    lemma_optional_entry("value"@, w.value, key);
    assert(kind.drop_first() =~= Seq::empty());
    assert(rest.drop_first() =~= seq![("columns"@, columns)]);
    assert(rest.drop_first().drop_first() =~= Seq::empty());
    reveal_with_fuel(entry, 3);
    assert(w.members() == kind + catalog + schema + tables + value + rest);
}

/// Whether no two members have the same key.
pub open spec fn keys_differ(members: Seq<(Seq<char>, BodyView)>) -> bool {
    forall|i: int, j: int|
        0 <= i < j < members.len() ==> (#[trigger] members[i]).0 != (#[trigger] members[j]).0
}

proof fn lemma_keys_differ_with_one_more(
    members: Seq<(Seq<char>, BodyView)>,
    key: Seq<char>,
    more: Seq<(Seq<char>, BodyView)>,
)
    requires
        keys_differ(members),
        entry(members, key) is None,
        more.len() <= 1,
        more.len() == 1 ==> more[0].0 == key,
    ensures
        keys_differ(members + more),
{
    lemma_entry_found(members, key);
    let all = members + more;
    assert forall|i: int, j: int| 0 <= i < j < all.len() implies (#[trigger] all[i]).0 != (
    #[trigger] all[j]).0 by {
        assert(all[i] == members[i]);
        if j < members.len() {
            assert(all[j] == members[j]);
        }
    }
}

/// No key is written twice in the document of a resource.
pub proof fn law_resource_document_repeats_no_key(r: AccessResource)
    ensures
        keys_differ(wire_resource(r).members()),
{
    lemma_members_repeat_no_key(wire_resource(r));
}

pub(crate) proof fn lemma_members_repeat_no_key(w: ResourceView)
    ensures
        keys_differ(w.members()),
{
    lemma_resource_keys_distinct();
    let columns = match w.columns {
        Some(c) => text_list(c),
        None => BodyView::Null,
    };
    let table = if w.table.len() == 0 {
        None
    } else {
        Some(w.table)
    };
    let m0 = seq![("kind"@, BodyView::Text(w.kind))];
    let m1 = m0 + optional_member("catalog"@, w.catalog);
    let m2 = m1 + optional_member("schema"@, w.schema);
    let m3 = m2 + optional_member("table"@, table);
    let m4 = m3 + optional_member("value"@, w.value);
    let m5 = m4 + seq![("name"@, BodyView::Text(w.name))];
    let m6 = m5 + seq![("columns"@, columns)];
    assert forall|key: Seq<char>| key != "kind"@ implies #[trigger] entry(m0, key) is None by {
        lemma_entry_found(m0, key);
    }
    lemma_keys_differ_with_one_more(m0, "catalog"@, optional_member("catalog"@, w.catalog));
    lemma_prefix_lacks(m0, "catalog"@, w.catalog, "schema"@);
    lemma_keys_differ_with_one_more(m1, "schema"@, optional_member("schema"@, w.schema));
    lemma_prefix_lacks(m0, "catalog"@, w.catalog, "table"@);
    lemma_prefix_lacks(m1, "schema"@, w.schema, "table"@);
    lemma_keys_differ_with_one_more(m2, "table"@, optional_member("table"@, table));
    lemma_prefix_lacks(m0, "catalog"@, w.catalog, "value"@);
    lemma_prefix_lacks(m1, "schema"@, w.schema, "value"@);
    lemma_prefix_lacks(m2, "table"@, table, "value"@);
    lemma_keys_differ_with_one_more(m3, "value"@, optional_member("value"@, w.value));
    lemma_prefix_lacks(m0, "catalog"@, w.catalog, "name"@);
    lemma_prefix_lacks(m1, "schema"@, w.schema, "name"@);
    lemma_prefix_lacks(m2, "table"@, table, "name"@);
    lemma_prefix_lacks(m3, "value"@, w.value, "name"@);
    lemma_keys_differ_with_one_more(m4, "name"@, seq![("name"@, BodyView::Text(w.name))]);
    lemma_prefix_lacks(m0, "catalog"@, w.catalog, "columns"@);
    lemma_prefix_lacks(m1, "schema"@, w.schema, "columns"@);
    lemma_prefix_lacks(m2, "table"@, table, "columns"@);
    lemma_prefix_lacks(m3, "value"@, w.value, "columns"@);
    assert(m5 =~= m4 + optional_member("name"@, Some(w.name)));
    lemma_prefix_lacks(m4, "name"@, Some(w.name), "columns"@);
    lemma_keys_differ_with_one_more(m5, "columns"@, seq![("columns"@, columns)]);
    assert(w.members() =~= m6);
}

proof fn lemma_prefix_lacks(
    members: Seq<(Seq<char>, BodyView)>,
    k: Seq<char>,
    value: Option<Seq<char>>,
    key: Seq<char>,
)
    requires
        entry(members, key) is None,
        k != key,
    ensures
        entry(members + optional_member(k, value), key) is None,
{
    lemma_entry_in_sum(members, optional_member(k, value), key);
    lemma_optional_entry(k, value, key);
}

/// A table or a view goes out under one name: where `table` is sent, it is the resource's own
/// name, so a policy may echo either.
pub proof fn law_table_is_the_name(r: AccessResource)
    requires
        has_table(r.kind),
    ensures
        wire_resource(r).table == wire_resource(r).name,
{
}

/// The document of an action carries a grant exactly where the request has one and its operation
/// is `grant.*`, `role.grant` or `role.revoke`; it then holds the grant's privileges, its grantees
/// and its grant option.
pub proof fn law_grant_is_sent_only_where_handed_out(req: AccessRequest)
    ensures
        entry(wire_input(req).action.members(), "grant"@) == match req.grant {
            Some(g) if hands_out(req.operation.0@) => Some(wire_grant(g).body()),
            _ => None,
        },
        entry(wire_input(req).action.members(), "operation"@) == Some(
            BodyView::Text(req.operation.0@),
        ),
{
    let members = wire_input(req).action.members();
    let grants = match req.grant {
        Some(g) if hands_out(req.operation.0@) => seq![("grant"@, wire_grant(g).body())],
        _ => Seq::empty(),
    };
    let rest = members.drop_first().drop_first();
    reveal_strlit("operation");
    reveal_strlit("resources");
    reveal_strlit("grant");
    assert("operation"@[0] == 'o' && "resources"@[0] == 'r' && "grant"@[0] == 'g');
    assert(members[0].0 == "operation"@ && members[1].0 == "resources"@);
    assert(members.drop_first()[0] == members[1]);
    assert(rest =~= grants);
    assert(grants.len() > 0 ==> grants.drop_first() =~= Seq::empty());
    reveal_with_fuel(entry, 4);
}

/// Policies can tell every two kinds of resource apart.
pub proof fn law_kinds_are_told_apart(a: ResourceKind, b: ResourceKind)
    requires
        a.label() == b.label(),
    ensures
        a == b,
{
    reveal_strlit("table");
    reveal_strlit("view");
    reveal_strlit("schema");
    reveal_strlit("catalog");
    reveal_strlit("role");
    reveal_strlit("session");
    reveal_strlit("function");
    reveal_strlit("location");
    assert("table"@.len() == 5 && "view"@.len() == 4 && "schema"@.len() == 6);
    assert("catalog"@.len() == 7 && "role"@.len() == 4 && "session"@.len() == 7);
    assert("function"@.len() == 8 && "location"@.len() == 8);
    assert("view"@[0] == 'v' && "role"@[0] == 'r');
    assert("catalog"@[0] == 'c' && "session"@[0] == 's');
    assert("function"@[0] == 'f' && "location"@[0] == 'l');
}

} // verus!
