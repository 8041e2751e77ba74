//! What the policy answers: the `{"result": {...}}` document, and the decision it amounts to.

use vstd::hash_set::StringHashSet;
use vstd::prelude::*;
use vstd::string::*;

use crate::access_model::{
    denial, AccessDecision, AccessRequest, ResourceDecision, ResourceDecisionView,
};
use crate::json::{
    doc_views, field_view, field_views, lemma_array_view, record, Json, JsonView,
};
use crate::text::{decimal, opt_view, texts, to_decimal};

verus! {

/// A policy's answer. `result` is absent where the policy is undefined for the input.
#[derive(Debug, PartialEq)]
pub struct OpaResponse<F, M> {
    pub result: Option<OpaResult<F, M>>,
}

/// The decisions of a policy that is defined for the input.
#[derive(Debug, PartialEq)]
pub struct OpaResult<F, M> {
    pub resources: Vec<WireResourceDecision<F, M>>,
}

/// A policy's decision on one resource, with row filters `F` and column masks `M`.
#[derive(Debug, PartialEq)]
pub struct WireResourceDecision<F, M> {
    /// Echo of the resource's `table` (table resources) or `name` (any kind); `name` wins if
    /// both are present. With neither, the decision matches no resource.
    pub table: Option<String>,
    pub name: Option<String>,
    pub allow: bool,
    pub reason: Option<String>,
    pub row_filters: Vec<F>,
    pub column_masks: Vec<M>,
}

/// What a [`WireResourceDecision`] says.
pub struct WireDecisionView<F, M> {
    pub table: Option<Seq<char>>,
    pub name: Option<Seq<char>>,
    pub allow: bool,
    pub reason: Option<Seq<char>>,
    pub row_filters: Seq<F>,
    pub column_masks: Seq<M>,
}

impl<F, M> View for WireResourceDecision<F, M> {
    type V = WireDecisionView<F, M>;

    open spec fn view(&self) -> WireDecisionView<F, M> {
        WireDecisionView {
            table: opt_view(self.table),
            name: opt_view(self.name),
            allow: self.allow,
            reason: opt_view(self.reason),
            row_filters: self.row_filters@,
            column_masks: self.column_masks@,
        }
    }
}

impl<F, M> View for OpaResult<F, M> {
    type V = Seq<WireDecisionView<F, M>>;

    open spec fn view(&self) -> Seq<WireDecisionView<F, M>> {
        self.resources@.map_values(|r: WireResourceDecision<F, M>| r@)
    }
}

impl<F, M> View for OpaResponse<F, M> {
    type V = Option<Seq<WireDecisionView<F, M>>>;

    open spec fn view(&self) -> Option<Seq<WireDecisionView<F, M>>> {
        match self.result {
            Some(result) => Some(result@),
            None => None,
        }
    }
}

// ---- from a document to a response ----

/// A document that is not a response.
#[derive(Clone, Copy, Debug, PartialEq, Eq, Structural)]
pub struct MalformedResponse;

/// An optional string: absent and `null` are the same.
pub open spec fn text_field(field: Option<JsonView>) -> Option<Option<Seq<char>>> {
    match field {
        None | Some(JsonView::Null) => Some(None),
        Some(JsonView::Text(s)) => Some(Some(s)),
        _ => None,
    }
}

/// A flag, which is off unless it is set.
pub open spec fn flag_field(field: Option<JsonView>) -> Option<bool> {
    match field {
        None => Some(false),
        Some(JsonView::Bool(b)) => Some(b),
        _ => None,
    }
}

/// A list, which is empty unless it is given.
pub open spec fn list_field(field: Option<JsonView>) -> Option<Seq<JsonView>> {
    match field {
        None => Some(Seq::empty()),
        Some(JsonView::Array(items)) => Some(items),
        _ => None,
    }
}

/// A list of documents to be read further, each of which came in readable.
pub open spec fn documents_field(field: Option<JsonView>) -> Option<Seq<JsonView>> {
    match list_field(field) {
        Some(items) if !items.contains(JsonView::Unreadable) => Some(items),
        _ => None,
    }
}

/// The keys of a decision, in order.
pub open spec fn decision_keys() -> Seq<Seq<char>> {
    seq!["table"@, "name"@, "allow"@, "reason"@, "rowFilters"@, "columnMasks"@]
}

/// The decision that a document holds, with the documents of its row filters and column masks.
pub open spec fn decision_in(doc: JsonView) -> Option<WireDecisionView<JsonView, JsonView>> {
    match record(doc, decision_keys()) {
        Some(f) => match (
            text_field(f[0]),
            text_field(f[1]),
            flag_field(f[2]),
            text_field(f[3]),
            documents_field(f[4]),
            documents_field(f[5]),
        ) {
            (
                Some(table),
                Some(name),
                Some(allow),
                Some(reason),
                Some(row_filters),
                Some(column_masks),
            ) => Some(
                WireDecisionView { table, name, allow, reason, row_filters, column_masks },
            ),
            _ => None,
        },
        None => None,
    }
}

/// The decisions that a list of documents holds, where each document holds one.
pub open spec fn decisions_in(docs: Seq<JsonView>) -> Option<
    Seq<WireDecisionView<JsonView, JsonView>>,
> {
    if forall|i: int| 0 <= i < docs.len() ==> decision_in(#[trigger] docs[i]) is Some {
        Some(docs.map_values(|doc: JsonView| decision_in(doc)->0))
    } else {
        None
    }
}

/// The result that a document holds: its list of decisions, under `resources`.
pub open spec fn result_in(doc: JsonView) -> Option<Seq<WireDecisionView<JsonView, JsonView>>> {
    match record(doc, seq!["resources"@]) {
        Some(f) => match list_field(f[0]) {
            Some(docs) => decisions_in(docs),
            None => None,
        },
        None => None,
    }
}

/// The response that a document holds: its result, under `result`. An absent result and a
/// `null` one are the same.
pub open spec fn response_in(doc: JsonView) -> Option<
    Option<Seq<WireDecisionView<JsonView, JsonView>>>,
> {
    match record(doc, seq!["result"@]) {
        Some(f) => match f[0] {
            None | Some(JsonView::Null) => Some(None),
            Some(doc) => match result_in(doc) {
                Some(decisions) => Some(Some(decisions)),
                None => None,
            },
        },
        None => None,
    }
}

// ---- row filters and column masks ----

/// Whether `r` is what the reader `read` gives for the document `doc`: a value, or a refusal.
pub open spec fn reads<T, R: Fn(Json) -> Option<T>>(
    read: R,
    doc: JsonView,
    r: Option<T>,
) -> bool {
    exists|d: Json| d@ == doc && #[trigger] call_ensures(read, (d,), r)
}

/// Whether `items` are what `read` gives for `docs`, one for one.
pub open spec fn reads_all<T, R: Fn(Json) -> Option<T>>(
    read: R,
    docs: Seq<JsonView>,
    items: Seq<T>,
) -> bool {
    &&& items.len() == docs.len()
    &&& forall|i: int| 0 <= i < items.len() ==> reads(read, docs[i], Some(#[trigger] items[i]))
}

/// Whether `read` refuses one of `docs`.
pub open spec fn refuses_one<T, R: Fn(Json) -> Option<T>>(read: R, docs: Seq<JsonView>) -> bool {
    exists|i: int| 0 <= i < docs.len() && reads(read, #[trigger] docs[i], None)
}

/// Whether a decision says what `docs` says, its row filters and column masks read by
/// `read_filter` and `read_mask`.
pub open spec fn decision_read<F, M, RF: Fn(Json) -> Option<F>, RM: Fn(Json) -> Option<M>>(
    docs: WireDecisionView<JsonView, JsonView>,
    decision: WireDecisionView<F, M>,
    read_filter: RF,
    read_mask: RM,
) -> bool {
    &&& decision.table == docs.table
    &&& decision.name == docs.name
    &&& decision.allow == docs.allow
    &&& decision.reason == docs.reason
    &&& reads_all(read_filter, docs.row_filters, decision.row_filters)
    &&& reads_all(read_mask, docs.column_masks, decision.column_masks)
}

/// Whether one of a decision's row filters or column masks is refused by its reader.
pub open spec fn decision_refused<F, M, RF: Fn(Json) -> Option<F>, RM: Fn(Json) -> Option<M>>(
    docs: WireDecisionView<JsonView, JsonView>,
    read_filter: RF,
    read_mask: RM,
) -> bool {
    refuses_one(read_filter, docs.row_filters) || refuses_one(read_mask, docs.column_masks)
}

/// Whether `decisions` say what `docs` says, one for one.
pub open spec fn decisions_read<F, M, RF: Fn(Json) -> Option<F>, RM: Fn(Json) -> Option<M>>(
    docs: Seq<WireDecisionView<JsonView, JsonView>>,
    decisions: Seq<WireDecisionView<F, M>>,
    read_filter: RF,
    read_mask: RM,
) -> bool {
    &&& decisions.len() == docs.len()
    &&& forall|i: int|
        0 <= i < decisions.len() ==> decision_read(
            docs[i],
            #[trigger] decisions[i],
            read_filter,
            read_mask,
        )
}

/// Whether a reader refuses a row filter or a column mask of some decision.
pub open spec fn decisions_refused<F, M, RF: Fn(Json) -> Option<F>, RM: Fn(Json) -> Option<M>>(
    docs: Seq<WireDecisionView<JsonView, JsonView>>,
    read_filter: RF,
    read_mask: RM,
) -> bool {
    exists|i: int|
        0 <= i < docs.len() && decision_refused(#[trigger] docs[i], read_filter, read_mask)
}

/// Whether a response says what `docs` says.
pub open spec fn response_read<F, M, RF: Fn(Json) -> Option<F>, RM: Fn(Json) -> Option<M>>(
    docs: Option<Seq<WireDecisionView<JsonView, JsonView>>>,
    response: Option<Seq<WireDecisionView<F, M>>>,
    read_filter: RF,
    read_mask: RM,
) -> bool {
    match (docs, response) {
        (Some(docs), Some(decisions)) => decisions_read(docs, decisions, read_filter, read_mask),
        (None, None) => true,
        _ => false,
    }
}

// ---- reading ----

fn read_text(field: Option<Json>) -> (r: Result<Option<String>, MalformedResponse>)
    ensures
        match r {
            Ok(s) => text_field(field_view(field)) == Some(opt_view(s)),
            Err(_) => text_field(field_view(field)) is None,
        },
{
    match field {
        None | Some(Json::Null) => Ok(None),
        Some(Json::Text(s)) => Ok(Some(s)),
        _ => Err(MalformedResponse),
    }
}

fn read_flag(field: Option<Json>) -> (r: Result<bool, MalformedResponse>)
    ensures
        match r {
            Ok(b) => flag_field(field_view(field)) == Some(b),
            Err(_) => flag_field(field_view(field)) is None,
        },
{
    match field {
        None => Ok(false),
        Some(Json::Bool(b)) => Ok(b),
        _ => Err(MalformedResponse),
    }
}

fn read_list(field: Option<Json>) -> (r: Result<Vec<Json>, MalformedResponse>)
    ensures
        match r {
            Ok(docs) => list_field(field_view(field)) == Some(doc_views(docs@)),
            Err(_) => list_field(field_view(field)) is None,
        },
{
    match field {
        None => {
            let docs: Vec<Json> = Vec::new();
            assert(doc_views(docs@) =~= Seq::empty());
            Ok(docs)
        },
        Some(Json::Array(docs)) => {
            proof {
                lemma_array_view(docs);
            }
            Ok(docs)
        },
        _ => Err(MalformedResponse),
    }
}

/// Reads each document of a list.
fn read_each<T, R: Fn(Json) -> Option<T>>(field: Option<Json>, read: &R) -> (r: Result<
    Vec<T>,
    MalformedResponse,
>)
    requires
        forall|d: Json| #[trigger] call_requires(*read, (d,)),
    ensures
        match r {
            Ok(items) => documents_field(field_view(field)) is Some && reads_all(
                *read,
                documents_field(field_view(field))->0,
                items@,
            ),
            Err(_) => documents_field(field_view(field)) matches Some(docs) ==> refuses_one(
                *read,
                docs,
            ),
        },
{
    match read_list(field) {
        Ok(docs) => {
            let ghost said = doc_views(docs@);
            let mut items: Vec<T> = Vec::new();
            for doc in it: docs
                invariant
                    it.seq() == docs@,
                    said == doc_views(docs@),
                    list_field(field_view(field)) == Some(said),
                    forall|d: Json| #[trigger] call_requires(*read, (d,)),
                    items@.len() == it.index(),
                    forall|i: int|
                        0 <= i < items@.len() ==> (#[trigger] said[i]) != JsonView::Unreadable,
                    forall|i: int|
                        0 <= i < items@.len() ==> reads(*read, said[i], Some(#[trigger] items@[i])),
            {
                let ghost n = it.index();
                assert(said[n] == doc@);
                if let Json::Unreadable = doc {
                    assert(said.contains(said[n]));
                    return Err(MalformedResponse);
                }
                match read(doc) {
                    Some(item) => {
                        assert(reads(*read, said[n], Some(item)));
                        items.push(item);
                    },
                    None => {
                        assert(reads(*read, said[n], None));
                        return Err(MalformedResponse);
                    },
                }
            }
            Ok(items)
        },
        Err(e) => Err(e),
    }
}

impl<F, M> WireResourceDecision<F, M> {
    /// Reads a decision. Every key may be absent, and other keys are passed over. What a row
    /// filter and a column mask look like is for their readers to say: one that its reader
    /// refuses makes the whole decision malformed.
    pub fn from_json<RF: Fn(Json) -> Option<F>, RM: Fn(Json) -> Option<M>>(
        doc: Json,
        read_filter: &RF,
        read_mask: &RM,
    ) -> (r: Result<Self, MalformedResponse>)
        requires
            forall|d: Json| #[trigger] call_requires(*read_filter, (d,)),
            forall|d: Json| #[trigger] call_requires(*read_mask, (d,)),
        ensures
            match r {
                Ok(d) => decision_in(doc@) is Some && decision_read(
                    decision_in(doc@)->0,
                    d@,
                    *read_filter,
                    *read_mask,
                ),
                Err(_) => decision_in(doc@) matches Some(docs) ==> decision_refused(
                    docs,
                    *read_filter,
                    *read_mask,
                ),
            },
    {
        let keys: Vec<String> = vec![
            "table".to_owned(),
            "name".to_owned(),
            "allow".to_owned(),
            "reason".to_owned(),
            "rowFilters".to_owned(),
            "columnMasks".to_owned(),
        ];
        proof {
            assert(texts(keys@) =~= decision_keys());
            lemma_decision_keys_distinct();
        }
        match doc.into_record(&keys) {
            Some(found) => {
                let mut fields = found;
                assert(field_views(fields@).len() == 6);
                let column_masks = read_each(fields.pop().unwrap(), read_mask);
                let row_filters = read_each(fields.pop().unwrap(), read_filter);
                let reason = read_text(fields.pop().unwrap());
                let allow = read_flag(fields.pop().unwrap());
                let name = read_text(fields.pop().unwrap());
                let table = read_text(fields.pop().unwrap());
                match (table, name, allow, reason, row_filters, column_masks) {
                    (
                        Ok(table),
                        Ok(name),
                        Ok(allow),
                        Ok(reason),
                        Ok(row_filters),
                        Ok(column_masks),
                    ) => Ok(
                        WireResourceDecision {
                            table,
                            name,
                            allow,
                            reason,
                            row_filters,
                            column_masks,
                        },
                    ),
                    _ => Err(MalformedResponse),
                }
            },
            None => Err(MalformedResponse),
        }
    }
}

proof fn lemma_decision_keys_distinct()
    ensures
        decision_keys().no_duplicates(),
{
    reveal_strlit("table");
    reveal_strlit("name");
    reveal_strlit("allow");
    reveal_strlit("reason");
    reveal_strlit("rowFilters");
    reveal_strlit("columnMasks");
    assert("table"@[0] == 't' && "allow"@[0] == 'a');
    let keys = decision_keys();
    assert(keys[0].len() == 5 && keys[1].len() == 4 && keys[2].len() == 5);
    assert(keys[3].len() == 6 && keys[4].len() == 10 && keys[5].len() == 11);
}

impl<F, M> OpaResult<F, M> {
    /// Reads a result. See [`WireResourceDecision::from_json`] for the readers.
    pub fn from_json<RF: Fn(Json) -> Option<F>, RM: Fn(Json) -> Option<M>>(
        doc: Json,
        read_filter: &RF,
        read_mask: &RM,
    ) -> (r: Result<Self, MalformedResponse>)
        requires
            forall|d: Json| #[trigger] call_requires(*read_filter, (d,)),
            forall|d: Json| #[trigger] call_requires(*read_mask, (d,)),
        ensures
            match r {
                Ok(result) => result_in(doc@) is Some && decisions_read(
                    result_in(doc@)->0,
                    result@,
                    *read_filter,
                    *read_mask,
                ),
                Err(_) => result_in(doc@) matches Some(docs) ==> decisions_refused(
                    docs,
                    *read_filter,
                    *read_mask,
                ),
            },
    {
        let keys: Vec<String> = vec!["resources".to_owned()];
        assert(texts(keys@) =~= seq!["resources"@]);
        match doc.into_record(&keys) {
            Some(found) => {
                let mut fields = found;
                assert(field_views(fields@).len() == 1);
                match read_list(fields.pop().unwrap()) {
                    Ok(docs) => {
                        let ghost said = doc_views(docs@);
                        let mut resources: Vec<WireResourceDecision<F, M>> = Vec::new();
                        for item in it: docs
                            invariant
                                it.seq() == docs@,
                                said == doc_views(docs@),
                                result_in(doc@) == decisions_in(said),
                                forall|d: Json| #[trigger] call_requires(*read_filter, (d,)),
                                forall|d: Json| #[trigger] call_requires(*read_mask, (d,)),
                                resources@.len() == it.index(),
                                forall|j: int|
                                    0 <= j < resources@.len() ==> decision_in(
                                        #[trigger] said[j],
                                    ) is Some,
                                forall|j: int|
                                    0 <= j < resources@.len() ==> decision_read(
                                        decision_in(said[j])->0,
                                        (#[trigger] resources@[j])@,
                                        *read_filter,
                                        *read_mask,
                                    ),
                        {
                            let ghost n = it.index();
                            assert(said[n] == item@);
                            match WireResourceDecision::from_json(item, read_filter, read_mask) {
                                Ok(d) => {
                                    resources.push(d);
                                },
                                Err(e) => {
                                    proof {
                                        if decisions_in(said) is Some {
                                            assert(decision_in(said[n]) is Some);
                                            assert(decisions_in(said)->0[n] == decision_in(
                                                said[n],
                                            )->0);
                                        }
                                    }
                                    return Err(e);
                                },
                            }
                        }
                        let result = OpaResult { resources };
                        assert forall|j: int| 0 <= j < result@.len() implies decision_read(
                            decisions_in(said)->0[j],
                            #[trigger] result@[j],
                            *read_filter,
                            *read_mask,
                        ) by {
                            assert(result@[j] == resources@[j]@);
                        }
                        Ok(result)
                    },
                    Err(e) => Err(e),
                }
            },
            None => Err(MalformedResponse),
        }
    }
}

impl<F, M> OpaResponse<F, M> {
    /// Reads a response. See [`WireResourceDecision::from_json`] for the readers.
    pub fn from_json<RF: Fn(Json) -> Option<F>, RM: Fn(Json) -> Option<M>>(
        doc: Json,
        read_filter: &RF,
        read_mask: &RM,
    ) -> (r: Result<Self, MalformedResponse>)
        requires
            forall|d: Json| #[trigger] call_requires(*read_filter, (d,)),
            forall|d: Json| #[trigger] call_requires(*read_mask, (d,)),
        ensures
            match r {
                Ok(response) => response_in(doc@) is Some && response_read(
                    response_in(doc@)->0,
                    response@,
                    *read_filter,
                    *read_mask,
                ),
                Err(_) => response_in(doc@) matches Some(docs) ==> docs is Some
                    && decisions_refused(docs->0, *read_filter, *read_mask),
            },
    {
        let keys: Vec<String> = vec!["result".to_owned()];
        assert(texts(keys@) =~= seq!["result"@]);
        match doc.into_record(&keys) {
            Some(found) => {
                let mut fields = found;
                assert(field_views(fields@).len() == 1);
                match fields.pop().unwrap() {
                    None | Some(Json::Null) => Ok(OpaResponse { result: None }),
                    Some(doc) => match OpaResult::from_json(doc, read_filter, read_mask) {
                        Ok(result) => Ok(OpaResponse { result: Some(result) }),
                        Err(e) => Err(e),
                    },
                }
            },
            None => Err(MalformedResponse),
        }
    }
}

// ---- from a response to a decision ----

/// The reason given for a request that the policy did not decide at all.
pub open spec fn undecided_reason(requested: nat) -> Seq<char> {
    "policy returned no decision for "@ + decimal(requested) + " resource(s)"@
}

/// The reason given for a resource that the policy passed over.
pub open spec fn passed_over_reason() -> Seq<char> {
    "policy returned no decision for this resource"@
}

impl<F, M> WireDecisionView<F, M> {
    /// The resource that the decision is about: its `name`, or else its `table`.
    pub open spec fn subject(self) -> Option<Seq<char>> {
        match self.name {
            Some(name) => Some(name),
            None => self.table,
        }
    }

    /// The verdict that the decision amounts to.
    pub open spec fn verdict(self) -> ResourceDecisionView<F, M> {
        ResourceDecisionView {
            table: match self.subject() {
                Some(name) => name,
                None => Seq::empty(),
            },
            allow: self.allow,
            reason: self.reason,
            row_filters: self.row_filters,
            column_masks: self.column_masks,
        }
    }
}

/// Whether some decision is about the resource `name`.
pub open spec fn decides<F, M>(decisions: Seq<WireDecisionView<F, M>>, name: Seq<char>) -> bool {
    exists|i: int| 0 <= i < decisions.len() && (#[trigger] decisions[i]).subject() == Some(name)
}

/// The requested resources that no decision is about, in the order of the request.
pub open spec fn passed_over<F, M>(
    decisions: Seq<WireDecisionView<F, M>>,
    requested: Seq<Seq<char>>,
) -> Seq<Seq<char>> {
    requested.filter(|name: Seq<char>| !decides(decisions, name))
}

/// The verdicts that a response amounts to, for a request for the resources `requested`.
///
/// Where the policy decided nothing, the whole request is denied. Otherwise its decisions come
/// first, in their order, and each resource that it passed over is denied after them.
pub open spec fn decision_on<F, M>(
    response: Option<Seq<WireDecisionView<F, M>>>,
    requested: Seq<Seq<char>>,
) -> Seq<ResourceDecisionView<F, M>> {
    match response {
        Some(decisions) if decisions.len() > 0 => decisions.map_values(
            |d: WireDecisionView<F, M>| d.verdict(),
        ) + passed_over(decisions, requested).map_values(
            |name: Seq<char>| denial::<F, M>(name, passed_over_reason()),
        ),
        _ => seq![denial::<F, M>("*"@, undecided_reason(requested.len()))],
    }
}

impl<F, M> WireResourceDecision<F, M> {
    fn into_verdict(self) -> (r: ResourceDecision<F, M>)
        ensures
            r@ == self@.verdict(),
    {
        let table = match self.name {
            Some(name) => name,
            None => match self.table {
                Some(table) => table,
                None => String::new(),
            },
        };
        ResourceDecision {
            table,
            allow: self.allow,
            reason: self.reason,
            row_filters: self.row_filters,
            column_masks: self.column_masks,
        }
    }
}

/// Maps a policy's answer to a neutral [`AccessDecision`].
///
/// A missing `result` (the server answers `{}` where the policy is undefined) is treated as
/// **deny-all**: the policy must explicitly produce a verdict per resource. A `result` that omits
/// a verdict for one of the *requested* resources (say, a policy that matches only some of the
/// tables of a join) is treated as a denial of that resource specifically: `is_allowed()` holds
/// of whatever is present, so an entry that is silently missing must not be allowed to mean
/// "allowed".
pub fn from_response<F, M>(resp: OpaResponse<F, M>, requested: &AccessRequest) -> (r:
    AccessDecision<F, M>)
    ensures
        r@ == decision_on(resp@, requested.names()),
{
    let decisions = match resp.result {
        Some(result) => result.resources,
        None => Vec::new(),
    };
    let ghost said = decisions@.map_values(|d: WireResourceDecision<F, M>| d@);
    let ghost names = requested.names();
    if decisions.len() == 0 {
        let mut reason = "policy returned no decision for ".to_owned();
        reason.append(to_decimal(requested.resources.len()).as_str());
        reason.append(" resource(s)");
        return AccessDecision::deny_all(reason);
    }
    let mut resources: Vec<ResourceDecision<F, M>> = Vec::new();
    let mut decided = StringHashSet::new();
    for d in it: decisions
        invariant
            it.seq() == decisions@,
            said == decisions@.map_values(|d: WireResourceDecision<F, M>| d@),
            resources@.len() == it.index(),
            forall|j: int|
                0 <= j < resources@.len() ==> (#[trigger] resources@[j])@ == said[j].verdict(),
            forall|n: Seq<char>| #[trigger]
                decided@.contains(n) <==> decides(said.take(it.index()), n),
    {
        let named = d.name.is_some() || d.table.is_some();
        let verdict = d.into_verdict();
        if named {
            decided.insert(verdict.table.clone());
        }
        resources.push(verdict);
        proof {
            lemma_decides_one_more(said, it.index());
        }
    }
    let ghost explicit = said.map_values(|d: WireDecisionView<F, M>| d.verdict());
    let ghost is_passed_over = |name: Seq<char>| !decides(said, name);
    let ghost deny = |name: Seq<char>| denial::<F, M>(name, passed_over_reason());
    assert(said.take(said.len() as int) =~= said);
    assert(resources@.map_values(|r: ResourceDecision<F, M>| r@) =~= explicit);
    assert(names.take(0).filter(is_passed_over).map_values(deny) =~= Seq::empty()) by {
        reveal(Seq::filter);
    }
    let mut i: usize = 0;
    while i < requested.resources.len()
        invariant
            i <= requested.resources@.len(),
            names == requested.names(),
            is_passed_over == (|name: Seq<char>| !decides(said, name)),
            deny == (|name: Seq<char>| denial::<F, M>(name, passed_over_reason())),
            forall|n: Seq<char>| #[trigger] decided@.contains(n) <==> decides(said, n),
            resources@.map_values(|r: ResourceDecision<F, M>| r@) == explicit + names.take(
                i as int,
            ).filter(is_passed_over).map_values(deny),
        decreases requested.resources@.len() - i,
    {
        let name = requested.resources[i].name();
        let ghost before = resources@.map_values(|r: ResourceDecision<F, M>| r@);
        proof {
            reveal(Seq::filter);
            assert(names.take(i + 1).drop_last() =~= names.take(i as int));
            assert(names.take(i + 1).last() == name@);
        }
        if !decided.contains(name) {
            resources.push(
                ResourceDecision::deny(
                    name.to_owned(),
                    "policy returned no decision for this resource".to_owned(),
                ),
            );
            assert(names.take(i + 1).filter(is_passed_over) == names.take(i as int).filter(
                is_passed_over,
            ).push(name@));
            assert(resources@.map_values(|r: ResourceDecision<F, M>| r@) =~= before.push(deny(name@)));
        }
        assert(resources@.map_values(|r: ResourceDecision<F, M>| r@) =~= explicit + names.take(
            i + 1,
        ).filter(is_passed_over).map_values(deny));
        i += 1;
    }
    assert(names.take(names.len() as int) =~= names);
    AccessDecision { resources }
}

proof fn lemma_decides_one_more<F, M>(decisions: Seq<WireDecisionView<F, M>>, i: int)
    requires
        0 <= i < decisions.len(),
    ensures
        forall|n: Seq<char>| #[trigger]
            decides(decisions.take(i + 1), n) <==> decides(decisions.take(i), n)
                || decisions[i].subject() == Some(n),
{
    assert forall|n: Seq<char>|
        decides(decisions.take(i), n) || decisions[i].subject() == Some(n) implies #[trigger] decides(
        decisions.take(i + 1),
        n,
    ) by {
        if decisions[i].subject() == Some(n) {
            assert(decisions.take(i + 1)[i].subject() == Some(n));
        } else {
            let j = choose|j: int|
                0 <= j < i && (#[trigger] decisions.take(i)[j]).subject() == Some(n);
            assert(decisions.take(i + 1)[j].subject() == Some(n));
        }
    }
    assert forall|n: Seq<char>| #[trigger]
        decides(decisions.take(i + 1), n) implies decides(decisions.take(i), n)
        || decisions[i].subject() == Some(n) by {
        let j = choose|j: int|
            0 <= j < i + 1 && (#[trigger] decisions.take(i + 1)[j]).subject() == Some(n);
        if j < i {
            assert(decisions.take(i)[j].subject() == Some(n));
        }
    }
}

} // verus!
