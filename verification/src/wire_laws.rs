//! What is found where in the document of each wire type, stated on the type's own fields, and
//! what the library's functions hand over to one another.

use vstd::prelude::*;

use crate::access_model::{AccessDecision, AccessRequest};
use crate::body::{Body, BodyView};
use crate::decision_laws::{answered, is_decided, law_allowed_exactly_where_every_resource_is};
use crate::document_laws::{
    has_only, holds, lacks, lemma_action_members, lemma_context, lemma_grant, lemma_identity,
    lemma_input, lemma_resource, lemma_strings, sent, strings,
};
use crate::json::Json;
use crate::request::{
    to_request, OpaInput, OpaRequest, ResourceView, WireAction, WireContext, WireGrant,
    WireIdentity, WireResource,
};
use crate::response::{
    decision_in, decision_on, decision_read, decision_refused, decisions_read, decisions_refused,
    from_response, response_in, response_read, result_in, MalformedResponse, OpaResponse,
    OpaResult, WireResourceDecision,
};

verus! {

/// Whether `doc` holds `value` under `key` where there is one, and is without `key` otherwise.
pub open spec fn holds_where_given(doc: BodyView, key: Seq<char>, value: Option<&str>) -> bool {
    match value {
        Some(s) => holds(doc, key, BodyView::Text(s@)),
        None => lacks(doc, key),
    }
}

/// The document of a principal holds each of its fields, and nothing else.
pub proof fn law_identity_document<'a>(w: WireIdentity<'a>)
    ensures
        holds(w@.body(), "user"@, BodyView::Text(w.user@)),
        holds(w@.body(), "groups"@, strings(w.groups@)),
        holds(w@.body(), "roles"@, strings(w.roles@)),
        holds(w@.body(), "attributes"@, BodyView::Values(*w.attributes)),
        has_only(w@.body(), seq!["user"@, "groups"@, "roles"@, "attributes"@]),
{
    lemma_identity(w@);
    lemma_strings(w.groups@);
    lemma_strings(w.roles@);
}

/// The document of a grant holds each of its fields, and nothing else.
pub proof fn law_grant_document<'a>(w: WireGrant<'a>)
    ensures
        holds(w@.body(), "privileges"@, strings(w.privileges@)),
        holds(w@.body(), "grantees"@, strings(w.grantees@)),
        holds(w@.body(), "withGrantOption"@, BodyView::Bool(w.with_grant_option)),
        has_only(w@.body(), seq!["privileges"@, "grantees"@, "withGrantOption"@]),
{
    lemma_grant(w@);
    lemma_strings(w.privileges@);
    lemma_strings(w.grantees@);
}

/// The document of a resource holds each of its fields, and nothing else: an empty `table` and
/// what is not given are left out, and `columns` is `null` where none are given.
pub proof fn law_wire_resource_document<'a>(w: WireResource<'a>)
    ensures
        holds(w@.body(), "kind"@, BodyView::Text(w.kind@)),
        holds_where_given(w@.body(), "catalog"@, w.catalog),
        holds_where_given(w@.body(), "schema"@, w.schema),
        w.table@.len() > 0 ==> holds(w@.body(), "table"@, BodyView::Text(w.table@)),
        w.table@.len() == 0 ==> lacks(w@.body(), "table"@),
        holds_where_given(w@.body(), "value"@, w.value),
        holds(w@.body(), "name"@, BodyView::Text(w.name@)),
        w.columns is None ==> holds(w@.body(), "columns"@, BodyView::Null),
        w.columns is Some ==> holds(w@.body(), "columns"@, strings(w.columns->0@)),
        has_only(
            w@.body(),
            seq!["kind"@, "catalog"@, "schema"@, "table"@, "value"@, "name"@, "columns"@],
        ),
{
    lemma_resource(w@);
    if let Some(c) = w.columns {
        lemma_strings(c@);
    }
}

/// The document of a context holds each of its fields, and nothing else.
pub proof fn law_context_document<'a>(w: WireContext<'a>)
    ensures
        holds(w@.body(), "clusterGroup"@, BodyView::Text(w.cluster_group@)),
        holds(w@.body(), "engine"@, BodyView::Text(w.engine@)),
        holds(w@.body(), "queryId"@, BodyView::Text(w.query_id@)),
        holds(w@.body(), "sessionParams"@, BodyView::Params(*w.session_params)),
        has_only(w@.body(), seq!["clusterGroup"@, "engine"@, "queryId"@, "sessionParams"@]),
{
    lemma_context(w@);
}

/// The document of an action holds its operation, the documents of its resources in their order,
/// and its grant's document where it has one; and nothing else.
pub proof fn law_action_document<'a>(w: WireAction<'a>)
    ensures
        holds(w@.body(), "operation"@, BodyView::Text(w.operation@)),
        holds(
            w@.body(),
            "resources"@,
            BodyView::List(Seq::new(w.resources@.len(), |i: int| w.resources@[i]@.body())),
        ),
        w.grant is Some ==> holds(w@.body(), "grant"@, w.grant->0@.body()),
        w.grant is None ==> lacks(w@.body(), "grant"@),
        has_only(w@.body(), seq!["operation"@, "resources"@, "grant"@]),
{
    lemma_action_members(w@);
    assert(w@.resources.map_values(|r: ResourceView| r.body()) =~= Seq::new(
        w.resources@.len(),
        |i: int| w.resources@[i]@.body(),
    ));
}

/// The document of an input holds the documents of its three parts, and nothing else.
pub proof fn law_input_document<'a>(w: OpaInput<'a>)
    ensures
        holds(w@.body(), "identity"@, w.identity@.body()),
        holds(w@.body(), "action"@, w.action@.body()),
        holds(w@.body(), "context"@, w.context@.body()),
        has_only(w@.body(), seq!["identity"@, "action"@, "context"@]),
{
    lemma_input(w@);
}

// ---- calls ----

/// What [`OpaRequest::to_body`] makes of what [`to_request`] makes of a request is the document
/// that is sent for it.
pub proof fn law_request_becomes_its_document<'a>(
    req: &'a AccessRequest,
    r: OpaRequest<'a>,
    b: Body<'a>,
)
    requires
        call_ensures(to_request, (req,), r),
        call_ensures(OpaRequest::<'a>::to_body, (&r,), b),
    ensures
        b@ == sent(*req),
{
}

/// What [`from_response`] makes of an answer is the decision on the request's resources.
pub proof fn law_answer_becomes_the_decision<F, M>(
    resp: OpaResponse<F, M>,
    req: &AccessRequest,
    r: AccessDecision<F, M>,
)
    requires
        call_ensures(from_response::<F, M>, (resp, req), r),
    ensures
        r@ == decision_on(resp@, req.names()),
{
}

/// [`AccessDecision::is_allowed`] says yes to what [`from_response`] makes of an answer exactly
/// where the policy decided something, every one of its decisions allows, and each requested
/// resource is echoed by one of them.
pub proof fn law_request_is_let_through<F, M>(
    resp: OpaResponse<F, M>,
    req: &AccessRequest,
    r: AccessDecision<F, M>,
    allowed: bool,
)
    requires
        call_ensures(from_response::<F, M>, (resp, req), r),
        call_ensures(AccessDecision::<F, M>::is_allowed, (&r,), allowed),
    ensures
        allowed <==> {
            &&& answered(resp).len() > 0
            &&& forall|k: int|
                0 <= k < answered(resp).len() ==> (#[trigger] answered(resp)[k]).allow
            &&& forall|i: int|
                0 <= i < req.resources@.len() ==> is_decided(resp, #[trigger] req.resources@[i])
        },
{
    law_allowed_exactly_where_every_resource_is(resp, *req, r);
}

/// What [`WireResourceDecision::from_json`] makes of a document is the decision in it, read; a
/// document that it refuses is not a decision, or lists an item that a reader refuses.
pub proof fn law_document_becomes_the_decision<
    F,
    M,
    RF: Fn(Json) -> Option<F>,
    RM: Fn(Json) -> Option<M>,
>(
    doc: Json,
    read_filter: &RF,
    read_mask: &RM,
    r: Result<WireResourceDecision<F, M>, MalformedResponse>,
)
    requires
        call_ensures(
            WireResourceDecision::<F, M>::from_json::<RF, RM>,
            (doc, read_filter, read_mask),
            r,
        ),
    ensures
        r is Ok ==> decision_in(doc@) is Some && decision_read(
            decision_in(doc@)->0,
            r->Ok_0@,
            *read_filter,
            *read_mask,
        ),
        r is Err && decision_in(doc@) is Some ==> decision_refused(
            decision_in(doc@)->0,
            *read_filter,
            *read_mask,
        ),
{
}

/// What [`OpaResult::from_json`] makes of a document is the result in it, read; a document that
/// it refuses is not a result, or lists an item that a reader refuses.
pub proof fn law_document_becomes_the_result<
    F,
    M,
    RF: Fn(Json) -> Option<F>,
    RM: Fn(Json) -> Option<M>,
>(
    doc: Json,
    read_filter: &RF,
    read_mask: &RM,
    r: Result<OpaResult<F, M>, MalformedResponse>,
)
    requires
        call_ensures(OpaResult::<F, M>::from_json::<RF, RM>, (doc, read_filter, read_mask), r),
    ensures
        r is Ok ==> result_in(doc@) is Some && decisions_read(
            result_in(doc@)->0,
            r->Ok_0@,
            *read_filter,
            *read_mask,
        ),
        r is Err && result_in(doc@) is Some ==> decisions_refused(
            result_in(doc@)->0,
            *read_filter,
            *read_mask,
        ),
{
}

/// What [`OpaResponse::from_json`] makes of a document is the response in it, read; a document
/// that it refuses is not a response, or lists an item that a reader refuses.
pub proof fn law_document_becomes_the_response<
    F,
    M,
    RF: Fn(Json) -> Option<F>,
    RM: Fn(Json) -> Option<M>,
>(
    doc: Json,
    read_filter: &RF,
    read_mask: &RM,
    r: Result<OpaResponse<F, M>, MalformedResponse>,
)
    requires
        call_ensures(OpaResponse::<F, M>::from_json::<RF, RM>, (doc, read_filter, read_mask), r),
    ensures
        r is Ok ==> response_in(doc@) is Some && response_read(
            response_in(doc@)->0,
            r->Ok_0@,
            *read_filter,
            *read_mask,
        ),
        r is Err && response_in(doc@) is Some ==> response_in(doc@)->0 is Some
            && decisions_refused(response_in(doc@)->0->0, *read_filter, *read_mask),
{
}

} // verus!
