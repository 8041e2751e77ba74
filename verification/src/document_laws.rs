//! What is found where in the document of a request, stated on the request's own fields.

use std::collections::BTreeMap;

use vstd::prelude::*;

use crate::access_model::{AccessRequest, Columns};
use crate::body::{text_list, Body, BodyView};
use crate::entries::{entry, lemma_entry_found};
use crate::laws::{
    keys_differ, lemma_members_repeat_no_key, lemma_resource_entry, lemma_resource_keys_distinct,
};
use crate::request::{
    optional_member, wire_grant, wire_input, wire_resource, ActionView, ContextView, GrantView,
    IdentityView, InputView, ResourceView,
};
use crate::text::texts;

verus! {

// ---- finding things in a document ----

/// Whether `doc` is an object that holds `value`, and nothing else, under `key`.
pub open spec fn holds(doc: BodyView, key: Seq<char>, value: BodyView) -> bool {
    match doc {
        BodyView::Object(m) => m.contains((key, value)) && (forall|v: BodyView| #[trigger]
            m.contains((key, v)) ==> v == value),
        _ => false,
    }
}

/// Whether `doc` is an object that has all its keys among `keys`, none of them twice, and in the
/// order of `keys`.
pub open spec fn has_only(doc: BodyView, keys: Seq<Seq<char>>) -> bool {
    match doc {
        BodyView::Object(m) => exists|places: Seq<int>| #[trigger] picks(m, keys, places),
        _ => false,
    }
}

/// Whether the keys of `m` are those of `keys` at `places`, from left to right.
pub open spec fn picks(
    m: Seq<(Seq<char>, BodyView)>,
    keys: Seq<Seq<char>>,
    places: Seq<int>,
) -> bool {
    &&& places.len() == m.len()
    &&& forall|i: int, j: int|
        0 <= i < j < places.len() ==> #[trigger] places[i] < #[trigger] places[j]
    &&& forall|i: int|
        0 <= i < places.len() ==> 0 <= #[trigger] places[i] < keys.len() && m[i].0
            == keys[places[i]]
}

/// Whether `doc` is an object without `key`.
pub open spec fn lacks(doc: BodyView, key: Seq<char>) -> bool {
    match doc {
        BodyView::Object(m) => forall|i: int| 0 <= i < m.len() ==> (#[trigger] m[i]).0 != key,
        _ => false,
    }
}

/// What `doc` holds under `key`.
pub open spec fn under(doc: BodyView, key: Seq<char>) -> BodyView {
    choose|v: BodyView| holds(doc, key, v)
}

/// Whether `doc` holds `value` under `key` where there is one, and is without `key` otherwise.
pub open spec fn holds_optional(doc: BodyView, key: Seq<char>, value: Option<String>) -> bool {
    match value {
        Some(s) => holds(doc, key, BodyView::Text(s@)),
        None => lacks(doc, key),
    }
}

/// The list of the strings `s`.
pub open spec fn strings(s: Seq<String>) -> BodyView {
    BodyView::List(Seq::new(s.len(), |i: int| BodyView::Text(s[i]@)))
}

/// The document that is sent for a request.
pub open spec fn sent(req: AccessRequest) -> BodyView {
    BodyView::Object(seq![("input"@, wire_input(req).body())])
}

proof fn lemma_holds(m: Seq<(Seq<char>, BodyView)>, i: int)
    requires
        keys_differ(m),
        0 <= i < m.len(),
    ensures
        holds(BodyView::Object(m), m[i].0, m[i].1),
        under(BodyView::Object(m), m[i].0) == m[i].1,
{
    let (key, value) = m[i];
    assert(m[i] == (key, value));
    assert forall|v: BodyView| #[trigger] m.contains((key, v)) implies v == value by {
        let j = choose|j: int| 0 <= j < m.len() && m[j] == (key, v);
        assert(m[j].0 == m[i].0);
    }
    assert(holds(BodyView::Object(m), key, value));
    assert(holds(BodyView::Object(m), key, under(BodyView::Object(m), key)));
}

proof fn lemma_entry_holds(m: Seq<(Seq<char>, BodyView)>, key: Seq<char>)
    requires
        keys_differ(m),
    ensures
        entry(m, key) matches Some(v) ==> holds(BodyView::Object(m), key, v),
        entry(m, key) is None ==> lacks(BodyView::Object(m), key),
    decreases m.len(),
{
    lemma_entry_found(m, key);
    if entry(m, key) is Some {
        lemma_entry_at(m, key);
        let i = choose|i: int| 0 <= i < m.len() && m[i] == (key, entry(m, key)->0);
        lemma_holds(m, i);
    }
}

proof fn lemma_entry_at(m: Seq<(Seq<char>, BodyView)>, key: Seq<char>)
    requires
        entry(m, key) is Some,
    ensures
        exists|i: int| 0 <= i < m.len() && m[i] == (key, entry(m, key)->0),
    decreases m.len(),
{
    if m[0].0 == key {
        assert(m[0] == (key, entry(m, key)->0));
    } else {
        lemma_entry_at(m.drop_first(), key);
        let rest = m.drop_first();
        let i = choose|i: int| 0 <= i < rest.len() && rest[i] == (key, entry(rest, key)->0);
        assert(m[i + 1] == (key, entry(m, key)->0));
    }
}

// ---- bodies ----

/// A body says what it is made of, and nothing is lost or changed on the way: a flag stays that
/// flag, a string that string, a map that map, and a list and an object keep what they list, in
/// their order.
pub proof fn law_body_says_what_it_is_made_of<'a>(
    b: bool,
    text: &'a str,
    list: &'a [String],
    params: &'a BTreeMap<String, String>,
    values: &'a BTreeMap<String, serde_json::Value>,
    items: Vec<Body<'a>>,
    members: Vec<(&'static str, Body<'a>)>,
)
    ensures
        Body::Null@ == BodyView::Null,
        Body::Bool(b)@ == BodyView::Bool(b),
        Body::Text(text)@ == BodyView::Text(text@),
        Body::Texts(list)@ == strings(list@),
        Body::Params(params)@ == BodyView::Params(*params),
        Body::Values(values)@ == BodyView::Values(*values),
        Body::List(items)@ == BodyView::List(Seq::new(items@.len(), |i: int| items@[i]@)),
        Body::Object(members)@ == BodyView::Object(
            Seq::new(members@.len(), |i: int| (members@[i].0@, members@[i].1@)),
        ),
{
    assert(Body::Texts(list)@->List_0 =~= strings(list@)->List_0);
    assert(Body::List(items)@->List_0 =~= Seq::new(items@.len(), |i: int| items@[i]@));
    assert(Body::Object(members)@->Object_0 =~= Seq::new(
        members@.len(),
        |i: int| (members@[i].0@, members@[i].1@),
    ));
}

// ---- the documents of the parts ----

proof fn lemma_keys(m: Seq<(Seq<char>, BodyView)>, keys: Seq<Seq<char>>)
    requires
        m.len() <= keys.len(),
        forall|i: int| 0 <= i < m.len() ==> (#[trigger] m[i]).0 == keys[i],
    ensures
        has_only(BodyView::Object(m), keys),
{
    let places = Seq::new(m.len(), |i: int| i);
    assert(picks(m, keys, places));
    assert(BodyView::Object(m)->Object_0 == m);
}

proof fn lemma_picks_none_or_one(
    m: Seq<(Seq<char>, BodyView)>,
    keys: Seq<Seq<char>>,
    places: Seq<int>,
    k: int,
    value: Option<Seq<char>>,
) -> (r: Seq<int>)
    requires
        picks(m, keys, places),
        0 <= k < keys.len(),
        forall|i: int| 0 <= i < places.len() ==> #[trigger] places[i] < k,
    ensures
        picks(m + optional_member(keys[k], value), keys, r),
        forall|i: int| 0 <= i < r.len() ==> #[trigger] r[i] < k + 1,
{
    let n = m + optional_member(keys[k], value);
    if value is Some {
        assert(n =~= m.push((keys[k], BodyView::Text(value->0))));
        places.push(k)
    } else {
        assert(n =~= m);
        places
    }
}

pub(crate) proof fn lemma_strings(s: Seq<String>)
    ensures
        text_list(texts(s)) == strings(s),
{
    assert(text_list(texts(s))->List_0 =~= strings(s)->List_0);
}

pub(crate) proof fn lemma_identity(v: IdentityView)
    ensures
        holds(v.body(), "user"@, BodyView::Text(v.user)),
        holds(v.body(), "groups"@, text_list(v.groups)),
        holds(v.body(), "roles"@, text_list(v.roles)),
        holds(v.body(), "attributes"@, BodyView::Values(v.attributes)),
        has_only(v.body(), seq!["user"@, "groups"@, "roles"@, "attributes"@]),
{
    reveal_strlit("user");
    reveal_strlit("groups");
    reveal_strlit("roles");
    reveal_strlit("attributes");
    assert("user"@.len() == 4 && "groups"@.len() == 6 && "roles"@.len() == 5
        && "attributes"@.len() == 10);
    let m = v.body()->Object_0;
    assert(keys_differ(m));
    lemma_holds(m, 0);
    lemma_holds(m, 1);
    lemma_holds(m, 2);
    lemma_holds(m, 3);
    lemma_keys(m, seq!["user"@, "groups"@, "roles"@, "attributes"@]);
}

pub(crate) proof fn lemma_context(v: ContextView)
    ensures
        holds(v.body(), "clusterGroup"@, BodyView::Text(v.cluster_group)),
        holds(v.body(), "engine"@, BodyView::Text(v.engine)),
        holds(v.body(), "queryId"@, BodyView::Text(v.query_id)),
        holds(v.body(), "sessionParams"@, BodyView::Params(v.session_params)),
        has_only(v.body(), seq!["clusterGroup"@, "engine"@, "queryId"@, "sessionParams"@]),
{
    reveal_strlit("clusterGroup");
    reveal_strlit("engine");
    reveal_strlit("queryId");
    reveal_strlit("sessionParams");
    assert("clusterGroup"@.len() == 12 && "engine"@.len() == 6 && "queryId"@.len() == 7
        && "sessionParams"@.len() == 13);
    let m = v.body()->Object_0;
    assert(keys_differ(m));
    lemma_holds(m, 0);
    lemma_holds(m, 1);
    lemma_holds(m, 2);
    lemma_holds(m, 3);
    lemma_keys(m, seq!["clusterGroup"@, "engine"@, "queryId"@, "sessionParams"@]);
}

pub(crate) proof fn lemma_grant(v: GrantView)
    ensures
        holds(v.body(), "privileges"@, text_list(v.privileges)),
        holds(v.body(), "grantees"@, text_list(v.grantees)),
        holds(v.body(), "withGrantOption"@, BodyView::Bool(v.with_grant_option)),
        has_only(v.body(), seq!["privileges"@, "grantees"@, "withGrantOption"@]),
{
    reveal_strlit("privileges");
    reveal_strlit("grantees");
    reveal_strlit("withGrantOption");
    assert("privileges"@.len() == 10 && "grantees"@.len() == 8 && "withGrantOption"@.len() == 15);
    let m = v.body()->Object_0;
    assert(keys_differ(m));
    lemma_holds(m, 0);
    lemma_holds(m, 1);
    lemma_holds(m, 2);
    lemma_keys(m, seq!["privileges"@, "grantees"@, "withGrantOption"@]);
}

pub(crate) proof fn lemma_action_members(v: ActionView)
    ensures
        holds(v.body(), "operation"@, BodyView::Text(v.operation)),
        holds(
            v.body(),
            "resources"@,
            BodyView::List(v.resources.map_values(|r: ResourceView| r.body())),
        ),
        under(v.body(), "resources"@) == BodyView::List(
            v.resources.map_values(|r: ResourceView| r.body()),
        ),
        v.grant is Some ==> holds(v.body(), "grant"@, v.grant->0.body()),
        v.grant is Some ==> under(v.body(), "grant"@) == v.grant->0.body(),
        v.grant is None ==> lacks(v.body(), "grant"@),
        has_only(v.body(), seq!["operation"@, "resources"@, "grant"@]),
{
    reveal_strlit("operation");
    reveal_strlit("resources");
    reveal_strlit("grant");
    assert("operation"@[0] == 'o' && "resources"@[0] == 'r' && "grant"@[0] == 'g');
    let m = v.members();
    assert(keys_differ(m));
    lemma_holds(m, 0);
    lemma_holds(m, 1);
    if v.grant is Some {
        lemma_holds(m, 2);
    }
    lemma_keys(m, seq!["operation"@, "resources"@, "grant"@]);
}

pub(crate) proof fn lemma_input(v: InputView)
    ensures
        holds(v.body(), "identity"@, v.identity.body()),
        under(v.body(), "identity"@) == v.identity.body(),
        holds(v.body(), "action"@, v.action.body()),
        under(v.body(), "action"@) == v.action.body(),
        holds(v.body(), "context"@, v.context.body()),
        under(v.body(), "context"@) == v.context.body(),
        has_only(v.body(), seq!["identity"@, "action"@, "context"@]),
{
    reveal_strlit("identity");
    reveal_strlit("action");
    reveal_strlit("context");
    assert("identity"@.len() == 8 && "action"@.len() == 6 && "context"@.len() == 7);
    let m = v.body()->Object_0;
    assert(keys_differ(m));
    lemma_holds(m, 0);
    lemma_holds(m, 1);
    lemma_holds(m, 2);
    lemma_keys(m, seq!["identity"@, "action"@, "context"@]);
}

pub(crate) proof fn lemma_resource(v: ResourceView)
    ensures
        holds(v.body(), "kind"@, BodyView::Text(v.kind)),
        match v.catalog {
            Some(s) => holds(v.body(), "catalog"@, BodyView::Text(s)),
            None => lacks(v.body(), "catalog"@),
        },
        match v.schema {
            Some(s) => holds(v.body(), "schema"@, BodyView::Text(s)),
            None => lacks(v.body(), "schema"@),
        },
        if v.table.len() > 0 {
            holds(v.body(), "table"@, BodyView::Text(v.table))
        } else {
            lacks(v.body(), "table"@)
        },
        match v.value {
            Some(s) => holds(v.body(), "value"@, BodyView::Text(s)),
            None => lacks(v.body(), "value"@),
        },
        holds(v.body(), "name"@, BodyView::Text(v.name)),
        match v.columns {
            Some(c) => holds(v.body(), "columns"@, text_list(c)),
            None => holds(v.body(), "columns"@, BodyView::Null),
        },
        has_only(
            v.body(),
            seq!["kind"@, "catalog"@, "schema"@, "table"@, "value"@, "name"@, "columns"@],
        ),
{
    let m = v.members();
    let ks = seq!["kind"@, "catalog"@, "schema"@, "table"@, "value"@, "name"@, "columns"@];
    lemma_resource_keys_distinct();
    lemma_members_repeat_no_key(v);
    assert forall|k: int| 0 <= k < ks.len() implies {
        &&& entry(m, #[trigger] ks[k]) matches Some(x) ==> holds(v.body(), ks[k], x)
        &&& entry(m, ks[k]) is None ==> lacks(v.body(), ks[k])
    } by {
        lemma_entry_holds(m, ks[k]);
    }
    lemma_resource_entry(v, ks[0]);
    lemma_resource_entry(v, ks[1]);
    lemma_resource_entry(v, ks[2]);
    lemma_resource_entry(v, ks[3]);
    lemma_resource_entry(v, ks[4]);
    lemma_resource_entry(v, ks[5]);
    lemma_resource_entry(v, ks[6]);
    let table = if v.table.len() == 0 {
        None
    } else {
        Some(v.table)
    };
    let m0 = seq![("kind"@, BodyView::Text(v.kind))];
    let m1 = m0 + optional_member(ks[1], v.catalog);
    let m2 = m1 + optional_member(ks[2], v.schema);
    let m3 = m2 + optional_member(ks[3], table);
    let m4 = m3 + optional_member(ks[4], v.value);
    let p1 = lemma_picks_none_or_one(m0, ks, seq![0int], 1, v.catalog);
    let p2 = lemma_picks_none_or_one(m1, ks, p1, 2, v.schema);
    let p3 = lemma_picks_none_or_one(m2, ks, p2, 3, table);
    let p4 = lemma_picks_none_or_one(m3, ks, p3, 4, v.value);
    assert(picks(m, ks, p4.push(5).push(6)));
}

// ---- the document of a request ----

/// The document has an `input`, and the input an `identity`, an `action` and a `context`, and
/// neither has anything else.
pub proof fn law_document_frame(req: AccessRequest)
    ensures
        has_only(sent(req), seq!["input"@]),
        has_only(under(sent(req), "input"@), seq!["identity"@, "action"@, "context"@]),
        holds(sent(req), "input"@, under(sent(req), "input"@)),
        holds(
            under(sent(req), "input"@),
            "identity"@,
            under(under(sent(req), "input"@), "identity"@),
        ),
        holds(
            under(sent(req), "input"@),
            "action"@,
            under(under(sent(req), "input"@), "action"@),
        ),
        holds(
            under(sent(req), "input"@),
            "context"@,
            under(under(sent(req), "input"@), "context"@),
        ),
{
    lemma_frame(req);
    lemma_keys(sent(req)->Object_0, seq!["input"@]);
}

proof fn lemma_frame(req: AccessRequest)
    ensures
        holds(sent(req), "input"@, wire_input(req).body()),
        under(sent(req), "input"@) == wire_input(req).body(),
        holds(wire_input(req).body(), "identity"@, wire_input(req).identity.body()),
        under(wire_input(req).body(), "identity"@) == wire_input(req).identity.body(),
        holds(wire_input(req).body(), "action"@, wire_input(req).action.body()),
        under(wire_input(req).body(), "action"@) == wire_input(req).action.body(),
        holds(wire_input(req).body(), "context"@, wire_input(req).context.body()),
        under(wire_input(req).body(), "context"@) == wire_input(req).context.body(),
        has_only(wire_input(req).body(), seq!["identity"@, "action"@, "context"@]),
{
    lemma_holds(sent(req)->Object_0, 0);
    lemma_input(wire_input(req));
}

/// The document tells who asks: the user, the groups and the roles in their order, and the
/// attributes as they are; and nothing else of the principal.
pub proof fn law_identity_is_sent(req: AccessRequest)
    ensures
        ({
            let identity = under(under(sent(req), "input"@), "identity"@);
            &&& holds(identity, "user"@, BodyView::Text(req.identity.user@))
            &&& holds(identity, "groups"@, strings(req.identity.groups@))
            &&& holds(identity, "roles"@, strings(req.identity.roles@))
            &&& holds(identity, "attributes"@, BodyView::Values(req.identity.attributes))
            &&& has_only(identity, seq!["user"@, "groups"@, "roles"@, "attributes"@])
        }),
{
    lemma_frame(req);
    lemma_identity(wire_input(req).identity);
    lemma_strings(req.identity.groups@);
    lemma_strings(req.identity.roles@);
}

/// The document tells where the statement runs: the cluster group, the engine, the query's id
/// and the session's parameters, as they are; and nothing else of the context.
pub proof fn law_context_is_sent(req: AccessRequest)
    ensures
        ({
            let context = under(under(sent(req), "input"@), "context"@);
            &&& holds(context, "clusterGroup"@, BodyView::Text(req.context.cluster_group@))
            &&& holds(context, "engine"@, BodyView::Text(req.context.engine@))
            &&& holds(context, "queryId"@, BodyView::Text(req.context.query_id@))
            &&& holds(context, "sessionParams"@, BodyView::Params(req.context.session_params))
            &&& has_only(context, seq!["clusterGroup"@, "engine"@, "queryId"@, "sessionParams"@])
        }),
{
    lemma_frame(req);
    lemma_context(wire_input(req).context);
}

/// Whether an operation is `grant.*`, `role.grant` or `role.revoke`, character by character.
pub open spec fn is_grant_operation(op: Seq<char>) -> bool {
    ||| op.len() >= 6 && op[0] == 'g' && op[1] == 'r' && op[2] == 'a' && op[3] == 'n' && op[4]
        == 't' && op[5] == '.'
    ||| op == "role.grant"@
    ||| op == "role.revoke"@
}

/// The document tells what is done: the operation, one document per requested resource, and a
/// grant exactly where the request has one and its operation is `grant.*`, `role.grant` or
/// `role.revoke`; and nothing else of the action.
pub proof fn law_action_is_sent(req: AccessRequest)
    ensures
        ({
            let action = under(under(sent(req), "input"@), "action"@);
            let resources = under(action, "resources"@);
            &&& holds(action, "operation"@, BodyView::Text(req.operation.0@))
            &&& holds(action, "resources"@, resources)
            &&& resources is List
            &&& resources->List_0.len() == req.resources@.len()
            &&& (req.grant is Some && is_grant_operation(req.operation.0@)) ==> holds(
                action,
                "grant"@,
                under(action, "grant"@),
            )
            &&& !(req.grant is Some && is_grant_operation(req.operation.0@)) ==> lacks(
                action,
                "grant"@,
            )
            &&& has_only(action, seq!["operation"@, "resources"@, "grant"@])
        }),
{
    lemma_action(req);
    lemma_action_members(wire_input(req).action);
}

proof fn lemma_action(req: AccessRequest)
    ensures
        under(under(sent(req), "input"@), "action"@) == wire_input(req).action.body(),
        ({
            let action = wire_input(req).action.body();
            let resources = under(action, "resources"@);
            &&& holds(action, "operation"@, BodyView::Text(req.operation.0@))
            &&& holds(action, "resources"@, resources)
            &&& resources is List
            &&& resources->List_0.len() == req.resources@.len()
            &&& forall|i: int|
                0 <= i < req.resources@.len() ==> (#[trigger] resources->List_0[i])
                    == BodyView::Object(wire_resource(req.resources@[i]).members())
            &&& (req.grant is Some && is_grant_operation(req.operation.0@)) ==> under(
                action,
                "grant"@,
            ) == wire_grant(req.grant->0).body() && holds(
                action,
                "grant"@,
                wire_grant(req.grant->0).body(),
            )
            &&& !(req.grant is Some && is_grant_operation(req.operation.0@)) ==> lacks(
                action,
                "grant"@,
            )
        }),
{
    lemma_frame(req);
    reveal_strlit("grant.");
    let op = req.operation.0@;
    if op.len() >= 6 && op[0] == 'g' && op[1] == 'r' && op[2] == 'a' && op[3] == 'n' && op[4]
        == 't' && op[5] == '.' {
        assert("grant."@ =~= op.subrange(0, 6));
    }
    if "grant."@.is_prefix_of(op) {
        assert("grant."@ == op.subrange(0, 6));
        assert("grant."@[0] == op[0] && "grant."@[1] == op[1] && "grant."@[2] == op[2]
            && "grant."@[3] == op[3] && "grant."@[4] == op[4] && "grant."@[5] == op[5]);
    }
    lemma_action_members(wire_input(req).action);
}

/// Each requested resource is sent as it is, in its place, whatever its other fields hold: its
/// kind; its own name; its catalog, its schema and its value where it has them; its `table` where
/// it is a table or a view with a name; its columns, a list of the named ones and `null` for all;
/// and nothing else.
pub proof fn law_resource_is_sent(req: AccessRequest, i: int)
    requires
        0 <= i < req.resources@.len(),
    ensures
        ({
            let r = req.resources@[i];
            let item = under(
                under(under(sent(req), "input"@), "action"@),
                "resources"@,
            )->List_0[i];
            &&& r.kind is Table ==> holds(item, "kind"@, BodyView::Text("table"@))
            &&& r.kind is View ==> holds(item, "kind"@, BodyView::Text("view"@))
            &&& r.kind is Schema ==> holds(item, "kind"@, BodyView::Text("schema"@))
            &&& r.kind is Catalog ==> holds(item, "kind"@, BodyView::Text("catalog"@))
            &&& r.kind is Role ==> holds(item, "kind"@, BodyView::Text("role"@))
            &&& r.kind is Session ==> holds(item, "kind"@, BodyView::Text("session"@))
            &&& r.kind is Function ==> holds(item, "kind"@, BodyView::Text("function"@))
            &&& r.kind is Location ==> holds(item, "kind"@, BodyView::Text("location"@))
            &&& holds_optional(item, "catalog"@, r.catalog)
            &&& holds_optional(item, "schema"@, r.schema)
            &&& holds_optional(item, "value"@, r.value)
            &&& if (r.kind is Table || r.kind is View) && r.table@.len() > 0 {
                holds(item, "table"@, BodyView::Text(r.table@))
            } else {
                lacks(item, "table"@)
            }
            &&& if r.kind is Schema && r.schema is Some {
                holds(item, "name"@, BodyView::Text(r.schema->0@))
            } else if r.kind is Catalog && r.catalog is Some {
                holds(item, "name"@, BodyView::Text(r.catalog->0@))
            } else {
                holds(item, "name"@, BodyView::Text(r.table@))
            }
            &&& match r.columns {
                Columns::All => holds(item, "columns"@, BodyView::Null),
                Columns::Named(c) => holds(item, "columns"@, strings(c@)),
            }
            &&& has_only(
                item,
                seq![
                    "kind"@,
                    "catalog"@,
                    "schema"@,
                    "table"@,
                    "value"@,
                    "name"@,
                    "columns"@,
                ],
            )
        }),
{
    lemma_action(req);
    let r = req.resources@[i];
    lemma_resource(wire_resource(r));
    if let Columns::Named(c) = r.columns {
        lemma_strings(c@);
    }
}

/// A grant that is sent is the request's own: its privileges and its grantees in their order, and
/// its grant option, on or off; and nothing else.
pub proof fn law_grant_is_sent(req: AccessRequest)
    requires
        req.grant is Some,
        is_grant_operation(req.operation.0@),
    ensures
        ({
            let g = req.grant->0;
            let doc = under(under(under(sent(req), "input"@), "action"@), "grant"@);
            &&& holds(doc, "privileges"@, strings(g.privileges@))
            &&& holds(doc, "grantees"@, strings(g.grantees@))
            &&& holds(doc, "withGrantOption"@, BodyView::Bool(g.with_grant_option))
            &&& has_only(doc, seq!["privileges"@, "grantees"@, "withGrantOption"@])
        }),
{
    lemma_action(req);
    let g = req.grant->0;
    lemma_grant(wire_grant(g));
    lemma_strings(g.privileges@);
    lemma_strings(g.grantees@);
}

} // verus!
