use std::fmt;

use opa_wire::access_model::{
    AccessDecision, AccessRequest, AccessResource, Columns, GrantDetail, Identity, Operation,
    RequestContext, ResourceKind,
};
use opa_wire::body::Body;
use opa_wire::json::Json;
use opa_wire::request::{is_empty_str, to_request};
use opa_wire::response::{from_response, MalformedResponse, OpaResponse};
use serde::de::{Deserialize, Deserializer, MapAccess, SeqAccess, Visitor};
use serde_json::Value;

// ---- between documents and JSON text ----

/// The JSON value that a document to be sent stands for.
fn value_of(body: &Body<'_>) -> Value {
    match body {
        Body::Null => Value::Null,
        Body::Bool(b) => Value::from(*b),
        Body::Text(s) => Value::from(*s),
        Body::Texts(s) => serde_json::to_value(s).unwrap(),
        Body::Params(m) => serde_json::to_value(m).unwrap(),
        Body::Values(m) => serde_json::to_value(m).unwrap(),
        Body::List(items) => Value::Array(items.iter().map(value_of).collect()),
        Body::Object(members) => {
            let mut map = serde_json::Map::new();
            for (key, value) in members {
                let before = map.insert(key.to_string(), value_of(value));
                assert!(before.is_none(), "{key} is written twice");
            }
            Value::Object(map)
        }
    }
}

fn sent(req: &AccessRequest) -> Value {
    value_of(&to_request(req).to_body())
}

struct Doc(Json);

struct DocVisitor;

impl<'de> Visitor<'de> for DocVisitor {
    type Value = Doc;

    fn expecting(&self, f: &mut fmt::Formatter<'_>) -> fmt::Result {
        f.write_str("a JSON value")
    }

    fn visit_unit<E>(self) -> Result<Doc, E> {
        Ok(Doc(Json::Null))
    }

    fn visit_bool<E>(self, b: bool) -> Result<Doc, E> {
        Ok(Doc(Json::Bool(b)))
    }

    fn visit_u64<E>(self, n: u64) -> Result<Doc, E> {
        Ok(Doc(Json::Number(n.into())))
    }

    fn visit_str<E>(self, s: &str) -> Result<Doc, E> {
        Ok(Doc(Json::Text(s.to_string())))
    }

    fn visit_seq<A: SeqAccess<'de>>(self, mut seq: A) -> Result<Doc, A::Error> {
        let mut items = Vec::new();
        while let Some(Doc(item)) = seq.next_element()? {
            items.push(item);
        }
        Ok(Doc(Json::Array(items)))
    }

    fn visit_map<A: MapAccess<'de>>(self, mut map: A) -> Result<Doc, A::Error> {
        let mut entries = Vec::new();
        while let Some((key, Doc(value))) = map.next_entry::<String, Doc>()? {
            entries.push((key, value));
        }
        Ok(Doc(Json::Object(entries)))
    }
}

impl<'de> Deserialize<'de> for Doc {
    fn deserialize<D: Deserializer<'de>>(deserializer: D) -> Result<Doc, D::Error> {
        deserializer.deserialize_any(DocVisitor)
    }
}

/// A row filter of these tests: an object with just an `expression`.
#[derive(Debug, PartialEq)]
struct Filter(String);

/// A column mask of these tests: an object with just a `column`.
#[derive(Debug, PartialEq)]
struct Mask(String);

fn sole_member(doc: Json, key: &str) -> Option<String> {
    match doc {
        Json::Object(mut entries) if entries.len() == 1 => match entries.pop() {
            Some((k, Json::Text(s))) if k == key => Some(s),
            _ => None,
        },
        _ => None,
    }
}

fn read_filter(doc: Json) -> Option<Filter> {
    sole_member(doc, "expression").map(Filter)
}

fn read_mask(doc: Json) -> Option<Mask> {
    sole_member(doc, "column").map(Mask)
}

fn from_doc(doc: Json) -> Result<OpaResponse<Filter, Mask>, MalformedResponse> {
    OpaResponse::from_json(doc, &read_filter, &read_mask)
}

fn read(text: &str) -> Result<OpaResponse<Filter, Mask>, MalformedResponse> {
    let Doc(doc) = serde_json::from_str(text).unwrap();
    from_doc(doc)
}

fn response(text: &str) -> OpaResponse<Filter, Mask> {
    read(text).unwrap()
}

// ---- requests ----

fn requested(tables: &[&str]) -> AccessRequest {
    AccessRequest {
        grant: None,
        identity: Identity::default(),
        operation: Operation::table_select(),
        resources: tables
            .iter()
            .map(|t| AccessResource {
                kind: ResourceKind::Table,
                value: None,
                catalog: None,
                schema: None,
                table: t.to_string(),
                columns: Columns::All,
            })
            .collect(),
        context: RequestContext::default(),
    }
}

fn schema_request(schema: &str) -> AccessRequest {
    let mut req = requested(&[]);
    req.operation = Operation("schema.drop".to_string());
    req.resources = vec![AccessResource {
        kind: ResourceKind::Schema,
        value: None,
        catalog: Some("prod".to_string()),
        schema: Some(schema.to_string()),
        table: String::new(),
        columns: Columns::All,
    }];
    req
}

fn strings(items: &[&str]) -> Value {
    Value::Array(items.iter().map(|s| Value::from(*s)).collect())
}

/// A response that only decides some of the requested resources (say, a policy that matches one
/// table in a join but not another) must not let the unmentioned table's absence read as
/// "allowed".
#[test]
fn missing_resource_in_response_is_denied_not_vacuously_allowed() {
    let resp = response(r#"{"result": {"resources": [{"table": "orders", "allow": true}]}}"#);
    let decision = from_response(resp, &requested(&["orders", "customers"]));
    assert!(!decision.is_allowed());
    assert_eq!(decision.first_denied().map(|(t, _)| t), Some("customers"));
}

/// DDL targets go out with their `kind` and `name`; a schema has no `table`.
#[test]
fn schema_resource_is_sent_with_kind_and_name_and_no_table() {
    let req = schema_request("analytics");
    let json = sent(&req);
    let r = &json["input"]["action"]["resources"][0];
    assert_eq!(r["kind"], "schema");
    assert_eq!(r["name"], "analytics");
    assert_eq!(r["schema"], "analytics");
    assert_eq!(r["catalog"], "prod");
    assert!(r.get("table").is_none(), "{r}");
    assert_eq!(json["input"]["action"]["operation"], "schema.drop");

    let table = sent(&requested(&["orders"]));
    let t = &table["input"]["action"]["resources"][0];
    assert_eq!(
        (t["kind"].as_str(), t["table"].as_str(), t["name"].as_str()),
        (Some("table"), Some("orders"), Some("orders"))
    );
}

/// Administrative resources are identified by `kind` + `name` (no `table`); a session setting
/// carries its `value`, and a grant its privileges and grantees.
#[test]
fn admin_resources_and_grant_detail_are_sent() {
    let mut req = requested(&[]);
    req.operation = Operation("grant.grant".to_string());
    req.grant = Some(GrantDetail {
        privileges: vec!["SELECT".to_string()],
        grantees: vec!["alice".to_string()],
        with_grant_option: true,
    });
    req.resources = vec![
        AccessResource {
            kind: ResourceKind::Role,
            catalog: None,
            schema: None,
            table: "analyst".to_string(),
            columns: Columns::All,
            value: None,
        },
        AccessResource {
            kind: ResourceKind::Session,
            catalog: None,
            schema: None,
            table: "search_path".to_string(),
            columns: Columns::All,
            value: Some("analytics".to_string()),
        },
    ];
    let json = sent(&req);
    let a = &json["input"]["action"];
    assert_eq!(a["grant"]["privileges"], strings(&["SELECT"]));
    assert_eq!(a["grant"]["grantees"], strings(&["alice"]));
    assert_eq!(a["grant"]["withGrantOption"], true);
    let (role, session) = (&a["resources"][0], &a["resources"][1]);
    assert_eq!(
        (role["kind"].as_str(), role["name"].as_str()),
        (Some("role"), Some("analyst"))
    );
    assert!(
        role.get("table").is_none() && role.get("value").is_none(),
        "{role}"
    );
    assert_eq!(
        (session["kind"].as_str(), session["value"].as_str()),
        (Some("session"), Some("analytics"))
    );

    // A plain read carries neither.
    let plain = sent(&requested(&["orders"]));
    assert!(plain["input"]["action"].get("grant").is_none());
}

/// A policy may echo `name` (any kind) or `table` (table resources); `name` wins.
#[test]
fn response_is_matched_on_name_or_table() {
    let by_name = response(r#"{"result": {"resources": [{"name": "analytics", "allow": true}]}}"#);
    assert!(from_response(by_name, &schema_request("analytics")).is_allowed());

    let by_table = response(r#"{"result": {"resources": [{"table": "orders", "allow": true}]}}"#);
    assert!(from_response(by_table, &requested(&["orders"])).is_allowed());

    let both = response(
        r#"{"result": {"resources": [{"table": "x", "name": "analytics", "allow": true}]}}"#,
    );
    assert!(from_response(both, &schema_request("analytics")).is_allowed());

    // An echo that matches nothing is a missing decision, not an implicit allow.
    let wrong = response(r#"{"result": {"resources": [{"name": "other", "allow": true}]}}"#);
    assert!(!from_response(wrong, &schema_request("analytics")).is_allowed());
}

#[test]
fn fully_decided_response_is_allowed() {
    let resp = response(r#"{"result": {"resources": [{"table": "orders", "allow": true}]}}"#);
    let decision = from_response(resp, &requested(&["orders"]));
    assert!(decision.is_allowed());
}

#[test]
fn empty_result_is_deny_all() {
    let resp = response(r#"{}"#);
    let decision = from_response(resp, &requested(&["orders"]));
    assert!(!decision.is_allowed());
}

// ---- decisions ----

#[test]
fn undecided_request_is_denied_with_the_count_of_its_resources() {
    let names: Vec<String> = (0..120).map(|i| format!("t{i}")).collect();
    let names: Vec<&str> = names.iter().map(|s| s.as_str()).collect();
    for (tables, count) in [(&names[..0], "0"), (&names[..7], "7"), (&names[..], "120")] {
        for text in [
            r#"{}"#,
            r#"{"result": null}"#,
            r#"{"result": {}}"#,
            r#"{"result": {"resources": []}}"#,
        ] {
            let decision = from_response(response(text), &requested(tables));
            assert!(!decision.is_allowed());
            assert_eq!(decision.resources.len(), 1);
            assert_eq!(decision.resources[0].table, "*");
            let reason = format!("policy returned no decision for {count} resource(s)");
            assert_eq!(decision.first_denied(), Some(("*", Some(reason.as_str()))));
        }
    }
}

#[test]
fn passed_over_resources_are_denied_one_by_one_in_order() {
    let resp = response(
        r#"{"result": {"resources": [{"name": "b", "allow": true, "reason": "owner"}]}}"#,
    );
    let decision = from_response(resp, &requested(&["c", "b", "a", "c"]));
    let seen: Vec<(&str, bool)> =
        decision.resources.iter().map(|r| (r.table.as_str(), r.allow)).collect();
    assert_eq!(seen, [("b", true), ("c", false), ("a", false), ("c", false)]);
    assert_eq!(decision.resources[0].reason.as_deref(), Some("owner"));
    for r in &decision.resources[1..] {
        assert_eq!(
            r.reason.as_deref(),
            Some("policy returned no decision for this resource")
        );
        assert!(r.row_filters.is_empty() && r.column_masks.is_empty());
    }
}

#[test]
fn policy_decisions_are_kept_with_their_filters_and_masks() {
    let resp = response(
        r#"{"result": {"resources": [
            {"table": "orders", "allow": true,
             "rowFilters": [{"expression": "region = 'EU'"}, {"expression": "amount > 100"}],
             "columnMasks": [{"column": "amount"}]},
            {"table": "customers", "allow": false, "reason": "closed"}
        ]}}"#,
    );
    let decision = from_response(resp, &requested(&["orders", "customers"]));
    assert_eq!(decision.resources.len(), 2);
    let orders = &decision.resources[0];
    assert!(orders.allow && orders.reason.is_none());
    assert_eq!(
        orders.row_filters,
        [Filter("region = 'EU'".to_string()), Filter("amount > 100".to_string())]
    );
    assert_eq!(orders.column_masks, [Mask("amount".to_string())]);
    assert_eq!(decision.first_denied(), Some(("customers", Some("closed"))));
}

#[test]
fn unnamed_decision_matches_no_resource() {
    let text = r#"{"result": {"resources": [{"allow": true}]}}"#;
    let decision = from_response(response(text), &requested(&["orders"]));
    assert_eq!(decision.first_denied().map(|(t, _)| t), Some("orders"));

    let decision = from_response(response(text), &requested(&[""]));
    assert!(!decision.is_allowed());
    assert_eq!(decision.resources[0].table, "");
    assert!(decision.resources[0].allow);
    assert!(!decision.resources[1].allow);

    // An empty name that is spelled out is a name.
    let spelled = response(r#"{"result": {"resources": [{"table": "", "allow": true}]}}"#);
    assert!(from_response(spelled, &requested(&[""])).is_allowed());
}

#[test]
fn name_wins_over_table() {
    let text = r#"{"result": {"resources": [{"name": "a", "table": "b", "allow": true}]}}"#;
    let decision = from_response(response(text), &requested(&["b"]));
    assert_eq!(decision.resources[0].table, "a");
    assert_eq!(decision.first_denied().map(|(t, _)| t), Some("b"));
}

#[test]
fn asking_for_more_does_not_allow() {
    let text = r#"{"result": {"resources": [{"name": "a", "allow": true}]}}"#;
    assert!(from_response(response(text), &requested(&[])).is_allowed());
    assert!(from_response(response(text), &requested(&["a"])).is_allowed());
    assert!(!from_response(response(text), &requested(&["a", "b"])).is_allowed());
}

#[test]
fn echoing_the_request_allows_it() {
    let mut req = requested(&["orders", "customers"]);
    req.resources.push(schema_request("analytics").resources.remove(0));
    let json = sent(&req);
    let echo: Vec<String> = json["input"]["action"]["resources"]
        .as_array()
        .unwrap()
        .iter()
        .map(|r| match r.get("table") {
            Some(t) => format!(r#"{{"table": {t}, "allow": true}}"#),
            None => format!(r#"{{"name": {}, "allow": true}}"#, r["name"]),
        })
        .collect();
    let text = format!(r#"{{"result": {{"resources": [{}]}}}}"#, echo.join(","));
    let decision = from_response(response(&text), &req);
    assert!(decision.is_allowed());
    assert_eq!(decision.resources.len(), 3);
    assert_eq!(decision.first_denied(), None);
}

#[test]
fn a_decision_without_verdicts_is_vacuously_allowed() {
    let decision: AccessDecision<Filter, Mask> = AccessDecision { resources: Vec::new() };
    assert!(decision.is_allowed());
    assert_eq!(decision.first_denied(), None);
}

// ---- documents received ----

#[test]
fn unsaid_allow_denies() {
    let resp = response(r#"{"result": {"resources": [{"name": "a"}]}}"#);
    assert!(!resp.result.as_ref().unwrap().resources[0].allow);
    assert!(!from_response(resp, &requested(&["a"])).is_allowed());
}

#[test]
fn unknown_keys_are_passed_over() {
    let plain = response(r#"{"result": {"resources": [{"name": "a", "allow": true}]}}"#);
    let more = response(
        r#"{"decision_id": 1, "decision_id": [2],
            "result": {"x": null, "resources": [{"why": {}, "name": "a", "allow": true}], "x": 1}}"#,
    );
    assert_eq!(plain, more);
}

#[test]
fn snake_case_keys_are_unknown() {
    let resp = response(
        r#"{"result": {"resources": [{"row_filters": [1], "column_masks": [2]}]}}"#,
    );
    let d = &resp.result.as_ref().unwrap().resources[0];
    assert!(d.row_filters.is_empty() && d.column_masks.is_empty());
}

#[test]
fn repeated_keys_are_refused() {
    for text in [
        r#"{"result": {}, "result": {}}"#,
        r#"{"result": {"resources": [], "resources": []}}"#,
        r#"{"result": {"resources": [{"name": "a", "allow": false, "allow": true}]}}"#,
        r#"{"result": {"resources": [{"table": "a", "table": "b"}]}}"#,
    ] {
        assert_eq!(read(text), Err(MalformedResponse), "{text}");
    }
}

#[test]
fn values_of_the_wrong_type_are_refused() {
    for text in [
        r#"null"#,
        r#"7"#,
        r#""result""#,
        r#"{"result": true}"#,
        r#"{"result": {"resources": null}}"#,
        r#"{"result": {"resources": {}}}"#,
        r#"{"result": {"resources": [null]}}"#,
        r#"{"result": {"resources": [{"allow": null}]}}"#,
        r#"{"result": {"resources": [{"allow": "true"}]}}"#,
        r#"{"result": {"resources": [{"allow": 1}]}}"#,
        r#"{"result": {"resources": [{"name": 1}]}}"#,
        r#"{"result": {"resources": [{"reason": []}]}}"#,
        r#"{"result": {"resources": [{"rowFilters": null}]}}"#,
        r#"{"result": {"resources": [{"columnMasks": "x"}]}}"#,
    ] {
        assert_eq!(read(text), Err(MalformedResponse), "{text}");
    }
}

#[test]
fn unreadable_values_matter_only_under_known_keys() {
    let unknown = Json::Object(vec![("trace".to_string(), Json::Unreadable)]);
    assert_eq!(from_doc(unknown), Ok(response(r#"{}"#)));
    let known = Json::Object(vec![("result".to_string(), Json::Unreadable)]);
    assert_eq!(from_doc(known), Err(MalformedResponse));
}

/// A response that lists `item` under `key` in a decision that allows.
fn listing(key: &str, item: Json) -> Json {
    let decision = Json::Object(vec![
        ("name".to_string(), Json::Text("a".to_string())),
        ("allow".to_string(), Json::Bool(true)),
        (key.to_string(), Json::Array(vec![item])),
    ]);
    let result = Json::Object(vec![("resources".to_string(), Json::Array(vec![decision]))]);
    Json::Object(vec![("result".to_string(), result)])
}

#[test]
fn unreadable_filters_and_masks_are_refused_whatever_their_reader() {
    let any = |_: Json| Some(());
    for key in ["rowFilters", "columnMasks"] {
        let doc = listing(key, Json::Unreadable);
        assert_eq!(OpaResponse::from_json(doc, &any, &any), Err(MalformedResponse));
        let doc = listing(key, Json::Null);
        assert!(OpaResponse::from_json(doc, &any, &any).is_ok());
    }
    assert!(from_doc(listing("filters", Json::Unreadable)).is_ok());
}

#[test]
fn filters_and_masks_that_their_reader_refuses_refuse_the_response() {
    for text in [
        r#"{"result": {"resources": [{"name": "a", "allow": true, "columnMasks": [true]}]}}"#,
        r#"{"result": {"resources": [{"name": "a", "allow": true, "rowFilters": [7]}]}}"#,
        r#"{"result": {"resources": [{"rowFilters": [{"expression": "x"}, {"column": "x"}]}]}}"#,
        r#"{"result": {"resources": [{"name": "a"}, {"columnMasks": [{"expression": "x"}]}]}}"#,
    ] {
        assert_eq!(read(text), Err(MalformedResponse), "{text}");
    }
    let text = r#"{"result": {"resources": [{"rowFilters": [{"expression": "x"}]}]}}"#;
    let resp = response(text);
    let d = &resp.result.as_ref().unwrap().resources[0];
    assert_eq!(d.row_filters, [Filter("x".to_string())]);
}

#[test]
fn null_strings_are_absent() {
    let with = response(
        r#"{"result": {"resources": [{"table": null, "name": null, "reason": null}]}}"#,
    );
    assert_eq!(with, response(r#"{"result": {"resources": [{}]}}"#));
}

#[test]
fn records_may_be_written_by_position() {
    let by_key = response(
        r#"{"result": {"resources": [{"table": "t", "name": "n", "allow": true}]}}"#,
    );
    assert_eq!(by_key, response(r#"[[[["t", "n", true]]]]"#));
    assert_eq!(response(r#"[]"#), response(r#"{}"#));
    assert_eq!(read(r#"[null, null]"#), Err(MalformedResponse));
    assert_eq!(
        read(r#"[[[["t", "n", true, null, [], [], 1]]]]"#),
        Err(MalformedResponse)
    );
}

// ---- documents sent ----

#[test]
fn every_part_of_a_request_is_sent_under_its_key() {
    let mut req = requested(&["orders"]);
    req.identity.user = "alice".to_string();
    req.identity.groups = vec!["eng".to_string(), "ops".to_string()];
    req.identity.roles = vec!["reader".to_string()];
    req.identity.attributes.insert("level".to_string(), Value::from(3));
    req.context.cluster_group = "main".to_string();
    req.context.engine = "duckdb".to_string();
    req.context.query_id = "q1".to_string();
    req.context.session_params.insert("tz".to_string(), "UTC".to_string());
    req.resources[0].columns = Columns::Named(vec!["id".to_string(), "amount".to_string()]);
    let text = r#"{"input": {
        "identity": {"user": "alice", "groups": ["eng", "ops"], "roles": ["reader"],
                     "attributes": {"level": 3}},
        "action": {"operation": "table.select", "resources": [
            {"kind": "table", "table": "orders", "name": "orders", "columns": ["id", "amount"]}]},
        "context": {"clusterGroup": "main", "engine": "duckdb", "queryId": "q1",
                    "sessionParams": {"tz": "UTC"}}
    }}"#;
    assert_eq!(sent(&req), serde_json::from_str::<Value>(text).unwrap());
}

#[test]
fn members_are_sent_in_the_order_of_the_format() {
    let mut req = schema_request("analytics");
    req.resources[0].kind = ResourceKind::View;
    req.resources[0].table = "daily".to_string();
    req.resources[0].value = Some("v".to_string());
    let body = to_request(&req).to_body();
    fn member<'b, 'a>(body: &'b Body<'a>, key: &str) -> &'b Body<'a> {
        match body {
            Body::Object(members) => &members.iter().find(|(k, _)| *k == key).unwrap().1,
            _ => panic!("not an object"),
        }
    }
    fn keys(body: &Body<'_>) -> Vec<&'static str> {
        match body {
            Body::Object(members) => members.iter().map(|(k, _)| *k).collect(),
            _ => panic!("not an object"),
        }
    }
    let input = member(&body, "input");
    assert_eq!(keys(input), ["identity", "action", "context"]);
    assert_eq!(keys(member(input, "identity")), ["user", "groups", "roles", "attributes"]);
    match member(member(input, "action"), "resources") {
        Body::List(items) => assert_eq!(
            keys(&items[0]),
            ["kind", "catalog", "schema", "table", "value", "name", "columns"]
        ),
        _ => panic!("not a list"),
    }
}

#[test]
fn all_columns_are_sent_as_null() {
    let json = sent(&requested(&["orders"]));
    let r = &json["input"]["action"]["resources"][0];
    assert_eq!(r.get("columns"), Some(&Value::Null));
}

#[test]
fn empty_table_name_is_left_out() {
    let json = sent(&requested(&[""]));
    let r = &json["input"]["action"]["resources"][0];
    assert!(r.get("table").is_none());
    assert_eq!(r["name"], "");
    assert!(is_empty_str(&"") && !is_empty_str(&"a"));
}

#[test]
fn a_grant_is_sent_only_with_operations_that_hand_something_out() {
    for (operation, present) in [
        ("grant.grant", true),
        ("grant.revoke", true),
        ("grant.", true),
        ("role.grant", true),
        ("role.revoke", true),
        ("table.select", false),
        ("role.create", false),
        ("role.grants", false),
        ("grant", false),
        ("grants.x", false),
        ("table.grant.", false),
        ("", false),
    ] {
        let mut req = requested(&["orders"]);
        req.operation = Operation(operation.to_string());
        req.grant = Some(GrantDetail {
            privileges: vec!["SELECT".to_string()],
            grantees: vec!["alice".to_string()],
            with_grant_option: false,
        });
        assert_eq!(to_request(&req).input.action.grant.is_some(), present, "{operation}");
        let json = sent(&req);
        assert_eq!(json["input"]["action"].get("grant").is_some(), present, "{operation}");
        assert_eq!(json["input"]["action"]["operation"], operation);
        req.grant = None;
        assert!(to_request(&req).input.action.grant.is_none());
    }
}

#[test]
fn each_kind_is_sent_under_its_own_name() {
    for (kind, label, name, table) in [
        (ResourceKind::Table, "table", "t", Some("t")),
        (ResourceKind::View, "view", "t", Some("t")),
        (ResourceKind::Schema, "schema", "s", None),
        (ResourceKind::Catalog, "catalog", "c", None),
        (ResourceKind::Role, "role", "t", None),
        (ResourceKind::Session, "session", "t", None),
        (ResourceKind::Function, "function", "t", None),
        (ResourceKind::Location, "location", "t", None),
    ] {
        let mut req = requested(&["t"]);
        req.resources[0].kind = kind;
        req.resources[0].schema = Some("s".to_string());
        req.resources[0].catalog = Some("c".to_string());
        let json = sent(&req);
        let r = &json["input"]["action"]["resources"][0];
        assert_eq!(r["kind"], label);
        assert_eq!(r["name"], name);
        assert_eq!(r.get("table").and_then(|t| t.as_str()), table);
    }
}
