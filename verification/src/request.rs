//! What the policy is asked: the `{"input": {...}}` document, and the request it is made of.

use std::collections::BTreeMap;

use vstd::prelude::*;
use vstd::string::*;

use crate::access_model::{
    AccessRequest, AccessResource, Columns, GrantDetail, Identity, RequestContext, ResourceKind,
};
use crate::body::{
    body_views, lemma_list_view, lemma_members_view, member_views, text_list, Body, BodyView,
};
use crate::text::{as_opt_str, opt_str_view, opt_view, texts};

verus! {

/// A question to the policy, as it goes out.
pub struct OpaRequest<'a> {
    pub input: OpaInput<'a>,
}

/// What the policy reads as `input`.
pub struct OpaInput<'a> {
    pub identity: WireIdentity<'a>,
    pub action: WireAction<'a>,
    pub context: WireContext<'a>,
}

/// The principal, as policies read it.
pub struct WireIdentity<'a> {
    pub user: &'a str,
    pub groups: &'a [String],
    pub roles: &'a [String],
    pub attributes: &'a BTreeMap<String, serde_json::Value>,
}

/// What is being done, as policies read it.
pub struct WireAction<'a> {
    pub operation: &'a str,
    pub resources: Vec<WireResource<'a>>,
    /// What a `GRANT`/`REVOKE` hands out. Only present for `grant.*`, `role.grant` and
    /// `role.revoke`.
    pub grant: Option<WireGrant<'a>>,
}

/// What a `GRANT`/`REVOKE` hands out, as policies read it.
pub struct WireGrant<'a> {
    pub privileges: &'a [String],
    pub grantees: &'a [String],
    pub with_grant_option: bool,
}

/// One requested object, as policies read it.
pub struct WireResource<'a> {
    /// The name of the resource's kind, such as `table`, `schema` or `function`.
    pub kind: &'a str,
    pub catalog: Option<&'a str>,
    pub schema: Option<&'a str>,
    /// Only `table` and `view` resources have one; every other kind is identified by `name`.
    pub table: &'a str,
    /// The value a `SET` assigns to a session setting, or the argument of a function.
    pub value: Option<&'a str>,
    /// The object's own name, whatever its kind: echo it back in the response.
    pub name: &'a str,
    /// `None` = all columns (schema unresolved / `SELECT *`).
    pub columns: Option<&'a [String]>,
}

/// Where the statement runs, as policies read it.
pub struct WireContext<'a> {
    pub cluster_group: &'a str,
    pub engine: &'a str,
    pub query_id: &'a str,
    pub session_params: &'a BTreeMap<String, String>,
}

// ---- what the wire types say ----

/// What a [`WireIdentity`] says.
pub struct IdentityView {
    pub user: Seq<char>,
    pub groups: Seq<Seq<char>>,
    pub roles: Seq<Seq<char>>,
    pub attributes: BTreeMap<String, serde_json::Value>,
}

/// What a [`WireGrant`] says.
pub struct GrantView {
    pub privileges: Seq<Seq<char>>,
    pub grantees: Seq<Seq<char>>,
    pub with_grant_option: bool,
}

/// What a [`WireResource`] says.
pub struct ResourceView {
    pub kind: Seq<char>,
    pub catalog: Option<Seq<char>>,
    pub schema: Option<Seq<char>>,
    pub table: Seq<char>,
    pub value: Option<Seq<char>>,
    pub name: Seq<char>,
    pub columns: Option<Seq<Seq<char>>>,
}

/// What a [`WireAction`] says.
pub struct ActionView {
    pub operation: Seq<char>,
    pub resources: Seq<ResourceView>,
    pub grant: Option<GrantView>,
}

/// What a [`WireContext`] says.
pub struct ContextView {
    pub cluster_group: Seq<char>,
    pub engine: Seq<char>,
    pub query_id: Seq<char>,
    pub session_params: BTreeMap<String, String>,
}

/// What an [`OpaInput`] says.
pub struct InputView {
    pub identity: IdentityView,
    pub action: ActionView,
    pub context: ContextView,
}

impl<'a> View for WireIdentity<'a> {
    type V = IdentityView;

    open spec fn view(&self) -> IdentityView {
        IdentityView {
            user: self.user@,
            groups: texts(self.groups@),
            roles: texts(self.roles@),
            attributes: *self.attributes,
        }
    }
}

impl<'a> View for WireGrant<'a> {
    type V = GrantView;

    open spec fn view(&self) -> GrantView {
        GrantView {
            privileges: texts(self.privileges@),
            grantees: texts(self.grantees@),
            with_grant_option: self.with_grant_option,
        }
    }
}

impl<'a> View for WireResource<'a> {
    type V = ResourceView;

    open spec fn view(&self) -> ResourceView {
        ResourceView {
            kind: self.kind@,
            catalog: opt_str_view(self.catalog),
            schema: opt_str_view(self.schema),
            table: self.table@,
            value: opt_str_view(self.value),
            name: self.name@,
            columns: match self.columns {
                Some(c) => Some(texts(c@)),
                None => None,
            },
        }
    }
}

impl<'a> View for WireAction<'a> {
    type V = ActionView;

    open spec fn view(&self) -> ActionView {
        ActionView {
            operation: self.operation@,
            resources: self.resources@.map_values(|r: WireResource<'a>| r@),
            grant: match self.grant {
                Some(g) => Some(g@),
                None => None,
            },
        }
    }
}

impl<'a> View for WireContext<'a> {
    type V = ContextView;

    open spec fn view(&self) -> ContextView {
        ContextView {
            cluster_group: self.cluster_group@,
            engine: self.engine@,
            query_id: self.query_id@,
            session_params: *self.session_params,
        }
    }
}

impl<'a> View for OpaInput<'a> {
    type V = InputView;

    open spec fn view(&self) -> InputView {
        InputView { identity: self.identity@, action: self.action@, context: self.context@ }
    }
}

impl<'a> View for OpaRequest<'a> {
    type V = InputView;

    open spec fn view(&self) -> InputView {
        self.input@
    }
}

// ---- from the model to the wire ----

/// The principal, as it goes out.
pub open spec fn wire_identity(identity: Identity) -> IdentityView {
    IdentityView {
        user: identity.user@,
        groups: texts(identity.groups@),
        roles: texts(identity.roles@),
        attributes: identity.attributes,
    }
}

/// Whether resources of this kind are named by their `table` on the wire.
pub open spec fn has_table(kind: ResourceKind) -> bool {
    kind is Table || kind is View
}

/// A resource, as it goes out: `table` is empty unless the resource is a table or a view.
pub open spec fn wire_resource(r: AccessResource) -> ResourceView {
    ResourceView {
        kind: r.kind.label(),
        catalog: opt_view(r.catalog),
        schema: opt_view(r.schema),
        table: if has_table(r.kind) {
            r.table@
        } else {
            Seq::empty()
        },
        value: opt_view(r.value),
        name: r.own_name(),
        columns: match r.columns {
            Columns::All => None,
            Columns::Named(c) => Some(texts(c@)),
        },
    }
}

/// What a grant hands out, as it goes out.
pub open spec fn wire_grant(g: GrantDetail) -> GrantView {
    GrantView {
        privileges: texts(g.privileges@),
        grantees: texts(g.grantees@),
        with_grant_option: g.with_grant_option,
    }
}

/// The context, as it goes out.
pub open spec fn wire_context(c: RequestContext) -> ContextView {
    ContextView {
        cluster_group: c.cluster_group@,
        engine: c.engine@,
        query_id: c.query_id@,
        session_params: c.session_params,
    }
}

/// Whether an operation hands something out: `grant.*`, `role.grant` and `role.revoke` do.
pub open spec fn hands_out(operation: Seq<char>) -> bool {
    "grant."@.is_prefix_of(operation) || operation == "role.grant"@ || operation == "role.revoke"@
}

/// A request, as it goes out: its resources in order, each with what it is asked for, and a grant
/// only where the operation hands something out.
pub open spec fn wire_input(req: AccessRequest) -> InputView {
    InputView {
        identity: wire_identity(req.identity),
        action: ActionView {
            operation: req.operation.0@,
            resources: req.resources@.map_values(|r: AccessResource| wire_resource(r)),
            grant: match req.grant {
                Some(g) if hands_out(req.operation.0@) => Some(wire_grant(g)),
                _ => None,
            },
        },
        context: wire_context(req.context),
    }
}

/// Tells whether an operation hands something out.
fn is_handing_out(operation: &str) -> (r: bool)
    ensures
        r == hands_out(operation@),
{
    let grant = "grant.".to_owned();
    proof {
        reveal_strlit("grant.");
    }
    if operation.unicode_len() >= 6 && operation.substring_char(0, 6).to_owned() == grant {
        assert("grant."@ =~= operation@.subrange(0, 6));
        return true;
    }
    assert(!"grant."@.is_prefix_of(operation@)) by {
        if "grant."@.is_prefix_of(operation@) {
            assert("grant."@ =~= operation@.subrange(0, 6));
        }
    }
    let operation = operation.to_owned();
    operation == "role.grant".to_owned() || operation == "role.revoke".to_owned()
}

/// Lays a request out in the shape that policies read.
pub fn to_request(req: &AccessRequest) -> (r: OpaRequest<'_>)
    ensures
        r@ == wire_input(*req),
        r.input.identity.user@ == req.identity.user@,
        r.input.identity.groups@ == req.identity.groups@,
        r.input.identity.roles@ == req.identity.roles@,
        *r.input.identity.attributes == req.identity.attributes,
        r.input.action.operation@ == req.operation.0@,
        r.input.action.resources@.len() == req.resources@.len(),
        forall|i: int|
            0 <= i < req.resources@.len() ==> {
                let w = #[trigger] r.input.action.resources@[i];
                let q = req.resources@[i];
                &&& (q.kind is Table ==> w.kind@ == "table"@)
                &&& (q.kind is View ==> w.kind@ == "view"@)
                &&& (q.kind is Schema ==> w.kind@ == "schema"@)
                &&& (q.kind is Catalog ==> w.kind@ == "catalog"@)
                &&& (q.kind is Role ==> w.kind@ == "role"@)
                &&& (q.kind is Session ==> w.kind@ == "session"@)
                &&& (q.kind is Function ==> w.kind@ == "function"@)
                &&& (q.kind is Location ==> w.kind@ == "location"@)
                &&& (w.catalog is Some <==> q.catalog is Some)
                &&& (q.catalog is Some ==> w.catalog->0@ == q.catalog->0@)
                &&& (w.schema is Some <==> q.schema is Some)
                &&& (q.schema is Some ==> w.schema->0@ == q.schema->0@)
                &&& (q.kind is Table || q.kind is View ==> w.table@ == q.table@)
                &&& (!(q.kind is Table) && !(q.kind is View) ==> w.table@.len() == 0)
                &&& (w.value is Some <==> q.value is Some)
                &&& (q.value is Some ==> w.value->0@ == q.value->0@)
                &&& (q.kind is Schema && q.schema is Some ==> w.name@ == q.schema->0@)
                &&& (q.kind is Catalog && q.catalog is Some ==> w.name@ == q.catalog->0@)
                &&& (!(q.kind is Schema && q.schema is Some) && !(q.kind is Catalog
                    && q.catalog is Some) ==> w.name@ == q.table@)
                &&& (w.columns is None <==> q.columns is All)
                &&& (q.columns matches Columns::Named(c) ==> w.columns->0@ == c@)
            },
        r.input.action.grant is Some <==> req.grant is Some && (("grant."@.len()
            <= req.operation.0@.len() && req.operation.0@.take("grant."@.len() as int)
            == "grant."@) || req.operation.0@ == "role.grant"@ || req.operation.0@
            == "role.revoke"@),
        r.input.action.grant is Some ==> {
            &&& r.input.action.grant->0.privileges@ == req.grant->0.privileges@
            &&& r.input.action.grant->0.grantees@ == req.grant->0.grantees@
            &&& r.input.action.grant->0.with_grant_option == req.grant->0.with_grant_option
        },
        r.input.context.cluster_group@ == req.context.cluster_group@,
        r.input.context.engine@ == req.context.engine@,
        r.input.context.query_id@ == req.context.query_id@,
        *r.input.context.session_params == req.context.session_params,
{
    let mut resources: Vec<WireResource<'_>> = Vec::new();
    let mut i: usize = 0;
    while i < req.resources.len()
        invariant
            i <= req.resources@.len(),
            resources@.len() == i,
            forall|j: int|
                0 <= j < i ==> (#[trigger] resources@[j])@ == wire_resource(req.resources@[j]),
            forall|j: int|
                0 <= j < i ==> (req.resources@[j].columns matches Columns::Named(c) ==> (
                #[trigger] resources@[j]).columns->0@ == c@),
        decreases req.resources@.len() - i,
    {
        let r = &req.resources[i];
        let table = match r.kind {
            ResourceKind::Table | ResourceKind::View => r.table.as_str(),
            _ => "",
        };
        proof {
            reveal_strlit("");
            assert(""@ =~= Seq::empty());
        }
        resources.push(
            WireResource {
                kind: r.kind.as_str(),
                catalog: as_opt_str(&r.catalog),
                schema: as_opt_str(&r.schema),
                table,
                value: as_opt_str(&r.value),
                name: r.name(),
                columns: match &r.columns {
                    Columns::All => None,
                    Columns::Named(c) => Some(c.as_slice()),
                },
            },
        );
        i += 1;
    }
    let request = OpaRequest {
        input: OpaInput {
            identity: WireIdentity {
                user: req.identity.user.as_str(),
                groups: req.identity.groups.as_slice(),
                roles: req.identity.roles.as_slice(),
                attributes: &req.identity.attributes,
            },
            action: WireAction {
                operation: req.operation.as_str(),
                resources,
                grant: match &req.grant {
                    Some(g) if is_handing_out(req.operation.as_str()) => Some(
                        WireGrant {
                            privileges: g.privileges.as_slice(),
                            grantees: g.grantees.as_slice(),
                            with_grant_option: g.with_grant_option,
                        },
                    ),
                    _ => None,
                },
            },
            context: WireContext {
                cluster_group: req.context.cluster_group.as_str(),
                engine: req.context.engine.as_str(),
                query_id: req.context.query_id.as_str(),
                session_params: &req.context.session_params,
            },
        },
    };
    assert(request@.action.resources =~= wire_input(*req).action.resources);
    assert forall|i: int| 0 <= i < req.resources@.len() implies (
    #[trigger] request.input.action.resources@[i])@ == wire_resource(req.resources@[i]) by {
        assert(request.input.action.resources@[i] == resources@[i]);
    }
    proof {
        reveal_strlit("grant.");
        let op = req.operation.0@;
        if "grant."@.len() <= op.len() {
            assert(op.take("grant."@.len() as int) =~= op.subrange(0, "grant."@.len() as int));
        }
    }
    request
}

/// Whether a string is left out of a document for holding nothing.
pub fn is_empty_str(s: &&str) -> (r: bool)
    ensures
        r == (s@.len() == 0),
{
    s.is_empty()
}

// ---- from the wire to a document ----

/// A member that is there only where it has a value.
pub open spec fn optional_member(key: Seq<char>, value: Option<Seq<char>>) -> Seq<
    (Seq<char>, BodyView),
> {
    match value {
        Some(s) => seq![(key, BodyView::Text(s))],
        None => Seq::empty(),
    }
}

impl IdentityView {
    /// The document of a principal.
    pub open spec fn body(self) -> BodyView {
        BodyView::Object(
            seq![
                ("user"@, BodyView::Text(self.user)),
                ("groups"@, text_list(self.groups)),
                ("roles"@, text_list(self.roles)),
                ("attributes"@, BodyView::Values(self.attributes)),
            ],
        )
    }
}

impl GrantView {
    /// The document of a grant.
    pub open spec fn body(self) -> BodyView {
        BodyView::Object(
            seq![
                ("privileges"@, text_list(self.privileges)),
                ("grantees"@, text_list(self.grantees)),
                ("withGrantOption"@, BodyView::Bool(self.with_grant_option)),
            ],
        )
    }
}

impl ResourceView {
    /// The members of the document of a resource. `kind`, `name` and `columns` are always there,
    /// and `columns` is `null` for all columns.
    pub open spec fn members(self) -> Seq<(Seq<char>, BodyView)> {
        seq![("kind"@, BodyView::Text(self.kind))] + optional_member("catalog"@, self.catalog)
            + optional_member("schema"@, self.schema) + optional_member(
            "table"@,
            if self.table.len() == 0 {
                None
            } else {
                Some(self.table)
            },
        ) + optional_member("value"@, self.value) + seq![
            ("name"@, BodyView::Text(self.name)),
            (
                "columns"@,
                match self.columns {
                    Some(c) => text_list(c),
                    None => BodyView::Null,
                },
            ),
        ]
    }

    /// The document of a resource.
    pub open spec fn body(self) -> BodyView {
        BodyView::Object(self.members())
    }
}

impl ActionView {
    /// The members of the document of an action: `grant` is there only where there is one.
    pub open spec fn members(self) -> Seq<(Seq<char>, BodyView)> {
        seq![
            ("operation"@, BodyView::Text(self.operation)),
            (
                "resources"@,
                BodyView::List(self.resources.map_values(|r: ResourceView| r.body())),
            ),
        ] + match self.grant {
            Some(g) => seq![("grant"@, g.body())],
            None => Seq::empty(),
        }
    }

    /// The document of an action.
    pub open spec fn body(self) -> BodyView {
        BodyView::Object(self.members())
    }
}

impl ContextView {
    /// The document of a context.
    pub open spec fn body(self) -> BodyView {
        BodyView::Object(
            seq![
                ("clusterGroup"@, BodyView::Text(self.cluster_group)),
                ("engine"@, BodyView::Text(self.engine)),
                ("queryId"@, BodyView::Text(self.query_id)),
                ("sessionParams"@, BodyView::Params(self.session_params)),
            ],
        )
    }
}

impl InputView {
    /// The document of an input.
    pub open spec fn body(self) -> BodyView {
        BodyView::Object(
            seq![
                ("identity"@, self.identity.body()),
                ("action"@, self.action.body()),
                ("context"@, self.context.body()),
            ],
        )
    }
}

impl<'a> WireIdentity<'a> {
    fn to_body(&self) -> (r: Body<'a>)
        ensures
            r@ == self@.body(),
    {
        let members: Vec<(&'static str, Body<'a>)> = vec![
            ("user", Body::Text(self.user)),
            ("groups", Body::Texts(self.groups)),
            ("roles", Body::Texts(self.roles)),
            ("attributes", Body::Values(self.attributes)),
        ];
        proof {
            lemma_members_view(members);
            assert(member_views(members@) =~= self@.body()->Object_0);
        }
        Body::Object(members)
    }
}

impl<'a> WireGrant<'a> {
    fn to_body(&self) -> (r: Body<'a>)
        ensures
            r@ == self@.body(),
    {
        let members: Vec<(&'static str, Body<'a>)> = vec![
            ("privileges", Body::Texts(self.privileges)),
            ("grantees", Body::Texts(self.grantees)),
            ("withGrantOption", Body::Bool(self.with_grant_option)),
        ];
        proof {
            lemma_members_view(members);
            assert(member_views(members@) =~= self@.body()->Object_0);
        }
        Body::Object(members)
    }
}

/// Appends a member, where it has a value.
fn push_optional<'a>(
    members: &mut Vec<(&'static str, Body<'a>)>,
    key: &'static str,
    value: Option<&'a str>,
)
    ensures
        member_views(final(members)@) == member_views(old(members)@) + optional_member(
            key@,
            opt_str_view(value),
        ),
{
    let ghost before = member_views(members@);
    if let Some(s) = value {
        members.push((key, Body::Text(s)));
    }
    assert(member_views(members@) =~= before + optional_member(key@, opt_str_view(value)));
}

impl<'a> WireResource<'a> {
    fn to_body(&self) -> (r: Body<'a>)
        ensures
            r@ == self@.body(),
    {
        let mut members: Vec<(&'static str, Body<'a>)> = vec![("kind", Body::Text(self.kind))];
        assert(member_views(members@) =~= seq![("kind"@, BodyView::Text(self.kind@))]);
        push_optional(&mut members, "catalog", self.catalog);
        push_optional(&mut members, "schema", self.schema);
        let table = if is_empty_str(&self.table) {
            None
        } else {
            Some(self.table)
        };
        push_optional(&mut members, "table", table);
        push_optional(&mut members, "value", self.value);
        let ghost before = member_views(members@);
        let columns = match self.columns {
            Some(c) => Body::Texts(c),
            None => Body::Null,
        };
        members.push(("name", Body::Text(self.name)));
        members.push(("columns", columns));
        proof {
            lemma_members_view(members);
            assert(member_views(members@) =~= before + seq![
                ("name"@, BodyView::Text(self.name@)),
                ("columns"@, columns@),
            ]);
            assert(member_views(members@) =~= self@.members());
        }
        Body::Object(members)
    }
}

impl<'a> WireAction<'a> {
    fn to_body(&self) -> (r: Body<'a>)
        ensures
            r@ == self@.body(),
    {
        let mut resources: Vec<Body<'a>> = Vec::new();
        let mut i: usize = 0;
        while i < self.resources.len()
            invariant
                i <= self.resources@.len(),
                resources@.len() == i,
                forall|j: int|
                    0 <= j < i ==> (#[trigger] resources@[j])@ == self.resources@[j]@.body(),
            decreases self.resources@.len() - i,
        {
            resources.push(self.resources[i].to_body());
            i += 1;
        }
        proof {
            lemma_list_view(resources);
            assert(body_views(resources@) =~= self@.resources.map_values(
                |r: ResourceView| r.body(),
            ));
        }
        let mut members: Vec<(&'static str, Body<'a>)> = vec![
            ("operation", Body::Text(self.operation)),
            ("resources", Body::List(resources)),
        ];
        if let Some(g) = &self.grant {
            members.push(("grant", g.to_body()));
        }
        proof {
            lemma_members_view(members);
            assert(member_views(members@) =~= self@.members());
        }
        Body::Object(members)
    }
}

impl<'a> WireContext<'a> {
    fn to_body(&self) -> (r: Body<'a>)
        ensures
            r@ == self@.body(),
    {
        let members: Vec<(&'static str, Body<'a>)> = vec![
            ("clusterGroup", Body::Text(self.cluster_group)),
            ("engine", Body::Text(self.engine)),
            ("queryId", Body::Text(self.query_id)),
            ("sessionParams", Body::Params(self.session_params)),
        ];
        proof {
            lemma_members_view(members);
            assert(member_views(members@) =~= self@.body()->Object_0);
        }
        Body::Object(members)
    }
}

impl<'a> OpaInput<'a> {
    fn to_body(&self) -> (r: Body<'a>)
        ensures
            r@ == self@.body(),
    {
        let members: Vec<(&'static str, Body<'a>)> = vec![
            ("identity", self.identity.to_body()),
            ("action", self.action.to_body()),
            ("context", self.context.to_body()),
        ];
        proof {
            lemma_members_view(members);
            assert(member_views(members@) =~= self@.body()->Object_0);
        }
        Body::Object(members)
    }
}

impl<'a> OpaRequest<'a> {
    /// The document that is sent: the input, under `input`.
    pub fn to_body(&self) -> (r: Body<'a>)
        ensures
            r@ == BodyView::Object(seq![("input"@, self@.body())]),
    {
        let members: Vec<(&'static str, Body<'a>)> = vec![("input", self.input.to_body())];
        proof {
            lemma_members_view(members);
            assert(member_views(members@) =~= seq![("input"@, self@.body())]);
        }
        Body::Object(members)
    }
}

} // verus!
