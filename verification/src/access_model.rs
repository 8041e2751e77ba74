//! The neutral access-control model: who wants to do what to which resources, and the verdict.

use std::collections::BTreeMap;

use vstd::prelude::*;

use crate::text::{as_opt_str, opt_str_view, opt_view};

verus! {

// ---- request ----

/// The principal a statement runs as.
pub struct Identity {
    pub user: String,
    pub groups: Vec<String>,
    pub roles: Vec<String>,
    /// Whatever else the authenticator knows of the principal; only the policy reads it.
    pub attributes: BTreeMap<String, serde_json::Value>,
}

impl Default for Identity {
    /// A principal of whom nothing is known.
    fn default() -> (r: Self)
        ensures
            r.user@.len() == 0,
            r.groups@.len() == 0,
            r.roles@.len() == 0,
            r.attributes@ == Map::<String, serde_json::Value>::empty(),
    {
        Identity {
            user: String::new(),
            groups: Vec::new(),
            roles: Vec::new(),
            attributes: BTreeMap::new(),
        }
    }
}

/// What is being done, as `<object>.<verb>`: `table.select`, `schema.drop`, `grant.grant`.
pub struct Operation(pub String);

impl Operation {
    /// The operation of a plain read.
    pub fn table_select() -> (r: Self)
        ensures
            r.0@ == "table.select"@,
    {
        Operation("table.select".to_owned())
    }

    pub fn as_str(&self) -> (r: &str)
        ensures
            r@ == self.0@,
    {
        self.0.as_str()
    }
}

/// What sort of object a resource is.
#[derive(Clone, Copy, Debug, PartialEq, Eq, Structural)]
pub enum ResourceKind {
    Table,
    View,
    Schema,
    Catalog,
    Role,
    Session,
    Function,
    Location,
}

impl ResourceKind {
    /// The kind's name, as policies read it.
    pub open spec fn label(self) -> Seq<char> {
        match self {
            ResourceKind::Table => "table"@,
            ResourceKind::View => "view"@,
            ResourceKind::Schema => "schema"@,
            ResourceKind::Catalog => "catalog"@,
            ResourceKind::Role => "role"@,
            ResourceKind::Session => "session"@,
            ResourceKind::Function => "function"@,
            ResourceKind::Location => "location"@,
        }
    }

    pub fn as_str(&self) -> (r: &'static str)
        ensures
            r@ == self.label(),
            self is Table ==> r@ == "table"@,
            self is View ==> r@ == "view"@,
            self is Schema ==> r@ == "schema"@,
            self is Catalog ==> r@ == "catalog"@,
            self is Role ==> r@ == "role"@,
            self is Session ==> r@ == "session"@,
            self is Function ==> r@ == "function"@,
            self is Location ==> r@ == "location"@,
    {
        match self {
            ResourceKind::Table => "table",
            ResourceKind::View => "view",
            ResourceKind::Schema => "schema",
            ResourceKind::Catalog => "catalog",
            ResourceKind::Role => "role",
            ResourceKind::Session => "session",
            ResourceKind::Function => "function",
            ResourceKind::Location => "location",
        }
    }
}

/// Which columns of a resource are touched.
pub enum Columns {
    /// Every column: the schema is unresolved, or the statement reads `*`.
    All,
    Named(Vec<String>),
}

/// One object that a statement touches.
pub struct AccessResource {
    pub kind: ResourceKind,
    pub catalog: Option<String>,
    pub schema: Option<String>,
    /// The name of the object itself; a schema or a catalog is named by the field above.
    pub table: String,
    pub columns: Columns,
    /// The value that a `SET` assigns to a session setting, or the argument of a function.
    pub value: Option<String>,
}

impl AccessResource {
    /// The object's own name: the schema of a schema, the catalog of a catalog, and the
    /// `table` field of everything else.
    pub open spec fn own_name(self) -> Seq<char> {
        match (self.kind, self.schema, self.catalog) {
            (ResourceKind::Schema, Some(schema), _) => schema@,
            (ResourceKind::Catalog, _, Some(catalog)) => catalog@,
            _ => self.table@,
        }
    }

    /// The object's own name.
    pub fn name(&self) -> (r: &str)
        ensures
            r@ == self.own_name(),
            self.kind is Schema && self.schema is Some ==> r@ == self.schema->0@,
            self.kind is Catalog && self.catalog is Some ==> r@ == self.catalog->0@,
            !(self.kind is Schema && self.schema is Some) && !(self.kind is Catalog
                && self.catalog is Some) ==> r@ == self.table@,
    {
        match (self.kind, &self.schema, &self.catalog) {
            (ResourceKind::Schema, Some(schema), _) => schema.as_str(),
            (ResourceKind::Catalog, _, Some(catalog)) => catalog.as_str(),
            _ => self.table.as_str(),
        }
    }
}

/// What a `GRANT` or a `REVOKE` hands out.
pub struct GrantDetail {
    pub privileges: Vec<String>,
    pub grantees: Vec<String>,
    pub with_grant_option: bool,
}

/// Where a statement runs.
pub struct RequestContext {
    pub cluster_group: String,
    pub engine: String,
    pub query_id: String,
    pub session_params: BTreeMap<String, String>,
}

impl Default for RequestContext {
    /// A context of which nothing is known.
    fn default() -> (r: Self)
        ensures
            r.cluster_group@.len() == 0,
            r.engine@.len() == 0,
            r.query_id@.len() == 0,
            r.session_params@ == Map::<String, String>::empty(),
    {
        RequestContext {
            cluster_group: String::new(),
            engine: String::new(),
            query_id: String::new(),
            session_params: BTreeMap::new(),
        }
    }
}

/// A question to the policy: may this principal do this to these resources?
pub struct AccessRequest {
    pub identity: Identity,
    pub operation: Operation,
    pub resources: Vec<AccessResource>,
    /// What a `GRANT` or a `REVOKE` hands out; other operations hand nothing out, and for them it
    /// is not sent.
    pub grant: Option<GrantDetail>,
    pub context: RequestContext,
}

impl AccessRequest {
    /// The names of the requested resources, in order.
    pub open spec fn names(self) -> Seq<Seq<char>> {
        self.resources@.map_values(|r: AccessResource| r.own_name())
    }
}

// ---- decision ----

/// The verdict on one resource. `F` is a restriction on the rows that may be touched, and `M` a
/// mask over one column; what they hold is for whoever applies them.
#[derive(Debug, PartialEq)]
pub struct ResourceDecision<F, M> {
    /// The name of the resource that is decided.
    pub table: String,
    pub allow: bool,
    pub reason: Option<String>,
    pub row_filters: Vec<F>,
    pub column_masks: Vec<M>,
}

/// What a [`ResourceDecision`] says.
pub struct ResourceDecisionView<F, M> {
    pub table: Seq<char>,
    pub allow: bool,
    pub reason: Option<Seq<char>>,
    pub row_filters: Seq<F>,
    pub column_masks: Seq<M>,
}

impl<F, M> View for ResourceDecision<F, M> {
    type V = ResourceDecisionView<F, M>;

    open spec fn view(&self) -> ResourceDecisionView<F, M> {
        ResourceDecisionView {
            table: self.table@,
            allow: self.allow,
            reason: opt_view(self.reason),
            row_filters: self.row_filters@,
            column_masks: self.column_masks@,
        }
    }
}

/// A verdict that denies `table` for `reason`, and carries no filter and no mask.
pub open spec fn denial<F, M>(table: Seq<char>, reason: Seq<char>) -> ResourceDecisionView<F, M> {
    ResourceDecisionView {
        table,
        allow: false,
        reason: Some(reason),
        row_filters: Seq::empty(),
        column_masks: Seq::empty(),
    }
}

/// Whether every verdict allows. An empty sequence of verdicts allows.
pub open spec fn all_allow<F, M>(s: Seq<ResourceDecisionView<F, M>>) -> bool {
    forall|i: int| 0 <= i < s.len() ==> (#[trigger] s[i]).allow
}

/// The verdicts on the resources of one request.
#[derive(Debug, PartialEq)]
pub struct AccessDecision<F, M> {
    pub resources: Vec<ResourceDecision<F, M>>,
}

impl<F, M> View for AccessDecision<F, M> {
    type V = Seq<ResourceDecisionView<F, M>>;

    open spec fn view(&self) -> Seq<ResourceDecisionView<F, M>> {
        self.resources@.map_values(|r: ResourceDecision<F, M>| r@)
    }
}

impl<F, M> ResourceDecision<F, M> {
    /// Denies one resource.
    pub(crate) fn deny(table: String, reason: String) -> (r: Self)
        ensures
            r@ == denial::<F, M>(table@, reason@),
            r.table@ == table@,
            !r.allow,
            r.reason is Some && r.reason->0@ == reason@,
            r.row_filters@.len() == 0,
            r.column_masks@.len() == 0,
    {
        let r = ResourceDecision {
            table,
            allow: false,
            reason: Some(reason),
            row_filters: Vec::new(),
            column_masks: Vec::new(),
        };
        assert(r.row_filters@ =~= Seq::empty());
        assert(r.column_masks@ =~= Seq::empty());
        r
    }
}

impl<F, M> AccessDecision<F, M> {
    /// Denies the whole request: a single denial, of the resource named `*`.
    pub fn deny_all(reason: String) -> (r: Self)
        ensures
            r@ == seq![denial::<F, M>("*"@, reason@)],
            r.resources@.len() == 1,
            r.resources@[0].table@ == "*"@,
            !r.resources@[0].allow,
            r.resources@[0].reason is Some && r.resources@[0].reason->0@ == reason@,
            r.resources@[0].row_filters@.len() == 0,
            r.resources@[0].column_masks@.len() == 0,
    {
        let mut resources: Vec<ResourceDecision<F, M>> = Vec::new();
        resources.push(ResourceDecision::deny("*".to_owned(), reason));
        let r = AccessDecision { resources };
        assert(r@ =~= seq![denial::<F, M>("*"@, reason@)]);
        r
    }

    /// Whether every verdict that is present allows.
    pub fn is_allowed(&self) -> (r: bool)
        ensures
            r == all_allow(self@),
            r <==> (forall|i: int|
                0 <= i < self.resources@.len() ==> (#[trigger] self.resources@[i]).allow),
    {
        let mut i: usize = 0;
        while i < self.resources.len()
            invariant
                i <= self.resources@.len(),
                forall|j: int| 0 <= j < i ==> (#[trigger] self.resources@[j]).allow,
            decreases self.resources@.len() - i,
        {
            if !self.resources[i].allow {
                assert(!self@[i as int].allow);
                return false;
            }
            i += 1;
        }
        assert forall|j: int| 0 <= j < self@.len() implies (#[trigger] self@[j]).allow by {
            assert(self.resources@[j].allow);
        }
        true
    }

    /// The first verdict that denies: the name of its resource, and its reason.
    pub fn first_denied(&self) -> (r: Option<(&str, Option<&str>)>)
        ensures
            match r {
                Some((table, reason)) => exists|i: int|
                    0 <= i < self@.len() && all_allow(self@.take(i)) && !(
                    #[trigger] self@[i]).allow && table@ == self@[i].table && opt_str_view(reason)
                        == self@[i].reason,
                None => all_allow(self@),
            },
            match r {
                Some((table, reason)) => exists|i: int|
                    {
                        &&& 0 <= i < self.resources@.len()
                        &&& !(#[trigger] self.resources@[i]).allow
                        &&& forall|j: int| 0 <= j < i ==> (#[trigger] self.resources@[j]).allow
                        &&& table@ == self.resources@[i].table@
                        &&& (reason is Some <==> self.resources@[i].reason is Some)
                        &&& (reason is Some ==> reason->0@ == self.resources@[i].reason->0@)
                    },
                None => forall|i: int|
                    0 <= i < self.resources@.len() ==> (#[trigger] self.resources@[i]).allow,
            },
    {
        let mut i: usize = 0;
        while i < self.resources.len()
            invariant
                i <= self.resources@.len(),
                forall|j: int| 0 <= j < i ==> (#[trigger] self.resources@[j]).allow,
            decreases self.resources@.len() - i,
        {
            if !self.resources[i].allow {
                let denied = &self.resources[i];
                assert(self@[i as int] == denied@);
                assert(all_allow(self@.take(i as int))) by {
                    assert forall|j: int| 0 <= j < i implies (#[trigger] self@.take(
                        i as int,
                    )[j]).allow by {
                        assert(self.resources@[j].allow);
                    }
                }
                return Some((denied.table.as_str(), as_opt_str(&denied.reason)));
            }
            i += 1;
        }
        assert forall|j: int| 0 <= j < self@.len() implies (#[trigger] self@[j]).allow by {
            assert(self.resources@[j].allow);
        }
        None
    }
}

} // verus!
