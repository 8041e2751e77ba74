//! What the decision on a request must be, stated on the fields of the request, of the policy's
//! answer and of the decision itself.

use vstd::prelude::*;

use crate::access_model::{AccessDecision, AccessRequest, AccessResource, ResourceKind};
use crate::laws::law_policy_decisions_are_kept;
use crate::response::{decides, decision_on, passed_over, OpaResponse, WireResourceDecision};
use crate::text::{decimal, digit, opt_str_view, opt_view, texts};

verus! {

// ---- names ----

/// What a resource goes by: a schema by its `schema` and a catalog by its `catalog`, where they
/// have one, and everything else by its `table`.
pub open spec fn goes_by(r: AccessResource) -> Seq<char> {
    if r.kind == ResourceKind::Schema && r.schema is Some {
        r.schema->0@
    } else if r.kind == ResourceKind::Catalog && r.catalog is Some {
        r.catalog->0@
    } else {
        r.table@
    }
}

/// Each requested resource is asked for under what it goes by, in its own place.
pub proof fn law_resources_are_asked_for_by_name(req: AccessRequest)
    ensures
        req.names().len() == req.resources@.len(),
        forall|i: int|
            0 <= i < req.resources@.len() ==> #[trigger] req.names()[i] == goes_by(
                req.resources@[i],
            ),
        forall|i: int|
            0 <= i < req.resources@.len() ==> (#[trigger] req.resources@[i]).own_name() == goes_by(
                req.resources@[i],
            ),
{
}

/// A resource's name depends on nothing but its kind and the field that names that kind: two
/// resources of one kind with the same `table`, `schema` and `catalog` have the same name,
/// whatever their values and columns, and of a kind other than schema and catalog the `table`
/// alone decides.
pub proof fn law_name_ignores_the_rest(a: AccessResource, b: AccessResource)
    requires
        a.kind == b.kind,
        a.table@ == b.table@,
        a.kind == ResourceKind::Schema ==> (a.schema is Some <==> b.schema is Some) && (
        a.schema is Some ==> a.schema->0@ == b.schema->0@),
        a.kind == ResourceKind::Catalog ==> (a.catalog is Some <==> b.catalog is Some) && (
        a.catalog is Some ==> a.catalog->0@ == b.catalog->0@),
    ensures
        a.own_name() == b.own_name(),
        a.kind != ResourceKind::Schema && a.kind != ResourceKind::Catalog ==> a.own_name()
            == a.table@,
{
}

// ---- numbers and strings ----

/// The number that a string of decimal digits stands for.
pub open spec fn number(s: Seq<char>) -> int
    decreases s.len(),
{
    if s.len() == 0 {
        0
    } else {
        number(s.drop_last()) * 10 + (s.last() as int - '0' as int)
    }
}

/// Whether `s` is `n` in decimal: digits alone, no leading zero, and standing for `n`.
pub open spec fn is_decimal(s: Seq<char>, n: nat) -> bool {
    &&& s.len() > 0
    &&& s.len() > 1 ==> s[0] != '0'
    &&& forall|i: int| 0 <= i < s.len() ==> '0' <= #[trigger] s[i] <= '9'
    &&& number(s) == n
}

/// A count is written in decimal.
pub proof fn law_decimal(n: nat)
    ensures
        is_decimal(decimal(n), n),
    decreases n,
{
    reveal_strlit("0123456789");
    let d = n % 10;
    assert('0' <= digit(d) <= '9' && digit(d) as int - '0' as int == d && (digit(d) == '0' ==> d
        == 0));
    reveal_with_fuel(number, 2);
    if n < 10 {
        assert(decimal(n).drop_last() =~= Seq::empty());
    } else {
        law_decimal(n / 10);
        assert(decimal(n).drop_last() =~= decimal(n / 10));
        assert(decimal(n)[0] == decimal(n / 10)[0]);
        if decimal(n / 10).len() == 1 {
            assert(number(decimal(n / 10).drop_last()) == 0) by {
                assert(decimal(n / 10).drop_last() =~= Seq::empty());
            }
            assert(number(decimal(n / 10)) == n / 10);
        }
    }
}

/// Optional and repeated strings are seen as they are.
pub proof fn law_strings_are_seen_as_they_are(
    s: Option<String>,
    t: Option<&str>,
    v: Seq<String>,
)
    ensures
        s is Some <==> opt_view(s) is Some,
        s is Some ==> opt_view(s)->0 == s->0@,
        t is Some <==> opt_str_view(t) is Some,
        t is Some ==> opt_str_view(t)->0 == t->0@,
        texts(v).len() == v.len(),
        forall|i: int| 0 <= i < v.len() ==> #[trigger] texts(v)[i] == v[i]@,
{
}

// ---- decisions ----

/// The decisions of an answer; none where it has no result.
pub open spec fn answered<F, M>(resp: OpaResponse<F, M>) -> Seq<WireResourceDecision<F, M>> {
    match resp.result {
        Some(result) => result.resources@,
        None => Seq::empty(),
    }
}

/// Whether a decision echoes `name`: as its `name`, or as its `table` where it has no `name`.
pub open spec fn echoes<F, M>(d: WireResourceDecision<F, M>, name: Seq<char>) -> bool {
    if d.name is Some {
        d.name->0@ == name
    } else {
        d.table is Some && d.table->0@ == name
    }
}

/// Whether some decision of an answer echoes what a resource goes by.
pub open spec fn is_decided<F, M>(resp: OpaResponse<F, M>, r: AccessResource) -> bool {
    exists|k: int|
        0 <= k < answered(resp).len() && echoes(#[trigger] answered(resp)[k], goes_by(r))
}

proof fn lemma_is_decided<F, M>(resp: OpaResponse<F, M>, r: AccessResource)
    requires
        answered(resp).len() > 0,
    ensures
        resp@ is Some,
        resp@->0.len() == answered(resp).len(),
        is_decided(resp, r) == decides(resp@->0, r.own_name()),
{
    let said = resp@->0;
    let ds = answered(resp);
    assert forall|k: int| 0 <= k < ds.len() implies (#[trigger] said[k].subject() == Some(
        r.own_name(),
    )) == echoes(ds[k], goes_by(r)) by {
        assert(said[k] == ds[k]@);
    }
    if is_decided(resp, r) {
        let k = choose|k: int| 0 <= k < ds.len() && echoes(#[trigger] ds[k], goes_by(r));
        assert(said[k].subject() == Some(r.own_name()));
    }
    if decides(said, r.own_name()) {
        let k = choose|k: int|
            0 <= k < said.len() && (#[trigger] said[k]).subject() == Some(r.own_name());
        assert(echoes(ds[k], goes_by(r)));
    }
}

/// An answer that decides nothing denies the request, whatever was asked for: there is one
/// verdict, it denies, it carries no filter and no mask, and its reason tells in decimal how many
/// resources were requested.
pub proof fn law_nothing_decided<F, M>(
    resp: OpaResponse<F, M>,
    req: AccessRequest,
    r: AccessDecision<F, M>,
)
    requires
        r@ == decision_on(resp@, req.names()),
        answered(resp).len() == 0,
    ensures
        r.resources@.len() == 1,
        !r.resources@[0].allow,
        r.resources@[0].table@ == "*"@,
        r.resources@[0].row_filters@.len() == 0,
        r.resources@[0].column_masks@.len() == 0,
        r.resources@[0].reason is Some,
        exists|count: Seq<char>| #[trigger]
            is_decimal(count, req.resources@.len()) && r.resources@[0].reason->0@
                == "policy returned no decision for "@ + count + " resource(s)"@,
{
    assert(r@.len() == 1);
    assert(r@[0] == r.resources@[0]@);
    law_decimal(req.resources@.len());
}

/// The policy's decisions come first, one verdict each and in their order: about what the
/// decision echoes, with its own `allow`, its own reason, and its own filters and masks.
pub proof fn law_decisions_are_carried_over<F, M>(
    resp: OpaResponse<F, M>,
    req: AccessRequest,
    r: AccessDecision<F, M>,
    i: int,
)
    requires
        r@ == decision_on(resp@, req.names()),
        0 <= i < answered(resp).len(),
    ensures
        r.resources@.len() >= answered(resp).len(),
        ({
            let said = answered(resp)[i];
            let v = r.resources@[i];
            &&& v.allow == said.allow
            &&& v.reason is Some <==> said.reason is Some
            &&& said.reason is Some ==> v.reason->0@ == said.reason->0@
            &&& v.row_filters@ == said.row_filters@
            &&& v.column_masks@ == said.column_masks@
            &&& said.name is Some ==> v.table@ == said.name->0@
            &&& said.name is None && said.table is Some ==> v.table@ == said.table->0@
            &&& said.name is None && said.table is None ==> v.table@.len() == 0
        }),
{
    let said = resp@->0;
    assert(said.len() == answered(resp).len());
    assert(said[i] == answered(resp)[i]@);
    law_policy_decisions_are_kept(said, req.names(), i);
    assert(r@.len() >= said.len());
    assert(r@[i] == r.resources@[i]@);
}

/// Every requested resource that the policy did not decide, and no other, is denied by a verdict
/// of its own under what it goes by, after the policy's own verdicts and in the order of the
/// request: `denied` lists the places of those resources in the request. Such a verdict carries no
/// filter and no mask.
pub proof fn law_undecided_resources_are_denied<F, M>(
    resp: OpaResponse<F, M>,
    req: AccessRequest,
    r: AccessDecision<F, M>,
) -> (denied: Seq<int>)
    requires
        r@ == decision_on(resp@, req.names()),
        answered(resp).len() > 0,
    ensures
        forall|j: int, k: int|
            0 <= j < k < denied.len() ==> #[trigger] denied[j] < #[trigger] denied[k],
        forall|i: int|
            0 <= i < req.resources@.len() ==> (denied.contains(i) <==> !is_decided(
                resp,
                #[trigger] req.resources@[i],
            )),
        r.resources@.len() == answered(resp).len() + denied.len(),
        forall|k: int|
            0 <= k < denied.len() ==> {
                let i = #[trigger] denied[k];
                let v = r.resources@[answered(resp).len() + k];
                &&& 0 <= i < req.resources@.len()
                &&& !v.allow
                &&& v.table@ == goes_by(req.resources@[i])
                &&& v.reason is Some
                &&& v.reason->0@ == "policy returned no decision for this resource"@
                &&& v.row_filters@.len() == 0
                &&& v.column_masks@.len() == 0
            },
{
    let said = resp@->0;
    let names = req.names();
    let n = answered(resp).len();
    let over = passed_over(said, names);
    let p = |name: Seq<char>| !decides(said, name);
    let denied = lemma_filter_places(names, p);
    assert forall|i: int| 0 <= i < req.resources@.len() implies (denied.contains(i)
        <==> !is_decided(resp, #[trigger] req.resources@[i])) by {
        lemma_is_decided(resp, req.resources@[i]);
        assert(names[i] == req.resources@[i].own_name());
        assert(p(names[i]) == !decides(said, names[i]));
    }
    assert(resp@ is Some && said.len() == n);
    assert(r@.len() == n + over.len());
    assert forall|k: int| 0 <= k < denied.len() implies {
        let i = #[trigger] denied[k];
        let v = r.resources@[n + k];
        &&& 0 <= i < req.resources@.len()
        &&& !v.allow
        &&& v.table@ == goes_by(req.resources@[i])
        &&& v.reason is Some
        &&& v.reason->0@ == "policy returned no decision for this resource"@
        &&& v.row_filters@.len() == 0
        &&& v.column_masks@.len() == 0
    } by {
        let i = denied[k];
        assert(over[k] == names[i]);
        assert(r@[n + k] == r.resources@[n + k]@);
    }
    denied
}

/// The places of what a filter keeps.
proof fn lemma_filter_places(s: Seq<Seq<char>>, p: spec_fn(Seq<char>) -> bool) -> (places: Seq<int>)
    ensures
        places.len() == s.filter(p).len(),
        forall|j: int, k: int|
            0 <= j < k < places.len() ==> #[trigger] places[j] < #[trigger] places[k],
        forall|k: int|
            0 <= k < places.len() ==> 0 <= #[trigger] places[k] < s.len() && s.filter(p)[k]
                == s[places[k]],
        forall|i: int| 0 <= i < s.len() ==> (places.contains(i) <==> p(#[trigger] s[i])),
    decreases s.len(),
{
    reveal(Seq::filter);
    if s.len() == 0 {
        Seq::empty()
    } else {
        let rest = s.drop_last();
        let before = lemma_filter_places(rest, p);
        let n = s.len() - 1;
        let places = if p(s.last()) {
            before.push(n)
        } else {
            before
        };
        assert forall|i: int| 0 <= i < s.len() implies (places.contains(i) <==> p(
            #[trigger] s[i],
        )) by {
            if i < n {
                assert(rest[i] == s[i]);
                if before.contains(i) {
                    let k = choose|k: int| 0 <= k < before.len() && before[k] == i;
                    assert(places[k] == i);
                }
                if places.contains(i) {
                    let k = choose|k: int| 0 <= k < places.len() && places[k] == i;
                    assert(before[k] == i);
                }
            } else {
                if p(s.last()) {
                    assert(places[before.len() as int] == i);
                } else if places.contains(i) {
                    let k = choose|k: int| 0 <= k < places.len() && places[k] == i;
                    assert(before[k] < n);
                }
            }
        }
        assert forall|k: int| 0 <= k < places.len() implies 0 <= #[trigger] places[k] < s.len()
            && s.filter(p)[k] == s[places[k]] by {
            if k < before.len() {
                assert(places[k] == before[k]);
                assert(rest.filter(p)[k] == rest[before[k]]);
            }
        }
        assert forall|j: int, k: int| 0 <= j < k < places.len() implies #[trigger] places[j]
            < #[trigger] places[k] by {
            assert(places[j] == before[j]);
            if k < before.len() {
                assert(places[k] == before[k]);
            }
        }
        places
    }
}

/// A request is allowed exactly where the policy decided something, every one of its decisions
/// allows, and each requested resource is echoed by one of them.
pub proof fn law_allowed_exactly_where_every_resource_is<F, M>(
    resp: OpaResponse<F, M>,
    req: AccessRequest,
    r: AccessDecision<F, M>,
)
    requires
        r@ == decision_on(resp@, req.names()),
    ensures
        (forall|i: int| 0 <= i < r.resources@.len() ==> (#[trigger] r.resources@[i]).allow) <==> {
            &&& answered(resp).len() > 0
            &&& forall|k: int|
                0 <= k < answered(resp).len() ==> (#[trigger] answered(resp)[k]).allow
            &&& forall|i: int|
                0 <= i < req.resources@.len() ==> is_decided(resp, #[trigger] req.resources@[i])
        },
{
    if answered(resp).len() == 0 {
        law_nothing_decided(resp, req, r);
    } else {
        let n = answered(resp).len();
        let denied = law_undecided_resources_are_denied(resp, req, r);
        assert forall|k: int| 0 <= k < n implies r.resources@[k].allow == (
        #[trigger] answered(resp)[k]).allow by {
            law_decisions_are_carried_over(resp, req, r, k);
        }
        if forall|i: int| 0 <= i < r.resources@.len() ==> (#[trigger] r.resources@[i]).allow {
            assert forall|k: int| 0 <= k < n implies (#[trigger] answered(resp)[k]).allow by {
                assert(r.resources@[k].allow);
            }
            assert forall|i: int| 0 <= i < req.resources@.len() implies is_decided(
                resp,
                #[trigger] req.resources@[i],
            ) by {
                if !is_decided(resp, req.resources@[i]) {
                    let k = choose|k: int| 0 <= k < denied.len() && denied[k] == i;
                    assert(!r.resources@[n + k].allow);
                }
            }
        }
        if (forall|k: int| 0 <= k < n ==> (#[trigger] answered(resp)[k]).allow) && (forall|i: int|
            0 <= i < req.resources@.len() ==> is_decided(resp, #[trigger] req.resources@[i])) {
            assert(denied.len() == 0) by {
                if denied.len() > 0 {
                    let i = denied[0];
                    assert(denied.contains(i));
                    assert(is_decided(resp, req.resources@[i]));
                }
            }
            assert forall|i: int| 0 <= i < r.resources@.len() implies (
            #[trigger] r.resources@[i]).allow by {
                assert(answered(resp)[i].allow);
            }
        }
    }
}

} // verus!
