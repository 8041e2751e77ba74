//! Documents as they are sent.

use std::collections::BTreeMap;

use vstd::prelude::*;

use crate::text::texts;

verus! {

/// A JSON value that belongs to the caller, carried as it is: `serde_json::Value`. Nothing is
/// claimed of what it holds.
#[verifier::external_type_specification]
#[verifier::external_body]
pub struct ExValue(serde_json::Value);

/// A document to be sent, borrowing from the values it is made of.
///
/// What a map of the caller's holds is handed on as it is: the document only says where it goes.
pub enum Body<'a> {
    Null,
    Bool(bool),
    Text(&'a str),
    Texts(&'a [String]),
    Params(&'a BTreeMap<String, String>),
    Values(&'a BTreeMap<String, serde_json::Value>),
    List(Vec<Body<'a>>),
    Object(Vec<(&'static str, Body<'a>)>),
}

/// What a [`Body`] says. A list of strings is a list like any other.
pub enum BodyView {
    Null,
    Bool(bool),
    Text(Seq<char>),
    Params(BTreeMap<String, String>),
    Values(BTreeMap<String, serde_json::Value>),
    List(Seq<BodyView>),
    Object(Seq<(Seq<char>, BodyView)>),
}

/// A list of strings.
pub open spec fn text_list(s: Seq<Seq<char>>) -> BodyView {
    BodyView::List(s.map_values(|t: Seq<char>| BodyView::Text(t)))
}

impl<'a> View for Body<'a> {
    type V = BodyView;

    open spec fn view(&self) -> BodyView
        decreases self,
    {
        match *self {
            Body::Null => BodyView::Null,
            Body::Bool(b) => BodyView::Bool(b),
            Body::Text(s) => BodyView::Text(s@),
            Body::Texts(s) => text_list(texts(s@)),
            Body::Params(m) => BodyView::Params(*m),
            Body::Values(m) => BodyView::Values(*m),
            Body::List(items) => BodyView::List(
                Seq::new(
                    items@.len(),
                    |i: int|
                        if 0 <= i < items@.len() {
                            items@[i].view()
                        } else {
                            BodyView::Null
                        },
                ),
            ),
            Body::Object(members) => BodyView::Object(
                Seq::new(
                    members@.len(),
                    |i: int|
                        (
                            members@[i].0@,
                            if 0 <= i < members@.len() {
                                members@[i].1.view()
                            } else {
                                BodyView::Null
                            },
                        ),
                ),
            ),
        }
    }
}

/// The views of a sequence of documents to be sent.
pub open spec fn body_views(bodies: Seq<Body<'_>>) -> Seq<BodyView> {
    bodies.map_values(|b: Body| b@)
}

/// The views of the members of an object to be sent.
pub open spec fn member_views(members: Seq<(&'static str, Body<'_>)>) -> Seq<
    (Seq<char>, BodyView),
> {
    members.map_values(|m: (&'static str, Body)| (m.0@, m.1@))
}

/// A list says what its items say.
pub proof fn lemma_list_view(items: Vec<Body<'_>>)
    ensures
        Body::List(items)@ == BodyView::List(body_views(items@)),
{
    assert(Body::List(items)@->List_0 =~= body_views(items@));
}

/// An object says what its members say.
pub proof fn lemma_members_view(members: Vec<(&'static str, Body<'_>)>)
    ensures
        Body::Object(members)@ == BodyView::Object(member_views(members@)),
{
    assert(Body::Object(members)@->Object_0 =~= member_views(members@));
}

} // verus!
