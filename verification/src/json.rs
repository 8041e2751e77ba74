//! Documents as they are received, and the records that are read out of them.

use vstd::prelude::*;

use crate::entries::{entry, lemma_entry_found, written_once};
use crate::text::texts;

verus! {

/// A number in a JSON document, carried as it is: `serde_json::Number`. Nothing is claimed of
/// what it holds.
#[verifier::external_type_specification]
#[verifier::external_body]
pub struct ExNumber(serde_json::Number);

/// A JSON document as it was received.
///
/// An object keeps its entries in the order in which they were read, and keeps every one of
/// them: a key that was written twice is there twice. A value that could not be read, such as a
/// number out of range, stands in its place as `Unreadable`: it does no harm under a key that
/// nobody reads.
#[derive(Debug, PartialEq)]
pub enum Json {
    Null,
    Bool(bool),
    Number(serde_json::Number),
    Text(String),
    Array(Vec<Json>),
    Object(Vec<(String, Json)>),
    Unreadable,
}

/// What a [`Json`] document says.
pub enum JsonView {
    Null,
    Bool(bool),
    Number(serde_json::Number),
    Text(Seq<char>),
    Array(Seq<JsonView>),
    Object(Seq<(Seq<char>, JsonView)>),
    Unreadable,
}

impl View for Json {
    type V = JsonView;

    open spec fn view(&self) -> JsonView
        decreases self,
    {
        match *self {
            Json::Unreadable => JsonView::Unreadable,
            Json::Null => JsonView::Null,
            Json::Bool(b) => JsonView::Bool(b),
            Json::Number(n) => JsonView::Number(n),
            Json::Text(s) => JsonView::Text(s@),
            Json::Array(items) => JsonView::Array(
                Seq::new(
                    items@.len(),
                    |i: int|
                        if 0 <= i < items@.len() {
                            items@[i].view()
                        } else {
                            JsonView::Null
                        },
                ),
            ),
            Json::Object(entries) => JsonView::Object(
                Seq::new(
                    entries@.len(),
                    |i: int|
                        (
                            entries@[i].0@,
                            if 0 <= i < entries@.len() {
                                entries@[i].1.view()
                            } else {
                                JsonView::Null
                            },
                        ),
                ),
            ),
        }
    }
}

/// The views of a sequence of documents.
pub open spec fn doc_views(docs: Seq<Json>) -> Seq<JsonView> {
    docs.map_values(|doc: Json| doc@)
}

/// The views of the entries of an object.
pub open spec fn entry_views(entries: Seq<(String, Json)>) -> Seq<(Seq<char>, JsonView)> {
    entries.map_values(|e: (String, Json)| (e.0@, e.1@))
}

/// An array says what its items say.
pub proof fn lemma_array_view(items: Vec<Json>)
    ensures
        Json::Array(items)@ == JsonView::Array(doc_views(items@)),
{
    assert(Json::Array(items)@->Array_0 =~= doc_views(items@));
}

/// An object says what its entries say.
pub proof fn lemma_object_view(entries: Vec<(String, Json)>)
    ensures
        Json::Object(entries)@ == JsonView::Object(entry_views(entries@)),
{
    assert(Json::Object(entries)@->Object_0 =~= entry_views(entries@));
}

// ---- records ----

/// The fields of a record with the keys `keys`, each with its value where it is present.
///
/// An object gives its fields by key: keys it need not know are passed over, and one that it does
/// know may not be written twice. An array gives them by position, and may stop early. Nothing
/// else is a record.
pub open spec fn record(doc: JsonView, keys: Seq<Seq<char>>) -> Option<Seq<Option<JsonView>>> {
    match doc {
        JsonView::Object(entries) if written_once(entries, keys) => Some(
            Seq::new(keys.len(), |i: int| entry(entries, keys[i])),
        ),
        JsonView::Array(items) if items.len() <= keys.len() => Some(
            Seq::new(
                keys.len(),
                |i: int|
                    if i < items.len() {
                        Some(items[i])
                    } else {
                        None
                    },
            ),
        ),
        _ => None,
    }
}

/// The views of a sequence of optional documents.
pub open spec fn field_views(fields: Seq<Option<Json>>) -> Seq<Option<JsonView>> {
    fields.map_values(|f: Option<Json>| field_view(f))
}

/// The view of an optional document.
pub open spec fn field_view(field: Option<Json>) -> Option<JsonView> {
    match field {
        Some(doc) => Some(doc@),
        None => None,
    }
}

/// One more entry at the front keeps every key written once, unless its key is one of `keys`
/// and follows again.
proof fn lemma_written_once_front(
    entries: Seq<(Seq<char>, JsonView)>,
    keys: Seq<Seq<char>>,
)
    requires
        entries.len() > 0,
    ensures
        written_once(entries, keys) <==> written_once(entries.drop_first(), keys) && (
        keys.contains(entries[0].0) ==> entry(entries.drop_first(), entries[0].0) is None),
{
    let rest = entries.drop_first();
    lemma_entry_found(rest, entries[0].0);
    if written_once(entries, keys) {
        assert forall|i: int, j: int|
            0 <= i < j < rest.len() && (#[trigger] rest[i]).0 == (#[trigger] rest[j]).0 implies !keys.contains(
        rest[i].0) by {
            assert(entries[i + 1].0 == entries[j + 1].0);
        }
        if entry(rest, entries[0].0) is Some {
            let k = choose|k: int| 0 <= k < rest.len() && (#[trigger] rest[k]).0 == entries[0].0;
            assert(entries[0].0 == entries[k + 1].0);
        }
    }
    if written_once(rest, keys) && (keys.contains(entries[0].0) ==> entry(rest, entries[0].0)
        is None) {
        assert forall|i: int, j: int|
            0 <= i < j < entries.len() && (#[trigger] entries[i]).0 == (
            #[trigger] entries[j]).0 implies !keys.contains(entries[i].0) by {
            if i == 0 {
                assert(rest[j - 1].0 == entries[0].0);
            } else {
                assert(rest[i - 1].0 == rest[j - 1].0);
            }
        }
    }
}

/// The position of `key` among `keys`.
fn position(keys: &Vec<String>, key: &String) -> (r: Option<usize>)
    ensures
        match r {
            Some(i) => i < keys@.len() && keys@[i as int]@ == key@,
            None => !texts(keys@).contains(key@),
        },
{
    let mut i: usize = 0;
    while i < keys.len()
        invariant
            i <= keys@.len(),
            forall|j: int| 0 <= j < i ==> (#[trigger] keys@[j])@ != key@,
        decreases keys@.len() - i,
    {
        if keys[i] == *key {
            return Some(i);
        }
        i += 1;
    }
    assert forall|j: int| 0 <= j < texts(keys@).len() implies texts(keys@)[j] != key@ by {
        assert(keys@[j]@ != key@);
    }
    None
}

impl Json {
    /// Takes the fields of a record out of the document.
    #[verifier::loop_isolation(false)]
    pub(crate) fn into_record(self, keys: &Vec<String>) -> (r: Option<Vec<Option<Json>>>)
        requires
            texts(keys@).no_duplicates(),
        ensures
            match r {
                Some(fields) => record(self@, texts(keys@)) == Some(field_views(fields@)),
                None => record(self@, texts(keys@)) is None,
            },
    {
        let ghost doc = self@;
        let ghost ks = texts(keys@);
        let mut fields: Vec<Option<Json>> = Vec::new();
        match self {
            Json::Object(entries) => {
                let mut left = entries;
                let ghost all = entry_views(entries@);
                proof {
                    lemma_object_view(entries);
                }
                let mut i: usize = 0;
                while i < keys.len()
                    invariant
                        i <= keys@.len(),
                        fields@.len() == i,
                        forall|j: int| 0 <= j < i ==> (#[trigger] fields@[j]) is None,
                    decreases keys@.len() - i,
                {
                    fields.push(None);
                    i += 1;
                }
                assert(all.skip(all.len() as int) =~= Seq::empty());
                while left.len() > 0
                    invariant
                        doc == JsonView::Object(all),
                        ks == texts(keys@),
                        ks.no_duplicates(),
                        left@.len() <= all.len(),
                        forall|j: int|
                            0 <= j < left@.len() ==> all[j] == ((#[trigger] left@[j]).0@, left@[j].1@),
                        fields@.len() == keys@.len(),
                        forall|j: int|
                            0 <= j < fields@.len() ==> field_view(#[trigger] fields@[j]) == entry(
                                all.skip(left@.len() as int),
                                ks[j],
                            ),
                        written_once(all.skip(left@.len() as int), ks),
                    decreases left@.len(),
                {
                    let ghost n = left@.len() as int - 1;
                    let (key, value) = left.pop().unwrap();
                    let ghost was = fields@;
                    proof {
                        assert(all[n] == (key@, value@));
                        assert(all.skip(n).drop_first() =~= all.skip(n + 1));
                        lemma_written_once_front(all.skip(n), ks);
                    }
                    match position(keys, &key) {
                        Some(p) => {
                            assert(ks[p as int] == key@);
                            if fields[p].is_some() {
                                proof {
                                    lemma_not_once_in_prefix(all, n, ks);
                                }
                                return None;
                            }
                            fields.set(p, Some(value));
                        },
                        None => {},
                    }
                    assert forall|j: int| 0 <= j < fields@.len() implies field_view(
                        #[trigger] fields@[j],
                    ) == entry(all.skip(n), ks[j]) by {
                        if ks[j] != key@ {
                            assert(fields@[j] == was[j]);
                        }
                    }
                }
                assert(all.skip(0) =~= all);
                assert(field_views(fields@) =~= record(doc, ks)->0);
                Some(fields)
            },
            Json::Array(items) => {
                proof {
                    lemma_array_view(items);
                }
                if items.len() > keys.len() {
                    return None;
                }
                for item in it: items
                    invariant
                        it.seq() == items@,
                        fields@.len() == it.index(),
                        forall|j: int|
                            0 <= j < fields@.len() ==> #[trigger] fields@[j] == Some(items@[j]),
                {
                    fields.push(Some(item));
                }
                let n: usize = fields.len();
                let mut i: usize = n;
                while i < keys.len()
                    invariant
                        n == items@.len(),
                        n <= i <= keys@.len(),
                        fields@.len() == i,
                        forall|j: int|
                            0 <= j < i ==> #[trigger] fields@[j] == (if j < n {
                                Some(items@[j])
                            } else {
                                None
                            }),
                    decreases keys@.len() - i,
                {
                    fields.push(None);
                    i += 1;
                }
                assert(field_views(fields@) =~= record(doc, ks)->0);
                Some(fields)
            },
            _ => None,
        }
    }
}

/// A key that is written twice in the tail is written twice.
proof fn lemma_not_once_in_prefix(
    entries: Seq<(Seq<char>, JsonView)>,
    n: int,
    keys: Seq<Seq<char>>,
)
    requires
        0 <= n <= entries.len(),
        !written_once(entries.skip(n), keys),
    ensures
        !written_once(entries, keys),
{
    let tail = entries.skip(n);
    let (i, j) = choose|i: int, j: int|
        0 <= i < j < tail.len() && (#[trigger] tail[i]).0 == (#[trigger] tail[j]).0
            && keys.contains(tail[i].0);
    assert(entries[n + i].0 == entries[n + j].0);
}

} // verus!
