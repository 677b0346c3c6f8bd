//! The answers of a run for a machine: objects, lists and texts.
use vstd::prelude::*;
use vstd::string::*;
use crate::text::{texts, Text};

verus! {

/// A value of an answer.
#[derive(Debug)]
pub enum Payload {
    Null,
    Text(String),
    List(Vec<Payload>),
    /// Fields in the order they were first set.
    Object(Vec<Field>),
}

/// A field of an object.
#[derive(Debug)]
pub struct Field {
    pub key: String,
    pub value: Payload,
}

/// A value as contracts see it.
pub enum PayloadView {
    Null,
    Text(Text),
    List(Seq<PayloadView>),
    Object(Seq<(Text, PayloadView)>),
}

/// A value as contracts see it.
pub open spec fn payload_view(payload: Payload) -> PayloadView
    decreases payload,
{
    match payload {
        Payload::Null => PayloadView::Null,
        Payload::Text(text) => PayloadView::Text(text@),
        Payload::List(items) => PayloadView::List(
            Seq::new(
                items@.len(),
                |i: int|
                    if 0 <= i < items@.len() {
                        payload_view(items@[i])
                    } else {
                        PayloadView::Null
                    },
            ),
        ),
        Payload::Object(fields) => PayloadView::Object(
            Seq::new(
                fields@.len(),
                |i: int|
                    if 0 <= i < fields@.len() {
                        (fields@[i].key@, payload_view(fields@[i].value))
                    } else {
                        (Seq::empty(), PayloadView::Null)
                    },
            ),
        ),
    }
}

impl View for Payload {
    type V = PayloadView;

    open spec fn view(&self) -> PayloadView {
        payload_view(*self)
    }
}

/// The views of some values.
pub open spec fn payload_views(items: Seq<Payload>) -> Seq<PayloadView> {
    items.map_values(|p: Payload| p@)
}

/// The value of a text.
pub open spec fn shown(text: Text) -> PayloadView {
    PayloadView::Text(text)
}

/// The value of some texts.
pub open spec fn shown_list(list: Seq<Text>) -> PayloadView {
    PayloadView::List(list.map_values(|t: Text| shown(t)))
}

/// The value of a text that may be missing.
pub open spec fn shown_opt(text: Option<Text>) -> PayloadView {
    match text {
        Some(text) => shown(text),
        None => PayloadView::Null,
    }
}

/// The fields of an object with one of them set: in its place if it was set
/// before, at the end otherwise.
pub open spec fn with_field(
    fields: Seq<(Text, PayloadView)>,
    key: Text,
    value: PayloadView,
) -> Seq<(Text, PayloadView)>
    decreases fields.len(),
{
    if fields.len() == 0 {
        seq![(key, value)]
    } else if fields[0].0 == key {
        seq![(key, value)] + fields.skip(1)
    } else {
        seq![fields[0]] + with_field(fields.skip(1), key, value)
    }
}

/// A field that is set is in the object, with the value it was set to.
pub proof fn lemma_with_field(fields: Seq<(Text, PayloadView)>, key: Text, value: PayloadView)
    ensures
        with_field(fields, key, value).contains((key, value)),
    decreases fields.len(),
{
    let set = with_field(fields, key, value);
    if fields.len() == 0 || fields[0].0 == key {
        assert(set[0] == (key, value));
    } else {
        let rest = with_field(fields.skip(1), key, value);
        lemma_with_field(fields.skip(1), key, value);
        let k = choose|k: int| 0 <= k < rest.len() && rest[k] == (key, value);
        assert(set[k + 1] == (key, value));
    }
}

impl Payload {
    /// The value of a text.
    pub fn text(text: &str) -> (payload: Payload)
        ensures
            payload@ == shown(text@),
    {
        Payload::Text(text.to_owned())
    }

    /// The value of a text that may be missing.
    pub fn opt(text: &Option<String>) -> (payload: Payload)
        ensures
            payload@ == shown_opt(crate::text::opt_text(*text)),
    {
        match text {
            Some(text) => Payload::Text(text.clone()),
            None => Payload::Null,
        }
    }

    /// A list of values.
    pub fn list(items: Vec<Payload>) -> (payload: Payload)
        ensures
            payload@ == PayloadView::List(payload_views(items@)),
    {
        let payload = Payload::List(items);
        proof {
            assert(payload@->List_0 =~= payload_views(items@));
        }
        payload
    }

    /// The value of some texts.
    pub fn texts(list: &Vec<String>) -> (payload: Payload)
        ensures
            payload@ == shown_list(texts(list@)),
    {
        let mut items: Vec<Payload> = Vec::new();
        let mut i: usize = 0;
        while i < list.len()
            invariant
                i <= list.len(),
                items.len() == i,
                forall|j: int| 0 <= j < i ==> (#[trigger] items@[j])@ == shown(list@[j]@),
            decreases list.len() - i,
        {
            items.push(Payload::text(list[i].as_str()));
            i += 1;
        }
        proof {
            assert(payload_views(items@) =~= texts(list@).map_values(|t: Text| shown(t)));
        }
        Payload::list(items)
    }
}

/// An object that is being built.
#[derive(Debug)]
pub struct Object {
    pub fields: Vec<Field>,
}

/// The fields of an object as contracts see them.
pub open spec fn fields_view(fields: Seq<Field>) -> Seq<(Text, PayloadView)> {
    fields.map_values(|f: Field| (f.key@, f.value@))
}

impl View for Object {
    type V = Seq<(Text, PayloadView)>;

    open spec fn view(&self) -> Seq<(Text, PayloadView)> {
        fields_view(self.fields@)
    }
}

impl Object {
    /// An object without fields.
    pub fn new() -> (object: Object)
        ensures
            object@ == Seq::<(Text, PayloadView)>::empty(),
    {
        let object = Object { fields: Vec::new() };
        proof {
            assert(object@ =~= Seq::<(Text, PayloadView)>::empty());
        }
        object
    }

    /// The object with one field more.
    pub fn field(self, key: &str, value: Payload) -> (object: Object)
        ensures
            object@ == self@.push((key@, value@)),
    {
        let mut fields = self.fields;
        fields.push(Field { key: key.to_owned(), value });
        let object = Object { fields };
        proof {
            assert(object@ =~= self@.push((key@, value@)));
        }
        object
    }

    /// The object with a field set.
    pub fn with(self, key: &str, value: Payload) -> (object: Object)
        ensures
            object@ == with_field(self@, key@, value@),
    {
        let mut fields = self.fields;
        let ghost before = fields_view(fields@);
        let mut i: usize = 0;
        proof {
            assert(before.skip(0) =~= before);
            assert(before.take(0) + with_field(before.skip(0), key@, value@) =~= with_field(
                before,
                key@,
                value@,
            ));
        }
        while i < fields.len() && !crate::text::same_text(fields[i].key.as_str(), key)
            invariant
                i <= fields.len(),
                before == fields_view(fields@),
                with_field(before, key@, value@) == before.take(i as int) + with_field(
                    before.skip(i as int),
                    key@,
                    value@,
                ),
            decreases fields.len() - i,
        {
            proof {
                let rest = before.skip(i as int);
                assert(rest[0] == before[i as int]);
                assert(rest.skip(1) =~= before.skip(i + 1));
                assert(before.take(i as int) + (seq![rest[0]] + with_field(
                    rest.skip(1),
                    key@,
                    value@,
                )) =~= before.take(i + 1) + with_field(before.skip(i + 1), key@, value@));
            }
            i += 1;
        }
        let field = Field { key: key.to_owned(), value };
        if i < fields.len() {
            proof {
                assert(before.skip(i as int)[0].0 == key@);
                assert(before.skip(i as int).skip(1) =~= before.skip(i + 1));
            }
            fields.set(i, field);
            proof {
                assert(fields_view(fields@) =~= before.take(i as int) + (seq![(key@, value@)]
                    + before.skip(i + 1)));
            }
        } else {
            proof {
                assert(before.take(i as int) =~= before);
            }
            fields.push(field);
            proof {
                assert(fields_view(fields@) =~= before + seq![(key@, value@)]);
            }
        }
        Object { fields }
    }

    /// The object as a value.
    pub fn payload(self) -> (payload: Payload)
        ensures
            payload@ == PayloadView::Object(self@),
    {
        let payload = Payload::Object(self.fields);
        proof {
            assert(payload@->Object_0 =~= self@);
        }
        payload
    }
}

} // verus!
