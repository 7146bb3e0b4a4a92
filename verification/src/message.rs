//! Messages as the publishing caller builds them.

use vstd::prelude::*;

verus! {

/// A message: an opaque payload, an ordering key and attributes.
///
/// An empty ordering key means that the message is under no ordering
/// constraint. The attributes are pairs of a name and a value; where a name
/// stands more than once, its last pair counts. A message is not changed
/// once it has been handed over.
#[derive(Debug, PartialEq, Eq)]
pub struct Message {
    pub data: Vec<u8>,
    pub ordering_key: String,
    pub attributes: Vec<(String, String)>,
}

/// Mathematical value of a [`Message`].
pub struct MessageView {
    pub data: Seq<u8>,
    pub ordering_key: Seq<char>,
    pub attributes: Seq<(Seq<char>, Seq<char>)>,
}

/// The attribute pairs of a message as sequences of characters.
pub open spec fn attributes_view(attributes: Seq<(String, String)>) -> Seq<(Seq<char>, Seq<char>)> {
    Seq::new(attributes.len(), |i: int| (attributes[i].0@, attributes[i].1@))
}

impl View for Message {
    type V = MessageView;

    open spec fn view(&self) -> MessageView {
        MessageView {
            data: self.data@,
            ordering_key: self.ordering_key@,
            attributes: attributes_view(self.attributes@),
        }
    }
}

/// The value that the pairs give to `name`: that of the last pair with
/// this name.
pub open spec fn value_of(attributes: Seq<(Seq<char>, Seq<char>)>, name: Seq<char>) -> Option<
    Seq<char>,
>
    decreases attributes.len(),
{
    if attributes.len() == 0 {
        None
    } else if attributes.last().0 == name {
        Some(attributes.last().1)
    } else {
        value_of(attributes.drop_last(), name)
    }
}

impl MessageView {
    /// Whether the message belongs to an ordering lane.
    pub open spec fn is_ordered(self) -> bool {
        self.ordering_key.len() > 0
    }

    /// The value of attribute `name`, if the message has it.
    pub open spec fn attribute(self, name: Seq<char>) -> Option<Seq<char>> {
        value_of(self.attributes, name)
    }
}

/// The last pair counts. An attribute that is added is the one that counts
/// for its name, and every other name keeps its value.
pub proof fn law_last_attribute_counts(
    attributes: Seq<(Seq<char>, Seq<char>)>,
    name: Seq<char>,
    value: Seq<char>,
    other: Seq<char>,
)
    ensures
        value_of(attributes.push((name, value)), name) == Some(value),
        other != name ==> value_of(attributes.push((name, value)), other) == value_of(
            attributes,
            other,
        ),
{
    assert(attributes.push((name, value)).drop_last() =~= attributes);
}

impl Message {
    /// A message under no ordering constraint and without attributes.
    /// The payload may be empty.
    pub fn new(data: Vec<u8>) -> (m: Message)
        ensures
            m@.data == data@,
            m@.ordering_key == Seq::<char>::empty(),
            m@.attributes == Seq::<(Seq<char>, Seq<char>)>::empty(),
    {
        Message { data, ordering_key: String::new(), attributes: Vec::new() }
    }

    /// A message in the lane of `ordering_key`, without attributes.
    pub fn ordered(data: Vec<u8>, ordering_key: String) -> (m: Message)
        ensures
            m@.data == data@,
            m@.ordering_key == ordering_key@,
            m@.attributes == Seq::<(Seq<char>, Seq<char>)>::empty(),
    {
        Message { data, ordering_key, attributes: Vec::new() }
    }

    /// The same message with one more attribute at the end.
    pub fn with_attribute(self, name: String, value: String) -> (m: Message)
        ensures
            m@.data == self@.data,
            m@.ordering_key == self@.ordering_key,
            m@.attributes == self@.attributes.push((name@, value@)),
    {
        let mut m = self;
        m.attributes.push((name, value));
        m
    }

    /// The value of attribute `name`, if the message has it.
    pub fn attribute(&self, name: &String) -> (value: Option<&String>)
        ensures
            match value {
                Some(v) => self@.attribute(name@) == Some(v@),
                None => self@.attribute(name@) is None,
            },
    {
        let mut k: usize = self.attributes.len();
        assert(self@.attributes.take(k as int) =~= self@.attributes);
        while k > 0
            invariant
                k <= self.attributes@.len(),
                self@.attribute(name@) == value_of(self@.attributes.take(k as int), name@),
            decreases k,
        {
            proof {
                let front = self@.attributes.take(k as int);
                assert(front.drop_last() =~= self@.attributes.take(k as int - 1));
                assert(front.last() == self@.attributes[k as int - 1]);
            }
            k -= 1;
            if self.attributes[k].0 == *name {
                return Some(&self.attributes[k].1);
            }
        }
        None
    }

    /// A second copy of the same message.
    pub fn duplicate(&self) -> (copy: Message)
        ensures
            copy@ == self@,
    {
        let mut data: Vec<u8> = Vec::new();
        let mut i: usize = 0;
        while i < self.data.len()
            invariant
                i <= self.data@.len(),
                data@ == self.data@.take(i as int),
            decreases self.data@.len() - i,
        {
            data.push(self.data[i]);
            assert(data@ =~= self.data@.take(i as int + 1));
            i += 1;
        }
        assert(data@ =~= self.data@);
        let mut attributes: Vec<(String, String)> = Vec::new();
        let mut k: usize = 0;
        while k < self.attributes.len()
            invariant
                k <= self.attributes@.len(),
                attributes@.len() == k,
                forall|i: int|
                    0 <= i < k ==> (#[trigger] attributes@[i]).0@ == self.attributes@[i].0@
                        && attributes@[i].1@ == self.attributes@[i].1@,
            decreases self.attributes@.len() - k,
        {
            let name = self.attributes[k].0.clone();
            let value = self.attributes[k].1.clone();
            attributes.push((name, value));
            k += 1;
        }
        assert(attributes_view(attributes@) =~= attributes_view(self.attributes@));
        Message { data, ordering_key: self.ordering_key.clone(), attributes }
    }

    /// Whether the message belongs to an ordering lane.
    pub fn is_ordered(&self) -> (b: bool)
        ensures
            b == self@.is_ordered(),
    {
        !self.ordering_key.as_str().is_empty()
    }
}

} // verus!
