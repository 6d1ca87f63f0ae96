use vstd::prelude::*;

verus! {

/// A message from the window shell: its name and its text.
#[derive(Clone, Debug, PartialEq, Eq)]
pub struct Event {
    event: String,
    payload: String,
}

impl Event {
    /// An event with a name and a text.
    pub fn new(event: String, payload: String) -> (r: Event)
        ensures
            r.id_spec() == event@,
            r.payload_spec() == payload@,
    {
        Event { event, payload }
    }

    pub closed spec fn id_spec(&self) -> Seq<char> {
        self.event@
    }

    pub closed spec fn payload_spec(&self) -> Seq<char> {
        self.payload@
    }

    /// The name of the event.
    pub fn id(&self) -> (r: &str)
        ensures
            r@ == self.id_spec(),
    {
        self.event.as_str()
    }

    /// The text that came with the event.
    pub fn payload(&self) -> (r: &str)
        ensures
            r@ == self.payload_spec(),
    {
        self.payload.as_str()
    }
}

} // verus!
