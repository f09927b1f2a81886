use vstd::prelude::*;
use vstd::string::*;

verus! {

/// A topic that websocket connections can subscribe to, identified by its name.
#[derive(Hash)]
pub struct Subscription(String);

impl View for Subscription {
    type V = Seq<char>;

    open spec fn view(&self) -> Seq<char> {
        self.spec_name()
    }
}

impl Subscription {
    pub closed spec fn spec_name(&self) -> Seq<char> {
        self.0@
    }

    pub fn new(subscription: &str) -> (result: Subscription)
        ensures
            result@ == subscription@,
    {
        Subscription(subscription.to_owned())
    }

    /// The subscription's name.
    pub fn as_str(&self) -> (name: &str)
        ensures
            name@ == self@,
    {
        self.0.as_str()
    }

    /// Whether two subscriptions have the same name.
    pub fn same_as(&self, other: &Subscription) -> (same: bool)
        ensures
            same == (self@ == other@),
    {
        self.0 == other.0
    }

    /// The text that `Display` shows: the name itself.
    pub fn to_string(&self) -> (text: String)
        ensures
            text@ == self@,
    {
        self.0.clone()
    }

    /// The text that `Debug` shows: `Subscription(<name>)`.
    pub fn debug_text(&self) -> (text: String)
        ensures
            text@ == "Subscription("@ + self@ + ")"@,
    {
        let text = String::from_str("Subscription(");
        let text = text.concat(self.0.as_str());
        text.concat(")")
    }
}

impl Clone for Subscription {
    fn clone(&self) -> (copy: Self)
        ensures
            copy == *self,
    {
        Subscription(self.0.clone())
    }
}

impl PartialEq for Subscription {
    fn eq(&self, other: &Self) -> (same: bool) {
        self.0 == other.0
    }
}

impl Eq for Subscription {
}

impl vstd::std_specs::cmp::PartialEqSpecImpl for Subscription {
    open spec fn obeys_eq_spec() -> bool {
        true
    }

    open spec fn eq_spec(&self, other: &Subscription) -> bool {
        self@ == other@
    }
}

impl From<String> for Subscription {
    fn from(subscription: String) -> (result: Self)
        ensures
            result@ == subscription@,
    {
        Subscription(subscription)
    }
}

impl vstd::std_specs::convert::FromSpecImpl<String> for Subscription {
    open spec fn obeys_from_spec() -> bool {
        true
    }

    closed spec fn from_spec(subscription: String) -> Subscription {
        Subscription(subscription)
    }
}

impl<'a> From<&'a str> for Subscription {
    fn from(subscription: &'a str) -> (result: Self)
        ensures
            result@ == subscription@,
    {
        Subscription::new(subscription)
    }
}

impl<'a> vstd::std_specs::convert::FromSpecImpl<&'a str> for Subscription {
    /// A `String` is built afresh from the slice, so no single spec value is
    /// promised here; `from` itself states that the name is the slice's text.
    open spec fn obeys_from_spec() -> bool {
        false
    }

    open spec fn from_spec(subscription: &'a str) -> Subscription {
        arbitrary()
    }
}

} // verus!
