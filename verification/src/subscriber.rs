//! A subscriber: a notification recipient identified by its endpoint URL.

use vstd::prelude::*;

verus! {

/// The mathematical value of a subscriber: its two fields as character
/// sequences.
#[verifier::ext_equal]
pub ghost struct SubView {
    pub url: Seq<char>,
    pub name: Seq<char>,
}

/// A notification recipient. The endpoint URL is the identity: within one
/// category no two subscribers share a URL. The display name is free-form
/// and substituted into each payload built for this subscriber.
#[derive(Debug)]
pub struct Subscriber {
    pub url: String,
    pub name: String,
}

impl View for Subscriber {
    type V = SubView;

    open spec fn view(&self) -> SubView {
        SubView { url: self.url@, name: self.name@ }
    }
}

impl Clone for Subscriber {
    fn clone(&self) -> (r: Self)
        ensures
            r@ == self@,
    {
        Subscriber { url: self.url.clone(), name: self.name.clone() }
    }
}

} // verus!
