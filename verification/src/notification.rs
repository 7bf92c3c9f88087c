//! The notification service: registration, removal, and payload fan-out.
//!
//! `subscribe` and `unsubscribe` mutate the registry; `notify` takes a
//! point-in-time snapshot of one category and builds one payload per
//! subscriber in it, each carrying that subscriber's display name. Delivery
//! itself is the caller's capability: the service hands back the finished
//! payloads so that each can be sent independently, and a slow or failing
//! delivery to one subscriber can never affect the payloads built for the
//! others.

use vstd::prelude::*;

use crate::casing::eq_ignore_ascii_case;
use crate::casing::lemma_eq_ignore_case_same_key;
use crate::casing::upper_seq;
use crate::registry::SubscriberRegistry;
use crate::registry::has_url;
use crate::registry::idx_of_url;
use crate::registry::spec_insert;
use crate::registry::spec_remove;
use crate::registry::sub_at;
use crate::registry::views_of;
use crate::subscriber::SubView;
use crate::subscriber::Subscriber;

verus! {

/// The product a status change is reported on: its display title and its
/// resource locator.
pub struct Product {
    pub title: String,
    pub url: String,
}

/// The mathematical value of one notification payload.
#[verifier::ext_equal]
pub ghost struct NotifView {
    pub product_title: Seq<char>,
    pub product_type: Seq<char>,
    pub product_url: Seq<char>,
    pub subscriber_name: Seq<char>,
    pub status: Seq<char>,
}

/// One per-subscriber notification payload: the shared event fields plus the
/// recipient's display name. Built fresh for each subscriber, so no payload
/// is shared or mutated across deliveries.
pub struct Notification {
    pub product_title: String,
    pub product_type: String,
    pub product_url: String,
    pub subscriber_name: String,
    pub status: String,
}

impl View for Notification {
    type V = NotifView;

    open spec fn view(&self) -> NotifView {
        NotifView {
            product_title: self.product_title@,
            product_type: self.product_type@,
            product_url: self.product_url@,
            subscriber_name: self.subscriber_name@,
            status: self.status@,
        }
    }
}

/// The one failure the service itself raises: an unsubscribe for an endpoint
/// URL that the named category does not hold.
#[derive(Debug, Clone, Copy, PartialEq, Eq, Structural)]
pub enum ServiceError {
    SubscriberNotFound,
}

impl ServiceError {
    /// The human-readable description of this failure.
    pub fn message(&self) -> (r: String)
        ensures
            r@ == "Subscriber not found"@,
    {
        "Subscriber not found".to_owned()
    }
}

/// The service: an owned registry instance plus the operations the caller
/// invokes on it.
pub struct NotificationService {
    pub registry: SubscriberRegistry,
}

impl NotificationService {
    /// The service's invariant: its registry is well-formed.
    pub open spec fn wf(self) -> bool {
        self.registry.wf()
    }

    /// The subscribers currently registered under a normalized key.
    pub open spec fn subs_of(self, key: Seq<char>) -> Seq<SubView> {
        self.registry.subs_of(key)
    }

    /// A fresh service over an empty registry.
    pub fn new() -> (r: Self)
        ensures
            r.wf(),
            forall|k: Seq<char>| r.subs_of(k) == Seq::<SubView>::empty(),
    {
        NotificationService { registry: SubscriberRegistry::new() }
    }

    /// Registers a subscriber under the normalized form of `product_type`
    /// and returns the stored subscriber. Always succeeds; a subscriber
    /// already stored under the same endpoint URL is overwritten in place.
    pub fn subscribe(&mut self, product_type: &str, subscriber: Subscriber) -> (r: Result<
        Subscriber,
        ServiceError,
    >)
        requires
            old(self).wf(),
        ensures
            final(self).wf(),
            r is Ok,
            r is Ok ==> (r->Ok_0)@ == subscriber@,
            final(self).subs_of(upper_seq(product_type@)) == spec_insert(
                old(self).subs_of(upper_seq(product_type@)),
                subscriber@,
            ),
            forall|k: Seq<char>|
                k != upper_seq(product_type@) ==> final(self).subs_of(k) == old(self).subs_of(k),
    {
        let stored = self.registry.add(product_type, subscriber);
        Ok(stored)
    }

    /// Removes the subscriber carrying `url` from the normalized form of
    /// `product_type` and returns it. Fails with `SubscriberNotFound`
    /// exactly when no such category or no such URL exists, and then leaves
    /// every category unchanged.
    pub fn unsubscribe(&mut self, product_type: &str, url: &str) -> (r: Result<
        Subscriber,
        ServiceError,
    >)
        requires
            old(self).wf(),
        ensures
            final(self).wf(),
            final(self).subs_of(upper_seq(product_type@)) == spec_remove(
                old(self).subs_of(upper_seq(product_type@)),
                url@,
            ),
            r is Ok <==> has_url(old(self).subs_of(upper_seq(product_type@)), url@),
            r is Ok ==> (r->Ok_0)@ == sub_at(old(self).subs_of(upper_seq(product_type@)), url@),
            r is Err ==> r->Err_0 == ServiceError::SubscriberNotFound,
            forall|k: Seq<char>|
                k != upper_seq(product_type@) ==> final(self).subs_of(k) == old(self).subs_of(k),
    {
        match self.registry.remove(product_type, url) {
            Some(removed) => Ok(removed),
            None => Err(ServiceError::SubscriberNotFound),
        }
    }

    /// Builds the deliveries for a status change on `product`: one
    /// (recipient, payload) pair per subscriber in a point-in-time snapshot
    /// of the normalized category, each payload carrying the shared event
    /// fields and that recipient's display name. The pairs are handed back
    /// for transport; the service neither waits on nor observes any delivery
    /// outcome, and the snapshot the pairs were built from is unaffected by
    /// later registry mutation.
    #[verifier::loop_isolation(false)]
    pub fn notify(&self, product_type: &str, status: &str, product: Product) -> (deliveries: Vec<
        (Subscriber, Notification),
    >)
        requires
            self.wf(),
        ensures
            deliveries@.len() == self.subs_of(upper_seq(product_type@)).len(),
            forall|i: int|
                0 <= i < deliveries@.len() ==> (deliveries@[i].0)@ == self.subs_of(
                    upper_seq(product_type@),
                )[i] && (deliveries@[i].1)@ == (NotifView {
                    product_title: product.title@,
                    product_type: product_type@,
                    product_url: product.url@,
                    subscriber_name: self.subs_of(upper_seq(product_type@))[i].name,
                    status: status@,
                }),
    {
        let subscribers = self.registry.list_all(product_type);
        let mut deliveries: Vec<(Subscriber, Notification)> = Vec::new();
        let mut i: usize = 0;
        while i < subscribers.len()
            invariant
                i <= subscribers@.len(),
                deliveries@.len() == i,
                forall|j: int|
                    0 <= j < i ==> (deliveries@[j].0)@ == views_of(subscribers@)[j] && (
                    deliveries@[j].1)@ == (NotifView {
                        product_title: product.title@,
                        product_type: product_type@,
                        product_url: product.url@,
                        subscriber_name: views_of(subscribers@)[j].name,
                        status: status@,
                    }),
            decreases subscribers@.len() - i,
        {
            let recipient = subscribers[i].clone();
            let payload = Notification {
                product_title: product.title.clone(),
                product_type: product_type.to_owned(),
                product_url: product.url.clone(),
                subscriber_name: recipient.name.clone(),
                status: status.to_owned(),
            };
            deliveries.push((recipient, payload));
            i += 1;
        }
        deliveries
    }
}

/// Case-insensitive category: a subscriber registered under one spelling of
/// a category is listed under every spelling that differs from it at most
/// in ASCII case.
pub proof fn lemma_case_insensitive_visibility(
    pre: NotificationService,
    post: NotificationService,
    c1: Seq<char>,
    c2: Seq<char>,
    s: SubView,
)
    requires
        eq_ignore_ascii_case(c1, c2),
        post.subs_of(upper_seq(c1)) == spec_insert(pre.subs_of(upper_seq(c1)), s),
    ensures
        post.subs_of(upper_seq(c2)).contains(s),
{
    lemma_eq_ignore_case_same_key(c1, c2);
    let q = pre.subs_of(upper_seq(c1));
    if has_url(q, s.url) {
        let idx = idx_of_url(q, s.url);
        assert(0 <= idx < q.len() && q[idx].url == s.url);
        assert(post.subs_of(upper_seq(c2))[idx] == s);
    } else {
        assert(post.subs_of(upper_seq(c2))[q.len() as int] == s);
    }
}

/// Isolation across categories: registering a subscriber under one category
/// leaves what every other category lists unchanged.
pub proof fn lemma_category_isolation(
    pre: NotificationService,
    post: NotificationService,
    a: Seq<char>,
    b: Seq<char>,
    s: SubView,
)
    requires
        upper_seq(a) != upper_seq(b),
        post.subs_of(upper_seq(a)) == spec_insert(pre.subs_of(upper_seq(a)), s),
        forall|k: Seq<char>| k != upper_seq(a) ==> post.subs_of(k) == pre.subs_of(k),
    ensures
        post.subs_of(upper_seq(b)) == pre.subs_of(upper_seq(b)),
{
}

} // verus!
