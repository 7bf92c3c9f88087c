//! The subscriber registry: a store mapping a case-normalized category key
//! to the set of subscribers registered under it.
//!
//! Within one category, subscribers are deduplicated by endpoint URL: adding
//! a subscriber whose URL is already present overwrites the stored entry in
//! place (last write wins), and removal is keyed by URL alone. A category
//! that was never subscribed to behaves as an empty collection.

use vstd::prelude::*;

use crate::casing::normalize_key;
use crate::casing::upper_seq;
use crate::subscriber::SubView;
use crate::subscriber::Subscriber;

verus! {

/// The mathematical values of a sequence of subscribers.
pub open spec fn views_of(subs: Seq<Subscriber>) -> Seq<SubView> {
    subs.map_values(|s: Subscriber| s@)
}

/// Whether some member carries this endpoint URL.
pub open spec fn has_url(q: Seq<SubView>, url: Seq<char>) -> bool {
    exists|i: int| 0 <= i < q.len() && q[i].url == url
}

/// The index of the member carrying this URL; unique when `urls_distinct`
/// holds.
pub open spec fn idx_of_url(q: Seq<SubView>, url: Seq<char>) -> int {
    choose|i: int| 0 <= i < q.len() && q[i].url == url
}

/// The member carrying this URL.
pub open spec fn sub_at(q: Seq<SubView>, url: Seq<char>) -> SubView {
    q[idx_of_url(q, url)]
}

/// No two members share an endpoint URL.
pub open spec fn urls_distinct(q: Seq<SubView>) -> bool {
    forall|i: int, j: int| 0 <= i < j < q.len() ==> q[i].url != q[j].url
}

/// The effect of `add` on one category's members: if the URL is already
/// present the stored entry is overwritten in place, otherwise the new
/// member is appended.
pub open spec fn spec_insert(q: Seq<SubView>, s: SubView) -> Seq<SubView> {
    if has_url(q, s.url) {
        q.update(idx_of_url(q, s.url), s)
    } else {
        q.push(s)
    }
}

/// The effect of `remove` on one category's members: the entry carrying the
/// URL leaves, every other entry stays in order.
pub open spec fn spec_remove(q: Seq<SubView>, url: Seq<char>) -> Seq<SubView> {
    if has_url(q, url) {
        q.remove(idx_of_url(q, url))
    } else {
        q
    }
}

/// One category: its normalized key and its current members.
pub struct Category {
    pub name: Vec<char>,
    pub subs: Vec<Subscriber>,
}

/// The registry: a list of categories, each with a distinct normalized key.
pub struct SubscriberRegistry {
    pub cats: Vec<Category>,
}

/// No two categories share a key.
pub open spec fn cat_names_distinct(cats: Seq<Category>) -> bool {
    forall|i: int, j: int| 0 <= i < j < cats.len() ==> cats[i].name@ != cats[j].name@
}

/// The members stored under `key`: those of the first category whose name
/// matches, or the empty sequence if none does.
pub open spec fn subs_in(cats: Seq<Category>, key: Seq<char>) -> Seq<SubView>
    decreases cats.len(),
{
    if cats.len() == 0 {
        Seq::empty()
    } else if cats[0].name@ == key {
        views_of(cats[0].subs@)
    } else {
        subs_in(cats.drop_first(), key)
    }
}

impl SubscriberRegistry {
    /// The registry's invariant: category keys are pairwise distinct, and
    /// within each category no two members share an endpoint URL.
    pub open spec fn wf(self) -> bool {
        &&& cat_names_distinct(self.cats@)
        &&& forall|i: int|
            0 <= i < self.cats@.len() ==> urls_distinct(views_of(#[trigger] self.cats@[i].subs@))
    }

    /// The members currently registered under a (normalized) key.
    pub open spec fn subs_of(self, key: Seq<char>) -> Seq<SubView> {
        subs_in(self.cats@, key)
    }
}

/// If no category carries `key`, nothing is stored under it.
proof fn lemma_subs_in_absent(cats: Seq<Category>, key: Seq<char>)
    requires
        forall|j: int| 0 <= j < cats.len() ==> cats[j].name@ != key,
    ensures
        subs_in(cats, key) == Seq::<SubView>::empty(),
    decreases cats.len(),
{
    if cats.len() > 0 {
        lemma_subs_in_absent(cats.drop_first(), key);
    }
}

/// What is stored under `key` is exactly the member list of the first
/// category carrying `key`.
proof fn lemma_subs_in_found(cats: Seq<Category>, key: Seq<char>, i: int)
    requires
        0 <= i < cats.len(),
        cats[i].name@ == key,
        forall|j: int| 0 <= j < i ==> cats[j].name@ != key,
    ensures
        subs_in(cats, key) == views_of(cats[i].subs@),
    decreases i,
{
    if i > 0 {
        lemma_subs_in_found(cats.drop_first(), key, i - 1);
    }
}

/// Replacing one category by another with the same key leaves every other
/// key's members unchanged.
proof fn lemma_subs_in_update_other(cats: Seq<Category>, i: int, c: Category, k: Seq<char>)
    requires
        0 <= i < cats.len(),
        c.name@ == cats[i].name@,
        k != c.name@,
    ensures
        subs_in(cats.update(i, c), k) == subs_in(cats, k),
    decreases cats.len(),
{
    if i == 0 {
        assert(cats.update(0, c).drop_first() =~= cats.drop_first());
    } else {
        assert(cats.update(i, c).drop_first() =~= cats.drop_first().update(i - 1, c));
        lemma_subs_in_update_other(cats.drop_first(), i - 1, c, k);
    }
}

/// Appending a category leaves every other key's members unchanged.
proof fn lemma_subs_in_push_other(cats: Seq<Category>, c: Category, k: Seq<char>)
    requires
        k != c.name@,
    ensures
        subs_in(cats.push(c), k) == subs_in(cats, k),
    decreases cats.len(),
{
    if cats.len() == 0 {
        assert(cats.push(c)[0] == c);
        assert(cats.push(c).drop_first() =~= Seq::<Category>::empty());
        assert(subs_in(cats.push(c), k) == subs_in(Seq::<Category>::empty(), k));
    } else {
        assert(cats.push(c)[0] == cats[0]);
        assert(cats.push(c).drop_first() =~= cats.drop_first().push(c));
        lemma_subs_in_push_other(cats.drop_first(), c, k);
        if cats[0].name@ == k {
            assert(subs_in(cats.push(c), k) == views_of(cats[0].subs@));
        } else {
            assert(subs_in(cats.push(c), k) == subs_in(cats.drop_first().push(c), k));
        }
    }
}

/// Appending a category with a fresh key stores exactly its members under
/// that key.
proof fn lemma_subs_in_push_self(cats: Seq<Category>, c: Category)
    requires
        forall|j: int| 0 <= j < cats.len() ==> cats[j].name@ != c.name@,
    ensures
        subs_in(cats.push(c), c.name@) == views_of(c.subs@),
    decreases cats.len(),
{
    if cats.len() == 0 {
        assert(cats.push(c)[0] == c);
    } else {
        assert(cats.push(c)[0] == cats[0]);
        assert(cats.push(c).drop_first() =~= cats.drop_first().push(c));
        lemma_subs_in_push_self(cats.drop_first(), c);
    }
}

/// Compares two normalized keys character by character.
#[verifier::loop_isolation(false)]
fn keys_equal(a: &Vec<char>, b: &Vec<char>) -> (r: bool)
    ensures
        r == (a@ == b@),
{
    if a.len() != b.len() {
        return false;
    }
    let mut i: usize = 0;
    while i < a.len()
        invariant
            i <= a@.len(),
            a@.len() == b@.len(),
            forall|j: int| 0 <= j < i ==> a@[j] == b@[j],
        decreases a@.len() - i,
    {
        if a[i] != b[i] {
            return false;
        }
        i += 1;
    }
    proof {
        assert(a@ =~= b@);
    }
    true
}

/// Finds the first category carrying `key`, if any.
#[verifier::loop_isolation(false)]
fn find_cat(cats: &Vec<Category>, key: &Vec<char>) -> (r: Option<usize>)
    ensures
        (match r {
            Some(i) => 0 <= i < cats@.len() && cats@[i as int].name@ == key@ && forall|j: int|
                0 <= j < i ==> cats@[j].name@ != key@,
            None => forall|j: int| 0 <= j < cats@.len() ==> cats@[j].name@ != key@,
        }),
{
    let mut i: usize = 0;
    while i < cats.len()
        invariant
            i <= cats@.len(),
            forall|j: int| 0 <= j < i ==> cats@[j].name@ != key@,
        decreases cats@.len() - i,
    {
        if keys_equal(&cats[i].name, key) {
            return Some(i);
        }
        i += 1;
    }
    None
}

/// Inserts a member into one category's list: overwrites in place if the URL
/// is present, appends otherwise.
#[verifier::loop_isolation(false)]
fn insert_sub(subs: &mut Vec<Subscriber>, s: Subscriber)
    requires
        urls_distinct(views_of(old(subs)@)),
    ensures
        views_of(final(subs)@) == spec_insert(views_of(old(subs)@), s@),
        urls_distinct(views_of(final(subs)@)),
{
    let ghost s0 = subs@;
    let ghost q0 = views_of(s0);
    let mut i: usize = 0;
    while i < subs.len()
        invariant
            subs@ == s0,
            i <= s0.len(),
            forall|j: int| 0 <= j < i ==> q0[j].url != s@.url,
        decreases s0.len() - i,
    {
        let hit = subs[i].url == s.url;
        if hit {
            proof {
                assert(q0[i as int].url == s@.url);
                assert(has_url(q0, s@.url));
                let idx = idx_of_url(q0, s@.url);
                if idx != i as int {
                    assert(q0[idx].url == q0[i as int].url);
                    assert(false);
                }
            }
            subs[i] = s;
            proof {
                assert(views_of(subs@) =~= q0.update(i as int, s@));
                assert(views_of(subs@) == spec_insert(q0, s@));
                assert forall|a: int, b: int|
                    0 <= a < b < views_of(subs@).len() implies views_of(subs@)[a].url != views_of(
                    subs@,
                )[b].url by {
                    assert(q0[a].url != q0[b].url);
                }
            }
            return ;
        }
        i += 1;
    }
    proof {
        assert(!has_url(q0, s@.url));
    }
    subs.push(s);
    proof {
        assert(views_of(subs@) =~= q0.push(s@));
        assert forall|a: int, b: int|
            0 <= a < b < views_of(subs@).len() implies views_of(subs@)[a].url != views_of(
            subs@,
        )[b].url by {
            if b < q0.len() {
                assert(q0[a].url != q0[b].url);
            } else {
                assert(views_of(subs@)[b] == s@);
                assert(views_of(subs@)[a] == q0[a]);
            }
        }
    }
}

/// Removes the member carrying `url` from one category's list, if present,
/// and returns it.
#[verifier::loop_isolation(false)]
fn remove_sub(subs: &mut Vec<Subscriber>, url: &String) -> (r: Option<Subscriber>)
    requires
        urls_distinct(views_of(old(subs)@)),
    ensures
        views_of(final(subs)@) == spec_remove(views_of(old(subs)@), url@),
        urls_distinct(views_of(final(subs)@)),
        r is Some <==> has_url(views_of(old(subs)@), url@),
        r is Some ==> (r->0)@ == sub_at(views_of(old(subs)@), url@),
{
    let ghost s0 = subs@;
    let ghost q0 = views_of(s0);
    let mut i: usize = 0;
    while i < subs.len()
        invariant
            subs@ == s0,
            i <= s0.len(),
            forall|j: int| 0 <= j < i ==> q0[j].url != url@,
        decreases s0.len() - i,
    {
        let hit = subs[i].url == *url;
        if hit {
            proof {
                assert(q0[i as int].url == url@);
                assert(has_url(q0, url@));
                let idx = idx_of_url(q0, url@);
                if idx != i as int {
                    assert(q0[idx].url == q0[i as int].url);
                    assert(false);
                }
            }
            let removed = subs.remove(i);
            proof {
                assert(views_of(subs@) =~= q0.remove(i as int));
                assert(views_of(subs@) == spec_remove(q0, url@));
                assert forall|a: int, b: int|
                    0 <= a < b < views_of(subs@).len() implies views_of(subs@)[a].url != views_of(
                    subs@,
                )[b].url by {
                    let qr = q0.remove(i as int);
                    let a0 = if a < i as int { a } else { a + 1 };
                    let b0 = if b < i as int { b } else { b + 1 };
                    assert(qr[a] == q0[a0]);
                    assert(qr[b] == q0[b0]);
                    assert(q0[a0].url != q0[b0].url);
                }
            }
            return Some(removed);
        }
        i += 1;
    }
    proof {
        assert(!has_url(q0, url@));
    }
    None
}

/// Copies one category's member list, so that the caller's snapshot does not
/// alias live registry state.
#[verifier::loop_isolation(false)]
fn clone_subs(subs: &Vec<Subscriber>) -> (r: Vec<Subscriber>)
    ensures
        views_of(r@) == views_of(subs@),
{
    let mut r: Vec<Subscriber> = Vec::new();
    let mut i: usize = 0;
    while i < subs.len()
        invariant
            i <= subs@.len(),
            r@.len() == i,
            forall|j: int| 0 <= j < i ==> r@[j]@ == subs@[j]@,
        decreases subs@.len() - i,
    {
        let s = subs[i].clone();
        r.push(s);
        i += 1;
    }
    proof {
        assert(views_of(r@) =~= views_of(subs@));
    }
    r
}

impl SubscriberRegistry {
    /// A fresh registry: no category holds any member.
    pub fn new() -> (r: Self)
        ensures
            r.wf(),
            forall|k: Seq<char>| r.subs_of(k) == Seq::<SubView>::empty(),
    {
        let r = SubscriberRegistry { cats: Vec::new() };
        proof {
            assert forall|k: Seq<char>| r.subs_of(k) == Seq::<SubView>::empty() by {
                assert(r.cats@.len() == 0);
            }
        }
        r
    }

    /// Registers a subscriber under the normalized form of `category`,
    /// overwriting any stored entry with the same endpoint URL, and returns
    /// the stored subscriber. Always succeeds.
    pub fn add(&mut self, category: &str, subscriber: Subscriber) -> (r: Subscriber)
        requires
            old(self).wf(),
        ensures
            final(self).wf(),
            final(self).subs_of(upper_seq(category@)) == spec_insert(
                old(self).subs_of(upper_seq(category@)),
                subscriber@,
            ),
            forall|k: Seq<char>|
                k != upper_seq(category@) ==> final(self).subs_of(k) == old(self).subs_of(k),
            r@ == subscriber@,
    {
        let key = normalize_key(category);
        let ghost keyv = key@;
        let r = subscriber.clone();
        let found = find_cat(&self.cats, &key);
        let ghost cats0 = self.cats@;
        match found {
            Some(i) => {
                proof {
                    lemma_subs_in_found(cats0, keyv, i as int);
                }
                let mut cat = self.cats.remove(i);
                insert_sub(&mut cat.subs, subscriber);
                let ghost gcat = cat;
                self.cats.insert(i, cat);
                proof {
                    assert(self.cats@ =~= cats0.update(i as int, gcat));
                    lemma_subs_in_found(self.cats@, keyv, i as int);
                    assert forall|k: Seq<char>| k != keyv implies self.subs_of(k) == subs_in(
                        cats0,
                        k,
                    ) by {
                        lemma_subs_in_update_other(cats0, i as int, gcat, k);
                    }
                }
            },
            None => {
                proof {
                    lemma_subs_in_absent(cats0, keyv);
                }
                let ghost sv = subscriber@;
                let mut subs: Vec<Subscriber> = Vec::new();
                subs.push(subscriber);
                let cat = Category { name: key, subs };
                let ghost gcat = cat;
                self.cats.push(cat);
                proof {
                    assert(self.cats@ == cats0.push(gcat));
                    lemma_subs_in_push_self(cats0, gcat);
                    assert(views_of(gcat.subs@) =~= subs_in(cats0, keyv).push(sv));
                    assert(self.subs_of(keyv) == spec_insert(subs_in(cats0, keyv), sv));
                    assert forall|k: Seq<char>| k != keyv implies self.subs_of(k) == subs_in(
                        cats0,
                        k,
                    ) by {
                        lemma_subs_in_push_other(cats0, gcat, k);
                    }
                }
            },
        }
        r
    }

    /// Removes the subscriber carrying `url` from the normalized form of
    /// `category`, returning it, or returns nothing when no such category or
    /// no such URL exists.
    pub fn remove(&mut self, category: &str, url: &str) -> (r: Option<Subscriber>)
        requires
            old(self).wf(),
        ensures
            final(self).wf(),
            final(self).subs_of(upper_seq(category@)) == spec_remove(
                old(self).subs_of(upper_seq(category@)),
                url@,
            ),
            r is Some <==> has_url(old(self).subs_of(upper_seq(category@)), url@),
            r is Some ==> (r->0)@ == sub_at(old(self).subs_of(upper_seq(category@)), url@),
            forall|k: Seq<char>|
                k != upper_seq(category@) ==> final(self).subs_of(k) == old(self).subs_of(k),
    {
        let key = normalize_key(category);
        let ghost keyv = key@;
        let found = find_cat(&self.cats, &key);
        let ghost cats0 = self.cats@;
        match found {
            Some(i) => {
                proof {
                    lemma_subs_in_found(cats0, keyv, i as int);
                }
                let mut cat = self.cats.remove(i);
                let url_owned = url.to_owned();
                let removed = remove_sub(&mut cat.subs, &url_owned);
                let ghost gcat = cat;
                self.cats.insert(i, cat);
                proof {
                    assert(self.cats@ =~= cats0.update(i as int, gcat));
                    lemma_subs_in_found(self.cats@, keyv, i as int);
                    assert forall|k: Seq<char>| k != keyv implies self.subs_of(k) == subs_in(
                        cats0,
                        k,
                    ) by {
                        lemma_subs_in_update_other(cats0, i as int, gcat, k);
                    }
                }
                removed
            },
            None => {
                proof {
                    lemma_subs_in_absent(cats0, keyv);
                }
                None
            },
        }
    }

    /// Returns a point-in-time copy of the subscribers under the normalized
    /// form of `category`, in insertion order; an absent category yields an
    /// empty sequence. The copy does not alias live registry state, so later
    /// mutation cannot reach it.
    pub fn list_all(&self, category: &str) -> (r: Vec<Subscriber>)
        requires
            self.wf(),
        ensures
            views_of(r@) == self.subs_of(upper_seq(category@)),
    {
        let key = normalize_key(category);
        let found = find_cat(&self.cats, &key);
        match found {
            Some(i) => {
                proof {
                    lemma_subs_in_found(self.cats@, key@, i as int);
                }
                clone_subs(&self.cats[i].subs)
            },
            None => {
                proof {
                    lemma_subs_in_absent(self.cats@, key@);
                }
                Vec::new()
            },
        }
    }
}

/// Inserting preserves URL uniqueness, and the inserted member is exactly
/// what is then stored under its URL.
pub proof fn lemma_insert_distinct(q: Seq<SubView>, s: SubView)
    requires
        urls_distinct(q),
    ensures
        urls_distinct(spec_insert(q, s)),
        has_url(spec_insert(q, s), s.url),
        sub_at(spec_insert(q, s), s.url) == s,
{
    let q1 = spec_insert(q, s);
    if has_url(q, s.url) {
        let i = idx_of_url(q, s.url);
        assert(0 <= i < q.len() && q[i].url == s.url);
        assert(q1 == q.update(i, s));
        assert forall|a: int, b: int| 0 <= a < b < q1.len() implies q1[a].url != q1[b].url by {
            assert(q[a].url != q[b].url);
        }
        assert(q1[i] == s);
        let j = idx_of_url(q1, s.url);
        if j != i {
            assert(q1[j].url == s.url);
            assert(q1[j].url != q1[i].url);
            assert(false);
        }
    } else {
        assert(q1 == q.push(s));
        assert(q1[q.len() as int] == s);
        assert forall|a: int, b: int| 0 <= a < b < q1.len() implies q1[a].url != q1[b].url by {
            if b < q.len() {
                assert(q[a].url != q[b].url);
            } else {
                assert(q1[b] == s);
                assert(q1[a] == q[a]);
            }
        }
        let j = idx_of_url(q1, s.url);
        if j != q.len() as int {
            assert(q1[j].url == s.url);
            assert(q1[j].url != q1[q.len() as int].url);
            assert(false);
        }
    }
}

/// Idempotent overwrite: adding twice under the same endpoint URL, with
/// possibly different names, leaves the member list exactly as if only the
/// second add had happened, with one entry under that URL carrying the
/// second member's fields.
pub proof fn lemma_overwrite_last_wins(q: Seq<SubView>, s1: SubView, s2: SubView)
    requires
        urls_distinct(q),
        s1.url == s2.url,
    ensures
        spec_insert(spec_insert(q, s1), s2) == spec_insert(q, s2),
        urls_distinct(spec_insert(q, s2)),
        has_url(spec_insert(q, s2), s2.url),
        sub_at(spec_insert(q, s2), s2.url) == s2,
{
    lemma_insert_distinct(q, s1);
    lemma_insert_distinct(q, s2);
    let q1 = spec_insert(q, s1);
    if has_url(q, s1.url) {
        let i = idx_of_url(q, s1.url);
        assert(0 <= i < q.len() && q[i].url == s1.url);
        assert(q1 == q.update(i, s1));
        assert(q1[i] == s1);
        let j = idx_of_url(q1, s2.url);
        if j != i {
            assert(q1[j].url == s2.url);
            assert(q1[j].url != q1[i].url);
            assert(false);
        }
        assert(spec_insert(q1, s2) == q1.update(i, s2));
        let i2 = idx_of_url(q, s2.url);
        if i2 != i {
            assert(q[i2].url == s2.url);
            assert(q[i2].url != q[i].url);
            assert(false);
        }
        assert(q1.update(i, s2) =~= q.update(i, s2));
    } else {
        assert(q1 == q.push(s1));
        assert(q1[q.len() as int] == s1);
        let j = idx_of_url(q1, s2.url);
        if j != q.len() as int {
            assert(q1[j].url == s2.url);
            assert(q1[j].url != q1[q.len() as int].url);
            assert(false);
        }
        assert(spec_insert(q1, s2) == q1.update(q.len() as int, s2));
        assert(q1.update(q.len() as int, s2) =~= q.push(s2));
    }
}

/// Removal correctness: after adding a subscriber, removing by its endpoint
/// URL yields exactly that subscriber, and the remaining list no longer
/// carries the URL.
pub proof fn lemma_remove_after_insert(q: Seq<SubView>, s: SubView)
    requires
        urls_distinct(q),
    ensures
        has_url(spec_insert(q, s), s.url),
        sub_at(spec_insert(q, s), s.url) == s,
        !has_url(spec_remove(spec_insert(q, s), s.url), s.url),
{
    lemma_insert_distinct(q, s);
    let q1 = spec_insert(q, s);
    let i = idx_of_url(q1, s.url);
    assert(0 <= i < q1.len() && q1[i].url == s.url);
    let qr = q1.remove(i);
    assert(spec_remove(q1, s.url) == qr);
    assert forall|a: int| 0 <= a < qr.len() implies qr[a].url != s.url by {
        let a0 = if a < i {
            a
        } else {
            a + 1
        };
        assert(qr[a] == q1[a0]);
        if a0 < i {
            assert(q1[a0].url != q1[i].url);
        } else {
            assert(q1[i].url != q1[a0].url);
        }
    }
}

} // verus!

