//! The synchronizations in progress, so that a user can cancel them.

use crate::text::same_text;
use std::collections::HashMap;
use vstd::prelude::*;

verus! {

broadcast use vstd::std_specs::hash::group_hash_axioms;

/// The synchronizations of one user, in the order in which they began: the
/// address of each and what cancels it.
pub type Entries<T> = Seq<(Seq<char>, T)>;

/// What a list of synchronizations holds.
pub open spec fn entries_view<T>(v: Seq<(String, T)>) -> Entries<T> {
    v.map_values(|e: (String, T)| (e.0@, e.1))
}

/// The synchronizations of a user.
pub open spec fn entries_of<T>(m: Map<i64, Entries<T>>, user: i64) -> Entries<T> {
    if m.contains_key(user) {
        m[user]
    } else {
        Seq::empty()
    }
}

/// Users are listed only while they have a synchronization in progress.
pub open spec fn none_idle<T>(m: Map<i64, Entries<T>>) -> bool {
    forall|user: i64| #[trigger] m.contains_key(user) ==> m[user].len() > 0
}

/// Everything in progress after a synchronization began.
pub open spec fn registered<T>(
    m: Map<i64, Entries<T>>,
    user: i64,
    url: Seq<char>,
    handle: T,
) -> Map<i64, Entries<T>> {
    m.insert(user, entries_of(m, user).push((url, handle)))
}

/// The synchronizations whose address is not the given one.
pub open spec fn without_url<T>(entries: Entries<T>, url: Seq<char>) -> Entries<T> {
    entries.filter(|e: (Seq<char>, T)| e.0 != url)
}

/// Everything in progress after a user's synchronizations of an address ended.
pub open spec fn unregistered<T>(m: Map<i64, Entries<T>>, user: i64, url: Seq<char>) -> Map<
    i64,
    Entries<T>,
> {
    let kept = without_url(entries_of(m, user), url);
    if kept.len() == 0 {
        m.remove(user)
    } else {
        m.insert(user, kept)
    }
}

/// What cancels the given synchronizations, in order.
pub open spec fn handles_of<T>(entries: Entries<T>) -> Seq<T> {
    entries.map_values(|e: (Seq<char>, T)| e.1)
}

/// The synchronizations in progress, each with what cancels it.
pub struct ActiveSyncs<T> {
    syncs: HashMap<i64, Vec<(String, T)>>,
}

impl<T> View for ActiveSyncs<T> {
    type V = Map<i64, Entries<T>>;

    closed spec fn view(&self) -> Map<i64, Entries<T>> {
        Map::new(
            |user: i64| self.syncs@.contains_key(user),
            |user: i64| entries_view(self.syncs@[user]@),
        )
    }
}

fn keep_others<T>(entries: Vec<(String, T)>, url: &str) -> (r: Vec<(String, T)>)
    ensures
        entries_view(r@) == without_url(entries_view(entries@), url@),
{
    let mut r: Vec<(String, T)> = Vec::new();
    let ghost all = entries@;
    let ghost seen = entries_view(all);
    proof {
        reveal(Seq::filter);
    }
    assert(seen.take(0) =~= Seq::<(Seq<char>, T)>::empty());
    assert(entries_view(r@) =~= without_url(seen.take(0), url@));
    for entry in it: entries.into_iter()
        invariant
            it.seq() == all,
            seen == entries_view(all),
            entries_view(r@) == without_url(seen.take(it.index() as int), url@),
    {
        let ghost k = it.index() as int;
        let ghost before = entries_view(r@);
        proof {
            reveal(Seq::filter);
        }
        assert(seen.take(k + 1).drop_last() =~= seen.take(k));
        assert(seen.take(k + 1).last() == (entry.0@, entry.1));
        if !same_text(entry.0.as_str(), url) {
            r.push(entry);
            assert(entries_view(r@) =~= before.push((entry.0@, entry.1)));
        }
    }
    assert(seen.take(all.len() as int) =~= seen);
    r
}

fn take_handles<T>(entries: Vec<(String, T)>) -> (r: Vec<T>)
    ensures
        r@ == handles_of(entries_view(entries@)),
{
    let mut r: Vec<T> = Vec::new();
    let ghost all = entries@;
    for entry in it: entries.into_iter()
        invariant
            it.seq() == all,
            r@ == handles_of(entries_view(all)).take(it.index() as int),
    {
        let ghost k = it.index() as int;
        assert(handles_of(entries_view(all))[k] == entry.1);
        r.push(entry.1);
        assert(r@ =~= handles_of(entries_view(all)).take(k + 1));
    }
    assert(r@ =~= handles_of(entries_view(all)));
    r
}

impl<T> ActiveSyncs<T> {
    /// Users are listed only while they have a synchronization in progress.
    pub open spec fn wf(self) -> bool {
        none_idle(self@)
    }

    /// Nothing in progress.
    pub fn new() -> (r: Self)
        ensures
            r.wf(),
            r@ == Map::<i64, Entries<T>>::empty(),
    {
        let r = ActiveSyncs { syncs: HashMap::new() };
        assert(r@ =~= Map::<i64, Entries<T>>::empty());
        r
    }

    /// Takes note that a user's synchronization of an address began.
    pub fn register_sync(&mut self, user_id: i64, url: &str, handle: T)
        requires
            old(self).wf(),
        ensures
            final(self).wf(),
            final(self)@ == registered(old(self)@, user_id, url@, handle),
    {
        let mut entries: Vec<(String, T)> = match self.syncs.remove(&user_id) {
            Some(entries) => entries,
            None => Vec::new(),
        };
        let ghost before = entries_view(entries@);
        assert(before =~= entries_of(old(self)@, user_id));
        entries.push((url.to_string(), handle));
        assert(entries_view(entries@) =~= before.push((url@, handle)));
        self.syncs.insert(user_id, entries);
        assert(self@ =~= registered(old(self)@, user_id, url@, handle));
    }

    /// Takes note that a user's synchronizations of an address ended.
    pub fn unregister_sync(&mut self, user_id: i64, url: &str)
        requires
            old(self).wf(),
        ensures
            final(self).wf(),
            final(self)@ == unregistered(old(self)@, user_id, url@),
    {
        if let Some(entries) = self.syncs.remove(&user_id) {
            assert(entries_view(entries@) =~= entries_of(old(self)@, user_id));
            let kept = keep_others(entries, url);
            if kept.len() > 0 {
                self.syncs.insert(user_id, kept);
            }
        } else {
            proof {
                reveal(Seq::filter);
            }
            assert(entries_of(old(self)@, user_id) =~= Seq::<(Seq<char>, T)>::empty());
            assert(without_url(entries_of(old(self)@, user_id), url@).len() == 0);
        }
        assert(self@ =~= unregistered(old(self)@, user_id, url@));
    }

    /// Forgets a user's synchronizations and hands out what cancels them, in
    /// the order in which they began.
    pub fn cancel_all_syncs(&mut self, user_id: i64) -> (r: Vec<T>)
        requires
            old(self).wf(),
        ensures
            final(self).wf(),
            final(self)@ == old(self)@.remove(user_id),
            r@ == handles_of(entries_of(old(self)@, user_id)),
    {
        let removed = self.syncs.remove(&user_id);
        assert(self@ =~= old(self)@.remove(user_id));
        match removed {
            Some(entries) => {
                assert(entries_view(entries@) =~= entries_of(old(self)@, user_id));
                take_handles(entries)
            },
            None => {
                let r: Vec<T> = Vec::new();
                assert(r@ =~= handles_of(entries_of(old(self)@, user_id)));
                r
            },
        }
    }
}

/// A synchronization of an address that the user is not synchronizing already
/// leaves no trace once it has ended.
pub proof fn law_unregister_undoes_register<T>(
    m: Map<i64, Entries<T>>,
    user: i64,
    url: Seq<char>,
    handle: T,
)
    requires
        none_idle(m),
        forall|i: int|
            0 <= i < entries_of(m, user).len() ==> (#[trigger] entries_of(m, user)[i]).0 != url,
    ensures
        unregistered(registered(m, user, url, handle), user, url) == m,
{
    let entries = entries_of(m, user);
    let more = entries.push((url, handle));
    reveal(Seq::filter);
    assert(more.drop_last() =~= entries);
    lemma_filter_all(entries, url);
    assert(without_url(more, url) == entries);
    assert(unregistered(registered(m, user, url, handle), user, url) =~= m);
}

proof fn lemma_filter_all<T>(entries: Entries<T>, url: Seq<char>)
    requires
        forall|i: int| 0 <= i < entries.len() ==> (#[trigger] entries[i]).0 != url,
    ensures
        without_url(entries, url) == entries,
    decreases entries.len(),
{
    reveal(Seq::filter);
    if entries.len() > 0 {
        let init = entries.drop_last();
        assert forall|i: int| 0 <= i < init.len() implies (#[trigger] init[i]).0 != url by {
            assert(init[i] == entries[i]);
        }
        lemma_filter_all(init, url);
        assert(without_url(entries, url) =~= entries);
    } else {
        assert(without_url(entries, url) =~= entries);
    }
}

/// Once a user's synchronizations of an address have ended, none of them is
/// listed, and those of other addresses still are, in their order.
pub proof fn law_unregister_removes_url<T>(m: Map<i64, Entries<T>>, user: i64, url: Seq<char>)
    ensures
        ({
            let left = entries_of(unregistered(m, user, url), user);
            &&& left == without_url(entries_of(m, user), url)
            &&& forall|i: int| 0 <= i < left.len() ==> (#[trigger] left[i]).0 != url
        }),
{
    let entries = entries_of(m, user);
    let kept = without_url(entries, url);
    let left = entries_of(unregistered(m, user, url), user);
    assert(left =~= kept);
    lemma_filter_excludes(entries, url);
}

proof fn lemma_filter_excludes<T>(entries: Entries<T>, url: Seq<char>)
    ensures
        forall|i: int|
            0 <= i < without_url(entries, url).len() ==> (#[trigger] without_url(
                entries,
                url,
            )[i]).0 != url,
    decreases entries.len(),
{
    reveal(Seq::filter);
    if entries.len() > 0 {
        let init = without_url(entries.drop_last(), url);
        let kept = without_url(entries, url);
        lemma_filter_excludes(entries.drop_last(), url);
        assert forall|i: int| 0 <= i < kept.len() implies (#[trigger] kept[i]).0 != url by {
            if i < init.len() {
                assert(kept[i] == init[i]);
            }
        }
    }
}

/// A synchronization that began can be cancelled: what cancels it is handed
/// out, and nothing of the user's is listed any more.
pub proof fn law_cancel_reaches_all<T>(
    m: Map<i64, Entries<T>>,
    user: i64,
    url: Seq<char>,
    handle: T,
)
    ensures
        ({
            let after = registered(m, user, url, handle);
            &&& handles_of(entries_of(after, user)) == handles_of(entries_of(m, user)).push(handle)
            &&& entries_of(after.remove(user), user) == Seq::<(Seq<char>, T)>::empty()
        }),
{
    let after = registered(m, user, url, handle);
    assert(handles_of(entries_of(after, user)) =~= handles_of(entries_of(m, user)).push(handle));
}

/// What one user does is no matter of another.
pub proof fn law_other_users_untouched<T>(
    m: Map<i64, Entries<T>>,
    user: i64,
    other: i64,
    url: Seq<char>,
    handle: T,
)
    requires
        other != user,
    ensures
        entries_of(registered(m, user, url, handle), other) == entries_of(m, other),
        entries_of(unregistered(m, user, url), other) == entries_of(m, other),
        entries_of(m.remove(user), other) == entries_of(m, other),
{
}

/// A synchronization that begins is listed behind those of the same user that are
/// in progress.
pub proof fn law_registered_last<T>(
    m: Map<i64, Entries<T>>,
    user: i64,
    url: Seq<char>,
    handle: T,
)
    ensures
        entries_of(registered(m, user, url, handle), user) == entries_of(m, user).push(
            (url, handle),
        ),
        !m.contains_key(user) ==> entries_of(m, user).len() == 0,
        m.contains_key(user) ==> entries_of(m, user) == m[user],
{
}

/// Whether a synchronization began makes no difference once those of its address
/// have ended; one of another address stays listed, behind what is left.
pub proof fn law_unregister_keeps_others<T>(
    m: Map<i64, Entries<T>>,
    user: i64,
    url: Seq<char>,
    other: Seq<char>,
    handle: T,
)
    ensures
        entries_of(unregistered(registered(m, user, url, handle), user, url), user) == entries_of(
            unregistered(m, user, url),
            user,
        ),
        other != url ==> entries_of(
            unregistered(registered(m, user, other, handle), user, url),
            user,
        ) == entries_of(unregistered(m, user, url), user).push((other, handle)),
        entries_of(m, user).len() == 0 ==> entries_of(unregistered(m, user, url), user).len() == 0,
{
    reveal(Seq::filter);
    let entries = entries_of(m, user);
    assert(entries.push((url, handle)).drop_last() =~= entries);
    assert(entries.push((other, handle)).drop_last() =~= entries);
    assert(entries_of(unregistered(m, user, url), user) =~= without_url(entries, url));
    assert(entries_of(unregistered(registered(m, user, url, handle), user, url), user)
        =~= without_url(entries.push((url, handle)), url));
    assert(entries_of(unregistered(registered(m, user, other, handle), user, url), user)
        =~= without_url(entries.push((other, handle)), url));
}

/// What cancels each synchronization is handed out in its place.
pub proof fn law_handles<T>(entries: Entries<T>, i: int)
    ensures
        handles_of(entries).len() == entries.len(),
        0 <= i < entries.len() ==> handles_of(entries)[i] == entries[i].1,
{
}

} // verus!
