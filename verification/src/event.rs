use vstd::prelude::*;

use crate::callback::Callback;

verus! {

/// The specification-level picture of a registry: one `(id, observed)` pair
/// per registered callback, in registration order. `id` is the token key the
/// registration was issued, `observed` the sequence of values the callback
/// has been called with so far.
pub type Entries<Args> = Seq<(u64, Seq<Args>)>;

/// True iff some registered callback carries key `id`.
pub open spec fn has_id<Args>(entries: Entries<Args>, id: u64) -> bool {
    exists|i: int| 0 <= i < entries.len() && entries[i].0 == id
}

/// The registry after the callback(s) keyed `id` have been removed;
/// every other registration keeps its place and its observations.
pub open spec fn without_id<Args>(entries: Entries<Args>, id: u64) -> Entries<Args> {
    entries.filter(|e: (u64, Seq<Args>)| e.0 != id)
}

/// One invocation with argument `a`: every registered callback observes `a`
/// exactly once, and no registration appears or disappears.
pub open spec fn invoked<Args>(pre: Entries<Args>, post: Entries<Args>, a: Args) -> bool {
    &&& post.len() == pre.len()
    &&& forall|i: int|
        0 <= i < pre.len() ==> #[trigger] post[i] == (pre[i].0, pre[i].1.push(a))
}

/// One invocation with argument `a` that skips the callback(s) keyed `excluded`:
/// every other registered callback observes `a` exactly once.
pub open spec fn invoked_excluding<Args>(
    pre: Entries<Args>,
    post: Entries<Args>,
    a: Args,
    excluded: u64,
) -> bool {
    &&& post.len() == pre.len()
    &&& forall|i: int|
        0 <= i < pre.len() ==> #[trigger] post[i] == (
            pre[i].0,
            if pre[i].0 == excluded {
                pre[i].1
            } else {
                pre[i].1.push(a)
            },
        )
}

/// The calls one invocation with argument `a` performs, as `(key, argument)`
/// pairs in the order the callbacks are reached.
pub open spec fn invocation_of<Args>(pre: Entries<Args>, a: Args) -> Seq<(u64, Args)> {
    pre.map(|i: int, e: (u64, Seq<Args>)| (e.0, a))
}

/// The calls one invocation with argument `a` performs when the callback(s)
/// keyed `excluded` are skipped.
pub open spec fn invocation_excluding<Args>(
    pre: Entries<Args>,
    a: Args,
    excluded: u64,
) -> Seq<(u64, Args)> {
    invocation_of(without_id(pre, excluded), a)
}

struct Slot<C> {
    id: u64,
    cb: C,
}

/// An ordered registry of callbacks.
///
/// `hook` appends a callback and hands back a [`Hook`] token; `invoke` calls
/// every registered callback in registration order; `unhook` removes the
/// callback a token stands for. The ghost `history` records, across the
/// registry's whole life, every call made to a callback, so contracts can
/// speak about invocation order and about calls that never happen.
pub struct Event<Args, C> {
    slots: Vec<Slot<C>>,
    next_id: u64,
    hist: Ghost<Seq<(u64, Args)>>,
}

/// A token for one registration in an [`Event`].
///
/// Passing the token to [`Event::unhook`] removes the registration;
/// [`Hook::leak`] discards the token so the callback stays registered for the
/// registry's whole life.
pub struct Hook {
    id: u64,
}

impl Hook {
    /// The key of the registration this token stands for.
    pub closed spec fn key(&self) -> u64 {
        self.id
    }

    /// The key of the registration this token stands for, as a value.
    pub(crate) fn key_value(&self) -> (k: u64)
        ensures
            k == self.key(),
    {
        self.id
    }

    /// Discard the token without removing the registration: the callback
    /// remains registered, and invoked, for the rest of the registry's life.
    pub fn leak(self) {
    }

    /// True iff the registration this token stands for is still present in
    /// `event`. (A token never learns of its registry's death by itself; it
    /// answers for the registry it is asked about.)
    pub fn is_alive<Args, C: Callback<Args>>(&self, event: &Event<Args, C>) -> (r: bool)
        ensures
            r == has_id(event.entries(), self.key()),
    {
        let n = event.slots.len();
        let mut i: usize = 0;
        while i < n
            invariant
                i <= n,
                n == event.slots@.len(),
                forall|k: int| 0 <= k < i ==> (#[trigger] event.slots@[k].id) != self.id,
            decreases n - i,
        {
            if event.slots[i].id == self.id {
                proof {
                    assert(event.entries()[i as int].0 == self.key());
                }
                return true;
            }
            i = i + 1;
        }
        proof {
            assert forall|k: int|
                0 <= k < event.entries().len() implies (#[trigger] event.entries()[k]).0
                != self.key() by {
                assert(event.entries()[k].0 == event.slots@[k].id);
            }
        }
        false
    }
}

impl<Args, C: Callback<Args>> Event<Args, C> {
    /// One `(key, observed)` pair per registered callback, in registration
    /// order.
    pub closed spec fn entries(&self) -> Entries<Args> {
        self.slots@.map(|i: int, s: Slot<C>| (s.id, s.cb.observed()))
    }

    /// Every call ever made to a registered callback, oldest first.
    pub closed spec fn history(&self) -> Seq<(u64, Args)> {
        self.hist@
    }

    /// How many registration keys have been handed out so far.
    pub closed spec fn issued(&self) -> u64 {
        self.next_id
    }

    /// Every registration key was issued before `issued()`, so a fresh key
    /// never collides with a registered one.
    pub closed spec fn inv(&self) -> bool {
        forall|i: int| 0 <= i < self.slots@.len() ==> (#[trigger] self.slots@[i].id) < self.next_id
    }

    /// An empty registry.
    pub fn new() -> (e: Self)
        ensures
            e.inv(),
            e.entries() == Seq::<(u64, Seq<Args>)>::empty(),
            e.history() == Seq::<(u64, Args)>::empty(),
            e.issued() == 0,
    {
        let e = Event { slots: Vec::new(), next_id: 0u64, hist: Ghost(Seq::empty()) };
        proof {
            assert(e.entries() =~= Seq::<(u64, Seq<Args>)>::empty());
        }
        e
    }

    /// Register `callback` at the end of the registry and return the token
    /// for this registration. The key is fresh: no live registration has it.
    pub fn hook(&mut self, callback: C) -> (h: Hook)
        requires
            old(self).inv(),
            old(self).issued() < u64::MAX,
        ensures
            final(self).inv(),
            h.key() == old(self).issued(),
            !has_id(old(self).entries(), h.key()),
            final(self).issued() == old(self).issued() + 1,
            final(self).entries() == old(self).entries().push((h.key(), callback.observed())),
            final(self).history() == old(self).history(),
    {
        let id = self.next_id;
        self.next_id = self.next_id + 1;
        self.slots.push(Slot { id, cb: callback });
        proof {
            assert(self.entries() =~= old(self).entries().push((id, callback.observed())));
        }
        Hook { id }
    }

    /// Call every registered callback with `args`, in registration order.
    /// Each one observes `args` exactly once; the registry itself does not
    /// change; the history grows by exactly this invocation's calls.
    pub fn invoke(&mut self, args: &Args)
        requires
            old(self).inv(),
        ensures
            final(self).inv(),
            final(self).issued() == old(self).issued(),
            invoked(old(self).entries(), final(self).entries(), *args),
            final(self).history() == old(self).history() + invocation_of(
                old(self).entries(),
                *args,
            ),
    {
        let n = self.slots.len();
        let mut i: usize = 0;
        while i < n
            invariant
                i <= n,
                n == old(self).slots@.len(),
                self.slots@.len() == n,
                self.next_id == old(self).next_id,
                self.hist == old(self).hist,
                forall|k: int| 0 <= k < n ==> #[trigger] self.slots@[k].id == old(self).slots@[k].id,
                forall|k: int|
                    0 <= k < i ==> (#[trigger] self.slots@[k].cb).observed() == old(
                        self,
                    ).slots@[k].cb.observed().push(*args),
                forall|k: int| i <= k < n ==> #[trigger] self.slots@[k].cb == old(self).slots@[k].cb,
            decreases n - i,
        {
            let ghost before = self.slots@;
            let mut slot = self.slots.remove(i);
            slot.cb.call(args);
            self.slots.insert(i, slot);
            proof {
                assert(self.slots@ =~= before.update(i as int, slot));
            }
            i = i + 1;
        }
        proof {
            self.hist@ = self.hist@ + invocation_of(old(self).entries(), *args);
            assert forall|k: int| 0 <= k < n implies #[trigger] self.entries()[k] == (
                old(self).entries()[k].0,
                old(self).entries()[k].1.push(*args),
            ) by {
                assert(self.slots@[k].cb.observed() == old(self).slots@[k].cb.observed().push(
                    *args,
                ));
            }
        }
    }

    /// Call every registered callback except those keyed `excluded` with
    /// `args`, in registration order.
    pub(crate) fn invoke_excluding(&mut self, args: &Args, excluded: u64)
        requires
            old(self).inv(),
        ensures
            final(self).inv(),
            final(self).issued() == old(self).issued(),
            invoked_excluding(old(self).entries(), final(self).entries(), *args, excluded),
            final(self).history() == old(self).history() + invocation_excluding(
                old(self).entries(),
                *args,
                excluded,
            ),
    {
        let n = self.slots.len();
        let mut i: usize = 0;
        while i < n
            invariant
                i <= n,
                n == old(self).slots@.len(),
                self.slots@.len() == n,
                self.next_id == old(self).next_id,
                self.hist == old(self).hist,
                forall|k: int| 0 <= k < n ==> #[trigger] self.slots@[k].id == old(self).slots@[k].id,
                forall|k: int|
                    0 <= k < i && old(self).slots@[k].id != excluded ==> (
                    #[trigger] self.slots@[k].cb).observed() == old(
                        self,
                    ).slots@[k].cb.observed().push(*args),
                forall|k: int|
                    0 <= k < i && old(self).slots@[k].id == excluded ==> #[trigger] self.slots@[k].cb
                        == old(self).slots@[k].cb,
                forall|k: int| i <= k < n ==> #[trigger] self.slots@[k].cb == old(self).slots@[k].cb,
            decreases n - i,
        {
            if self.slots[i].id != excluded {
                let ghost before = self.slots@;
                let mut slot = self.slots.remove(i);
                slot.cb.call(args);
                self.slots.insert(i, slot);
                proof {
                    assert(self.slots@ =~= before.update(i as int, slot));
                }
            }
            i = i + 1;
        }
        proof {
            self.hist@ = self.hist@ + invocation_excluding(old(self).entries(), *args, excluded);
            assert forall|k: int| 0 <= k < n implies #[trigger] self.entries()[k] == (
                old(self).entries()[k].0,
                if old(self).entries()[k].0 == excluded {
                    old(self).entries()[k].1
                } else {
                    old(self).entries()[k].1.push(*args)
                },
            ) by {
            }
        }
    }

    /// Remove the registration `h` stands for; every other registration keeps
    /// its place. Removing a registration that is already gone is a no-op.
    #[verifier::loop_isolation(false)]
    pub fn unhook(&mut self, h: Hook)
        requires
            old(self).inv(),
        ensures
            final(self).inv(),
            final(self).issued() == old(self).issued(),
            final(self).entries() == without_id(old(self).entries(), h.key()),
            !has_id(final(self).entries(), h.key()),
            final(self).history() == old(self).history(),
    {
        broadcast use vstd::seq_lib::group_filter_ensures;

        let n = self.slots.len();
        let mut kept: Vec<Slot<C>> = Vec::new();
        let mut i: usize = 0;
        proof {
            assert(without_id(old(self).entries().take(0), h.key()) =~= Seq::<
                (u64, Seq<Args>),
            >::empty()) by {
                reveal_with_fuel(Seq::filter, 1);
                assert(old(self).entries().take(0) =~= Seq::<(u64, Seq<Args>)>::empty());
            }
            assert(kept@.map(|k: int, s: Slot<C>| (s.id, s.cb.observed())) =~= Seq::<
                (u64, Seq<Args>),
            >::empty());
        }
        while i < n
            invariant
                i <= n,
                self.slots@ == old(self).slots@.skip(i as int),
                self.next_id == old(self).next_id,
                self.hist == old(self).hist,
                forall|k: int| 0 <= k < kept@.len() ==> (#[trigger] kept@[k].id) != h.key(),
                forall|k: int|
                    0 <= k < kept@.len() ==> (#[trigger] kept@[k].id) < old(self).next_id,
                kept@.map(|k: int, s: Slot<C>| (s.id, s.cb.observed())) == without_id(
                    old(self).entries().take(i as int),
                    h.key(),
                ),
            decreases n - i,
        {
            let ghost kept_entries = kept@.map(|k: int, s: Slot<C>| (s.id, s.cb.observed()));
            let ghost entry = old(self).entries()[i as int];
            let slot = self.slots.remove(0);
            proof {
                assert(self.slots@ =~= old(self).slots@.skip(i as int + 1));
                assert(old(self).entries().take(i as int + 1) =~= old(self).entries().take(
                    i as int,
                ) + seq![entry]);
                assert(without_id(seq![entry], h.key()) =~= if entry.0 != h.key() {
                    seq![entry]
                } else {
                    Seq::<(u64, Seq<Args>)>::empty()
                }) by {
                    reveal_with_fuel(Seq::filter, 2);
                    assert(seq![entry].drop_last() =~= Seq::<(u64, Seq<Args>)>::empty());
                }
                assert(without_id(old(self).entries().take(i as int + 1), h.key()) == without_id(
                    old(self).entries().take(i as int),
                    h.key(),
                ) + without_id(seq![entry], h.key()));
            }
            if slot.id != h.id {
                kept.push(slot);
                proof {
                    assert(kept@.map(|k: int, s: Slot<C>| (s.id, s.cb.observed())) =~= kept_entries
                        + seq![entry]);
                }
            } else {
                proof {
                    assert(kept_entries + Seq::<(u64, Seq<Args>)>::empty() =~= kept_entries);
                }
            }
            i = i + 1;
        }
        self.slots = kept;
        proof {
            assert(old(self).entries().take(n as int) =~= old(self).entries());
            assert forall|k: int|
                0 <= k < self.entries().len() implies (#[trigger] self.entries()[k]).0
                != h.key() by {
                assert(self.entries()[k].0 == self.slots@[k].id);
            }
        }
    }

    /// How many callbacks are registered right now.
    pub fn count(&self) -> (n: usize)
        ensures
            n == self.entries().len(),
    {
        self.slots.len()
    }

    /// Shared access to the callback registered under token `h`, or `None`
    /// if that registration is gone.
    pub fn callback(&self, h: &Hook) -> (r: Option<&C>)
        ensures
            match r {
                Some(c) => has_id(self.entries(), h.key()) && exists|i: int|
                    0 <= i < self.entries().len() && #[trigger] self.entries()[i] == (
                        h.key(),
                        c.observed(),
                    ),
                None => !has_id(self.entries(), h.key()),
            },
    {
        let n = self.slots.len();
        let mut i: usize = 0;
        while i < n
            invariant
                i <= n,
                n == self.slots@.len(),
                forall|k: int| 0 <= k < i ==> (#[trigger] self.slots@[k].id) != h.id,
            decreases n - i,
        {
            if self.slots[i].id == h.id {
                proof {
                    assert(self.entries()[i as int] == (h.key(), self.slots@[i as int].cb.observed()));
                }
                return Some(&self.slots[i].cb);
            }
            i = i + 1;
        }
        proof {
            assert forall|k: int|
                0 <= k < self.entries().len() implies (#[trigger] self.entries()[k]).0
                != h.key() by {
                assert(self.entries()[k].0 == self.slots@[k].id);
            }
        }
        None
    }
}

/// Law: one invocation reaches every registered callback exactly once, in
/// registration order. Each callback's observations grow by exactly the
/// invocation's argument, and the history grows by one contiguous block that
/// lists the registrations in their order.
pub proof fn lemma_invoke_each_once_in_order<Args>(
    pre: Entries<Args>,
    post: Entries<Args>,
    hpre: Seq<(u64, Args)>,
    hpost: Seq<(u64, Args)>,
    a: Args,
)
    requires
        invoked(pre, post, a),
        hpost == hpre + invocation_of(pre, a),
    ensures
        forall|i: int| 0 <= i < pre.len() ==> (#[trigger] post[i]).1 == pre[i].1.push(a),
        hpost.len() == hpre.len() + pre.len(),
        forall|i: int|
            0 <= i < pre.len() ==> #[trigger] hpost[hpre.len() + i] == (pre[i].0, a),
{
}

/// Law: once a registration has been removed, an invocation neither reaches
/// it nor lists it in the history: the removed key is simply absent.
pub proof fn lemma_unhooked_not_invoked<Args>(
    e0: Entries<Args>,
    e1: Entries<Args>,
    e2: Entries<Args>,
    id: u64,
    a: Args,
)
    requires
        e1 == without_id(e0, id),
        invoked(e1, e2, a),
    ensures
        !has_id(e1, id),
        forall|j: int|
            0 <= j < invocation_of(e1, a).len() ==> (#[trigger] invocation_of(e1, a)[j]).0 != id,
{
    lemma_without_id_absent(e0, id);
}

/// No entry of `without_id(s, id)` carries the removed key.
pub(crate) proof fn lemma_without_id_absent<Args>(s: Entries<Args>, id: u64)
    ensures
        forall|k: int|
            0 <= k < without_id(s, id).len() ==> (#[trigger] without_id(s, id)[k]).0 != id,
    decreases s.len(),
{
    reveal(Seq::filter);
    if s.len() == 0 {
    } else {
        lemma_without_id_absent(s.drop_last(), id);
    }
}

/// Law: a leaked registration stays registered, so every later invocation
/// still reaches it: its observations grow and the history lists its key.
pub proof fn lemma_leaked_hook_still_invoked<Args>(
    pre: Entries<Args>,
    post: Entries<Args>,
    id: u64,
    a: Args,
)
    requires
        has_id(pre, id),
        invoked(pre, post, a),
    ensures
        forall|i: int|
            0 <= i < pre.len() && (#[trigger] pre[i]).0 == id ==> post[i].1 == pre[i].1.push(a),
        exists|j: int|
            0 <= j < invocation_of(pre, a).len() && #[trigger] invocation_of(pre, a)[j] == (id, a),
{
    let i = choose|i: int| 0 <= i < pre.len() && pre[i].0 == id;
    assert(invocation_of(pre, a)[i] == (id, a));
}

/// Law: two invocations never interleave: the history is extended by one
/// whole block per invocation, each block complete before the next begins.
pub proof fn lemma_invocations_do_not_interleave<Args>(
    e0: Entries<Args>,
    e1: Entries<Args>,
    e2: Entries<Args>,
    h0: Seq<(u64, Args)>,
    h1: Seq<(u64, Args)>,
    h2: Seq<(u64, Args)>,
    x: Args,
    y: Args,
)
    requires
        invoked(e0, e1, x),
        h1 == h0 + invocation_of(e0, x),
        invoked(e1, e2, y),
        h2 == h1 + invocation_of(e1, y),
    ensures
        h2 == h0 + invocation_of(e0, x) + invocation_of(e1, y),
        forall|i: int|
            0 <= i < e0.len() ==> #[trigger] h2[h0.len() + i] == (e0[i].0, x),
        forall|i: int|
            0 <= i < e1.len() ==> #[trigger] h2[h0.len() + e0.len() + i] == (e1[i].0, y),
{
}

} // verus!
