use vstd::prelude::*;

use crate::callback::Callback;
use crate::event::Entries;
use crate::event::Event;
use crate::event::Hook;
use crate::event::has_id;
use crate::event::invocation_excluding;
use crate::event::invocation_of;
use crate::event::invoked;
use crate::event::invoked_excluding;
use crate::event::without_id;

verus! {

/// An observable value: a `T` coupled with a registry of change callbacks.
///
/// Mutation goes through a write guard ([`Property::write`] or
/// [`ReadWriteBinding::write`]); committing the guard delivers the post-write
/// value to every bound callback, in binding order — except, for a binding's
/// own write, that binding's callback.
pub struct Property<T, C> {
    value: T,
    changed: Event<T, C>,
}

impl<T, C: Callback<T>> Property<T, C> {
    /// The value the property holds.
    pub closed spec fn current(&self) -> T {
        self.value
    }

    /// One `(key, observed)` pair per bound callback, in binding order.
    pub closed spec fn entries(&self) -> Entries<T> {
        self.changed.entries()
    }

    /// Every change notification ever delivered, oldest first.
    pub closed spec fn history(&self) -> Seq<(u64, T)> {
        self.changed.history()
    }

    /// How many binding keys have been handed out so far.
    pub closed spec fn issued(&self) -> u64 {
        self.changed.issued()
    }

    /// Binding keys are issued fresh.
    pub closed spec fn inv(&self) -> bool {
        self.changed.inv()
    }

    /// A property holding `value`, with no callbacks bound.
    pub fn new(value: T) -> (p: Self)
        ensures
            p.inv(),
            p.current() == value,
            p.entries() == Seq::<(u64, Seq<T>)>::empty(),
            p.history() == Seq::<(u64, T)>::empty(),
            p.issued() == 0,
    {
        Property { value, changed: Event::new() }
    }

    /// Shared access to the value. Reading never notifies anyone.
    pub fn read(&self) -> (g: PropertyReadGuard<'_, T, C>)
        ensures
            g.current() == self.current(),
    {
        PropertyReadGuard { prop: self }
    }

    /// Take the property over for writing. Committing the returned guard
    /// delivers the then-current value to every bound callback.
    pub fn write(self) -> (g: PropertyWriteGuard<T, C>)
        ensures
            g.current() == self.current(),
            g.entries() == self.entries(),
            g.history() == self.history(),
            g.issued() == self.issued(),
            self.inv() ==> g.inv(),
    {
        PropertyWriteGuard { prop: self }
    }

    /// Bind `callback` to be called on every committed write, and return the
    /// token for this binding. The key is fresh: no live binding has it.
    pub fn bind(&mut self, callback: C) -> (b: ReadonlyBinding)
        requires
            old(self).inv(),
            old(self).issued() < u64::MAX,
        ensures
            final(self).inv(),
            b.key() == old(self).issued(),
            !has_id(old(self).entries(), b.key()),
            final(self).issued() == old(self).issued() + 1,
            final(self).entries() == old(self).entries().push((b.key(), callback.observed())),
            final(self).current() == old(self).current(),
            final(self).history() == old(self).history(),
    {
        ReadonlyBinding { hook: self.changed.hook(callback) }
    }

    /// Like [`Property::bind`], but the returned token can also take a write
    /// guard that excludes its own callback from the notification.
    pub fn bind_mut(&mut self, callback: C) -> (b: ReadWriteBinding)
        requires
            old(self).inv(),
            old(self).issued() < u64::MAX,
        ensures
            final(self).inv(),
            b.key() == old(self).issued(),
            !has_id(old(self).entries(), b.key()),
            final(self).issued() == old(self).issued() + 1,
            final(self).entries() == old(self).entries().push((b.key(), callback.observed())),
            final(self).current() == old(self).current(),
            final(self).history() == old(self).history(),
    {
        ReadWriteBinding { hook: self.changed.hook(callback) }
    }

    /// How many callbacks are bound right now.
    pub fn count(&self) -> (n: usize)
        ensures
            n == self.entries().len(),
    {
        self.changed.count()
    }

    /// Remove the binding `b` stands for; every other binding keeps its
    /// place. Removing a binding that is already gone is a no-op.
    pub fn unbind(&mut self, b: ReadonlyBinding)
        requires
            old(self).inv(),
        ensures
            final(self).inv(),
            final(self).issued() == old(self).issued(),
            final(self).entries() == without_id(old(self).entries(), b.key()),
            !has_id(final(self).entries(), b.key()),
            final(self).current() == old(self).current(),
            final(self).history() == old(self).history(),
    {
        self.changed.unhook(b.hook);
    }

    /// Remove the binding `b` stands for; the counterpart of
    /// [`Property::unbind`] for read-write bindings.
    pub fn unbind_mut(&mut self, b: ReadWriteBinding)
        requires
            old(self).inv(),
        ensures
            final(self).inv(),
            final(self).issued() == old(self).issued(),
            final(self).entries() == without_id(old(self).entries(), b.key()),
            !has_id(final(self).entries(), b.key()),
            final(self).current() == old(self).current(),
            final(self).history() == old(self).history(),
    {
        self.changed.unhook(b.hook);
    }
}

/// A guard for shared access to a property's value.
///
/// Dropping it notifies nobody.
pub struct PropertyReadGuard<'a, T, C> {
    prop: &'a Property<T, C>,
}

impl<'a, T, C: Callback<T>> PropertyReadGuard<'a, T, C> {
    /// The value the guard gives access to.
    pub closed spec fn current(&self) -> T {
        self.prop.current()
    }

    /// Shared access to the value.
    pub fn get(&self) -> (r: &T)
        ensures
            *r == self.current(),
    {
        &self.prop.value
    }
}

/// A guard for exclusive access to a property.
///
/// [`PropertyWriteGuard::commit`] ends the write: it delivers the then-current
/// value to every bound callback, in binding order, and hands the property
/// back.
pub struct PropertyWriteGuard<T, C> {
    prop: Property<T, C>,
}

impl<T, C: Callback<T>> PropertyWriteGuard<T, C> {
    /// The value the guard holds.
    pub closed spec fn current(&self) -> T {
        self.prop.current()
    }

    /// The bound callbacks, as the property will hand them back.
    pub closed spec fn entries(&self) -> Entries<T> {
        self.prop.entries()
    }

    /// The notifications delivered so far.
    pub closed spec fn history(&self) -> Seq<(u64, T)> {
        self.prop.history()
    }

    /// How many binding keys have been handed out so far.
    pub closed spec fn issued(&self) -> u64 {
        self.prop.issued()
    }

    /// Binding keys are issued fresh.
    pub closed spec fn inv(&self) -> bool {
        self.prop.inv()
    }

    /// Shared access to the value.
    pub fn get(&self) -> (r: &T)
        ensures
            *r == self.current(),
    {
        &self.prop.value
    }

    /// Exclusive access to the value.
    pub fn get_mut(&mut self) -> (r: &mut T)
        ensures
            *r == old(self).current(),
            final(self).current() == *final(r),
            final(self).entries() == old(self).entries(),
            final(self).history() == old(self).history(),
            final(self).issued() == old(self).issued(),
            final(self).inv() == old(self).inv(),
    {
        &mut self.prop.value
    }

    /// Replace the value.
    pub fn set(&mut self, value: T)
        ensures
            final(self).current() == value,
            final(self).entries() == old(self).entries(),
            final(self).history() == old(self).history(),
            final(self).issued() == old(self).issued(),
            final(self).inv() == old(self).inv(),
    {
        self.prop.value = value;
    }

    /// Commit the write: deliver the current value to every bound callback,
    /// in binding order — exactly one notification for this whole write —
    /// and hand the property back.
    pub fn commit(self) -> (p: Property<T, C>)
        requires
            self.inv(),
        ensures
            p.inv(),
            p.current() == self.current(),
            p.issued() == self.issued(),
            invoked(self.entries(), p.entries(), self.current()),
            p.history() == self.history() + invocation_of(self.entries(), self.current()),
    {
        let mut p = self.prop;
        p.changed.invoke(&p.value);
        p
    }
}

/// A token for one callback bound to a [`Property`].
///
/// Passing the token to [`Property::unbind`] removes the binding;
/// [`ReadonlyBinding::leak`] discards the token so the callback stays bound
/// for the property's whole life.
pub struct ReadonlyBinding {
    hook: Hook,
}

impl ReadonlyBinding {
    /// The key of the binding this token stands for.
    pub closed spec fn key(&self) -> u64 {
        self.hook.key()
    }

    /// Discard the token without removing the binding: the callback stays
    /// bound, and notified, for the rest of the property's life.
    pub fn leak(self) {
    }

    /// Shared access to the value of `p`.
    pub fn read<'a, T, C: Callback<T>>(&self, p: &'a Property<T, C>) -> (g: BindingReadGuard<
        'a,
        T,
        C,
    >)
        ensures
            g.current() == p.current(),
    {
        BindingReadGuard { prop: p }
    }

    /// Shared access to the callback this token stands for, or `None` if the
    /// binding is gone from `p`.
    pub fn callback<'a, T, C: Callback<T>>(&self, p: &'a Property<T, C>) -> (r: Option<&'a C>)
        ensures
            match r {
                Some(c) => has_id(p.entries(), self.key()) && exists|i: int|
                    0 <= i < p.entries().len() && #[trigger] p.entries()[i] == (
                        self.key(),
                        c.observed(),
                    ),
                None => !has_id(p.entries(), self.key()),
            },
    {
        p.changed.callback(&self.hook)
    }
}

/// A token for one callback bound to a [`Property`], able to write the
/// property while excluding its own callback from the notification.
pub struct ReadWriteBinding {
    hook: Hook,
}

impl ReadWriteBinding {
    /// The key of the binding this token stands for.
    pub closed spec fn key(&self) -> u64 {
        self.hook.key()
    }

    /// Discard the token without removing the binding: the callback stays
    /// bound, and notified, for the rest of the property's life.
    pub fn leak(self) {
    }

    /// Shared access to the value of `p`.
    pub fn read<'a, T, C: Callback<T>>(&self, p: &'a Property<T, C>) -> (g: BindingReadGuard<
        'a,
        T,
        C,
    >)
        ensures
            g.current() == p.current(),
    {
        BindingReadGuard { prop: p }
    }

    /// Take `p` over for writing. Committing the returned guard delivers the
    /// then-current value to every bound callback except this binding's own.
    pub fn write<T, C: Callback<T>>(&self, p: Property<T, C>) -> (g: BindingWriteGuard<T, C>)
        ensures
            g.excluded() == self.key(),
            g.current() == p.current(),
            g.entries() == p.entries(),
            g.history() == p.history(),
            g.issued() == p.issued(),
            p.inv() ==> g.inv(),
    {
        BindingWriteGuard { prop: p, excluded: self.hook.key_value() }
    }

    /// Shared access to the callback this token stands for, or `None` if the
    /// binding is gone from `p`.
    pub fn callback<'a, T, C: Callback<T>>(&self, p: &'a Property<T, C>) -> (r: Option<&'a C>)
        ensures
            match r {
                Some(c) => has_id(p.entries(), self.key()) && exists|i: int|
                    0 <= i < p.entries().len() && #[trigger] p.entries()[i] == (
                        self.key(),
                        c.observed(),
                    ),
                None => !has_id(p.entries(), self.key()),
            },
    {
        p.changed.callback(&self.hook)
    }
}

/// A guard for shared access to a property's value, taken through a binding.
///
/// Dropping it notifies nobody.
pub struct BindingReadGuard<'a, T, C> {
    prop: &'a Property<T, C>,
}

impl<'a, T, C: Callback<T>> BindingReadGuard<'a, T, C> {
    /// The value the guard gives access to.
    pub closed spec fn current(&self) -> T {
        self.prop.current()
    }

    /// Shared access to the value.
    pub fn get(&self) -> (r: &T)
        ensures
            *r == self.current(),
    {
        &self.prop.value
    }
}

/// A guard for exclusive access to a property, taken through a
/// [`ReadWriteBinding`].
///
/// [`BindingWriteGuard::commit`] ends the write: it delivers the then-current
/// value to every bound callback except the writing binding's own, and hands
/// the property back.
pub struct BindingWriteGuard<T, C> {
    prop: Property<T, C>,
    excluded: u64,
}

impl<T, C: Callback<T>> BindingWriteGuard<T, C> {
    /// The key of the binding whose callback this write will not notify.
    pub closed spec fn excluded(&self) -> u64 {
        self.excluded
    }

    /// The value the guard holds.
    pub closed spec fn current(&self) -> T {
        self.prop.current()
    }

    /// The bound callbacks, as the property will hand them back.
    pub closed spec fn entries(&self) -> Entries<T> {
        self.prop.entries()
    }

    /// The notifications delivered so far.
    pub closed spec fn history(&self) -> Seq<(u64, T)> {
        self.prop.history()
    }

    /// How many binding keys have been handed out so far.
    pub closed spec fn issued(&self) -> u64 {
        self.prop.issued()
    }

    /// Binding keys are issued fresh.
    pub closed spec fn inv(&self) -> bool {
        self.prop.inv()
    }

    /// Shared access to the value.
    pub fn get(&self) -> (r: &T)
        ensures
            *r == self.current(),
    {
        &self.prop.value
    }

    /// Exclusive access to the value.
    pub fn get_mut(&mut self) -> (r: &mut T)
        ensures
            *r == old(self).current(),
            final(self).current() == *final(r),
            final(self).excluded() == old(self).excluded(),
            final(self).entries() == old(self).entries(),
            final(self).history() == old(self).history(),
            final(self).issued() == old(self).issued(),
            final(self).inv() == old(self).inv(),
    {
        &mut self.prop.value
    }

    /// Replace the value.
    pub fn set(&mut self, value: T)
        ensures
            final(self).current() == value,
            final(self).excluded() == old(self).excluded(),
            final(self).entries() == old(self).entries(),
            final(self).history() == old(self).history(),
            final(self).issued() == old(self).issued(),
            final(self).inv() == old(self).inv(),
    {
        self.prop.value = value;
    }

    /// Commit the write: deliver the current value to every bound callback
    /// except the writing binding's own, in binding order — exactly one
    /// notification for this whole write — and hand the property back.
    pub fn commit(self) -> (p: Property<T, C>)
        requires
            self.inv(),
        ensures
            p.inv(),
            p.current() == self.current(),
            p.issued() == self.issued(),
            invoked_excluding(self.entries(), p.entries(), self.current(), self.excluded()),
            p.history() == self.history() + invocation_excluding(
                self.entries(),
                self.current(),
                self.excluded(),
            ),
    {
        let mut p = self.prop;
        p.changed.invoke_excluding(&p.value, self.excluded);
        p
    }
}

/// Law: a write committed through a binding notifies every other binding
/// with the written value and never re-fires the writer's own callback —
/// while a later write committed by someone else does reach the earlier
/// writer's callback, by the same clauses with the roles swapped.
pub proof fn lemma_binding_write_self_exclusion<T>(
    pre: Entries<T>,
    post: Entries<T>,
    value: T,
    writer: u64,
    other: u64,
)
    requires
        writer != other,
        invoked_excluding(pre, post, value, writer),
    ensures
        forall|i: int|
            0 <= i < pre.len() && (#[trigger] pre[i]).0 == other ==> post[i].1 == pre[i].1.push(
                value,
            ),
        forall|i: int|
            0 <= i < pre.len() && (#[trigger] pre[i]).0 == writer ==> post[i].1 == pre[i].1,
        forall|j: int|
            0 <= j < invocation_excluding(pre, value, writer).len() ==> (
            #[trigger] invocation_excluding(pre, value, writer)[j]).0 != writer,
{
    crate::event::lemma_without_id_absent(pre, writer);
}

} // verus!
