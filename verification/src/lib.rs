//! Reactive primitives with verified subscription bookkeeping.
//!
//! An [`event::Event`] is an ordered registry of callbacks: `hook` appends a
//! callback and returns a [`event::Hook`] token, `invoke` calls every
//! registered callback in registration order, and `unhook` removes the
//! callback a token stands for. A [`property::Property`] couples a value with
//! such a registry: committing a write guard notifies every bound callback
//! with the new value, and a write taken through a [`property::ReadWriteBinding`]
//! notifies everyone except the binding's own callback.
//!
//! Exclusive access comes from ownership rather than from locks: invocation
//! and mutation take the registry by `&mut` or by value, so an invocation's
//! callback sequence can never interleave with another, and there is no lock
//! state to poison. Notification is synchronous, on the caller, in binding
//! order.

pub mod callback;
pub mod event;
pub mod property;
