//! Public semantic terminal-root composition.

use crate::view::{IntoView, View};
use vstd::prelude::*;

verus! {

/// The semantic root of a terminal application.
///
/// A [`Scene`] contains an optional root-level history `H` followed by one
/// ordinary [`View`] body. It is intentionally not an [`IntoView`] value:
/// roots cannot be nested inside ordinary presentation composition.
pub struct Scene<H> {
    history: Option<H>,
    body: View,
}

impl<H> Scene<H> {
    /// The root-level history, if the scene has one.
    pub closed spec fn history_spec(&self) -> Option<H> {
        self.history
    }

    /// The ordinary body below the history.
    pub closed spec fn body_spec(&self) -> View {
        self.body
    }

    /// Creates a body-only semantic root.
    pub fn new<B: IntoView>(body: B) -> (r: Self)
        ensures
            r.history_spec() is None,
            call_ensures(B::into_view, (body,), r.body_spec()),
    {
        Scene { history: None, body: body.into_view() }
    }

    /// Creates a semantic root with one root-level history and an ordinary
    /// body below it.
    pub fn with_history<B: IntoView>(history: H, body: B) -> (r: Self)
        ensures
            r.history_spec() == Some(history),
            call_ensures(B::into_view, (body,), r.body_spec()),
    {
        Scene { history: Some(history), body: body.into_view() }
    }

    /// Returns the optional root-level history.
    pub fn history(&self) -> (r: Option<&H>)
        ensures
            match r {
                Some(history) => self.history_spec() == Some(*history),
                None => self.history_spec() is None,
            },
    {
        self.history.as_ref()
    }

    /// Returns mutable access to the optional root-level history.
    pub fn history_mut(&mut self) -> (r: Option<&mut H>)
        ensures
            final(self).body_spec() == old(self).body_spec(),
            match old(self).history_spec() {
                None => r is None && final(self).history_spec() is None,
                Some(history) => r is Some && *r.unwrap() == history && final(self).history_spec() == Some(
                    *final(r.unwrap()),
                ),
            },
    {
        self.history.as_mut()
    }

    /// Returns the ordinary body view.
    pub fn body(&self) -> (r: &View)
        ensures
            *r == self.body_spec(),
    {
        &self.body
    }

    /// Replaces the ordinary body view.
    pub fn set_body<B: IntoView>(&mut self, body: B)
        ensures
            final(self).history_spec() == old(self).history_spec(),
            call_ensures(B::into_view, (body,), final(self).body_spec()),
    {
        self.body = body.into_view();
    }
}

} // verus!
