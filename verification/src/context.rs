//! The state shared by the widgets of one window: the pending input events, the
//! cursor position, the window size and the font context.
use vstd::prelude::*;
use std::collections::VecDeque;
use vstd::pervasive::cloned;
use vstd::std_specs::cmp::PartialEqSpec;

verus! {

/// Pending events of type `E` (oldest first), positions of type `P` and a font
/// context of type `F`.
pub struct Context<E, P, F> {
    events: VecDeque<E>,
    window_size: P,
    mouse_pos: P,
    font_context: Option<F>,
}

/// The position of the first element of `events` that `event` equals, by `E`'s `==`.
pub open spec fn first_match<E: PartialEq>(events: Seq<E>, event: E) -> int
    recommends
        exists|i: int| 0 <= i < events.len() && events[i].eq_spec(&event),
{
    choose|i: int|
        0 <= i < events.len() && events[i].eq_spec(&event) && forall|j: int|
            0 <= j < i ==> !events[j].eq_spec(&event)
}

impl<E, P, F> Context<E, P, F> {
    /// The pending events, oldest first.
    pub closed spec fn pending(&self) -> Seq<E> {
        self.events@
    }

    /// The size of the window.
    pub closed spec fn window(&self) -> P {
        self.window_size
    }

    /// The position of the cursor.
    pub closed spec fn cursor(&self) -> P {
        self.mouse_pos
    }

    /// The font context, once one was set.
    pub closed spec fn fonts(&self) -> Option<F> {
        self.font_context
    }

    /// A context with no pending events and no font context.
    pub fn new(window_size: P, mouse_pos: P) -> (c: Self)
        ensures
            c.pending() == Seq::<E>::empty(),
            c.window() == window_size,
            c.cursor() == mouse_pos,
            c.fonts() == None::<F>,
    {
        Context { events: VecDeque::new(), window_size, mouse_pos, font_context: None }
    }

    pub fn set_font_context(&mut self, context: F)
        ensures
            final(self).fonts() == Some(context),
            final(self).pending() == old(self).pending(),
            final(self).window() == old(self).window(),
            final(self).cursor() == old(self).cursor(),
    {
        self.font_context = Some(context);
    }

    /// Whether a font context was set.
    pub fn has_font_context(&self) -> (b: bool)
        ensures
            b == self.fonts() is Some,
    {
        self.font_context.is_some()
    }

    /// A clone of the font context; there must be one.
    pub fn font_context(&self) -> (f: F)
        where
            F: Clone,
        requires
            self.fonts() is Some,
        ensures
            cloned(self.fonts()->0, f),
    {
        self.font_context.as_ref().unwrap().clone()
    }

    pub fn set_mouse_pos(&mut self, pos: P)
        ensures
            final(self).cursor() == pos,
            final(self).pending() == old(self).pending(),
            final(self).window() == old(self).window(),
            final(self).fonts() == old(self).fonts(),
    {
        self.mouse_pos = pos;
    }

    pub fn mouse_pos(&self) -> (pos: P)
        where
            P: Copy,
        ensures
            pos == self.cursor(),
    {
        self.mouse_pos
    }

    pub fn set_window_size(&mut self, size: P)
        ensures
            final(self).window() == size,
            final(self).pending() == old(self).pending(),
            final(self).cursor() == old(self).cursor(),
            final(self).fonts() == old(self).fonts(),
    {
        self.window_size = size;
    }

    pub fn window_size(&self) -> (size: P)
        where
            P: Copy,
        ensures
            size == self.window(),
    {
        self.window_size
    }

    /// Queues `event` behind the pending ones.
    pub fn new_event(&mut self, event: E)
        ensures
            final(self).pending() == old(self).pending().push(event),
            final(self).window() == old(self).window(),
            final(self).cursor() == old(self).cursor(),
            final(self).fonts() == old(self).fonts(),
    {
        self.events.push_back(event);
    }

    /// The oldest pending event, if any.
    pub fn current_event(&self) -> (e: Option<&E>)
        ensures
            self.pending().len() == 0 ==> e is None,
            self.pending().len() > 0 ==> e == Some(&self.pending()[0]),
    {
        if self.events.len() == 0 {
            None
        } else {
            Some(&self.events[0])
        }
    }

    /// Whether some pending event equals `event`.
    pub fn has_event(&self, event: E) -> (found: bool)
        where
            E: PartialEq,
        ensures
            E::obeys_eq_spec() ==> (found <==> exists|i: int|
                0 <= i < self.pending().len() && #[trigger] self.pending()[i].eq_spec(&event)),
    {
        let n: usize = self.events.len();
        let mut i: usize = 0;
        while i < n
            invariant
                n == self.pending().len(),
                i <= n,
                E::obeys_eq_spec() ==> forall|j: int| 0 <= j < i ==> !#[trigger] self.pending()[j].eq_spec(&event),
            decreases n - i,
        {
            if self.events[i] == event {
                return true;
            }
            i = i + 1;
        }
        false
    }

    /// Removes the oldest pending event that equals `event`; there must be one.
    pub fn consume_event(&mut self, event: &E)
        where
            E: PartialEq,
        requires
            E::obeys_eq_spec(),
            exists|i: int| 0 <= i < old(self).pending().len() && #[trigger] old(self).pending()[i].eq_spec(event),
        ensures
            final(self).pending() == old(self).pending().remove(first_match(old(self).pending(), *event)),
            final(self).window() == old(self).window(),
            final(self).cursor() == old(self).cursor(),
            final(self).fonts() == old(self).fonts(),
    {
        let n: usize = self.events.len();
        let mut i: usize = 0;
        while i < n
            invariant
                n == self.pending().len(),
                self.pending() == old(self).pending(),
                self.window() == old(self).window(),
                self.cursor() == old(self).cursor(),
                self.fonts() == old(self).fonts(),
                E::obeys_eq_spec(),
                i <= n,
                forall|j: int| 0 <= j < i ==> !#[trigger] self.pending()[j].eq_spec(event),
                exists|j: int| 0 <= j < n && #[trigger] self.pending()[j].eq_spec(event),
            decreases n - i,
        {
            if self.events[i] == *event {
                let ghost events = self.pending();
                assert(first_match(events, *event) == i as int);
                self.events.remove(i);
                return;
            }
            i = i + 1;
        }
    }

    /// Drops every pending event.
    pub fn clear_events(&mut self)
        ensures
            final(self).pending() == Seq::<E>::empty(),
            final(self).window() == old(self).window(),
            final(self).cursor() == old(self).cursor(),
            final(self).fonts() == old(self).fonts(),
    {
        self.events.clear();
    }
}

} // verus!
