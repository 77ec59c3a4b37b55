//! Event vocabulary and the listener registry.
//!
//! The registry is generic over the callback token `C`: it stores and hands
//! back tokens without calling them, so the caller decides what a token is
//! and how to invoke it.

use vstd::prelude::*;

verus! {

/// The built-in event kinds.
#[derive(Clone, Copy, Debug, PartialEq, Eq, Structural)]
pub enum BaseEventType {
    Update,
    Render,
    Create,
    Click,
    MouseDown,
    MouseUp,
    MouseMove,
    MouseEnter,
    MouseLeave,
    KeyDown,
    KeyUp,
    KeyPress,
    Focus,
    Blur,
    Resize,
    DragStart,
    DragEnd,
    Drop,
}

impl BaseEventType {
    /// The canonical name of this event kind.
    pub closed spec fn keyword(self) -> Seq<char> {
        match self {
            BaseEventType::Update => "update"@,
            BaseEventType::Render => "render"@,
            BaseEventType::Create => "create"@,
            BaseEventType::Click => "click"@,
            BaseEventType::MouseDown => "mousedown"@,
            BaseEventType::MouseUp => "mouseup"@,
            BaseEventType::MouseMove => "mousemove"@,
            BaseEventType::MouseEnter => "mouseenter"@,
            BaseEventType::MouseLeave => "mouseleave"@,
            BaseEventType::KeyDown => "keydown"@,
            BaseEventType::KeyUp => "keyup"@,
            BaseEventType::KeyPress => "keypress"@,
            BaseEventType::Focus => "focus"@,
            BaseEventType::Blur => "blur"@,
            BaseEventType::Resize => "resize"@,
            BaseEventType::DragStart => "dragstart"@,
            BaseEventType::DragEnd => "dragend"@,
            BaseEventType::Drop => "drop"@,
        }
    }

    /// The canonical name as a string slice.
    pub fn as_str(&self) -> (r: &'static str)
        ensures
            r@ == self.keyword(),
    {
        match self {
            BaseEventType::Update => "update",
            BaseEventType::Render => "render",
            BaseEventType::Create => "create",
            BaseEventType::Click => "click",
            BaseEventType::MouseDown => "mousedown",
            BaseEventType::MouseUp => "mouseup",
            BaseEventType::MouseMove => "mousemove",
            BaseEventType::MouseEnter => "mouseenter",
            BaseEventType::MouseLeave => "mouseleave",
            BaseEventType::KeyDown => "keydown",
            BaseEventType::KeyUp => "keyup",
            BaseEventType::KeyPress => "keypress",
            BaseEventType::Focus => "focus",
            BaseEventType::Blur => "blur",
            BaseEventType::Resize => "resize",
            BaseEventType::DragStart => "dragstart",
            BaseEventType::DragEnd => "dragend",
            BaseEventType::Drop => "drop",
        }
    }
}

/// An event: a built-in kind, or a custom element event carrying its own
/// name.
#[derive(Clone, Debug)]
pub enum EventType {
    Base(BaseEventType),
    Element(String),
}

impl EventType {
    /// The event's name.
    pub closed spec fn name_seq(self) -> Seq<char> {
        match self {
            EventType::Base(base) => base.keyword(),
            EventType::Element(name) => name@,
        }
    }

    /// The event's name as an owned string.
    pub fn event_name(&self) -> (r: String)
        ensures
            r@ == self.name_seq(),
    {
        match self {
            EventType::Base(base) => String::from_str(base.as_str()),
            EventType::Element(name) => name.clone(),
        }
    }
}

/// Application lifecycle events.
#[derive(Clone, Copy, Debug, PartialEq, Eq, Structural)]
pub enum AppEvent {
    Ready,
}

impl AppEvent {
    /// The canonical name of this lifecycle event.
    pub closed spec fn keyword(self) -> Seq<char> {
        match self {
            AppEvent::Ready => "ready"@,
        }
    }

    /// The canonical name as a string slice.
    pub fn as_str(&self) -> (r: &'static str)
        ensures
            r@ == self.keyword(),
    {
        match self {
            AppEvent::Ready => "ready",
        }
    }
}

/// The listener registry: event names mapped to the callback tokens
/// registered for them, in registration order.
#[derive(Debug)]
pub struct EventManager<C> {
    listeners: Vec<(String, Vec<C>)>,
}

/// Whether the listener table has an entry for `name`.
pub open spec fn table_contains<C>(t: Seq<(Seq<char>, Seq<C>)>, name: Seq<char>) -> bool {
    exists|i: int| 0 <= i < t.len() && (#[trigger] t[i]).0 == name
}

/// The index of `name` in the table.
pub open spec fn table_index<C>(t: Seq<(Seq<char>, Seq<C>)>, name: Seq<char>) -> int {
    choose|i: int| 0 <= i < t.len() && (#[trigger] t[i]).0 == name
}

impl<C> EventManager<C> {
    /// The registry contents: one entry per event name.
    pub closed spec fn table(&self) -> Seq<(Seq<char>, Seq<C>)> {
        self.listeners@.map_values(|p: (String, Vec<C>)| (p.0@, p.1@))
    }

    /// Event names are pairwise distinct.
    pub open spec fn wf(&self) -> bool {
        forall|i: int, j: int|
            0 <= i < j < self.table().len() ==> (#[trigger] self.table()[i]).0 != (
            #[trigger] self.table()[j]).0
    }

    /// An empty registry.
    pub fn new() -> (r: EventManager<C>)
        ensures
            r.wf(),
            r.table() == Seq::<(Seq<char>, Seq<C>)>::empty(),
    {
        let r = EventManager { listeners: Vec::new() };
        proof {
            assert(r.table() =~= Seq::<(Seq<char>, Seq<C>)>::empty());
        }
        r
    }

    /// The index of the entry for `event_type`.
    fn find_entry(&self, event_type: &str) -> (r: Option<usize>)
        ensures
            r matches Some(i) ==> i < self.table().len() && self.table()[i as int].0
                == event_type@,
            r is None ==> !table_contains(self.table(), event_type@),
    {
        let key = String::from_str(event_type);
        let mut i: usize = 0;
        while i < self.listeners.len()
            invariant
                0 <= i <= self.listeners@.len(),
                key@ == event_type@,
                forall|j: int| 0 <= j < i ==> (#[trigger] self.table()[j]).0 != event_type@,
            decreases self.listeners@.len() - i,
        {
            if self.listeners[i].0 == key {
                assert(self.table()[i as int].0 == event_type@);
                return Some(i);
            }
            i += 1;
        }
        None
    }

    /// Registers a callback token under `event_type`, after any tokens
    /// already registered for it.
    pub fn add_listener(&mut self, event_type: &str, callback: C)
        requires
            old(self).wf(),
        ensures
            final(self).wf(),
            table_contains(old(self).table(), event_type@) ==> {
                let i = table_index(old(self).table(), event_type@);
                final(self).table() == old(self).table().update(
                    i,
                    (event_type@, old(self).table()[i].1.push(callback)),
                )
            },
            !table_contains(old(self).table(), event_type@) ==> final(self).table() == old(
                self,
            ).table().push((event_type@, seq![callback])),
    {
        let ghost pre = self.table();
        match self.find_entry(event_type) {
            Some(i) => {
                proof {
                    lemma_table_index_of(pre, event_type@, i as int);
                }
                let mut entry = self.listeners.remove(i);
                entry.1.push(callback);
                self.listeners.insert(i, entry);
                proof {
                    assert(self.table() =~= pre.update(
                        i as int,
                        (event_type@, pre[i as int].1.push(callback)),
                    ));
                    assert forall|a: int, b: int|
                        0 <= a < b < self.table().len() implies (#[trigger] self.table()[a]).0 != (
                        #[trigger] self.table()[b]).0 by {
                        assert(self.table()[a].0 == pre[a].0);
                        assert(self.table()[b].0 == pre[b].0);
                    }
                }
            },
            None => {
                let key = String::from_str(event_type);
                let mut callbacks: Vec<C> = Vec::new();
                callbacks.push(callback);
                self.listeners.push((key, callbacks));
                proof {
                    assert(self.table() =~= pre.push((event_type@, seq![callback])));
                    assert forall|a: int, b: int|
                        0 <= a < b < self.table().len() implies (#[trigger] self.table()[a]).0 != (
                        #[trigger] self.table()[b]).0 by {
                        if b < self.table().len() - 1 {
                            assert(self.table()[a].0 == pre[a].0);
                            assert(self.table()[b].0 == pre[b].0);
                        } else {
                            assert(self.table()[a].0 == pre[a].0);
                            assert(self.table()[b].0 == event_type@);
                            if pre[a].0 == event_type@ {
                                assert(table_contains(pre, event_type@));
                            }
                        }
                    }
                }
            },
        }
    }

    /// Drops the whole entry for `event_type`, if any.
    pub fn remove_listener(&mut self, event_type: &str)
        requires
            old(self).wf(),
        ensures
            final(self).wf(),
            table_contains(old(self).table(), event_type@) ==> final(self).table() == old(
                self,
            ).table().remove(table_index(old(self).table(), event_type@)),
            !table_contains(old(self).table(), event_type@) ==> *final(self) == *old(self),
    {
        let ghost pre = self.table();
        match self.find_entry(event_type) {
            Some(i) => {
                proof {
                    lemma_table_index_of(pre, event_type@, i as int);
                }
                let _ = self.listeners.remove(i);
                proof {
                    assert(self.table() =~= pre.remove(i as int));
                    assert forall|a: int, b: int|
                        0 <= a < b < self.table().len() implies (#[trigger] self.table()[a]).0 != (
                        #[trigger] self.table()[b]).0 by {
                        let pa = if a < i {
                            a
                        } else {
                            a + 1
                        };
                        let pb = if b < i {
                            b
                        } else {
                            b + 1
                        };
                        assert(self.table()[a].0 == pre[pa].0);
                        assert(self.table()[b].0 == pre[pb].0);
                    }
                }
            },
            None => {},
        }
    }

    /// The callback tokens registered for `event_type`, in registration
    /// order; the caller invokes them.
    pub fn trigger(&self, event_type: &str) -> (r: Option<&Vec<C>>)
        requires
            self.wf(),
        ensures
            r is Some <==> table_contains(self.table(), event_type@),
            r matches Some(v) ==> v@ == self.table()[table_index(self.table(), event_type@)].1,
    {
        match self.find_entry(event_type) {
            Some(i) => {
                proof {
                    lemma_table_index_of(self.table(), event_type@, i as int);
                }
                Some(&self.listeners[i].1)
            },
            None => None,
        }
    }
}

/// The chosen index of a present event name is the one index holding it.
proof fn lemma_table_index_of<C>(t: Seq<(Seq<char>, Seq<C>)>, name: Seq<char>, i: int)
    requires
        forall|a: int, b: int| 0 <= a < b < t.len() ==> (#[trigger] t[a]).0 != (#[trigger] t[b]).0,
        0 <= i < t.len(),
        t[i].0 == name,
    ensures
        table_contains(t, name),
        table_index(t, name) == i,
{
    assert(table_contains(t, name));
    let j = table_index(t, name);
    if i < j {
        assert(t[i].0 != t[j].0);
    } else if j < i {
        assert(t[j].0 != t[i].0);
    }
}

} // verus!
