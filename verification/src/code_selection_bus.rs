//! A bus that hands code selections of the editor to whoever subscribed.

use vstd::prelude::*;

verus! {

/// A range of text selected in a file, with its content. Lines and columns
/// count from 1.
#[derive(Debug)]
pub struct AddCodeSelection {
    pub file_path: String,
    pub start_line: u32,
    pub start_column: u32,
    pub end_line: u32,
    pub end_column: u32,
    pub content: String,
}

impl Clone for AddCodeSelection {
    fn clone(&self) -> (copy: AddCodeSelection)
        ensures
            copy == *self,
    {
        AddCodeSelection {
            file_path: self.file_path.clone(),
            start_line: self.start_line,
            start_column: self.start_column,
            end_line: self.end_line,
            end_column: self.end_column,
            content: self.content.clone(),
        }
    }
}

/// The event published when code is selected in the editor.
#[derive(Debug)]
pub struct CodeSelectionEvent {
    pub selection: AddCodeSelection,
}

impl Clone for CodeSelectionEvent {
    fn clone(&self) -> (copy: CodeSelectionEvent)
        ensures
            copy == *self,
    {
        CodeSelectionEvent { selection: self.selection.clone() }
    }
}

/// The bus: its subscribers, in the order they subscribed. `F` is the type
/// of the callbacks; a bus of boxed callbacks takes any closure.
pub struct CodeSelectionBus<F: Fn(&CodeSelectionEvent)> {
    subscribers: Vec<F>,
}

impl<F: Fn(&CodeSelectionEvent)> CodeSelectionBus<F> {
    /// The callbacks, in the order they subscribed.
    pub closed spec fn subscribers(&self) -> Seq<F> {
        self.subscribers@
    }

    /// Every subscriber may be called with every event.
    pub open spec fn wf(&self) -> bool {
        forall|i: int, event: CodeSelectionEvent|
            0 <= i < self.subscribers().len() ==> #[trigger] call_requires(
                self.subscribers()[i],
                (&event,),
            )
    }

    /// A bus without subscribers.
    pub fn new() -> (bus: Self)
        ensures
            bus.wf(),
            bus.subscribers().len() == 0,
    {
        CodeSelectionBus { subscribers: Vec::new() }
    }

    /// Adds `callback` behind the subscribers there are.
    pub fn subscribe(&mut self, callback: F)
        requires
            old(self).wf(),
            forall|event: CodeSelectionEvent| call_requires(callback, (&event,)),
        ensures
            final(self).wf(),
            final(self).subscribers() == old(self).subscribers().push(callback),
    {
        self.subscribers.push(callback);
    }

    /// The number of subscribers.
    pub fn subscriber_count(&self) -> (count: usize)
        ensures
            count == self.subscribers().len(),
    {
        self.subscribers.len()
    }

    /// Calls every subscriber with `event`, in the order they subscribed.
    pub fn publish(&self, event: CodeSelectionEvent)
        requires
            self.wf(),
        ensures
            forall|i: int|
                0 <= i < self.subscribers().len() ==> call_ensures(
                    #[trigger] self.subscribers()[i],
                    (&event,),
                    (),
                ),
    {
        let mut i: usize = 0;
        while i < self.subscribers.len()
            invariant
                self.wf(),
                i <= self.subscribers@.len(),
                forall|j: int|
                    0 <= j < i ==> call_ensures(#[trigger] self.subscribers@[j], (&event,), ()),
            decreases self.subscribers.len() - i,
        {
            assert(call_requires(self.subscribers()[i as int], (&event,)));
            (self.subscribers[i])(&event);
            i += 1;
        }
    }
}

} // verus!
