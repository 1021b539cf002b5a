//! What the connection with a remote peer tells the session.
use crate::input::FrameInput;
use crate::time_sync::Nanos;
use vstd::prelude::*;

verus! {

/// Something that has happened on the connection with a remote peer.
#[derive(Debug)]
pub enum Event<T> {
    /// The remote peer has answered for the first time.
    Connected,
    /// The remote peer has answered once more.
    Synchronizing { total: u8, count: u8 },
    /// The remote peer has answered often enough.
    Synchronized,
    /// Inputs of the remote peer have come.
    Inputs(Vec<FrameInput<T>>),
    /// Nothing has come from the remote peer for a while.
    NetworkInterrupted { disconnect_timeout: Nanos },
    /// Something has come from the remote peer again.
    NetworkResumed,
}

/// What has happened, by its contents.
pub enum EventView<T> {
    Connected,
    Synchronizing { total: u8, count: u8 },
    Synchronized,
    Inputs(Seq<FrameInput<T>>),
    NetworkInterrupted { disconnect_timeout: Nanos },
    NetworkResumed,
}

impl<T> View for Event<T> {
    type V = EventView<T>;

    open spec fn view(&self) -> EventView<T> {
        match *self {
            Event::Connected => EventView::Connected,
            Event::Synchronizing { total, count } => EventView::Synchronizing { total, count },
            Event::Synchronized => EventView::Synchronized,
            Event::Inputs(inputs) => EventView::Inputs(inputs@),
            Event::NetworkInterrupted { disconnect_timeout } => EventView::NetworkInterrupted {
                disconnect_timeout,
            },
            Event::NetworkResumed => EventView::NetworkResumed,
        }
    }
}

/// An event tells what it holds.
pub proof fn law_events_tell_what_they_hold<T>(event: Event<T>)
    ensures
        match event {
            Event::Connected => event@ == EventView::<T>::Connected,
            Event::Synchronizing { total, count } => event@ == (EventView::<T>::Synchronizing {
                total,
                count,
            }),
            Event::Synchronized => event@ == EventView::<T>::Synchronized,
            Event::Inputs(inputs) => event@ == EventView::Inputs(inputs@),
            Event::NetworkInterrupted { disconnect_timeout } => event@ == (EventView::<
                T,
            >::NetworkInterrupted { disconnect_timeout }),
            Event::NetworkResumed => event@ == EventView::<T>::NetworkResumed,
        },
{
}

} // verus!
