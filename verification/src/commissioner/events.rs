//! Commissioner event subscription.

use vstd::prelude::*;

use crate::commissioner::types::{CommissionerEvent, EventView};

verus! {

/// What the channel of a subscription delivers.
#[derive(Debug)]
pub enum Delivery {
    /// The next event.
    Event(CommissionerEvent),
    /// The subscriber fell behind; this many events were dropped.
    Lagged(u64),
    /// The session has ended and every event sent before that was delivered.
    Closed,
}

/// [`Delivery`] over views.
pub enum DeliveryView {
    Event(EventView),
    Lagged(u64),
    Closed,
}

impl View for Delivery {
    type V = DeliveryView;

    open spec fn view(&self) -> DeliveryView {
        match self {
            Delivery::Event(event) => DeliveryView::Event(event@),
            Delivery::Lagged(missed) => DeliveryView::Lagged(*missed),
            Delivery::Closed => DeliveryView::Closed,
        }
    }
}

/// What a subscriber receives for a delivery; `None` ends the stream.
pub open spec fn item(delivery: DeliveryView) -> Option<EventView> {
    match delivery {
        DeliveryView::Event(event) => Some(event),
        DeliveryView::Lagged(missed) => Some(EventView::Lagged { missed }),
        DeliveryView::Closed => None,
    }
}

/// A subscription to a commissioner session's events.
///
/// A subscriber that falls behind receives [`CommissionerEvent::Lagged`] and
/// then continues with the oldest event still buffered.
#[derive(Debug)]
pub struct Events {
    ended: bool,
}

impl View for Events {
    type V = bool;

    /// Whether the stream has ended.
    closed spec fn view(&self) -> bool {
        self.ended
    }
}

impl Events {
    /// A subscription that has not ended.
    pub fn new() -> (events: Self)
        ensures
            !events@,
    {
        Events { ended: false }
    }

    /// Whether the stream has ended.
    pub fn ended(&self) -> (ended: bool)
        ensures
            ended == self@,
    {
        self.ended
    }

    /// The next event for a delivery, or `None` once the session has ended and
    /// every earlier event has been delivered. Nothing follows the end.
    pub fn next(&mut self, delivery: Delivery) -> (event: Option<CommissionerEvent>)
        ensures
            final(self)@ == (old(self)@ || delivery@ is Closed),
            match event {
                Some(event) => !old(self)@ && item(delivery@) == Some(event@),
                None => old(self)@ || item(delivery@) is None,
            },
    {
        if self.ended {
            return None;
        }
        match delivery {
            Delivery::Event(event) => Some(event),
            Delivery::Lagged(missed) => Some(CommissionerEvent::Lagged { missed }),
            Delivery::Closed => {
                self.ended = true;
                None
            },
        }
    }

    /// The subscription for debugging.
    pub fn debug_text(&self) -> (text: String)
        ensures
            text@ == (if self@ {
                "Events { ended: true }"@
            } else {
                "Events { ended: false }"@
            }),
    {
        if self.ended {
            String::from_str("Events { ended: true }")
        } else {
            String::from_str("Events { ended: false }")
        }
    }
}

/// A subscriber receives every event that is delivered, is told how many it
/// missed, and receives nothing for the end.
pub proof fn law_a_subscriber_receives_what_is_delivered(event: EventView, missed: u64)
    ensures
        item(DeliveryView::Event(event)) == Some(event),
        item(DeliveryView::Lagged(missed)) == Some(EventView::Lagged { missed }),
        item(DeliveryView::Closed) is None,
{
}

} // verus!
