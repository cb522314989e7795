//! Decisions of the command surface that go beyond one facade call.
//!
//! Editing a stored subscription may change its topic or its quality of
//! service; when the broker is connected and the subscription active, the
//! live session must follow. [`resubscribe_plan`] decides which engine
//! requests that takes; the shell performs them in order.

use vstd::prelude::*;

use crate::payload::str_eq;

verus! {

/// One engine request that keeps a live session in step with an edited
/// subscription.
#[derive(Debug, Clone)]
pub enum SubscriptionAction {
    /// Drop the subscription on the given topic.
    Unsubscribe(String),
    /// Subscribe to the given topic at the given quality of service.
    Subscribe(String, u8),
}

/// The engine requests an edited subscription takes, in order.
///
/// Nothing is done unless the broker is connected and the subscription
/// active. A changed topic drops the old one and subscribes to the new; an
/// unchanged topic resubscribes only when the quality of service changed; a
/// request that named no topic resubscribes the stored topic when the
/// quality of service changed.
pub fn resubscribe_plan(
    connected: bool,
    is_active: bool,
    old_topic: String,
    new_topic: Option<String>,
    qos_changed: bool,
    current_topic: String,
    current_qos: u8,
) -> (r: Vec<SubscriptionAction>)
    ensures
        !(connected && is_active) ==> r@ == Seq::<SubscriptionAction>::empty(),
        connected && is_active ==> match new_topic {
            Some(t) => {
                if t@ != old_topic@ {
                    &&& r@.len() == 2
                    &&& r@[0] == SubscriptionAction::Unsubscribe(old_topic)
                    &&& r@[1] == SubscriptionAction::Subscribe(t, current_qos)
                } else if qos_changed {
                    r@ == seq![SubscriptionAction::Subscribe(t, current_qos)]
                } else {
                    r@ == Seq::<SubscriptionAction>::empty()
                }
            },
            None => {
                if qos_changed {
                    r@ == seq![SubscriptionAction::Subscribe(current_topic, current_qos)]
                } else {
                    r@ == Seq::<SubscriptionAction>::empty()
                }
            },
        },
{
    let mut actions: Vec<SubscriptionAction> = Vec::new();
    if connected && is_active {
        match new_topic {
            Some(topic) => {
                if !str_eq(topic.as_str(), old_topic.as_str()) {
                    actions.push(SubscriptionAction::Unsubscribe(old_topic));
                    actions.push(SubscriptionAction::Subscribe(topic, current_qos));
                } else if qos_changed {
                    actions.push(SubscriptionAction::Subscribe(topic, current_qos));
                }
            },
            None => {
                if qos_changed {
                    actions.push(SubscriptionAction::Subscribe(current_topic, current_qos));
                }
            },
        }
    }
    actions
}

} // verus!
