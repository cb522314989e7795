use mqtt_workbench::commands::{resubscribe_plan, SubscriptionAction};

#[test]
fn nothing_happens_while_disconnected_or_inactive() {
    let plan = resubscribe_plan(
        false,
        true,
        "old".to_string(),
        Some("new".to_string()),
        true,
        "new".to_string(),
        1,
    );
    assert!(plan.is_empty());
    let plan = resubscribe_plan(
        true,
        false,
        "old".to_string(),
        Some("new".to_string()),
        true,
        "new".to_string(),
        1,
    );
    assert!(plan.is_empty());
}

#[test]
fn a_changed_topic_is_dropped_then_resubscribed() {
    let plan = resubscribe_plan(
        true,
        true,
        "old".to_string(),
        Some("new".to_string()),
        false,
        "new".to_string(),
        2,
    );
    assert_eq!(plan.len(), 2);
    match &plan[0] {
        SubscriptionAction::Unsubscribe(topic) => assert_eq!(topic, "old"),
        other => panic!("expected an unsubscribe, got {:?}", other),
    }
    match &plan[1] {
        SubscriptionAction::Subscribe(topic, qos) => {
            assert_eq!(topic, "new");
            assert_eq!(*qos, 2);
        }
        other => panic!("expected a subscribe, got {:?}", other),
    }
}

#[test]
fn an_unchanged_topic_resubscribes_only_on_a_qos_change() {
    let quiet = resubscribe_plan(
        true,
        true,
        "t".to_string(),
        Some("t".to_string()),
        false,
        "t".to_string(),
        1,
    );
    assert!(quiet.is_empty());

    let requeued = resubscribe_plan(
        true,
        true,
        "t".to_string(),
        Some("t".to_string()),
        true,
        "t".to_string(),
        2,
    );
    assert_eq!(requeued.len(), 1);
    assert!(matches!(&requeued[0], SubscriptionAction::Subscribe(t, 2) if t == "t"));
}

#[test]
fn a_qos_only_change_resubscribes_the_stored_topic() {
    let plan = resubscribe_plan(true, true, "old".to_string(), None, true, "stored".to_string(), 0);
    assert_eq!(plan.len(), 1);
    assert!(matches!(&plan[0], SubscriptionAction::Subscribe(t, 0) if t == "stored"));

    let quiet = resubscribe_plan(true, true, "old".to_string(), None, false, "stored".to_string(), 0);
    assert!(quiet.is_empty());
}
