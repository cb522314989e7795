use mqtt_workbench::models::{
    CommandTemplate, CreateTemplateRequest, MessageHistory, MqttServer, Subscription,
    UpdateTemplateRequest,
};
use mqtt_workbench::store::AppData;

fn server(name: &str) -> MqttServer {
    MqttServer {
        id: None,
        name: name.to_string(),
        host: "localhost".to_string(),
        port: 1883,
        protocol_version: "3.1.1".to_string(),
        username: None,
        password: None,
        client_id: None,
        keep_alive: 60,
        clean_session: true,
        use_tls: false,
        ca_cert: None,
        client_cert: None,
        client_key: None,
        client_key_password: None,
        created_at: None,
        updated_at: None,
    }
}

fn subscription(server_id: i64, topic: &str) -> Subscription {
    Subscription {
        id: None,
        server_id,
        topic: topic.to_string(),
        qos: 1,
        is_active: true,
        created_at: None,
    }
}

fn message(server_id: i64, topic: &str) -> MessageHistory {
    MessageHistory {
        id: None,
        server_id,
        direction: "receive".to_string(),
        topic: topic.to_string(),
        payload: Some("x".to_string()),
        payload_format: Some("text".to_string()),
        qos: 0,
        retain: false,
        created_at: None,
    }
}

fn template_request(server_id: i64, name: &str) -> CreateTemplateRequest {
    CreateTemplateRequest {
        server_id,
        name: name.to_string(),
        topic: "cmd".to_string(),
        payload: "{}".to_string(),
        payload_type: "json".to_string(),
        qos: 1,
        retain: false,
        description: None,
        category: Some("ops".to_string()),
    }
}

#[test]
fn created_servers_get_sequential_ids_and_timestamps() {
    let mut data = AppData::default();
    let first = data.create_server(server("a"));
    let second = data.create_server(server("b"));
    assert_eq!(first, 1);
    assert_eq!(second, 2);
    let stored = data.get_server(1).expect("first server");
    assert_eq!(stored.name, "a");
    assert!(stored.created_at.is_some());
    assert_eq!(stored.created_at, stored.updated_at);
    assert!(data.get_server(3).is_none());
    assert_eq!(data.get_servers().len(), 2);
}

#[test]
fn update_server_replaces_the_matching_record() {
    let mut data = AppData::default();
    let id = data.create_server(server("before"));
    let mut changed = server("after");
    changed.id = Some(id);
    changed.port = 8883;
    data.update_server(changed);
    let stored = data.get_server(id).expect("server");
    assert_eq!(stored.name, "after");
    assert_eq!(stored.port, 8883);
    assert!(stored.updated_at.is_some());

    // An unknown id changes nothing.
    let mut ghost = server("ghost");
    ghost.id = Some(99);
    data.update_server(ghost);
    assert_eq!(data.get_servers().len(), 1);
    assert!(data.get_server(99).is_none());
}

#[test]
fn delete_server_drops_its_subscriptions_and_history_too() {
    let mut data = AppData::default();
    let kept = data.create_server(server("kept"));
    let gone = data.create_server(server("gone"));
    data.create_subscription(subscription(kept, "k/1"));
    data.create_subscription(subscription(gone, "g/1"));
    data.create_message(message(kept, "k/m"));
    data.create_message(message(gone, "g/m"));

    data.delete_server(gone);

    assert!(data.get_server(gone).is_none());
    assert!(data.get_server(kept).is_some());
    assert_eq!(data.get_subscriptions(kept).len(), 1);
    assert_eq!(data.get_subscriptions(gone).len(), 0);
    assert_eq!(data.get_messages(kept, 100).len(), 1);
    assert_eq!(data.get_messages(gone, 100).len(), 0);
}

#[test]
fn subscriptions_are_keyed_and_toggled() {
    let mut data = AppData::default();
    let stored = data.create_subscription(subscription(1, "t/1"));
    assert_eq!(stored.id, Some(1));
    assert!(stored.is_active);
    assert!(stored.created_at.is_some());

    data.update_subscription_status(1, false);
    assert!(!data.get_subscriptions(1)[0].is_active);

    data.delete_subscription(1);
    assert!(data.get_subscriptions(1).is_empty());
}

#[test]
fn message_history_is_capped_at_a_thousand_per_server() {
    let mut data = AppData::default();
    for _ in 0..1002 {
        data.create_message(message(1, "busy"));
    }
    data.create_message(message(2, "quiet"));

    let busy = data.get_messages(1, 2000);
    assert_eq!(busy.len(), 1000);
    // The two oldest entries of the busy broker were dropped.
    assert_eq!(busy.last().unwrap().id, Some(3));
    // The newest entry comes first.
    assert_eq!(busy[0].id, Some(1002));
    // The other broker's history is untouched.
    assert_eq!(data.get_messages(2, 2000).len(), 1);
}

#[test]
fn get_messages_returns_the_newest_first_up_to_the_limit() {
    let mut data = AppData::default();
    for i in 0..5 {
        let mut m = message(1, "t");
        m.payload = Some(format!("p{}", i));
        data.create_message(m);
    }
    let recent = data.get_messages(1, 3);
    assert_eq!(recent.len(), 3);
    assert_eq!(recent[0].id, Some(5));
    assert_eq!(recent[1].id, Some(4));
    assert_eq!(recent[2].id, Some(3));

    let all = data.get_messages(1, 100);
    assert_eq!(all.len(), 5);
}

#[test]
fn clear_messages_only_touches_the_given_server() {
    let mut data = AppData::default();
    data.create_message(message(1, "a"));
    data.create_message(message(2, "b"));
    data.clear_messages(1);
    assert!(data.get_messages(1, 10).is_empty());
    assert_eq!(data.get_messages(2, 10).len(), 1);
}

#[test]
fn templates_are_created_updated_and_used() {
    let mut data = AppData::default();
    let id = data.create_template(template_request(1, "ping"));
    assert_eq!(id, 1);
    {
        let stored = data.get_template(id).expect("template");
        assert_eq!(stored.name, "ping");
        assert_eq!(stored.use_count, 0);
        assert!(stored.last_used_at.is_none());
    }

    data.update_template(UpdateTemplateRequest {
        id,
        name: Some("ping2".to_string()),
        topic: None,
        payload: None,
        payload_type: None,
        qos: Some(2),
        retain: None,
        description: Some("round trip".to_string()),
        category: None,
    });
    {
        let stored = data.get_template(id).expect("template");
        assert_eq!(stored.name, "ping2");
        assert_eq!(stored.qos, 2);
        assert_eq!(stored.topic, "cmd");
        assert_eq!(stored.description.as_deref(), Some("round trip"));
        assert_eq!(stored.category.as_deref(), Some("ops"));
    }

    data.increment_template_use_count(id);
    data.increment_template_use_count(id);
    let stored = data.get_template(id).expect("template");
    assert_eq!(stored.use_count, 2);
    assert!(stored.last_used_at.is_some());

    data.delete_template(id);
    assert!(data.get_template(id).is_none());
}

#[test]
fn duplicate_template_copies_content_under_a_new_name() {
    let mut data = AppData::default();
    let id = data.create_template(template_request(1, "orig"));
    data.increment_template_use_count(id);
    let copy_id = data.duplicate_template(id, "copy".to_string()).expect("copy");
    assert_eq!(copy_id, 2);
    let copy = data.get_template(copy_id).expect("copy record");
    assert_eq!(copy.name, "copy");
    assert_eq!(copy.topic, "cmd");
    assert_eq!(copy.use_count, 0);
    assert!(data.duplicate_template(99, "nope".to_string()).is_err());
}

#[test]
fn import_templates_copies_them_onto_the_broker() {
    let mut data = AppData::default();
    let imports: Vec<CommandTemplate> = vec![
        CommandTemplate {
            id: Some(77),
            server_id: 9,
            name: "one".to_string(),
            topic: "t1".to_string(),
            payload: "p1".to_string(),
            payload_type: "text".to_string(),
            qos: 0,
            retain: false,
            description: None,
            category: None,
            use_count: 5,
            last_used_at: Some("then".to_string()),
            created_at: None,
            updated_at: None,
        },
        CommandTemplate {
            id: None,
            server_id: 9,
            name: "two".to_string(),
            topic: "t2".to_string(),
            payload: "p2".to_string(),
            payload_type: "text".to_string(),
            qos: 1,
            retain: true,
            description: Some("d".to_string()),
            category: Some("c".to_string()),
            use_count: 0,
            last_used_at: None,
            created_at: None,
            updated_at: None,
        },
    ];
    let imported = data.import_templates(3, imports);
    assert_eq!(imported, 2);
    let stored = data.get_templates(3);
    assert_eq!(stored.len(), 2);
    assert_eq!(stored[0].name, "one");
    assert_eq!(stored[0].id, Some(1));
    assert_eq!(stored[0].use_count, 0);
    assert_eq!(stored[1].name, "two");
    assert_eq!(stored[1].id, Some(2));
    assert_eq!(stored[1].server_id, 3);
}

#[test]
fn default_is_active_flag_is_true() {
    assert!(mqtt_workbench::default_true());
}

#[test]
fn deleted_ids_are_never_reused() {
    let mut data = AppData::default();
    let first = data.create_server(server("a"));
    let second = data.create_server(server("b"));
    data.delete_server(first);
    let third = data.create_server(server("c"));
    assert_eq!((first, second, third), (1, 2, 3));
    assert!(data.get_server(first).is_none());
    assert_eq!(data.get_server(third).unwrap().name, "c");
}

#[test]
fn update_subscription_edits_topic_and_qos() {
    let mut data = AppData::default();
    data.create_subscription(subscription(1, "old/topic"));
    let updated = data
        .update_subscription(mqtt_workbench::models::UpdateSubscriptionRequest {
            id: 1,
            topic: Some("new/topic".to_string()),
            qos: Some(2),
        })
        .expect("subscription");
    assert_eq!(updated.topic, "new/topic");
    assert_eq!(updated.qos, 2);
    assert!(updated.is_active);
    let stored = data.get_subscriptions(1);
    assert_eq!(stored[0].topic, "new/topic");
    assert_eq!(stored[0].qos, 2);

    // A qos-only edit keeps the topic; an unknown id fails.
    let updated = data
        .update_subscription(mqtt_workbench::models::UpdateSubscriptionRequest {
            id: 1,
            topic: None,
            qos: Some(0),
        })
        .expect("subscription");
    assert_eq!(updated.topic, "new/topic");
    assert_eq!(updated.qos, 0);
    assert!(data
        .update_subscription(mqtt_workbench::models::UpdateSubscriptionRequest {
            id: 99,
            topic: None,
            qos: None,
        })
        .is_err());
}

#[test]
fn template_categories_are_sorted_distinct_and_complete() {
    let mut data = AppData::default();
    let mut named = |name: &str, category: Option<&str>| {
        let mut req = template_request(1, name);
        req.category = category.map(|c| c.to_string());
        data.create_template(req);
    };
    named("a", Some("ops"));
    named("b", Some("alerts"));
    named("c", Some("ops"));
    named("d", None);
    let categories = data.get_template_categories(1);
    assert_eq!(categories, vec!["alerts".to_string(), "ops".to_string()]);
    assert!(data.get_template_categories(2).is_empty());
}

fn script_request(server_id: i64, name: &str, enabled: bool) -> mqtt_workbench::models::CreateScriptRequest {
    mqtt_workbench::models::CreateScriptRequest {
        server_id,
        name: name.to_string(),
        script_type: "before_publish".to_string(),
        code: "payload".to_string(),
        enabled,
        description: None,
    }
}

#[test]
fn scripts_are_created_updated_and_toggled() {
    let mut data = AppData::default();
    let id = data.create_script(script_request(1, "uppercase", true));
    assert_eq!(id, 1);
    {
        let stored = data.get_script(id).expect("script");
        assert_eq!(stored.name, "uppercase");
        assert!(stored.enabled);
        assert_eq!(stored.created_at, stored.updated_at);
    }

    data.update_script(mqtt_workbench::models::UpdateScriptRequest {
        id,
        name: Some("uppercase2".to_string()),
        code: Some("payload2".to_string()),
        enabled: None,
        description: Some("loud".to_string()),
    });
    {
        let stored = data.get_script(id).expect("script");
        assert_eq!(stored.name, "uppercase2");
        assert_eq!(stored.code, "payload2");
        assert!(stored.enabled);
        assert_eq!(stored.description.as_deref(), Some("loud"));
    }

    data.toggle_script(id, false);
    assert!(!data.get_script(id).expect("script").enabled);

    data.delete_script(id);
    assert!(data.get_script(id).is_none());
}

#[test]
fn enabled_scripts_filter_by_broker_type_and_flag() {
    let mut data = AppData::default();
    data.create_script(script_request(1, "on", true));
    data.create_script(script_request(1, "off", false));
    data.create_script(script_request(2, "other broker", true));
    let mut receive = script_request(1, "receive side", true);
    receive.script_type = "after_receive".to_string();
    data.create_script(receive);

    assert_eq!(data.get_scripts(1).len(), 3);
    let enabled = data.get_enabled_scripts(1, "before_publish");
    assert_eq!(enabled.len(), 1);
    assert_eq!(enabled[0].name, "on");
    assert_eq!(data.get_enabled_scripts(1, "after_receive").len(), 1);
    assert_eq!(data.get_enabled_scripts(2, "after_receive").len(), 0);
}
