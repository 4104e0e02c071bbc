use event_source::{translate, EsError, EsEvent, Notification};

fn message(text: &str) -> Notification {
    Notification::Message { text: Some(text.to_string()), rendering: String::new() }
}

#[test]
fn open_notification_becomes_opened() {
    assert_eq!(translate(Notification::Open), EsEvent::Opened);
}

#[test]
fn textual_message_keeps_its_text() {
    assert_eq!(translate(message("hello")), EsEvent::Message("hello".to_string()));
}

#[test]
fn textual_message_ignores_the_rendering() {
    let notification = Notification::Message {
        text: Some("data: 1".to_string()),
        rendering: "JsValue(\"data: 1\")".to_string(),
    };
    assert_eq!(translate(notification), EsEvent::Message("data: 1".to_string()));
}

#[test]
fn empty_textual_message_stays_empty() {
    assert_eq!(translate(message("")), EsEvent::Message(String::new()));
}

#[test]
fn textual_message_keeps_every_character() {
    let text = "line one\nline two \u{1F980} \u{00E9}\t\"quoted\"";
    assert_eq!(translate(message(text)), EsEvent::Message(text.to_string()));
}

#[test]
fn non_text_message_takes_the_rendering() {
    let notification = Notification::Message {
        text: None,
        rendering: "JsValue(Object({\"a\":1}))".to_string(),
    };
    assert_eq!(
        translate(notification),
        EsEvent::Message("JsValue(Object({\"a\":1}))".to_string())
    );
}

#[test]
fn non_text_message_without_rendering_is_not_empty() {
    let notification = Notification::Message { text: None, rendering: String::new() };
    let event = translate(notification);
    assert_eq!(event, EsEvent::Message("[non-text payload]".to_string()));
    match event {
        EsEvent::Message(body) => assert!(!body.is_empty()),
        other => panic!("a message became {:?}", other),
    }
}

#[test]
fn error_notification_keeps_its_rendering() {
    let notification = Notification::Error { rendering: "JsValue(Event)".to_string() };
    assert_eq!(translate(notification), EsEvent::Error("JsValue(Event)".to_string()));
}

#[test]
fn error_notification_may_be_empty() {
    let notification = Notification::Error { rendering: String::new() };
    assert_eq!(translate(notification), EsEvent::Error(String::new()));
}

#[test]
fn events_and_notifications_clone_equal() {
    let event = EsEvent::Message("hello".to_string());
    assert_eq!(event.clone(), event);
    assert_eq!(EsEvent::Opened.clone(), EsEvent::Opened);
    assert_eq!(EsEvent::Error("e".to_string()).clone(), EsEvent::Error("e".to_string()));
    let notification = Notification::Message { text: None, rendering: "r".to_string() };
    assert_eq!(notification.clone(), notification);
    assert_eq!(Notification::Open.clone(), Notification::Open);
    let error = Notification::Error { rendering: "x".to_string() };
    assert_eq!(error.clone(), error);
    assert_ne!(message("a").clone(), message("b"));
}

#[test]
fn acquisition_failure_has_its_message() {
    assert_eq!(EsError::AcquisitionFailed.message(), "couldn't aquire event source");
    assert_eq!(EsError::AcquisitionFailed, EsError::AcquisitionFailed.clone());
}
