use irc_suite::app::{may_open_a_window, next_window_id, now_stamp, IrcApp, Msg, WindowId};
use irc_suite::text::display_text;
use irc_suite::command::ClientCommand;
use irc_suite::event::{ClientEvent, NetworkId};

fn msg(net: u64, target: &[u8], from: &[u8], text: &[u8]) -> Msg {
    Msg::IrcEvent(ClientEvent::Message {
        network: NetworkId(net),
        target: target.to_vec(),
        from: from.to_vec(),
        text: text.to_vec(),
    })
}

#[test]
fn first_window_takes_focus_and_is_reused() {
    let mut app = IrcApp::new();
    assert!(app.update(msg(1, b"#a", b"x", b"one")).is_none());
    let first = app.active_window().unwrap();
    app.update(msg(1, b"#b", b"x", b"two"));
    app.update(msg(1, b"#a", b"y", b"three"));
    assert_eq!(app.active_window(), Some(first));
    let w = app.window(first).unwrap();
    assert_eq!(w.target, b"#a".to_vec());
    assert_eq!(w.messages.len(), 2);
    assert_eq!(w.messages[1].from, "y");
    assert_eq!(w.messages[1].text, "three");
    assert_eq!(w.messages[1].timestamp, "--:--");
    assert!(!w.messages[1].is_action);
    let info = app.networks().get(&1).unwrap();
    assert_eq!(info.name, "Network 1");
    assert_eq!(info.windows.len(), 2);
}

#[test]
fn notice_is_prefixed() {
    let mut app = IrcApp::new();
    app.update(Msg::IrcEvent(ClientEvent::Notice {
        network: NetworkId(2),
        target: b"bob".to_vec(),
        from: b"bob".to_vec(),
        text: b"psst".to_vec(),
    }));
    let w = app.window(app.active_window().unwrap()).unwrap();
    assert_eq!(w.messages[0].text, "-NOTICE- psst");
}

#[test]
fn join_and_part_track_nicks() {
    let mut app = IrcApp::new();
    let join = |n: &[u8]| {
        Msg::IrcEvent(ClientEvent::Join { network: NetworkId(1), channel: b"#c".to_vec(), nick: n.to_vec() })
    };
    app.update(join(b"ann"));
    app.update(join(b"ann"));
    app.update(join(b"ben"));
    let id = app.active_window().unwrap();
    assert_eq!(app.window(id).unwrap().nicks, vec!["ann".to_string(), "ben".to_string()]);
    assert_eq!(app.window(id).unwrap().messages[0].text, "ann has joined");
    assert_eq!(app.window(id).unwrap().messages[0].from, "***");
    app.update(Msg::IrcEvent(ClientEvent::Part {
        network: NetworkId(1),
        channel: b"#c".to_vec(),
        nick: b"ann".to_vec(),
        reason: Some(b"bye".to_vec()),
    }));
    app.update(Msg::IrcEvent(ClientEvent::Part {
        network: NetworkId(1),
        channel: b"#c".to_vec(),
        nick: b"ben".to_vec(),
        reason: None,
    }));
    let w = app.window(id).unwrap();
    assert!(w.nicks.is_empty());
    assert_eq!(w.messages[3].text, "ann has left (bye)");
    assert_eq!(w.messages[4].text, "ben has left");
    assert!(w.messages[4].is_action);
}

#[test]
fn topic_and_registration() {
    let mut app = IrcApp::new();
    app.update(Msg::IrcEvent(ClientEvent::Connected { network: NetworkId(42) }));
    assert_eq!(app.networks().get(&42).unwrap().name, "Network 42");
    app.update(Msg::IrcEvent(ClientEvent::Registered { network: NetworkId(42), nick: b"me".to_vec() }));
    assert_eq!(app.networks().get(&42).unwrap().name, "me");
    app.update(Msg::IrcEvent(ClientEvent::TopicChange {
        network: NetworkId(42),
        channel: b"#t".to_vec(),
        topic: b"hello".to_vec(),
    }));
    let w = app.window(app.active_window().unwrap()).unwrap();
    assert_eq!(w.topic.as_deref(), Some("hello"));
}

#[test]
fn submit_sends_privmsg_and_clears_input() {
    let mut app = IrcApp::new();
    assert!(app.update(Msg::InputChanged("hi".into())).is_none());
    // Nothing is focused yet: nothing is sent, but the bar is cleared.
    assert!(app.update(Msg::InputSubmit).is_none());
    assert_eq!(app.input_value(), "");
    app.update(msg(3, b"#z", b"x", b"y"));
    app.update(Msg::InputChanged("hello".into()));
    match app.update(Msg::InputSubmit) {
        Some(ClientCommand::SendPrivmsg { network, target, text }) => {
            assert_eq!(network, NetworkId(3));
            assert_eq!(target, b"#z".to_vec());
            assert_eq!(text, b"hello".to_vec());
        }
        other => panic!("unexpected {other:?}"),
    }
    assert_eq!(app.input_value(), "");
    assert!(app.update(Msg::InputSubmit).is_none());
}

#[test]
fn selecting_unknown_window_is_ignored() {
    let mut app = IrcApp::new();
    app.update(msg(1, b"#a", b"x", b"1"));
    app.update(msg(1, b"#b", b"x", b"2"));
    let first = app.active_window().unwrap();
    app.update(Msg::WindowSelected(WindowId(999)));
    assert_eq!(app.active_window(), Some(first));
    let second = WindowId(first.0 + 1);
    app.update(Msg::WindowSelected(second));
    assert_eq!(app.active_window(), Some(second));
    assert!(app.update(Msg::ConnectPressed).is_none());
    assert!(app.update(Msg::Noop).is_none());
}

#[test]
fn ignored_events_change_nothing() {
    let mut app = IrcApp::new();
    app.update(Msg::IrcEvent(ClientEvent::Disconnected { network: NetworkId(1), reason: "eof".into() }));
    app.update(Msg::IrcEvent(ClientEvent::Quit { network: NetworkId(1) }));
    assert!(app.networks().is_empty());
    assert!(app.active_window().is_none());
}

#[test]
fn helpers() {
    let mut c = 5u64;
    assert_eq!(next_window_id(&mut c), WindowId(5));
    assert_eq!(c, 6);
    let mut top = u64::MAX;
    assert_eq!(next_window_id(&mut top), WindowId(u64::MAX));
    assert_eq!(top, 0);
    assert_eq!(now_stamp(), "--:--");
}

#[test]
fn network_names_count_in_decimal() {
    let mut app = IrcApp::new();
    for id in [0u64, 7, 1234, u64::MAX] {
        app.update(Msg::IrcEvent(ClientEvent::Connected { network: NetworkId(id) }));
        assert_eq!(app.networks().get(&id).unwrap().name, format!("Network {id}"));
    }
}

#[test]
fn wire_bytes_are_decoded_lossily() {
    let mut app = IrcApp::new();
    app.update(msg(1, b"#u", b"caf\xc3\xa9", b"a\xffb"));
    let w = app.window(app.active_window().unwrap()).unwrap();
    assert_eq!(w.messages[0].from, "café");
    assert_eq!(w.messages[0].text, "a\u{fffd}b");
}

#[test]
fn window_ids_count_up_and_lists_match_windows() {
    let mut app = IrcApp::new();
    app.update(msg(1, b"#a", b"x", b"one"));
    app.update(msg(2, b"#b", b"x", b"two"));
    app.update(msg(1, b"#c", b"x", b"three"));
    app.update(msg(1, b"#a", b"x", b"four"));
    let ids: Vec<u64> = [1u64, 2, 3].iter().map(|&k| app.window(WindowId(k)).unwrap().id.0).collect();
    assert_eq!(ids, vec![1, 2, 3]);
    assert!(app.window(WindowId(4)).is_none());
    let one: Vec<(u64, Vec<u8>)> =
        app.networks().get(&1).unwrap().windows.iter().map(|r| (r.id.0, r.target.clone())).collect();
    assert_eq!(one, vec![(1, b"#a".to_vec()), (3, b"#c".to_vec())]);
    let two: Vec<u64> = app.networks().get(&2).unwrap().windows.iter().map(|r| r.id.0).collect();
    assert_eq!(two, vec![2]);
}

#[test]
fn events_keep_scrollback_focus_and_input() {
    let mut app = IrcApp::new();
    app.update(msg(1, b"#a", b"x", b"one"));
    app.update(Msg::InputChanged("draft".to_string()));
    let focus = app.active_window();
    app.update(msg(1, b"#b", b"y", b"two"));
    app.update(msg(1, b"#a", b"z", b"three"));
    assert_eq!(app.active_window(), focus);
    assert_eq!(app.input_value(), "draft");
    let texts: Vec<String> =
        app.window(focus.unwrap()).unwrap().messages.iter().map(|m| m.text.clone()).collect();
    assert_eq!(texts, vec!["one".to_string(), "three".to_string()]);
}

#[test]
fn topic_bar_and_highlight() {
    let mut app = IrcApp::new();
    assert_eq!(app.topic_text(), "No topic");
    app.update(msg(1, b"#a", b"x", b"one"));
    let id = app.active_window().unwrap();
    assert_eq!(app.topic_text(), "No topic");
    app.update(Msg::IrcEvent(ClientEvent::TopicChange {
        network: NetworkId(1),
        channel: b"#a".to_vec(),
        topic: b"hello".to_vec(),
    }));
    assert_eq!(app.topic_text(), "hello");
    assert!(app.is_active_window(id));
    assert!(!app.is_active_window(WindowId(id.0 + 1)));
}

#[test]
fn window_opening_messages_and_counter_room() {
    let app = IrcApp::new();
    assert!(app.can_open_window());
    assert!(may_open_a_window(&msg(1, b"#a", b"x", b"y")));
    assert!(!may_open_a_window(&Msg::InputSubmit));
    assert!(!may_open_a_window(&Msg::IrcEvent(ClientEvent::Connected { network: NetworkId(1) })));
}

#[test]
fn display_text_decodes_valid_utf8_unchanged() {
    assert_eq!(display_text("héllo".as_bytes()), "héllo");
    assert_eq!(display_text(b"x\xffy"), "x\u{fffd}y");
}
