use irc_suite::messaging::{
    handle_notice, handle_privmsg, is_channel_target, message_line, Channel, Outbound, Reply,
    TextVerb,
};
use irc_suite::state::{ServerState, User, UserId};

struct World {
    state: ServerState<()>,
    alice: User,
    bob: User,
    carol: User,
}

fn world() -> World {
    let mut state = ServerState::new(());
    let a = state.next_user_id();
    let b = state.next_user_id();
    let c = state.next_user_id();
    let alice = User { id: a, nick: Some(b"Alice".to_vec()), registered: true };
    let bob = User { id: b, nick: Some(b"Bob".to_vec()), registered: true };
    let carol = User { id: c, nick: Some(b"Carol".to_vec()), registered: true };
    for u in [&alice, &bob, &carol] {
        state.insert_user(u.snapshot());
        state.claim_nick(u.id, u.nick.as_ref().unwrap()).unwrap();
    }
    World { state, alice, bob, carol }
}

fn channels(w: &World) -> Vec<Channel> {
    vec![Channel::new(b"#Rust".to_vec(), vec![w.alice.id, w.bob.id])]
}

fn reply_of(o: &Outbound) -> Option<(u16, Vec<u8>)> {
    match o {
        Outbound::Reply(r) => {
            let param = match r {
                Reply::NotRegistered => Vec::new(),
                Reply::NoSuchNick(n) | Reply::NoSuchChannel(n) | Reply::CannotSendToChan(n) => {
                    n.clone()
                }
            };
            Some((r.code(), param))
        }
        _ => None,
    }
}

#[test]
fn privmsg_to_nick_uses_recipients_own_case() {
    let w = world();
    let out = handle_privmsg(&w.state, &channels(&w), &w.alice, &b"Alice".to_vec(), vec![b"bob".to_vec()], &b"hi".to_vec());
    assert_eq!(out.len(), 1);
    match &out[0] {
        Outbound::Send { to, line } => {
            assert_eq!(*to, w.bob.id);
            assert_eq!(line.target, b"Bob".to_vec());
            assert_eq!(line.origin, b"Alice".to_vec());
            assert_eq!(line.text, b"hi".to_vec());
            assert_eq!(line.verb, TextVerb::Privmsg);
        }
        _ => panic!("expected a send"),
    }
}

#[test]
fn privmsg_to_unknown_nick_is_401() {
    let w = world();
    let out = handle_privmsg(&w.state, &channels(&w), &w.alice, &b"Alice".to_vec(), vec![b"dave".to_vec()], &b"hi".to_vec());
    assert_eq!(out.len(), 1);
    assert_eq!(reply_of(&out[0]), Some((401, b"dave".to_vec())));
}

#[test]
fn notice_to_unknown_targets_is_silent() {
    let w = world();
    let out = handle_notice(
        &w.state,
        &channels(&w),
        &w.alice,
        &b"Alice".to_vec(),
        vec![b"dave".to_vec(), b"#nowhere".to_vec()],
        &b"hi".to_vec(),
    );
    assert!(out.is_empty());
}

#[test]
fn unregistered_sender_gets_451_for_privmsg_only() {
    let w = world();
    let mut stranger = w.carol.snapshot();
    stranger.registered = false;
    let out = handle_privmsg(&w.state, &channels(&w), &stranger, &b"Carol".to_vec(), vec![b"bob".to_vec()], &b"hi".to_vec());
    assert_eq!(out.len(), 1);
    assert_eq!(reply_of(&out[0]), Some((451, Vec::new())));
    let out = handle_notice(&w.state, &channels(&w), &stranger, &b"Carol".to_vec(), vec![b"bob".to_vec()], &b"hi".to_vec());
    assert!(out.is_empty());
}

#[test]
fn channel_message_skips_sender() {
    let w = world();
    let out = handle_privmsg(&w.state, &channels(&w), &w.alice, &b"Alice".to_vec(), vec![b"#rust".to_vec()], &b"yo".to_vec());
    assert_eq!(out.len(), 1);
    match &out[0] {
        Outbound::Broadcast { recipients, line } => {
            assert_eq!(recipients, &vec![w.bob.id]);
            assert_eq!(line.target, b"#Rust".to_vec());
        }
        _ => panic!("expected a broadcast"),
    }
}

#[test]
fn non_member_gets_404_with_canonical_name() {
    let w = world();
    let out = handle_privmsg(&w.state, &channels(&w), &w.carol, &b"Carol".to_vec(), vec![b"#RUST".to_vec()], &b"yo".to_vec());
    assert_eq!(reply_of(&out[0]), Some((404, b"#Rust".to_vec())));
}

#[test]
fn missing_channel_is_403() {
    let w = world();
    let out = handle_privmsg(&w.state, &channels(&w), &w.alice, &b"Alice".to_vec(), vec![b"&ops".to_vec()], &b"yo".to_vec());
    assert_eq!(reply_of(&out[0]), Some((403, b"&ops".to_vec())));
}

#[test]
fn each_target_is_routed_in_order() {
    let w = world();
    let out = handle_privmsg(
        &w.state,
        &channels(&w),
        &w.alice,
        &b"Alice".to_vec(),
        vec![b"carol".to_vec(), b"nobody".to_vec(), b"#rust".to_vec()],
        &b"hey".to_vec(),
    );
    assert_eq!(out.len(), 3);
    assert!(matches!(&out[0], Outbound::Send { to, .. } if *to == w.carol.id));
    assert_eq!(reply_of(&out[1]), Some((401, b"nobody".to_vec())));
    assert!(matches!(&out[2], Outbound::Broadcast { .. }));
}

#[test]
fn reply_texts() {
    assert_eq!(Reply::NotRegistered.text(), "You have not registered");
    assert_eq!(Reply::NoSuchNick(vec![]).text(), "No such nick/channel");
    assert_eq!(Reply::NoSuchChannel(vec![]).text(), "No such channel");
    assert_eq!(Reply::CannotSendToChan(vec![]).text(), "Cannot send to channel");
}

#[test]
fn verbs_and_channel_prefixes() {
    assert_eq!(TextVerb::Privmsg.word(), b"PRIVMSG".to_vec());
    assert_eq!(TextVerb::Notice.word(), b"NOTICE".to_vec());
    for t in [&b"#a"[..], b"&a", b"+a", b"!a"] {
        assert!(is_channel_target(t));
    }
    assert!(!is_channel_target(b"nick"));
    assert!(!is_channel_target(b""));
}

#[test]
fn message_line_copies_fields() {
    let l = message_line(&b"me".to_vec(), TextVerb::Notice, &b"you".to_vec(), &b"x".to_vec());
    assert_eq!((l.origin, l.target, l.text, l.verb), (b"me".to_vec(), b"you".to_vec(), b"x".to_vec(), TextVerb::Notice));
    let _ = UserId::clone;
}

#[test]
fn channel_lists_each_member_once() {
    let a = UserId::new(1);
    let b = UserId::new(2);
    let c = UserId::new(3);
    let ch = Channel::new(b"#dup".to_vec(), vec![b, a, b, c, a]);
    assert_eq!(ch.members(), &vec![b, a, c]);
    assert_eq!(ch.name(), &b"#dup".to_vec());
}

#[test]
fn broadcast_to_channel_with_repeated_member_names_it_once() {
    let w = world();
    let chans = vec![Channel::new(
        b"#Rust".to_vec(),
        vec![w.alice.id, w.bob.id, w.carol.id, w.bob.id],
    )];
    let out = handle_privmsg(&w.state, &chans, &w.alice, &b"Alice".to_vec(), vec![b"#rust".to_vec()], &b"yo".to_vec());
    match &out[0] {
        Outbound::Broadcast { recipients, .. } => {
            assert_eq!(recipients, &vec![w.bob.id, w.carol.id]);
        }
        _ => panic!("expected a broadcast"),
    }
}

#[test]
fn notice_is_privmsg_without_replies() {
    let w = world();
    let targets = || vec![b"carol".to_vec(), b"nobody".to_vec(), b"#rust".to_vec(), b"#none".to_vec()];
    let p = handle_privmsg(&w.state, &channels(&w), &w.alice, &b"Alice".to_vec(), targets(), &b"hey".to_vec());
    let n = handle_notice(&w.state, &channels(&w), &w.alice, &b"Alice".to_vec(), targets(), &b"hey".to_vec());
    assert_eq!(p.len(), 4);
    assert_eq!(n.len(), 2);
    match (&p[0], &n[0]) {
        (Outbound::Send { to: a, line: la }, Outbound::Send { to: b, line: lb }) => {
            assert_eq!(a, b);
            assert_eq!((la.verb, lb.verb), (TextVerb::Privmsg, TextVerb::Notice));
            assert_eq!((&la.target, &la.text), (&lb.target, &lb.text));
        }
        _ => panic!("expected sends"),
    }
    match (&p[2], &n[1]) {
        (Outbound::Broadcast { recipients: a, line: la }, Outbound::Broadcast { recipients: b, line: lb }) => {
            assert_eq!(a, b);
            assert_eq!(lb.verb, TextVerb::Notice);
            assert_eq!(la.target, lb.target);
        }
        _ => panic!("expected broadcasts"),
    }
}
