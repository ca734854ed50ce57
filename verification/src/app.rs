//! The GUI client's window model.
//!
//! Networks and their windows (one per channel or query), the scrollback
//! of each window, and the focused window, as they change in response to
//! client events and user input. Rendering and the command channel to the
//! client backend live with the frontend; this model decides what they
//! show and what they send.

use vstd::prelude::*;
use std::collections::HashMap;
use vstd::std_specs::iter::IteratorSpec;

use crate::command::ClientCommand;
use crate::event::{ClientEvent, NetworkId};
use crate::messaging::{bytes_equal, copy_bytes};
use crate::text::{decimal, decimal_string, display_text, utf8_lossy};
use vstd::utf8::encode_utf8;

verus! {

broadcast use vstd::std_specs::hash::group_hash_axioms;

/// Unique identifier for a window (network + target pair).
#[derive(Clone, Copy, Debug, PartialEq, Eq, Structural, Hash)]
pub struct WindowId(pub u64);

/// Mint the next window id from `counter`.
pub fn next_window_id(counter: &mut u64) -> (r: WindowId)
    ensures
        r.0 == *old(counter),
        *final(counter) == old(counter).wrapping_add(1),
{
    let id = *counter;
    *counter = id.wrapping_add(1);
    WindowId(id)
}

/// The timestamp shown beside each scrollback line.
pub open spec fn stamp() -> Seq<char> {
    "--:--"@
}

/// The timestamp for a new scrollback line: a fixed `--:--` placeholder.
pub fn now_stamp() -> (r: String)
    ensures
        r@ == stamp(),
{
    String::from_str("--:--")
}

/// A single message line in the scrollback.
pub struct DisplayMessage {
    /// When the line arrived.
    pub timestamp: String,
    /// Who it is from (`***` for status lines).
    pub from: String,
    /// The line's text.
    pub text: String,
    /// Whether this is a status line rather than something someone said.
    pub is_action: bool,
}

/// The abstract contents of a [`DisplayMessage`].
pub struct MessageView {
    /// Timestamp.
    pub timestamp: Seq<char>,
    /// Sender.
    pub from: Seq<char>,
    /// Text.
    pub text: Seq<char>,
    /// Status line or not.
    pub is_action: bool,
}

impl View for DisplayMessage {
    type V = MessageView;

    open spec fn view(&self) -> MessageView {
        MessageView {
            timestamp: self.timestamp@,
            from: self.from@,
            text: self.text@,
            is_action: self.is_action,
        }
    }
}

/// A window pane displaying a channel or query.
pub struct Window {
    /// The window's id.
    pub id: WindowId,
    /// The network it belongs to.
    pub network: NetworkId,
    /// The channel or nick it shows.
    pub target: Vec<u8>,
    /// Its scrollback, oldest first.
    pub messages: Vec<DisplayMessage>,
    /// The channel topic, once known.
    pub topic: Option<String>,
    /// The nicks known to be present.
    pub nicks: Vec<String>,
}

/// The abstract contents of a [`Window`].
pub struct WindowView {
    /// Raw window id.
    pub id: u64,
    /// Raw network id.
    pub network: u64,
    /// Target bytes.
    pub target: Seq<u8>,
    /// Scrollback.
    pub messages: Seq<MessageView>,
    /// Topic.
    pub topic: Option<Seq<char>>,
    /// Nick list.
    pub nicks: Seq<Seq<char>>,
}

/// The view of an optional string.
pub open spec fn opt_str_view(s: Option<String>) -> Option<Seq<char>> {
    match s {
        Some(t) => Some(t@),
        None => None,
    }
}

/// The views of a list of strings.
pub open spec fn strings_view(v: Seq<String>) -> Seq<Seq<char>> {
    v.map_values(|s: String| s@)
}

impl View for Window {
    type V = WindowView;

    open spec fn view(&self) -> WindowView {
        WindowView {
            id: self.id.0,
            network: self.network.0,
            target: self.target@,
            messages: self.messages@.map_values(|m: DisplayMessage| m@),
            topic: opt_str_view(self.topic),
            nicks: strings_view(self.nicks@),
        }
    }
}

/// Lightweight reference to a window for the tree bar.
pub struct WindowRef {
    /// The window's id.
    pub id: WindowId,
    /// The channel or nick it shows.
    pub target: Vec<u8>,
}

/// Summary info for a network, used by the tree bar.
pub struct NetworkInfo {
    /// Display name: `Network <id>` until registration, then the nick.
    pub name: String,
    /// Its windows, in the order they were opened.
    pub windows: Vec<WindowRef>,
}

/// The abstract contents of a [`NetworkInfo`].
pub struct NetworkView {
    /// Display name.
    pub name: Seq<char>,
    /// `(window id, target)` for each window, in opening order.
    pub windows: Seq<(u64, Seq<u8>)>,
}

impl View for NetworkInfo {
    type V = NetworkView;

    open spec fn view(&self) -> NetworkView {
        NetworkView {
            name: self.name@,
            windows: self.windows@.map_values(|r: WindowRef| (r.id.0, r.target@)),
        }
    }
}

/// Messages the frontend feeds into the model.
#[derive(Clone, Debug)]
pub enum Msg {
    /// An IRC event arrived from the client backend.
    IrcEvent(ClientEvent),
    /// The input field value changed.
    InputChanged(String),
    /// The user pressed Enter in the input field.
    InputSubmit,
    /// The user clicked a window in the tree bar.
    WindowSelected(WindowId),
    /// The user clicked Connect.
    ConnectPressed,
    /// Nothing to do.
    Noop,
}

/// The GUI client's state.
pub struct IrcApp {
    active_window: Option<WindowId>,
    windows: HashMap<u64, Window>,
    networks: HashMap<u64, NetworkInfo>,
    input_value: String,
    next_window_id: u64,
}

/// The abstract contents of an [`IrcApp`].
pub struct AppView {
    /// The focused window's raw id.
    pub active: Option<u64>,
    /// Open windows by raw id.
    pub windows: Map<u64, WindowView>,
    /// Networks by raw id.
    pub networks: Map<u64, NetworkView>,
    /// The input bar's contents.
    pub input: Seq<char>,
    /// The raw id the next window will get.
    pub next_id: u64,
}

/// The views of a window table.
pub open spec fn windows_view(m: Map<u64, Window>) -> Map<u64, WindowView> {
    Map::new(|k: u64| m.contains_key(k), |k: u64| m[k]@)
}

/// The views of a network table.
pub open spec fn networks_view(m: Map<u64, NetworkInfo>) -> Map<u64, NetworkView> {
    Map::new(|k: u64| m.contains_key(k), |k: u64| m[k]@)
}

impl View for IrcApp {
    type V = AppView;

    closed spec fn view(&self) -> AppView {
        AppView {
            active: match self.active_window {
                Some(w) => Some(w.0),
                None => None,
            },
            windows: windows_view(self.windows@),
            networks: networks_view(self.networks@),
            input: self.input_value@,
            next_id: self.next_window_id,
        }
    }
}

/// The shape of the model: windows are filed under their own ids, no two
/// windows show the same target of the same network, the focused window
/// exists, some window is focused once any is open, and every window's
/// network is known.
pub open spec fn app_shape(a: AppView) -> bool {
    &&& forall|k: u64| #[trigger] a.windows.contains_key(k) ==> a.windows[k].id == k
    &&& forall|k1: u64, k2: u64|
        #![trigger a.windows[k1], a.windows[k2]]
        a.windows.contains_key(k1) && a.windows.contains_key(k2) && a.windows[k1].network
            == a.windows[k2].network && a.windows[k1].target == a.windows[k2].target ==> k1 == k2
    &&& a.active matches Some(k) ==> a.windows.contains_key(k)
    &&& a.active is None ==> a.windows.dom().is_empty()
    &&& forall|k: u64| #[trigger]
        a.windows.contains_key(k) ==> a.networks.contains_key(a.windows[k].network)
}

/// The name a network shows until it has registered.
pub open spec fn default_network_name(net: u64) -> Seq<char> {
    "Network "@ + decimal(net as nat)
}

/// The model after making sure `net` is known.
pub open spec fn ensure_network_spec(a: AppView, net: u64) -> AppView {
    if a.networks.contains_key(net) {
        a
    } else {
        AppView {
            networks: a.networks.insert(
                net,
                NetworkView { name: default_network_name(net), windows: Seq::empty() },
            ),
            ..a
        }
    }
}

/// Whether window `k` shows `target` on `net`.
pub open spec fn shows(ws: Map<u64, WindowView>, k: u64, net: u64, target: Seq<u8>) -> bool {
    ws.contains_key(k) && ws[k].network == net && ws[k].target == target
}

/// The window that shows `target` on `net`, if there is one.
pub open spec fn find_window_spec(ws: Map<u64, WindowView>, net: u64, target: Seq<u8>) -> Option<
    u64,
> {
    if exists|k: u64| #[trigger] shows(ws, k, net, target) {
        Some(choose|k: u64| #[trigger] shows(ws, k, net, target))
    } else {
        None
    }
}

/// A fresh, empty window.
pub open spec fn new_window(id: u64, net: u64, target: Seq<u8>) -> WindowView {
    WindowView {
        id,
        network: net,
        target,
        messages: Seq::empty(),
        topic: None,
        nicks: Seq::empty(),
    }
}

/// The model after making sure a window shows `target` on `net`, and
/// that window's id. A new window is listed under its network and takes
/// the focus when nothing is focused.
pub open spec fn ensure_window_spec(a: AppView, net: u64, target: Seq<u8>) -> (AppView, u64) {
    let a1 = ensure_network_spec(a, net);
    match find_window_spec(a1.windows, net, target) {
        Some(k) => (a1, k),
        None => {
            let id = a1.next_id;
            let info = a1.networks[net];
            (
                AppView {
                    windows: a1.windows.insert(id, new_window(id, net, target)),
                    networks: a1.networks.insert(
                        net,
                        NetworkView { windows: info.windows.push((id, target)), ..info },
                    ),
                    active: if a1.active is None {
                        Some(id)
                    } else {
                        a1.active
                    },
                    next_id: a1.next_id.wrapping_add(1),
                    ..a1
                },
                id,
            )
        },
    }
}

proof fn lemma_windows_view_insert(m: Map<u64, Window>, k: u64, w: Window)
    ensures
        windows_view(m.insert(k, w)) == windows_view(m).insert(k, w@),
{
    assert(windows_view(m.insert(k, w)) =~= windows_view(m).insert(k, w@));
}

proof fn lemma_windows_view_remove(m: Map<u64, Window>, k: u64)
    ensures
        windows_view(m.remove(k)) == windows_view(m).remove(k),
{
    assert(windows_view(m.remove(k)) =~= windows_view(m).remove(k));
}

proof fn lemma_networks_view_insert(m: Map<u64, NetworkInfo>, k: u64, n: NetworkInfo)
    ensures
        networks_view(m.insert(k, n)) == networks_view(m).insert(k, n@),
{
    assert(networks_view(m.insert(k, n)) =~= networks_view(m).insert(k, n@));
}

proof fn lemma_networks_view_remove(m: Map<u64, NetworkInfo>, k: u64)
    ensures
        networks_view(m.remove(k)) == networks_view(m).remove(k),
{
    assert(networks_view(m.remove(k)) =~= networks_view(m).remove(k));
}

/// The model with window `id` replaced by `w`.
pub open spec fn with_window(a: AppView, id: u64, w: WindowView) -> AppView {
    AppView { windows: a.windows.insert(id, w), ..a }
}

/// A scrollback line stamped with the current placeholder time.
pub open spec fn line_view(from: Seq<char>, text: Seq<char>, is_action: bool) -> MessageView {
    MessageView { timestamp: stamp(), from, text, is_action }
}

/// The model without window `id`.
pub open spec fn without_window(a: AppView, id: u64) -> AppView {
    AppView { windows: a.windows.remove(id), ..a }
}

/// The model with network `net` shown under `name`.
pub open spec fn renamed(a: AppView, net: u64, name: Seq<char>) -> AppView {
    AppView {
        networks: a.networks.insert(net, NetworkView { name, ..a.networks[net] }),
        ..a
    }
}

/// The model with `m` appended to window `id`'s scrollback.
pub open spec fn push_line(a: AppView, id: u64, m: MessageView) -> AppView {
    with_window(a, id, WindowView { messages: a.windows[id].messages.push(m), ..a.windows[id] })
}

/// The predicate that keeps every nick but `n`.
pub open spec fn other_nick(n: Seq<char>) -> spec_fn(Seq<char>) -> bool {
    |x: Seq<char>| x != n
}

/// The status text for a part, with the reason in brackets if one was given.
pub open spec fn part_text(nick: Seq<char>, reason: Option<Seq<u8>>) -> Seq<char> {
    nick + " has left"@ + match reason {
        Some(r) => " ("@ + utf8_lossy(r) + ")"@,
        None => Seq::empty(),
    }
}

/// The model after a client event.
pub open spec fn handle_event_spec(a: AppView, ev: ClientEvent) -> AppView {
    match ev {
        ClientEvent::Connected { network } => ensure_network_spec(a, network.0),
        ClientEvent::Registered { network, nick } => {
            renamed(ensure_network_spec(a, network.0), network.0, utf8_lossy(nick@))
        },
        ClientEvent::Message { network, target, from, text } => {
            let (a1, id) = ensure_window_spec(a, network.0, target@);
            push_line(a1, id, line_view(utf8_lossy(from@), utf8_lossy(text@), false))
        },
        ClientEvent::Notice { network, target, from, text } => {
            let (a1, id) = ensure_window_spec(a, network.0, target@);
            push_line(a1, id, line_view(utf8_lossy(from@), "-NOTICE- "@ + utf8_lossy(text@), false))
        },
        ClientEvent::Join { network, channel, nick } => {
            let (a1, id) = ensure_window_spec(a, network.0, channel@);
            let w = a1.windows[id];
            let n = utf8_lossy(nick@);
            with_window(
                a1,
                id,
                WindowView {
                    nicks: if w.nicks.contains(n) {
                        w.nicks
                    } else {
                        w.nicks.push(n)
                    },
                    messages: w.messages.push(line_view("***"@, n + " has joined"@, true)),
                    ..w
                },
            )
        },
        ClientEvent::Part { network, channel, nick, reason } => {
            let (a1, id) = ensure_window_spec(a, network.0, channel@);
            let w = a1.windows[id];
            let n = utf8_lossy(nick@);
            let r = match reason {
                Some(b) => Some(b@),
                None => None,
            };
            with_window(
                a1,
                id,
                WindowView {
                    nicks: w.nicks.filter(other_nick(n)),
                    messages: w.messages.push(line_view("***"@, part_text(n, r), true)),
                    ..w
                },
            )
        },
        ClientEvent::TopicChange { network, channel, topic } => {
            let (a1, id) = ensure_window_spec(a, network.0, channel@);
            with_window(a1, id, WindowView { topic: Some(utf8_lossy(topic@)), ..a1.windows[id] })
        },
        _ => a,
    }
}

/// What the topic bar shows: the focused window's topic, or `No topic`.
pub open spec fn topic_bar_text(a: AppView) -> Seq<char> {
    match a.active {
        Some(k) => if a.windows.contains_key(k) {
            match a.windows[k].topic {
                Some(t) => t,
                None => "No topic"@,
            }
        } else {
            "No topic"@
        },
        None => "No topic"@,
    }
}

/// The model with the input bar set to `input`.
pub open spec fn with_input(a: AppView, input: Seq<char>) -> AppView {
    AppView { input, ..a }
}

/// What submitting the input sends, as `(network, target, text)`: the
/// input as a PRIVMSG to the focused window's target, unless the input is
/// empty or nothing is focused.
pub open spec fn submission(a: AppView) -> Option<(u64, Seq<u8>, Seq<u8>)> {
    if a.input.len() == 0 {
        None
    } else {
        match a.active {
            Some(k) => if a.windows.contains_key(k) {
                Some((a.windows[k].network, a.windows[k].target, encode_utf8(a.input)))
            } else {
                None
            },
            None => None,
        }
    }
}

/// Whether `c` is the PRIVMSG described by `sent`, or both are nothing.
pub open spec fn sends(c: Option<ClientCommand>, sent: Option<(u64, Seq<u8>, Seq<u8>)>) -> bool {
    match sent {
        None => c is None,
        Some((n, t, x)) => c matches Some(ClientCommand::SendPrivmsg { network, target, text })
            && network.0 == n && target@ == t && text@ == x,
    }
}

/// The model after a frontend message.
pub open spec fn update_spec(a: AppView, msg: Msg) -> AppView {
    match msg {
        Msg::IrcEvent(ev) => handle_event_spec(a, ev),
        Msg::InputChanged(v) => with_input(a, v@),
        Msg::InputSubmit => with_input(a, Seq::empty()),
        Msg::WindowSelected(id) => if a.windows.contains_key(id.0) {
            AppView { active: Some(id.0), ..a }
        } else {
            a
        },
        Msg::ConnectPressed => a,
        Msg::Noop => a,
    }
}

/// What a frontend message makes the model send to the client backend.
pub open spec fn update_sends(a: AppView, msg: Msg) -> Option<(u64, Seq<u8>, Seq<u8>)> {
    match msg {
        Msg::InputSubmit => submission(a),
        _ => None,
    }
}

/// Replacing a window's contents while keeping its id, network and target
/// keeps the model's invariant.
proof fn lemma_with_window_keeps_wf(a: AppView, id: u64, w: WindowView)
    requires
        app_shape(a),
        a.windows.contains_key(id),
        w.id == a.windows[id].id,
        w.network == a.windows[id].network,
        w.target == a.windows[id].target,
    ensures
        app_shape(with_window(a, id, w)),
{
    let b = with_window(a, id, w);
    assert forall|k1: u64, k2: u64|
        b.windows.contains_key(k1) && b.windows.contains_key(k2) && b.windows[k1].network
            == b.windows[k2].network && b.windows[k1].target == b.windows[k2].target implies k1
        == k2 by {
        assert(a.windows.contains_key(k1) && a.windows.contains_key(k2));
        assert(a.windows[k1].network == b.windows[k1].network);
        assert(a.windows[k2].network == b.windows[k2].network);
        assert(a.windows[k1].target == b.windows[k1].target);
        assert(a.windows[k2].target == b.windows[k2].target);
    }
}

/// Opening a new window for a target that no window shows keeps the
/// model's invariant.
proof fn lemma_new_window_keeps_wf(a1: AppView, net: u64, target: Seq<u8>)
    requires
        app_shape(a1),
        a1.networks.contains_key(net),
        find_window_spec(a1.windows, net, target) is None,
    ensures
        app_shape(ensure_window_spec(a1, net, target).0),
{
    let a2 = ensure_window_spec(a1, net, target).0;
    assert(ensure_network_spec(a1, net) == a1);
    let id = a1.next_id;
    assert forall|k1: u64, k2: u64|
        a2.windows.contains_key(k1) && a2.windows.contains_key(k2) && a2.windows[k1].network
            == a2.windows[k2].network && a2.windows[k1].target == a2.windows[k2].target implies k1
        == k2 by {
        if k1 != id && k2 == id {
            assert(!shows(a1.windows, k1, net, target));
        } else if k1 == id && k2 != id {
            assert(!shows(a1.windows, k2, net, target));
        } else if k1 != id && k2 != id {
            assert(a1.windows[k1] == a2.windows[k1]);
            assert(a1.windows[k2] == a2.windows[k2]);
        }
    }
}

/// The ids of the windows a network lists, in opening order.
pub open spec fn listed_ids(n: NetworkView) -> Seq<u64> {
    n.windows.map_values(|r: (u64, Seq<u8>)| r.0)
}

/// Whether the listing `r` under network `n` names an open window of `n`
/// that shows the listed target.
pub open spec fn lists_open_window(a: AppView, n: u64, r: (u64, Seq<u8>)) -> bool {
    a.windows.contains_key(r.0) && a.windows[r.0].network == n && a.windows[r.0].target == r.1
}

/// The model's bookkeeping: every open window's id is below the counter,
/// so the id the counter hands out next is unused; every open window is
/// listed under its network; every listing names an open window of that
/// network with its target; and no network lists a window twice. Together
/// these say that the window lists match the open windows one to one.
pub open spec fn app_consistent(a: AppView) -> bool {
    &&& forall|k: u64| #[trigger] a.windows.contains_key(k) ==> k < a.next_id
    &&& forall|k: u64| #[trigger]
        a.windows.contains_key(k) ==> listed_ids(a.networks[a.windows[k].network]).contains(k)
    &&& forall|n: u64, i: int|
        #![trigger a.networks[n].windows[i]]
        a.networks.contains_key(n) && 0 <= i < a.networks[n].windows.len() ==> lists_open_window(
            a,
            n,
            a.networks[n].windows[i],
        )
    &&& forall|n: u64| #[trigger]
        a.networks.contains_key(n) ==> listed_ids(a.networks[n]).no_duplicates()
}

/// The model's invariant: its shape (see [`app_shape`]) and its
/// bookkeeping (see [`app_consistent`]). In particular the id the counter
/// hands out next belongs to no open window.
pub open spec fn app_wf(a: AppView) -> bool {
    app_shape(a) && app_consistent(a)
}

/// Whether an event may open a window (and so take an id from the counter).
pub open spec fn may_open_window(ev: ClientEvent) -> bool {
    ev is Message || ev is Notice || ev is Join || ev is Part || ev is TopicChange
}

/// Whether a frontend message may open a window.
pub open spec fn msg_may_open_window(msg: Msg) -> bool {
    msg matches Msg::IrcEvent(ev) && may_open_window(ev)
}

proof fn lemma_ensure_network_facts(a: AppView, net: u64)
    requires
        app_shape(a),
    ensures
        app_shape(ensure_network_spec(a, net)),
        ensure_network_spec(a, net).networks.contains_key(net),
        ensure_network_spec(a, net).windows == a.windows,
        ensure_network_spec(a, net).active == a.active,
        ensure_network_spec(a, net).input == a.input,
        ensure_network_spec(a, net).next_id == a.next_id,
        forall|n: u64| #[trigger]
            a.networks.contains_key(n) ==> ensure_network_spec(a, net).networks.contains_key(n)
                && ensure_network_spec(a, net).networks[n] == a.networks[n],
        app_consistent(a) ==> app_consistent(ensure_network_spec(a, net)),
{
    let a0 = ensure_network_spec(a, net);
    if !a.networks.contains_key(net) && app_consistent(a) {
        assert forall|k: u64| #[trigger] a0.windows.contains_key(k) implies listed_ids(
            a0.networks[a0.windows[k].network],
        ).contains(k) by {
            assert(a.networks.contains_key(a.windows[k].network));
        }
        assert forall|n: u64, i: int|
            a0.networks.contains_key(n) && 0 <= i < a0.networks[n].windows.len() implies lists_open_window(
            a0,
            n,
            #[trigger] a0.networks[n].windows[i],
        ) by {
            assert(n != net);
            assert(lists_open_window(a, n, a.networks[n].windows[i]));
        }
        assert forall|n: u64| #[trigger] a0.networks.contains_key(n) implies listed_ids(
            a0.networks[n],
        ).no_duplicates() by {
            if n == net {
                assert(listed_ids(a0.networks[n]) =~= Seq::<u64>::empty());
            }
        }
    }
}

/// Opening a new window keeps the bookkeeping, as long as the counter does
/// not wrap.
proof fn lemma_new_window_keeps_consistent(a0: AppView, net: u64, target: Seq<u8>)
    requires
        app_shape(a0),
        app_consistent(a0),
        a0.networks.contains_key(net),
        find_window_spec(a0.windows, net, target) is None,
        a0.next_id < u64::MAX,
    ensures
        app_consistent(ensure_window_spec(a0, net, target).0),
{
    let a2 = ensure_window_spec(a0, net, target).0;
    assert(ensure_network_spec(a0, net) == a0);
    let id = a0.next_id;
    let old_ids = listed_ids(a0.networks[net]);
    let new_ids = listed_ids(a2.networks[net]);
    assert(new_ids =~= old_ids.push(id));
    assert(!a0.windows.contains_key(id));
    assert(!old_ids.contains(id)) by {
        if old_ids.contains(id) {
            let j = choose|j: int| 0 <= j < old_ids.len() && old_ids[j] == id;
            assert(lists_open_window(a0, net, a0.networks[net].windows[j]));
        }
    }
    assert forall|k: u64| #[trigger] a2.windows.contains_key(k) implies listed_ids(
        a2.networks[a2.windows[k].network],
    ).contains(k) by {
        if k == id {
            assert(new_ids[old_ids.len() as int] == id);
        } else {
            let nk = a0.windows[k].network;
            assert(listed_ids(a0.networks[nk]).contains(k));
            if nk == net {
                let j = choose|j: int| 0 <= j < old_ids.len() && old_ids[j] == k;
                assert(new_ids[j] == k);
            }
        }
    }
    assert forall|n: u64, i: int|
        a2.networks.contains_key(n) && 0 <= i < a2.networks[n].windows.len() implies lists_open_window(
        a2,
        n,
        #[trigger] a2.networks[n].windows[i],
    ) by {
        if n == net && i == a0.networks[net].windows.len() {
        } else {
            let r = a0.networks[n].windows[i];
            assert(lists_open_window(a0, n, r));
            assert(a2.networks[n].windows[i] == r);
        }
    }
    assert forall|n: u64| #[trigger] a2.networks.contains_key(n) implies listed_ids(
        a2.networks[n],
    ).no_duplicates() by {
        if n == net {
            assert forall|x: int, y: int|
                0 <= x < new_ids.len() && 0 <= y < new_ids.len() && x != y implies new_ids[x]
                != new_ids[y] by {
                if x == old_ids.len() {
                    assert(old_ids.contains(new_ids[y]) ==> old_ids[y] == new_ids[y]);
                    assert(new_ids[y] == old_ids[y]);
                } else if y == old_ids.len() {
                    assert(new_ids[x] == old_ids[x]);
                }
            }
        }
    }
}

/// Replacing a window's contents while keeping its network and target
/// keeps the bookkeeping.
proof fn lemma_with_window_keeps_consistent(a: AppView, id: u64, w: WindowView)
    requires
        app_consistent(a),
        a.windows.contains_key(id),
        w.network == a.windows[id].network,
        w.target == a.windows[id].target,
    ensures
        app_consistent(with_window(a, id, w)),
{
    let b = with_window(a, id, w);
    assert forall|k: u64| #[trigger] b.windows.contains_key(k) implies listed_ids(
        b.networks[b.windows[k].network],
    ).contains(k) by {
        assert(a.windows.contains_key(k));
    }
    assert forall|n: u64, i: int|
        b.networks.contains_key(n) && 0 <= i < b.networks[n].windows.len() implies lists_open_window(
        b,
        n,
        #[trigger] b.networks[n].windows[i],
    ) by {
        assert(lists_open_window(a, n, a.networks[n].windows[i]));
    }
}

/// Renaming a network keeps the bookkeeping.
proof fn lemma_renamed_keeps_consistent(a: AppView, net: u64, name: Seq<char>)
    requires
        app_consistent(a),
        a.networks.contains_key(net),
    ensures
        app_consistent(renamed(a, net, name)),
        app_shape(a) ==> app_shape(renamed(a, net, name)),
{
    let b = renamed(a, net, name);
    assert forall|n: u64| #[trigger] b.networks.contains_key(n) implies listed_ids(b.networks[n])
        == listed_ids(a.networks[n]) by {
        assert(b.networks[n].windows == a.networks[n].windows);
    }
    assert forall|n: u64, i: int|
        b.networks.contains_key(n) && 0 <= i < b.networks[n].windows.len() implies lists_open_window(
        b,
        n,
        #[trigger] b.networks[n].windows[i],
    ) by {
        assert(lists_open_window(a, n, a.networks[n].windows[i]));
    }
    assert forall|k: u64| #[trigger] b.windows.contains_key(k) implies listed_ids(
        b.networks[b.windows[k].network],
    ).contains(k) by {
        assert(listed_ids(a.networks[a.windows[k].network]).contains(k));
        assert(a.networks.contains_key(a.windows[k].network) ==> listed_ids(
            b.networks[a.windows[k].network],
        ) == listed_ids(a.networks[a.windows[k].network]));
    }
}

/// What opening (or finding) a window does: the window shows the target,
/// the input bar and an existing focus stay, no network goes away, and,
/// given the bookkeeping, no open window is touched and the bookkeeping
/// holds afterwards while the counter does not wrap.
proof fn lemma_ensure_window_facts(a: AppView, net: u64, target: Seq<u8>)
    requires
        app_shape(a),
    ensures
        ({
            let (a1, id) = ensure_window_spec(a, net, target);
            &&& app_shape(a1)
            &&& shows(a1.windows, id, net, target)
            &&& a1.input == a.input
            &&& (a.active is Some ==> a1.active == a.active)
            &&& forall|n: u64| #[trigger]
                a.networks.contains_key(n) ==> a1.networks.contains_key(n)
            &&& (app_consistent(a) ==> forall|k: u64| #[trigger]
                a.windows.contains_key(k) ==> a1.windows.contains_key(k) && a1.windows[k]
                    == a.windows[k])
            &&& (app_consistent(a) && a.next_id < u64::MAX ==> app_consistent(a1))
        }),
{
    let a0 = ensure_network_spec(a, net);
    lemma_ensure_network_facts(a, net);
    assert(ensure_network_spec(a0, net) == a0);
    match find_window_spec(a0.windows, net, target) {
        Some(k) => {
            assert(shows(a0.windows, k, net, target));
        },
        None => {
            lemma_new_window_keeps_wf(a0, net, target);
            if app_consistent(a) && a.next_id < u64::MAX {
                lemma_new_window_keeps_consistent(a0, net, target);
            }
        },
    }
}

/// Replacing a window's contents while keeping its id, network and target
/// keeps the whole invariant.
proof fn lemma_with_window_keeps_invariant(a: AppView, id: u64, w: WindowView)
    requires
        app_wf(a),
        a.windows.contains_key(id),
        w.id == a.windows[id].id,
        w.network == a.windows[id].network,
        w.target == a.windows[id].target,
    ensures
        app_wf(with_window(a, id, w)),
{
    lemma_with_window_keeps_wf(a, id, w);
    lemma_with_window_keeps_consistent(a, id, w);
}

/// Every client event keeps the invariant; one that may open a window
/// needs the window counter below the top of `u64`.
proof fn lemma_event_keeps_invariant(a: AppView, ev: ClientEvent)
    requires
        app_wf(a),
        may_open_window(ev) ==> a.next_id < u64::MAX,
    ensures
        app_wf(handle_event_spec(a, ev)),
{
    let b = handle_event_spec(a, ev);
    match ev {
        ClientEvent::Connected { network } => {
            lemma_ensure_network_facts(a, network.0);
        },
        ClientEvent::Registered { network, nick } => {
            lemma_ensure_network_facts(a, network.0);
            lemma_renamed_keeps_consistent(
                ensure_network_spec(a, network.0),
                network.0,
                utf8_lossy(nick@),
            );
        },
        ClientEvent::Message { network, target, .. } => {
            lemma_ensure_window_facts(a, network.0, target@);
            let (a1, id) = ensure_window_spec(a, network.0, target@);
            lemma_with_window_keeps_invariant(a1, id, b.windows[id]);
        },
        ClientEvent::Notice { network, target, .. } => {
            lemma_ensure_window_facts(a, network.0, target@);
            let (a1, id) = ensure_window_spec(a, network.0, target@);
            lemma_with_window_keeps_invariant(a1, id, b.windows[id]);
        },
        ClientEvent::Join { network, channel, .. } => {
            lemma_ensure_window_facts(a, network.0, channel@);
            let (a1, id) = ensure_window_spec(a, network.0, channel@);
            lemma_with_window_keeps_invariant(a1, id, b.windows[id]);
        },
        ClientEvent::Part { network, channel, .. } => {
            lemma_ensure_window_facts(a, network.0, channel@);
            let (a1, id) = ensure_window_spec(a, network.0, channel@);
            lemma_with_window_keeps_invariant(a1, id, b.windows[id]);
        },
        ClientEvent::TopicChange { network, channel, .. } => {
            lemma_ensure_window_facts(a, network.0, channel@);
            let (a1, id) = ensure_window_spec(a, network.0, channel@);
            lemma_with_window_keeps_invariant(a1, id, b.windows[id]);
        },
        _ => {},
    }
}

/// Every frontend message keeps the invariant; a client event that may
/// open a window needs the window counter below the top of `u64`.
proof fn lemma_update_keeps_invariant(a: AppView, msg: Msg)
    requires
        app_wf(a),
        msg_may_open_window(msg) ==> a.next_id < u64::MAX,
    ensures
        app_wf(update_spec(a, msg)),
{
    match msg {
        Msg::IrcEvent(ev) => {
            lemma_event_keeps_invariant(a, ev);
        },
        _ => {
            let b = update_spec(a, msg);
            assert forall|n: u64, i: int|
                b.networks.contains_key(n) && 0 <= i < b.networks[n].windows.len() implies lists_open_window(
                b,
                n,
                #[trigger] b.networks[n].windows[i],
            ) by {
                assert(lists_open_window(a, n, a.networks[n].windows[i]));
            }
        },
    }
}

/// Whether `s` is among `v`.
fn contains_string(v: &Vec<String>, s: &String) -> (r: bool)
    ensures
        r == strings_view(v@).contains(s@),
{
    let mut i: usize = 0;
    while i < v.len()
        invariant
            0 <= i <= v@.len(),
            forall|j: int| 0 <= j < i ==> strings_view(v@)[j] != s@,
        decreases v@.len() - i,
    {
        if v[i] == *s {
            assert(strings_view(v@)[i as int] == s@);
            return true;
        }
        i = i + 1;
    }
    false
}

/// The strings of `v` other than `s`, in order.
fn without_string(v: &Vec<String>, s: &String) -> (r: Vec<String>)
    ensures
        strings_view(r@) == strings_view(v@).filter(other_nick(s@)),
{
    let ghost all = strings_view(v@);
    let mut out: Vec<String> = Vec::new();
    let mut i: usize = 0;
    while i < v.len()
        invariant
            0 <= i <= v@.len(),
            all == strings_view(v@),
            strings_view(out@) == all.take(i as int).filter(other_nick(s@)),
        decreases v@.len() - i,
    {
        proof {
            assert(all.take(i + 1).drop_last() =~= all.take(i as int));
            reveal_with_fuel(Seq::<_>::filter, 1);
        }
        let ghost prev = out@;
        if v[i] != *s {
            let kept = v[i].clone();
            out.push(kept);
            assert(strings_view(out@) =~= strings_view(prev).push(v@[i as int]@));
        }
        i = i + 1;
    }
    assert(all.take(v@.len() as int) =~= all);
    out
}

/// Whether applying `message` may open a window.
pub fn may_open_a_window(message: &Msg) -> (r: bool)
    ensures
        r == msg_may_open_window(*message),
{
    match message {
        Msg::IrcEvent(ev) => match ev {
            ClientEvent::Message { .. } => true,
            ClientEvent::Notice { .. } => true,
            ClientEvent::Join { .. } => true,
            ClientEvent::Part { .. } => true,
            ClientEvent::TopicChange { .. } => true,
            _ => false,
        },
        _ => false,
    }
}

impl IrcApp {
    /// A model with no networks, no windows and an empty input bar.
    pub fn new() -> (r: IrcApp)
        ensures
            app_wf(r@),
            r@.active is None,
            r@.windows == Map::<u64, WindowView>::empty(),
            r@.networks == Map::<u64, NetworkView>::empty(),
            r@.input == Seq::<char>::empty(),
            r@.next_id == 1,
    {
        let r = IrcApp {
            active_window: None,
            windows: HashMap::new(),
            networks: HashMap::new(),
            input_value: String::new(),
            next_window_id: 1,
        };
        assert(r@.windows =~= Map::<u64, WindowView>::empty());
        assert(r@.networks =~= Map::<u64, NetworkView>::empty());
        r
    }

    /// Make sure `id` is a known network, giving it its default name.
    fn ensure_network(&mut self, id: NetworkId)
        requires
            app_shape(old(self)@),
        ensures
            app_shape(final(self)@),
            final(self)@ == ensure_network_spec(old(self)@, id.0),
    {
        if !self.networks.contains_key(&id.0) {
            let mut name = String::from_str("Network ");
            let digits = decimal_string(id.0);
            name.append(digits.as_str());
            let info = NetworkInfo { name, windows: Vec::new() };
            proof {
                lemma_networks_view_insert(self.networks@, id.0, info);
                assert(info@.windows =~= Seq::<(u64, Seq<u8>)>::empty());
            }
            self.networks.insert(id.0, info);
        }
    }

    /// The window showing `target` on `network`, if one is open.
    fn find_window(&self, network: NetworkId, target: &Vec<u8>) -> (r: Option<WindowId>)
        requires
            app_shape(self@),
        ensures
            match r {
                Some(w) => find_window_spec(self@.windows, network.0, target@) == Some(w.0),
                None => find_window_spec(self@.windows, network.0, target@) is None,
            },
    {
        let ghost ws = self@.windows;
        let ghost all = vstd::std_specs::hash::spec_hash_map_iter(&self.windows).remaining();
        let ghost mut checked: int = 0;
        for entry in it: self.windows.iter()
            invariant
                ws == self@.windows,
                app_shape(self@),
                all == vstd::std_specs::hash::spec_hash_map_iter(&self.windows).remaining(),
                it.seq() == all,
                checked == it.index(),
                forall|j: int|
                    0 <= j < checked ==> !shows(ws, *(#[trigger] all[j]).0, network.0, target@),
        {
            let (k, w) = entry;
            assert(all[checked] == (k, w));
            if w.network == network && bytes_equal(w.target.as_slice(), target.as_slice()) {
                let found = WindowId(*k);
                proof {
                    assert(self.windows@.contains_key(*k) && self.windows@[*k] == *w);
                    assert(shows(ws, *k, network.0, target@));
                    let c = choose|c: u64| #[trigger] shows(ws, c, network.0, target@);
                    assert(shows(ws, c, network.0, target@));
                }
                return Some(found);
            }
            proof {
                checked = checked + 1;
            }
        }
        proof {
            assert(checked == all.len());
            if exists|k: u64| #[trigger] shows(ws, k, network.0, target@) {
                let k = choose|k: u64| #[trigger] shows(ws, k, network.0, target@);
                assert(self.windows@.contains_key(k));
                assert(all.contains((&k, &self.windows@[k])));
                let j = choose|j: int| 0 <= j < all.len() && all[j] == (&k, &self.windows@[k]);
                assert(!shows(ws, *all[j].0, network.0, target@));
            }
        }
        None
    }

    /// Make sure a window shows `target` on `network`, opening one if
    /// needed, and return its id.
    fn ensure_window(&mut self, network: NetworkId, target: Vec<u8>) -> (r: WindowId)
        requires
            app_shape(old(self)@),
        ensures
            app_shape(final(self)@),
            (final(self)@, r.0) == ensure_window_spec(old(self)@, network.0, target@),
    {
        self.ensure_network(network);
        // Reuse the window that already shows this network + target.
        match self.find_window(network, &target) {
            Some(id) => {
                return id;
            },
            None => {},
        }
        let ghost a1 = self@;
        let id = next_window_id(&mut self.next_window_id);
        let w = Window {
            id,
            network,
            target: copy_bytes(&target),
            messages: Vec::new(),
            topic: None,
            nicks: Vec::new(),
        };
        proof {
            lemma_windows_view_insert(self.windows@, id.0, w);
            assert(w@ == new_window(id.0, network.0, target@)) by {
                assert(w@.messages =~= Seq::<MessageView>::empty());
                assert(w@.nicks =~= Seq::<Seq<char>>::empty());
            }
        }
        self.windows.insert(id.0, w);
        let info_opt = self.networks.remove(&network.0);
        proof {
            lemma_networks_view_remove(old(self).networks@, network.0);
        }
        match info_opt {
            Some(info) => {
                let mut info = info;
                let ghost before = info@;
                info.windows.push(WindowRef { id, target });
                proof {
                    assert(info@.windows =~= before.windows.push((id.0, target@)));
                    lemma_networks_view_insert(self.networks@, network.0, info);
                }
                self.networks.insert(network.0, info);
            },
            None => {},
        }
        // Auto-focus the first window.
        if self.active_window.is_none() {
            self.active_window = Some(id);
        }
        proof {
            assert(self@.networks =~= a1.networks.insert(
                network.0,
                NetworkView {
                    windows: a1.networks[network.0].windows.push((id.0, target@)),
                    ..a1.networks[network.0]
                },
            ));
            lemma_new_window_keeps_wf(a1, network.0, target@);
        }
        id
    }

    /// Take window `id` out of the table.
    fn take_window(&mut self, id: u64) -> (w: Window)
        requires
            old(self)@.windows.contains_key(id),
        ensures
            w@ == old(self)@.windows[id],
            final(self)@ == without_window(old(self)@, id),
    {
        let taken = self.windows.remove(&id);
        proof {
            lemma_windows_view_remove(old(self).windows@, id);
        }
        taken.unwrap()
    }

    /// Put a window back under its own id.
    fn put_window(&mut self, w: Window)
        ensures
            final(self)@ == with_window(old(self)@, w.id.0, w@),
    {
        proof {
            lemma_windows_view_insert(self.windows@, w.id.0, w);
        }
        self.windows.insert(w.id.0, w);
    }

    /// Append a line to window `id`'s scrollback.
    fn push_message(&mut self, id: WindowId, m: DisplayMessage)
        requires
            app_shape(old(self)@),
            old(self)@.windows.contains_key(id.0),
        ensures
            app_shape(final(self)@),
            final(self)@ == push_line(old(self)@, id.0, m@),
    {
        let ghost a = self@;
        let mut w = self.take_window(id.0);
        let ghost before = w@;
        w.messages.push(m);
        proof {
            assert(w@.messages =~= before.messages.push(m@));
            assert(a.windows[id.0].id == id.0);
            lemma_with_window_keeps_wf(a, id.0, w@);
            assert(a.windows.remove(id.0).insert(w.id.0, w@) =~= a.windows.insert(id.0, w@));
        }
        self.put_window(w);
    }

    /// Give network `id` the display name `name`.
    fn rename_network(&mut self, id: NetworkId, name: String)
        requires
            app_shape(old(self)@),
            old(self)@.networks.contains_key(id.0),
        ensures
            app_shape(final(self)@),
            final(self)@ == renamed(old(self)@, id.0, name@),
    {
        let ghost a = self@;
        let taken = self.networks.remove(&id.0);
        proof {
            lemma_networks_view_remove(old(self).networks@, id.0);
        }
        let mut info = taken.unwrap();
        info.name = name;
        proof {
            lemma_networks_view_insert(self.networks@, id.0, info);
        }
        self.networks.insert(id.0, info);
        proof {
            assert(self@.networks =~= a.networks.insert(
                id.0,
                NetworkView { name: name@, ..a.networks[id.0] },
            ));
        }
    }

    /// Apply a client event to the model.
    ///
    /// An event that may open a window needs an unused id from the window
    /// counter, so the counter must not have reached the top of `u64`.
    pub fn handle_event(&mut self, event: ClientEvent)
        requires
            app_wf(old(self)@),
            may_open_window(event) ==> old(self)@.next_id < u64::MAX,
        ensures
            app_wf(final(self)@),
            final(self)@ == handle_event_spec(old(self)@, event),
    {
        proof {
            lemma_event_keeps_invariant(self@, event);
        }
        match event {
            ClientEvent::Connected { network } => {
                self.ensure_network(network);
            },
            ClientEvent::Registered { network, nick } => {
                self.ensure_network(network);
                let name = display_text(nick.as_slice());
                self.rename_network(network, name);
            },
            ClientEvent::Message { network, target, from, text } => {
                let win_id = self.ensure_window(network, target);
                let m = DisplayMessage {
                    timestamp: now_stamp(),
                    from: display_text(from.as_slice()),
                    text: display_text(text.as_slice()),
                    is_action: false,
                };
                self.push_message(win_id, m);
            },
            ClientEvent::Notice { network, target, from, text } => {
                let win_id = self.ensure_window(network, target);
                let mut shown = String::from_str("-NOTICE- ");
                let body = display_text(text.as_slice());
                shown.append(body.as_str());
                let m = DisplayMessage {
                    timestamp: now_stamp(),
                    from: display_text(from.as_slice()),
                    text: shown,
                    is_action: false,
                };
                self.push_message(win_id, m);
            },
            ClientEvent::Join { network, channel, nick } => {
                let win_id = self.ensure_window(network, channel);
                let ghost a1 = self@;
                let nick_str = display_text(nick.as_slice());
                let mut w = self.take_window(win_id.0);
                let ghost before = w@;
                if !contains_string(&w.nicks, &nick_str) {
                    w.nicks.push(nick_str.clone());
                    assert(strings_view(w.nicks@) =~= before.nicks.push(nick_str@));
                }
                let mut text = nick_str.clone();
                text.append(" has joined");
                w.messages.push(
                    DisplayMessage {
                        timestamp: now_stamp(),
                        from: String::from_str("***"),
                        text,
                        is_action: true,
                    },
                );
                proof {
                    assert(w@.messages =~= before.messages.push(
                        line_view("***"@, nick_str@ + " has joined"@, true),
                    ));
                    lemma_with_window_keeps_wf(a1, win_id.0, w@);
                    assert(a1.windows.remove(win_id.0).insert(w.id.0, w@) =~= a1.windows.insert(
                        win_id.0,
                        w@,
                    ));
                }
                self.put_window(w);
            },
            ClientEvent::Part { network, channel, nick, reason } => {
                let win_id = self.ensure_window(network, channel);
                let ghost a1 = self@;
                let nick_str = display_text(nick.as_slice());
                let mut w = self.take_window(win_id.0);
                let ghost before = w@;
                w.nicks = without_string(&w.nicks, &nick_str);
                let mut text = nick_str.clone();
                text.append(" has left");
                match &reason {
                    Some(r) => {
                        text.append(" (");
                        let why = display_text(r.as_slice());
                        text.append(why.as_str());
                        text.append(")");
                    },
                    None => {},
                }
                let ghost rv = match reason {
                    Some(b) => Some(b@),
                    None => None::<Seq<u8>>,
                };
                proof {
                    assert(text@ =~= part_text(nick_str@, rv));
                }
                w.messages.push(
                    DisplayMessage {
                        timestamp: now_stamp(),
                        from: String::from_str("***"),
                        text,
                        is_action: true,
                    },
                );
                proof {
                    assert(w@.messages =~= before.messages.push(
                        line_view("***"@, part_text(nick_str@, rv), true),
                    ));
                    lemma_with_window_keeps_wf(a1, win_id.0, w@);
                    assert(a1.windows.remove(win_id.0).insert(w.id.0, w@) =~= a1.windows.insert(
                        win_id.0,
                        w@,
                    ));
                }
                self.put_window(w);
            },
            ClientEvent::TopicChange { network, channel, topic } => {
                let win_id = self.ensure_window(network, channel);
                let ghost a1 = self@;
                let mut w = self.take_window(win_id.0);
                w.topic = Some(display_text(topic.as_slice()));
                proof {
                    lemma_with_window_keeps_wf(a1, win_id.0, w@);
                    assert(a1.windows.remove(win_id.0).insert(w.id.0, w@) =~= a1.windows.insert(
                        win_id.0,
                        w@,
                    ));
                }
                self.put_window(w);
            },
            ClientEvent::Disconnected { .. } => {},
            ClientEvent::NickChange { .. } => {},
            ClientEvent::Quit { .. } => {},
            ClientEvent::Numeric { .. } => {},
            ClientEvent::Error { .. } => {},
        }
    }

    /// Send the input bar's contents to the focused window's target and
    /// clear the bar. Nothing is sent for an empty bar or when no window
    /// is focused.
    fn submit_input(&mut self) -> (r: Option<ClientCommand>)
        requires
            app_shape(old(self)@),
        ensures
            app_shape(final(self)@),
            final(self)@ == with_input(old(self)@, Seq::empty()),
            sends(r, submission(old(self)@)),
    {
        let mut text = String::new();
        std::mem::swap(&mut text, &mut self.input_value);
        proof {
            assert(self@ == with_input(old(self)@, Seq::empty()));
        }
        if text.as_str().is_empty() {
            return None;
        }
        let win_id = match self.active_window {
            Some(id) => id,
            None => {
                return None;
            },
        };
        let win = match self.windows.get(&win_id.0) {
            Some(w) => w,
            None => {
                return None;
            },
        };
        let bytes = vstd::slice::slice_to_vec(text.as_str().as_bytes());
        Some(
            ClientCommand::SendPrivmsg {
                network: win.network,
                target: copy_bytes(&win.target),
                text: bytes,
            },
        )
    }

    /// Apply a frontend message; returns the command to send to the
    /// client backend, if any.
    ///
    /// A client event that may open a window needs an unused id from the
    /// window counter, so the counter must not have reached the top of
    /// `u64`.
    pub fn update(&mut self, message: Msg) -> (r: Option<ClientCommand>)
        requires
            app_wf(old(self)@),
            msg_may_open_window(message) ==> old(self)@.next_id < u64::MAX,
        ensures
            app_wf(final(self)@),
            final(self)@ == update_spec(old(self)@, message),
            sends(r, update_sends(old(self)@, message)),
    {
        proof {
            lemma_update_keeps_invariant(self@, message);
        }
        match message {
            Msg::IrcEvent(event) => {
                self.handle_event(event);
                None
            },
            Msg::InputChanged(value) => {
                self.input_value = value;
                None
            },
            Msg::InputSubmit => self.submit_input(),
            Msg::WindowSelected(id) => {
                if self.windows.contains_key(&id.0) {
                    self.active_window = Some(id);
                }
                None
            },
            Msg::ConnectPressed => None,
            Msg::Noop => None,
        }
    }

    /// The focused window, if any.
    pub fn active_window(&self) -> (r: Option<WindowId>)
        ensures
            match r {
                Some(w) => self@.active == Some(w.0),
                None => self@.active is None,
            },
    {
        self.active_window
    }

    /// The window with id `id`, if it is open.
    pub fn window(&self, id: WindowId) -> (r: Option<&Window>)
        ensures
            match r {
                Some(w) => self@.windows.contains_key(id.0) && self@.windows[id.0] == w@,
                None => !self@.windows.contains_key(id.0),
            },
    {
        self.windows.get(&id.0)
    }

    /// The text of the topic bar: the focused window's topic, or
    /// `No topic` when there is no focused window or it has no topic yet.
    pub fn topic_text(&self) -> (r: &str)
        ensures
            r@ == topic_bar_text(self@),
    {
        match self.active_window {
            Some(id) => match self.window(id) {
                Some(w) => match &w.topic {
                    Some(t) => t.as_str(),
                    None => "No topic",
                },
                None => "No topic",
            },
            None => "No topic",
        }
    }

    /// Whether window `id` is the focused one (the tree bar highlights it).
    pub fn is_active_window(&self, id: WindowId) -> (r: bool)
        ensures
            r == (self@.active == Some(id.0)),
    {
        match self.active_window {
            Some(a) => a.0 == id.0,
            None => false,
        }
    }

    /// Whether the window counter can still hand out an unused id, so that
    /// a message that may open a window can be applied.
    pub fn can_open_window(&self) -> (r: bool)
        ensures
            r == (self@.next_id < u64::MAX),
    {
        self.next_window_id < u64::MAX
    }

    /// The networks, keyed by raw network id.
    pub fn networks(&self) -> (r: &HashMap<u64, NetworkInfo>)
        ensures
            networks_view(r@) == self@.networks,
    {
        &self.networks
    }

    /// The input bar's contents.
    pub fn input_value(&self) -> (r: &String)
        ensures
            r@ == self@.input,
    {
        &self.input_value
    }
}

} // verus!

verus! {

/// Windows are reused: asking again for the window of a network + target
/// that already has one returns the same window and changes nothing.
pub proof fn law_ensure_window_reuses(a: AppView, net: u64, target: Seq<u8>)
    requires
        app_shape(a),
    ensures
        ({
            let (a1, id) = ensure_window_spec(a, net, target);
            ensure_window_spec(a1, net, target) == (a1, id)
        }),
{
    let (a1, id) = ensure_window_spec(a, net, target);
    let a0 = ensure_network_spec(a, net);
    assert(ensure_network_spec(a1, net) == a1);
    match find_window_spec(a0.windows, net, target) {
        Some(k) => {
            assert(shows(a0.windows, k, net, target));
        },
        None => {
            assert(shows(a1.windows, id, net, target));
        },
    }
    assert(exists|k: u64| #[trigger] shows(a1.windows, k, net, target));
    let c = choose|c: u64| #[trigger] shows(a1.windows, c, net, target);
    if find_window_spec(a0.windows, net, target) is None {
        lemma_new_window_keeps_wf(a0, net, target);
        assert(shows(a1.windows, id, net, target));
        assert(c == id);
    }
}

/// The first window to open takes the focus.
pub proof fn law_first_window_takes_focus(a: AppView, net: u64, target: Seq<u8>)
    requires
        app_shape(a),
        a.active is None,
    ensures
        ({
            let (a1, id) = ensure_window_spec(a, net, target);
            a1.active == Some(id)
        }),
{
    let a0 = ensure_network_spec(a, net);
    if let Some(k) = find_window_spec(a0.windows, net, target) {
        assert(shows(a0.windows, k, net, target));
        assert(a.windows.contains_key(k));
        assert(a.windows.dom().contains(k));
    }
}

/// After a join, the nick is listed once: joining never duplicates an
/// entry of a duplicate-free nick list.
pub proof fn law_join_lists_nick_once(a: AppView, ev: ClientEvent)
    requires
        app_shape(a),
        ev is Join,
        ({
            let (a1, id) = ensure_window_spec(a, ev->Join_network.0, ev->Join_channel@);
            a1.windows[id].nicks.no_duplicates()
        }),
    ensures
        ({
            let (a1, id) = ensure_window_spec(a, ev->Join_network.0, ev->Join_channel@);
            let nicks = handle_event_spec(a, ev).windows[id].nicks;
            &&& nicks.contains(utf8_lossy(ev->Join_nick@))
            &&& nicks.no_duplicates()
        }),
{
    let (a1, id) = ensure_window_spec(a, ev->Join_network.0, ev->Join_channel@);
    let w = a1.windows[id];
    let n = utf8_lossy(ev->Join_nick@);
    if !w.nicks.contains(n) {
        assert(w.nicks.push(n)[w.nicks.len() as int] == n);
    }
}

/// After a part, the nick is no longer listed.
pub proof fn law_part_unlists_nick(a: AppView, ev: ClientEvent)
    requires
        app_shape(a),
        ev is Part,
    ensures
        ({
            let (a1, id) = ensure_window_spec(a, ev->Part_network.0, ev->Part_channel@);
            !handle_event_spec(a, ev).windows[id].nicks.contains(utf8_lossy(ev->Part_nick@))
        }),
{
    let (a1, id) = ensure_window_spec(a, ev->Part_network.0, ev->Part_channel@);
    let w = a1.windows[id];
    let n = utf8_lossy(ev->Part_nick@);
    let kept = w.nicks.filter(other_nick(n));
    if kept.contains(n) {
        let j = choose|j: int| 0 <= j < kept.len() && kept[j] == n;
        w.nicks.lemma_filter_pred(other_nick(n), j);
    }
}

/// Selecting a window that is not open changes nothing; selecting one that
/// is open focuses it.
pub proof fn law_selection_focuses_only_open_windows(a: AppView, id: WindowId)
    requires
        app_shape(a),
    ensures
        a.windows.contains_key(id.0) ==> update_spec(a, Msg::WindowSelected(id)).active == Some(
            id.0,
        ),
        !a.windows.contains_key(id.0) ==> update_spec(a, Msg::WindowSelected(id)) == a,
{
}


/// The model's invariant (windows filed under their ids, one window per
/// network and target, focus on an open window, window lists matching the
/// open windows one to one, the counter's next id unused) holds from the
/// start and is kept by every client event and every frontend message; an
/// event that may open a window needs the counter below the top of `u64`.
pub proof fn law_events_keep_invariant(a: AppView, ev: ClientEvent, msg: Msg)
    requires
        app_wf(a),
        may_open_window(ev) ==> a.next_id < u64::MAX,
        msg_may_open_window(msg) ==> a.next_id < u64::MAX,
    ensures
        app_wf(handle_event_spec(a, ev)),
        app_wf(update_spec(a, msg)),
{
    lemma_event_keeps_invariant(a, ev);
    lemma_update_keeps_invariant(a, msg);
}

/// Opening (or finding) the window for a network and target keeps the
/// invariant, and the returned id names an open window of that network
/// showing that target.
pub proof fn law_ensure_window_keeps_invariant(a: AppView, net: u64, target: Seq<u8>)
    requires
        app_wf(a),
        a.next_id < u64::MAX,
    ensures
        ({
            let (a1, id) = ensure_window_spec(a, net, target);
            &&& app_wf(a1)
            &&& a1.windows.contains_key(id)
            &&& a1.windows[id].id == id
            &&& a1.windows[id].network == net
            &&& a1.windows[id].target == target
        }),
{
    lemma_ensure_window_facts(a, net, target);
}

/// A window opened for a new target gets the counter's id, which no open
/// window has; it starts empty, and every window that was open before is
/// left as it was.
pub proof fn law_new_window_id_is_fresh(a: AppView, net: u64, target: Seq<u8>)
    requires
        app_wf(a),
        find_window_spec(a.windows, net, target) is None,
    ensures
        ({
            let (a1, id) = ensure_window_spec(a, net, target);
            &&& id == a.next_id
            &&& !a.windows.contains_key(id)
            &&& a1.windows[id] == new_window(id, net, target)
            &&& forall|k: u64| #[trigger]
                a.windows.contains_key(k) ==> a1.windows.contains_key(k) && a1.windows[k]
                    == a.windows[k]
        }),
{
    lemma_ensure_network_facts(a, net);
    lemma_ensure_window_facts(a, net, target);
}

/// Every window of `a` is still open in `b`, with its network, its target,
/// and its scrollback as a prefix.
pub open spec fn keeps_windows(a: AppView, b: AppView) -> bool {
    forall|k: u64| #[trigger]
        a.windows.contains_key(k) ==> b.windows.contains_key(k) && b.windows[k].network
            == a.windows[k].network && b.windows[k].target == a.windows[k].target
            && a.windows[k].messages.is_prefix_of(b.windows[k].messages)
}

/// Windows whose network and target are kept and whose scrollback at most
/// grows at the end keep their history.
proof fn lemma_keeps_windows(a: AppView, b: AppView)
    requires
        forall|k: u64| #[trigger]
            a.windows.contains_key(k) ==> b.windows.contains_key(k) && b.windows[k].network
                == a.windows[k].network && b.windows[k].target == a.windows[k].target && (
            b.windows[k].messages == a.windows[k].messages || exists|m: MessageView|
                b.windows[k].messages == a.windows[k].messages.push(m)),
    ensures
        keeps_windows(a, b),
{
    assert forall|k: u64| #[trigger] a.windows.contains_key(k) implies b.windows.contains_key(k)
        && b.windows[k].network == a.windows[k].network && b.windows[k].target
        == a.windows[k].target && a.windows[k].messages.is_prefix_of(b.windows[k].messages) by {
        assert(a.windows[k].messages =~= b.windows[k].messages.subrange(
            0,
            a.windows[k].messages.len() as int,
        ));
    }
}

/// An event never loses anything: the input bar is kept, no network or
/// window goes away, each open window keeps its network, its target and
/// its scrollback (new lines only go at the end), and a focused window
/// keeps the focus. Focus is only ever given to a window this event
/// opened.
pub proof fn law_event_keeps_history(a: AppView, ev: ClientEvent)
    requires
        app_wf(a),
    ensures
        ({
            let b = handle_event_spec(a, ev);
            &&& b.input == a.input
            &&& forall|n: u64| #[trigger]
                a.networks.contains_key(n) ==> b.networks.contains_key(n)
            &&& keeps_windows(a, b)
            &&& (a.active is Some ==> b.active == a.active)
            &&& (a.active is None ==> (b.active matches Some(k) ==> !a.windows.contains_key(k)))
        }),
{
    let b = handle_event_spec(a, ev);
    match ev {
        ClientEvent::Connected { network } => {
            lemma_ensure_network_facts(a, network.0);
        },
        ClientEvent::Registered { network, nick } => {
            lemma_ensure_network_facts(a, network.0);
        },
        ClientEvent::Message { network, target, .. } => {
            lemma_ensure_window_facts(a, network.0, target@);
        },
        ClientEvent::Notice { network, target, .. } => {
            lemma_ensure_window_facts(a, network.0, target@);
        },
        ClientEvent::Join { network, channel, .. } => {
            lemma_ensure_window_facts(a, network.0, channel@);
        },
        ClientEvent::Part { network, channel, .. } => {
            lemma_ensure_window_facts(a, network.0, channel@);
        },
        ClientEvent::TopicChange { network, channel, .. } => {
            lemma_ensure_window_facts(a, network.0, channel@);
        },
        _ => {},
    }
    lemma_keeps_windows(a, b);
}

/// The value a window counter holds after `n` successive mints from `c`.
pub open spec fn window_counter_after(c: u64, n: nat) -> u64
    decreases n,
{
    if n == 0 {
        c
    } else {
        window_counter_after(c, (n - 1) as nat).wrapping_add(1)
    }
}

proof fn lemma_window_counter_counts_up(c: u64, n: nat)
    requires
        c + n <= u64::MAX,
    ensures
        window_counter_after(c, n) == c + n,
    decreases n,
{
    if n > 0 {
        lemma_window_counter_counts_up(c, (n - 1) as nat);
    }
}

/// Window ids count up: `next_window_id` hands out the counter's value and
/// moves it on by one, so from a counter that starts at 1 (as a new model's
/// does) the `i`-th id minted is `i + 1`, and every later id is larger than
/// every earlier one, until the counter reaches the top of `u64`.
pub proof fn law_window_ids_count_up(i: nat, j: nat)
    requires
        i < j < u64::MAX,
    ensures
        window_counter_after(1, i) == i + 1,
        window_counter_after(1, j) == j + 1,
        window_counter_after(1, i) < window_counter_after(1, j),
{
    lemma_window_counter_counts_up(1, i);
    lemma_window_counter_counts_up(1, j);
}

/// An open window for a network and target is the one that an event for
/// them uses, and using it changes nothing else.
proof fn lemma_existing_window_is_used(a: AppView, k: u64, net: u64, target: Seq<u8>)
    requires
        app_shape(a),
        shows(a.windows, k, net, target),
    ensures
        ensure_window_spec(a, net, target) == (a, k),
{
    assert(a.networks.contains_key(a.windows[k].network));
    assert(ensure_network_spec(a, net) == a);
    let c = choose|c: u64| #[trigger] shows(a.windows, c, net, target);
    assert(shows(a.windows, c, net, target));
    assert(a.windows[c].network == a.windows[k].network && a.windows[c].target
        == a.windows[k].target);
}

/// A part removes exactly the parting nick from the channel's window: every
/// other listed nick stays, in order, and the parting nick is gone.
pub proof fn law_part_removes_only_parting_nick(
    a: AppView,
    k: u64,
    network: NetworkId,
    channel: Vec<u8>,
    nick: Vec<u8>,
    reason: Option<Vec<u8>>,
)
    requires
        app_shape(a),
        shows(a.windows, k, network.0, channel@),
    ensures
        ({
            let before = a.windows[k].nicks;
            let after = handle_event_spec(
                a,
                ClientEvent::Part { network, channel, nick, reason },
            ).windows[k].nicks;
            let n = utf8_lossy(nick@);
            &&& after == before.filter(|x: Seq<char>| x != n)
            &&& !after.contains(n)
            &&& forall|x: Seq<char>| #[trigger] after.contains(x) <==> (before.contains(x) && x != n)
        }),
{
    lemma_existing_window_is_used(a, k, network.0, channel@);
    let before = a.windows[k].nicks;
    let n = utf8_lossy(nick@);
    let f = other_nick(n);
    assert(f == (|x: Seq<char>| x != n));
    assert forall|x: Seq<char>| #[trigger] before.filter(f).contains(x) <==> (before.contains(x)
        && x != n) by {
        if before.filter(f).contains(x) {
            before.lemma_filter_contains_rev(f, x);
            let j = choose|j: int| 0 <= j < before.filter(f).len() && before.filter(f)[j] == x;
            before.lemma_filter_pred(f, j);
        }
        if before.contains(x) && x != n {
            let j = choose|j: int| 0 <= j < before.len() && before[j] == x;
            before.lemma_filter_contains(f, j);
        }
    }
}

/// A join lists the joining nick in the channel's window: the list before
/// stays, in order, and the nick is added at the end unless it was already
/// there.
pub proof fn law_join_adds_joining_nick(
    a: AppView,
    k: u64,
    network: NetworkId,
    channel: Vec<u8>,
    nick: Vec<u8>,
)
    requires
        app_shape(a),
        shows(a.windows, k, network.0, channel@),
    ensures
        ({
            let before = a.windows[k].nicks;
            let after = handle_event_spec(a, ClientEvent::Join { network, channel, nick }).windows[k].nicks;
            let n = utf8_lossy(nick@);
            &&& before.contains(n) ==> after == before
            &&& !before.contains(n) ==> after == before.push(n)
        }),
{
    lemma_existing_window_is_used(a, k, network.0, channel@);
}

/// A message or notice adds exactly one line, at the end of the scrollback
/// of the window that shows its target, and changes no other window.
pub proof fn law_message_appends_one_line(
    a: AppView,
    k: u64,
    network: NetworkId,
    target: Vec<u8>,
    from: Vec<u8>,
    text: Vec<u8>,
)
    requires
        app_shape(a),
        shows(a.windows, k, network.0, target@),
    ensures
        ({
            let b = handle_event_spec(a, ClientEvent::Message { network, target, from, text });
            &&& b.windows[k].messages == a.windows[k].messages.push(
                MessageView {
                    timestamp: stamp(),
                    from: utf8_lossy(from@),
                    text: utf8_lossy(text@),
                    is_action: false,
                },
            )
            &&& b.windows[k].nicks == a.windows[k].nicks
            &&& b.windows[k].topic == a.windows[k].topic
            &&& forall|j: u64| #[trigger] a.windows.contains_key(j) && j != k ==> b.windows[j] == a.windows[j]
            &&& b.windows.dom() == a.windows.dom()
            &&& b.active == a.active
            &&& b.input == a.input
        }),
{
    lemma_existing_window_is_used(a, k, network.0, target@);
    let b = handle_event_spec(a, ClientEvent::Message { network, target, from, text });
    assert(b.windows.dom() =~= a.windows.dom());
}

/// Submitting sends what is in the input bar to the focused window itself:
/// with a non-empty bar and a focused window, the PRIVMSG goes to that
/// window's network and target and carries the bar's text; with an empty
/// bar or nothing focused nothing is sent. Either way the bar is cleared
/// and nothing else changes.
pub proof fn law_submit_sends_to_focused_window(a: AppView)
    requires
        app_shape(a),
    ensures
        a.input.len() > 0 && a.active is Some ==> update_sends(a, Msg::InputSubmit) == Some(
            (
                a.windows[a.active->0].network,
                a.windows[a.active->0].target,
                encode_utf8(a.input),
            ),
        ),
        a.input.len() == 0 || a.active is None ==> update_sends(a, Msg::InputSubmit) is None,
        update_spec(a, Msg::InputSubmit).input == Seq::<char>::empty(),
        update_spec(a, Msg::InputSubmit).windows == a.windows,
        update_spec(a, Msg::InputSubmit).networks == a.networks,
        update_spec(a, Msg::InputSubmit).active == a.active,
{
}

/// Typing replaces the input bar: after `InputChanged(v)` the bar holds
/// exactly `v`, whatever it held before, and nothing else changes.
pub proof fn law_input_changed_replaces_bar(a: AppView, v: String)
    ensures
        update_spec(a, Msg::InputChanged(v)).input == v@,
        update_spec(a, Msg::InputChanged(v)).windows == a.windows,
        update_spec(a, Msg::InputChanged(v)).networks == a.networks,
        update_spec(a, Msg::InputChanged(v)).active == a.active,
        update_spec(a, Msg::InputChanged(v)).next_id == a.next_id,
        update_sends(a, Msg::InputChanged(v)) is None,
{
}

/// A topic change sets the channel window's topic to the new topic, as
/// text, and leaves its scrollback and nick list as they were.
pub proof fn law_topic_change_sets_topic(
    a: AppView,
    k: u64,
    network: NetworkId,
    channel: Vec<u8>,
    topic: Vec<u8>,
)
    requires
        app_shape(a),
        shows(a.windows, k, network.0, channel@),
    ensures
        ({
            let b = handle_event_spec(a, ClientEvent::TopicChange { network, channel, topic });
            &&& b.windows[k].topic == Some(utf8_lossy(topic@))
            &&& b.windows[k].messages == a.windows[k].messages
            &&& b.windows[k].nicks == a.windows[k].nicks
        }),
{
    lemma_existing_window_is_used(a, k, network.0, channel@);
}

/// Registration names the network after the accepted nick, and a network
/// first seen on connection is named `Network <id>` in decimal.
pub proof fn law_network_names(a: AppView, network: NetworkId, nick: Vec<u8>)
    ensures
        handle_event_spec(a, ClientEvent::Registered { network, nick }).networks[network.0].name
            == utf8_lossy(nick@),
        !a.networks.contains_key(network.0) ==> handle_event_spec(
            a,
            ClientEvent::Connected { network },
        ).networks[network.0].name == "Network "@ + decimal(network.0 as nat),
        a.networks.contains_key(network.0) ==> handle_event_spec(
            a,
            ClientEvent::Connected { network },
        ) == a,
{
}

/// A notice adds one line whose text is the notice's text behind a
/// `-NOTICE- ` marker, at the end of its window's scrollback.
pub proof fn law_notice_line_is_marked(
    a: AppView,
    k: u64,
    network: NetworkId,
    target: Vec<u8>,
    from: Vec<u8>,
    text: Vec<u8>,
)
    requires
        app_shape(a),
        shows(a.windows, k, network.0, target@),
    ensures
        handle_event_spec(a, ClientEvent::Notice { network, target, from, text }).windows[k].messages
            == a.windows[k].messages.push(
            MessageView {
                timestamp: stamp(),
                from: utf8_lossy(from@),
                text: "-NOTICE- "@ + utf8_lossy(text@),
                is_action: false,
            },
        ),
{
    lemma_existing_window_is_used(a, k, network.0, target@);
}

} // verus!
