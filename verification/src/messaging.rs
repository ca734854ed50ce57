//! Text messaging: PRIVMSG and NOTICE routing.
//!
//! Routing decides, for each target of a message, what goes out: a line to
//! one user, a line to every other member of a channel, or a numeric error
//! back to the sender. The decisions are returned as [`Outbound`] actions;
//! putting them on the wire is the connection layer's job.

use vstd::prelude::*;

use crate::casemap::{Casemap, fold_seq};
use crate::state::{ServerState, ServerView, User, UserId, lookup_nick};

verus! {

/// The verb of a text message.
#[derive(Clone, Copy, Debug, PartialEq, Eq, Structural)]
pub enum TextVerb {
    /// `PRIVMSG`: errors about missing targets are reported.
    Privmsg,
    /// `NOTICE`: never answered with automatic errors.
    Notice,
}

/// The wire form of a verb.
pub open spec fn verb_word(v: TextVerb) -> Seq<u8> {
    match v {
        TextVerb::Privmsg => seq![0x50u8, 0x52, 0x49, 0x56, 0x4d, 0x53, 0x47],
        TextVerb::Notice => seq![0x4eu8, 0x4f, 0x54, 0x49, 0x43, 0x45],
    }
}

impl TextVerb {
    /// The verb as it appears on the wire (`PRIVMSG` or `NOTICE`).
    pub fn word(&self) -> (r: Vec<u8>)
        ensures
            r@ == verb_word(*self),
    {
        match self {
            TextVerb::Privmsg => {
                let r: Vec<u8> = vec![0x50u8, 0x52, 0x49, 0x56, 0x4d, 0x53, 0x47];
                assert(r@ =~= verb_word(*self));
                r
            },
            TextVerb::Notice => {
                let r: Vec<u8> = vec![0x4eu8, 0x4f, 0x54, 0x49, 0x43, 0x45];
                assert(r@ =~= verb_word(*self));
                r
            },
        }
    }
}

/// A channel as the router sees it: its canonical name and its members.
/// A user is a member at most once.
pub struct Channel {
    name: Vec<u8>,
    members: Vec<UserId>,
}

/// The abstract contents of a [`Channel`].
pub struct ChannelView {
    /// Canonical name.
    pub name: Seq<u8>,
    /// Raw ids of the members.
    pub members: Seq<u64>,
}

/// The raw ids of a sequence of user ids.
pub open spec fn ids_view(ids: Seq<UserId>) -> Seq<u64> {
    ids.map_values(|u: UserId| u@)
}

impl View for Channel {
    type V = ChannelView;

    closed spec fn view(&self) -> ChannelView {
        ChannelView { name: self.name@, members: ids_view(self.members@) }
    }
}

/// The ids of `s` with every repeat dropped: each id stays where it first
/// occurs.
pub open spec fn dedup_ids(s: Seq<u64>) -> Seq<u64>
    decreases s.len(),
{
    if s.len() == 0 {
        Seq::empty()
    } else {
        let kept = dedup_ids(s.drop_last());
        if kept.contains(s.last()) {
            kept
        } else {
            kept.push(s.last())
        }
    }
}

/// Dropping repeats keeps every id once and nothing else.
pub proof fn law_dedup_keeps_each_id_once(s: Seq<u64>)
    ensures
        dedup_ids(s).no_duplicates(),
        forall|x: u64| #[trigger] dedup_ids(s).contains(x) <==> s.contains(x),
    decreases s.len(),
{
    if s.len() > 0 {
        let p = s.drop_last();
        law_dedup_keeps_each_id_once(p);
        let kept = dedup_ids(p);
        assert forall|x: u64| #[trigger] dedup_ids(s).contains(x) <==> s.contains(x) by {
            if s.contains(x) && x != s.last() {
                let j = choose|j: int| 0 <= j < s.len() && s[j] == x;
                assert(p[j] == x);
            }
            if p.contains(x) {
                let j = choose|j: int| 0 <= j < p.len() && p[j] == x;
                assert(s[j] == x);
            }
            if !kept.contains(s.last()) {
                assert(kept.push(s.last())[kept.len() as int] == s.last());
                if kept.push(s.last()).contains(x) && x != s.last() {
                    let j = choose|j: int| 0 <= j < kept.len() + 1 && kept.push(s.last())[j] == x;
                    assert(kept[j] == x);
                }
                if kept.contains(x) {
                    let j = choose|j: int| 0 <= j < kept.len() && kept[j] == x;
                    assert(kept.push(s.last())[j] == x);
                }
            }
            assert(s[s.len() - 1] == s.last());
        }
        if !kept.contains(s.last()) {
            assert forall|i: int, j: int|
                0 <= i < kept.len() + 1 && 0 <= j < kept.len() + 1 && i != j implies kept.push(
                s.last(),
            )[i] != kept.push(s.last())[j] by {
                if i < kept.len() && j < kept.len() {
                } else if i < kept.len() {
                    assert(kept.contains(kept[i]));
                } else {
                    assert(kept.contains(kept[j]));
                }
            }
        }
    }
}

impl Channel {
    /// No user is a member twice.
    #[verifier::type_invariant]
    spec fn members_distinct(self) -> bool {
        ids_view(self.members@).no_duplicates()
    }

    /// A channel named `name` with the given members; a user listed more
    /// than once is a member once, where it first occurs.
    pub fn new(name: Vec<u8>, members: Vec<UserId>) -> (r: Channel)
        ensures
            r@.name == name@,
            r@.members == dedup_ids(ids_view(members@)),
    {
        let ghost all = ids_view(members@);
        let mut out: Vec<UserId> = Vec::new();
        let mut i: usize = 0;
        while i < members.len()
            invariant
                0 <= i <= members@.len(),
                all == ids_view(members@),
                ids_view(out@) == dedup_ids(all.take(i as int)),
                ids_view(out@).no_duplicates(),
            decreases members@.len() - i,
        {
            let m = members[i];
            proof {
                assert(all.take(i + 1).drop_last() =~= all.take(i as int));
                assert(all.take(i + 1).last() == m@);
                law_dedup_keeps_each_id_once(all.take(i + 1));
            }
            let ghost prev = out@;
            if !has_member(&out, m) {
                out.push(m);
                assert(ids_view(out@) =~= ids_view(prev).push(m@));
            }
            i = i + 1;
        }
        assert(all.take(members@.len() as int) =~= all);
        Channel { name, members: out }
    }

    /// The channel's name in its canonical case.
    pub fn name(&self) -> (r: &Vec<u8>)
        ensures
            r@ == self@.name,
    {
        &self.name
    }

    /// The members, in the channel's own order, each once.
    pub fn members(&self) -> (r: &Vec<UserId>)
        ensures
            ids_view(r@) == self@.members,
            self@.members.no_duplicates(),
    {
        proof {
            use_type_invariant(self);
        }
        &self.members
    }
}

/// Filtering a sequence without repeats leaves none.
pub proof fn lemma_filter_keeps_distinct(s: Seq<u64>, p: spec_fn(u64) -> bool)
    requires
        s.no_duplicates(),
    ensures
        s.filter(p).no_duplicates(),
    decreases s.len(),
{
    reveal(Seq::filter);
    if s.len() > 0 {
        let rest = s.drop_last();
        assert(rest.no_duplicates()) by {
            assert forall|i: int, j: int|
                0 <= i < rest.len() && 0 <= j < rest.len() && i != j implies rest[i]
                != rest[j] by {
                assert(rest[i] == s[i] && rest[j] == s[j]);
            }
        }
        lemma_filter_keeps_distinct(rest, p);
        let kept = rest.filter(p);
        if p(s.last()) {
            assert(!kept.contains(s.last())) by {
                if kept.contains(s.last()) {
                    rest.lemma_filter_contains_rev(p, s.last());
                    let j = choose|j: int| 0 <= j < rest.len() && rest[j] == s.last();
                    assert(s[j] == s[s.len() - 1]);
                }
            }
            assert forall|i: int, j: int|
                0 <= i < kept.len() + 1 && 0 <= j < kept.len() + 1 && i != j implies kept.push(
                s.last(),
            )[i] != kept.push(s.last())[j] by {
                if i < kept.len() && j < kept.len() {
                } else if i < kept.len() {
                    assert(kept.contains(kept[i]));
                } else {
                    assert(kept.contains(kept[j]));
                }
            }
        }
    }
}

/// Whether an action that goes to several users names each of them once.
pub open spec fn recipients_distinct(o: OutboundView) -> bool {
    o matches OutboundView::Broadcast { recipients, .. } ==> recipients.no_duplicates()
}

/// The views of a sequence of channels.
pub open spec fn channels_view(chs: Seq<Channel>) -> Seq<ChannelView> {
    chs.map_values(|c: Channel| c@)
}

/// A text message line: `:<origin> <verb> <target> :<text>`.
pub struct MessageLine {
    /// The sender's prefix.
    pub origin: Vec<u8>,
    /// `PRIVMSG` or `NOTICE`.
    pub verb: TextVerb,
    /// The channel or nickname the line is addressed to.
    pub target: Vec<u8>,
    /// The message text (the trailing parameter).
    pub text: Vec<u8>,
}

/// The abstract contents of a [`MessageLine`].
pub struct LineView {
    /// The sender's prefix.
    pub origin: Seq<u8>,
    /// The verb.
    pub verb: TextVerb,
    /// The addressed target.
    pub target: Seq<u8>,
    /// The text.
    pub text: Seq<u8>,
}

impl View for MessageLine {
    type V = LineView;

    open spec fn view(&self) -> LineView {
        LineView { origin: self.origin@, verb: self.verb, target: self.target@, text: self.text@ }
    }
}

/// A numeric error sent back to the sender of a message.
pub enum Reply {
    /// `451 ERR_NOTREGISTERED`.
    NotRegistered,
    /// `401 ERR_NOSUCHNICK`, with the nickname as given.
    NoSuchNick(Vec<u8>),
    /// `403 ERR_NOSUCHCHANNEL`, with the channel name as given.
    NoSuchChannel(Vec<u8>),
    /// `404 ERR_CANNOTSENDTOCHAN`, with the channel's canonical name.
    CannotSendToChan(Vec<u8>),
}

/// The abstract contents of a [`Reply`].
pub enum ReplyView {
    /// Not registered.
    NotRegistered,
    /// No such nick.
    NoSuchNick(Seq<u8>),
    /// No such channel.
    NoSuchChannel(Seq<u8>),
    /// Cannot send to channel.
    CannotSendToChan(Seq<u8>),
}

impl View for Reply {
    type V = ReplyView;

    open spec fn view(&self) -> ReplyView {
        match self {
            Reply::NotRegistered => ReplyView::NotRegistered,
            Reply::NoSuchNick(n) => ReplyView::NoSuchNick(n@),
            Reply::NoSuchChannel(n) => ReplyView::NoSuchChannel(n@),
            Reply::CannotSendToChan(n) => ReplyView::CannotSendToChan(n@),
        }
    }
}

/// The numeric code of a reply.
pub open spec fn reply_code(r: ReplyView) -> u16 {
    match r {
        ReplyView::NotRegistered => 451,
        ReplyView::NoSuchNick(_) => 401,
        ReplyView::NoSuchChannel(_) => 403,
        ReplyView::CannotSendToChan(_) => 404,
    }
}

impl Reply {
    /// The numeric reply code.
    pub fn code(&self) -> (r: u16)
        ensures
            r == reply_code(self@),
    {
        match self {
            Reply::NotRegistered => 451,
            Reply::NoSuchNick(_) => 401,
            Reply::NoSuchChannel(_) => 403,
            Reply::CannotSendToChan(_) => 404,
        }
    }

    /// The human-readable text that accompanies the numeric.
    pub fn text(&self) -> (r: &'static str)
        ensures
            r@ == (match self@ {
                ReplyView::NotRegistered => "You have not registered"@,
                ReplyView::NoSuchNick(_) => "No such nick/channel"@,
                ReplyView::NoSuchChannel(_) => "No such channel"@,
                ReplyView::CannotSendToChan(_) => "Cannot send to channel"@,
            }),
    {
        match self {
            Reply::NotRegistered => "You have not registered",
            Reply::NoSuchNick(_) => "No such nick/channel",
            Reply::NoSuchChannel(_) => "No such channel",
            Reply::CannotSendToChan(_) => "Cannot send to channel",
        }
    }
}

/// One action decided by the router.
pub enum Outbound {
    /// A numeric error back to the sender.
    Reply(Reply),
    /// A line to one user.
    Send { to: UserId, line: MessageLine },
    /// The same line to each of several users.
    Broadcast { recipients: Vec<UserId>, line: MessageLine },
}

/// The abstract contents of an [`Outbound`] action.
pub enum OutboundView {
    /// Error back to the sender.
    Reply(ReplyView),
    /// Line to one user.
    Send { to: u64, line: LineView },
    /// Line to several users.
    Broadcast { recipients: Seq<u64>, line: LineView },
}

impl View for Outbound {
    type V = OutboundView;

    open spec fn view(&self) -> OutboundView {
        match self {
            Outbound::Reply(r) => OutboundView::Reply(r@),
            Outbound::Send { to, line } => OutboundView::Send { to: to@, line: line@ },
            Outbound::Broadcast { recipients, line } => OutboundView::Broadcast {
                recipients: ids_view(recipients@),
                line: line@,
            },
        }
    }
}

/// The view of an optional action.
pub open spec fn opt_outbound_view(o: Option<Outbound>) -> Option<OutboundView> {
    match o {
        Some(a) => Some(a@),
        None => None,
    }
}

/// The views of a sequence of actions.
pub open spec fn outbound_view(v: Seq<Outbound>) -> Seq<OutboundView> {
    v.map_values(|o: Outbound| o@)
}

/// Whether a target names a channel: it starts with `#`, `&`, `+` or `!`.
pub open spec fn is_channel_name(t: Seq<u8>) -> bool {
    t.len() > 0 && (t[0] == 0x23 || t[0] == 0x26 || t[0] == 0x2b || t[0] == 0x21)
}

/// The predicate that keeps everyone but the sender.
pub open spec fn other_than(from: u64) -> spec_fn(u64) -> bool {
    |m: u64| m != from
}

/// The index of the first channel at or after `i` whose name equals
/// `name` under `cm`.
pub open spec fn find_channel_from(chs: Seq<ChannelView>, cm: Casemap, name: Seq<u8>, i: int) -> Option<int>
    decreases chs.len() - i,
{
    if i < 0 || i >= chs.len() {
        None
    } else if fold_seq(cm, chs[i].name) == fold_seq(cm, name) {
        Some(i)
    } else {
        find_channel_from(chs, cm, name, i + 1)
    }
}

/// A found channel lies in range and its name matches.
pub proof fn lemma_find_channel_from_found(chs: Seq<ChannelView>, cm: Casemap, name: Seq<u8>, i: int)
    ensures
        find_channel_from(chs, cm, name, i) matches Some(j) ==> i <= j < chs.len() && fold_seq(
            cm,
            chs[j].name,
        ) == fold_seq(cm, name),
    decreases chs.len() - i,
{
    if 0 <= i < chs.len() && fold_seq(cm, chs[i].name) != fold_seq(cm, name) {
        lemma_find_channel_from_found(chs, cm, name, i + 1);
    }
}

/// The index of the channel that `name` resolves to under `cm`.
pub open spec fn find_channel_spec(chs: Seq<ChannelView>, cm: Casemap, name: Seq<u8>) -> Option<int> {
    find_channel_from(chs, cm, name, 0)
}

/// A line from `origin` with the given verb, target and text.
pub open spec fn line_spec(origin: Seq<u8>, verb: TextVerb, target: Seq<u8>, text: Seq<u8>) -> LineView {
    LineView { origin, verb, target, text }
}

/// What a message to a nickname target turns into.
pub open spec fn route_to_user(
    s: ServerView,
    origin: Seq<u8>,
    target: Seq<u8>,
    text: Seq<u8>,
    verb: TextVerb,
    emit_errors: bool,
) -> Option<OutboundView> {
    match lookup_nick(s, target) {
        None => if emit_errors {
            Some(OutboundView::Reply(ReplyView::NoSuchNick(target)))
        } else {
            None
        },
        Some(u) => {
            let canonical = match u.nick {
                Some(n) => n,
                None => target,
            };
            Some(OutboundView::Send { to: u.id, line: line_spec(origin, verb, canonical, text) })
        },
    }
}

/// What a message to a channel target turns into. The sender is left out
/// of the recipients.
pub open spec fn route_to_channel(
    chs: Seq<ChannelView>,
    cm: Casemap,
    from: u64,
    origin: Seq<u8>,
    target: Seq<u8>,
    text: Seq<u8>,
    verb: TextVerb,
    emit_errors: bool,
) -> Option<OutboundView> {
    match find_channel_spec(chs, cm, target) {
        None => if emit_errors {
            Some(OutboundView::Reply(ReplyView::NoSuchChannel(target)))
        } else {
            None
        },
        Some(i) => {
            let ch = chs[i];
            if !ch.members.contains(from) {
                if emit_errors {
                    Some(OutboundView::Reply(ReplyView::CannotSendToChan(ch.name)))
                } else {
                    None
                }
            } else {
                Some(
                    OutboundView::Broadcast {
                        recipients: ch.members.filter(other_than(from)),
                        line: line_spec(origin, verb, ch.name, text),
                    },
                )
            }
        },
    }
}

/// What one target of a message turns into.
pub open spec fn route_target(
    s: ServerView,
    chs: Seq<ChannelView>,
    from: u64,
    origin: Seq<u8>,
    target: Seq<u8>,
    text: Seq<u8>,
    verb: TextVerb,
    emit_errors: bool,
) -> Option<OutboundView> {
    if is_channel_name(target) {
        route_to_channel(chs, s.casemap, from, origin, target, text, verb, emit_errors)
    } else {
        route_to_user(s, origin, target, text, verb, emit_errors)
    }
}

/// The sequence holding the action, if there is one.
pub open spec fn opt_seq(o: Option<OutboundView>) -> Seq<OutboundView> {
    match o {
        Some(a) => seq![a],
        None => Seq::empty(),
    }
}

/// The actions for a list of targets, each routed on its own, in order.
pub open spec fn route_all(
    s: ServerView,
    chs: Seq<ChannelView>,
    from: u64,
    origin: Seq<u8>,
    targets: Seq<Seq<u8>>,
    text: Seq<u8>,
    verb: TextVerb,
    emit_errors: bool,
) -> Seq<OutboundView>
    decreases targets.len(),
{
    if targets.len() == 0 {
        Seq::empty()
    } else {
        route_all(s, chs, from, origin, targets.drop_last(), text, verb, emit_errors) + opt_seq(
            route_target(s, chs, from, origin, targets.last(), text, verb, emit_errors),
        )
    }
}

/// The actions for a whole message from `sender`.
pub open spec fn deliver_spec(
    s: ServerView,
    chs: Seq<ChannelView>,
    sender: crate::state::UserView,
    origin: Seq<u8>,
    targets: Seq<Seq<u8>>,
    text: Seq<u8>,
    verb: TextVerb,
    emit_errors: bool,
) -> Seq<OutboundView> {
    if !sender.registered {
        if emit_errors {
            seq![OutboundView::Reply(ReplyView::NotRegistered)]
        } else {
            Seq::empty()
        }
    } else {
        route_all(s, chs, sender.id, origin, targets, text, verb, emit_errors)
    }
}

/// The views of a list of byte strings.
pub open spec fn bytes_list_view(v: Seq<Vec<u8>>) -> Seq<Seq<u8>> {
    v.map_values(|b: Vec<u8>| b@)
}

/// A copy of a byte string.
pub(crate) fn copy_bytes(b: &Vec<u8>) -> (r: Vec<u8>)
    ensures
        r@ == b@,
{
    let r = b.clone();
    assert(r@ =~= b@);
    r
}

/// Whether `target` names a channel.
pub fn is_channel_target(target: &[u8]) -> (r: bool)
    ensures
        r == is_channel_name(target@),
{
    if target.len() == 0 {
        false
    } else {
        let b = target[0];
        b == 0x23 || b == 0x26 || b == 0x2b || b == 0x21
    }
}

/// Build the line `:<origin> <verb> <target> :<text>`.
pub fn message_line(origin: &Vec<u8>, verb: TextVerb, target: &Vec<u8>, text: &Vec<u8>) -> (r:
    MessageLine)
    ensures
        r@ == line_spec(origin@, verb, target@, text@),
{
    MessageLine {
        origin: copy_bytes(origin),
        verb,
        target: copy_bytes(target),
        text: copy_bytes(text),
    }
}

/// Whether two byte strings are equal.
pub(crate) fn bytes_equal(a: &[u8], b: &[u8]) -> (r: bool)
    ensures
        r == (a@ == b@),
{
    if a.len() != b.len() {
        return false;
    }
    let mut i: usize = 0;
    while i < a.len()
        invariant
            a@.len() == b@.len(),
            0 <= i <= a@.len(),
            forall|j: int| 0 <= j < i ==> a@[j] == b@[j],
        decreases a@.len() - i,
    {
        if a[i] != b[i] {
            return false;
        }
        i = i + 1;
    }
    assert(a@ =~= b@);
    true
}

/// The index of the channel that `name` resolves to under `cm`.
pub fn find_channel(channels: &Vec<Channel>, cm: Casemap, name: &[u8]) -> (r: Option<usize>)
    ensures
        match r {
            Some(i) => i < channels@.len() && find_channel_spec(channels_view(channels@), cm, name@)
                == Some(i as int),
            None => find_channel_spec(channels_view(channels@), cm, name@) is None,
        },
{
    proof {
        lemma_find_channel_from_found(channels_view(channels@), cm, name@, 0);
    }
    let ghost chs = channels_view(channels@);
    let folded = cm.fold(name);
    let mut i: usize = 0;
    while i < channels.len()
        invariant
            0 <= i <= channels@.len(),
            chs == channels_view(channels@),
            folded@ == fold_seq(cm, name@),
            find_channel_from(chs, cm, name@, 0) == find_channel_from(chs, cm, name@, i as int),
        decreases channels@.len() - i,
    {
        let candidate = cm.fold(channels[i].name.as_slice());
        if bytes_equal(candidate.as_slice(), folded.as_slice()) {
            return Some(i);
        }
        i = i + 1;
    }
    None
}

/// Whether `id` is among `members`.
fn has_member(members: &Vec<UserId>, id: UserId) -> (r: bool)
    ensures
        r == ids_view(members@).contains(id@),
{
    let mut i: usize = 0;
    while i < members.len()
        invariant
            0 <= i <= members@.len(),
            forall|j: int| 0 <= j < i ==> members@[j]@ != id@,
        decreases members@.len() - i,
    {
        if members[i].get() == id.get() {
            assert(ids_view(members@)[i as int] == id@);
            return true;
        }
        i = i + 1;
    }
    assert(!ids_view(members@).contains(id@)) by {
        if ids_view(members@).contains(id@) {
            let j = choose|j: int| 0 <= j < members@.len() && ids_view(members@)[j] == id@;
            assert(members@[j]@ != id@);
        }
    }
    false
}

/// The members other than `from`, in order.
fn members_except(members: &Vec<UserId>, from: UserId) -> (r: Vec<UserId>)
    ensures
        ids_view(r@) == ids_view(members@).filter(other_than(from@)),
{
    let ghost all = ids_view(members@);
    let mut out: Vec<UserId> = Vec::new();
    let mut i: usize = 0;
    while i < members.len()
        invariant
            0 <= i <= members@.len(),
            all == ids_view(members@),
            ids_view(out@) == all.take(i as int).filter(other_than(from@)),
        decreases members@.len() - i,
    {
        let m = members[i];
        proof {
            assert(all.take(i + 1).drop_last() =~= all.take(i as int));
            reveal_with_fuel(Seq::<_>::filter, 1);
        }
        let ghost prev = out@;
        if m.get() != from.get() {
            out.push(m);
            assert(ids_view(out@) =~= ids_view(prev).push(m@));
        }
        i = i + 1;
    }
    assert(all.take(members@.len() as int) =~= all);
    out
}

/// Route a message to a channel target.
fn deliver_to_channel<C>(
    state: &ServerState<C>,
    channels: &Vec<Channel>,
    from_user: &User,
    origin: &Vec<u8>,
    channel: &Vec<u8>,
    text: &Vec<u8>,
    verb: TextVerb,
    emit_errors: bool,
) -> (r: Option<Outbound>)
    ensures
        opt_outbound_view(r) == route_to_channel(
            channels_view(channels@),
            state@.casemap,
            from_user.id@,
            origin@,
            channel@,
            text@,
            verb,
            emit_errors,
        ),
        r matches Some(o) ==> recipients_distinct(o@),
{
    let found = find_channel(channels, state.casemap(), channel.as_slice());
    match found {
        None => {
            if emit_errors {
                Some(Outbound::Reply(Reply::NoSuchChannel(copy_bytes(channel))))
            } else {
                None
            }
        },
        Some(idx) => {
            let chan = &channels[idx];
            assert(channels_view(channels@)[idx as int] == chan@);
            // `+n` no-external-messages is implicit.
            if !has_member(&chan.members, from_user.id) {
                if emit_errors {
                    Some(Outbound::Reply(Reply::CannotSendToChan(copy_bytes(&chan.name))))
                } else {
                    None
                }
            } else {
                // The sender does not hear its own message.
                let recipients = members_except(&chan.members, from_user.id);
                proof {
                    use_type_invariant(chan);
                    lemma_filter_keeps_distinct(chan@.members, other_than(from_user.id@));
                }
                let line = message_line(origin, verb, &chan.name, text);
                Some(Outbound::Broadcast { recipients, line })
            }
        },
    }
}

/// Route a message to a nickname target.
fn deliver_to_user<C>(
    state: &ServerState<C>,
    origin: &Vec<u8>,
    target_nick: &Vec<u8>,
    text: &Vec<u8>,
    verb: TextVerb,
    emit_errors: bool,
) -> (r: Option<Outbound>)
    ensures
        opt_outbound_view(r) == route_to_user(state@, origin@, target_nick@, text@, verb, emit_errors),
{
    match state.user_by_nick(target_nick.as_slice()) {
        None => {
            if emit_errors {
                Some(Outbound::Reply(Reply::NoSuchNick(copy_bytes(target_nick))))
            } else {
                None
            }
        },
        Some(recipient) => {
            // Echo the recipient's own capitalisation of its nick.
            let canonical = match &recipient.nick {
                Some(n) => copy_bytes(n),
                None => copy_bytes(target_nick),
            };
            let line = message_line(origin, verb, &canonical, text);
            Some(Outbound::Send { to: recipient.id, line })
        },
    }
}

/// Route a text message from `user` to each of `targets` in turn.
pub fn deliver<C>(
    state: &ServerState<C>,
    channels: &Vec<Channel>,
    user: &User,
    origin: &Vec<u8>,
    targets: Vec<Vec<u8>>,
    text: &Vec<u8>,
    verb: TextVerb,
    emit_errors: bool,
) -> (r: Vec<Outbound>)
    ensures
        outbound_view(r@) == deliver_spec(
            state@,
            channels_view(channels@),
            user@,
            origin@,
            bytes_list_view(targets@),
            text@,
            verb,
            emit_errors,
        ),
        forall|j: int| 0 <= j < r@.len() ==> recipients_distinct(#[trigger] r@[j]@),
{
    let mut out: Vec<Outbound> = Vec::new();
    if !user.is_registered() {
        if emit_errors {
            out.push(Outbound::Reply(Reply::NotRegistered));
            assert(outbound_view(out@) =~= seq![OutboundView::Reply(ReplyView::NotRegistered)]);
        } else {
            assert(outbound_view(out@) =~= Seq::<OutboundView>::empty());
        }
        return out;
    }
    let ghost tv = bytes_list_view(targets@);
    let ghost chs = channels_view(channels@);
    let mut i: usize = 0;
    while i < targets.len()
        invariant
            0 <= i <= targets@.len(),
            tv == bytes_list_view(targets@),
            chs == channels_view(channels@),
            outbound_view(out@) == route_all(
                state@,
                chs,
                user.id@,
                origin@,
                tv.take(i as int),
                text@,
                verb,
                emit_errors,
            ),
            forall|j: int| 0 <= j < out@.len() ==> recipients_distinct(#[trigger] out@[j]@),
        decreases targets@.len() - i,
    {
        let target = &targets[i];
        let routed = if is_channel_target(target.as_slice()) {
            deliver_to_channel(state, channels, user, origin, target, text, verb, emit_errors)
        } else {
            deliver_to_user(state, origin, target, text, verb, emit_errors)
        };
        proof {
            assert(tv.take(i + 1).drop_last() =~= tv.take(i as int));
            assert(tv.take(i + 1).last() == target@);
        }
        let ghost prev = out@;
        match routed {
            Some(action) => {
                out.push(action);
                assert(outbound_view(out@) =~= outbound_view(prev).push(action@));
            },
            None => {},
        }
        i = i + 1;
    }
    assert(tv.take(targets@.len() as int) =~= tv);
    out
}

/// Deliver `PRIVMSG <targets> :<text>`.
///
/// Errors on missing targets are reported as `ERR_NOSUCHNICK` /
/// `ERR_NOSUCHCHANNEL`. Each target is routed independently.
pub fn handle_privmsg<C>(
    state: &ServerState<C>,
    channels: &Vec<Channel>,
    user: &User,
    origin: &Vec<u8>,
    targets: Vec<Vec<u8>>,
    text: &Vec<u8>,
) -> (r: Vec<Outbound>)
    ensures
        outbound_view(r@) == deliver_spec(
            state@,
            channels_view(channels@),
            user@,
            origin@,
            bytes_list_view(targets@),
            text@,
            TextVerb::Privmsg,
            true,
        ),
        forall|j: int| 0 <= j < r@.len() ==> recipients_distinct(#[trigger] r@[j]@),
{
    deliver(state, channels, user, origin, targets, text, TextVerb::Privmsg, true)
}

/// Deliver `NOTICE <targets> :<text>`, the no-auto-reply variant.
///
/// NOTICE never generates automatic server errors (the receiving client
/// is supposed to never reply), so missing targets are skipped silently.
pub fn handle_notice<C>(
    state: &ServerState<C>,
    channels: &Vec<Channel>,
    user: &User,
    origin: &Vec<u8>,
    targets: Vec<Vec<u8>>,
    text: &Vec<u8>,
) -> (r: Vec<Outbound>)
    ensures
        outbound_view(r@) == deliver_spec(
            state@,
            channels_view(channels@),
            user@,
            origin@,
            bytes_list_view(targets@),
            text@,
            TextVerb::Notice,
            false,
        ),
        forall|j: int| 0 <= j < r@.len() ==> recipients_distinct(#[trigger] r@[j]@),
{
    deliver(state, channels, user, origin, targets, text, TextVerb::Notice, false)
}

} // verus!

verus! {

/// NOTICE never produces an automatic error: no action routed with errors
/// turned off is a reply to the sender.
pub proof fn law_notice_never_replies(
    s: ServerView,
    chs: Seq<ChannelView>,
    sender: crate::state::UserView,
    origin: Seq<u8>,
    targets: Seq<Seq<u8>>,
    text: Seq<u8>,
)
    ensures
        forall|i: int|
            0 <= i < deliver_spec(s, chs, sender, origin, targets, text, TextVerb::Notice, false).len()
                ==> !(#[trigger] deliver_spec(
                s,
                chs,
                sender,
                origin,
                targets,
                text,
                TextVerb::Notice,
                false,
            )[i] is Reply),
    decreases targets.len(),
{
    if sender.registered {
        lemma_route_all_no_reply(s, chs, sender.id, origin, targets, text, TextVerb::Notice);
    }
}

proof fn lemma_route_all_no_reply(
    s: ServerView,
    chs: Seq<ChannelView>,
    from: u64,
    origin: Seq<u8>,
    targets: Seq<Seq<u8>>,
    text: Seq<u8>,
    verb: TextVerb,
)
    ensures
        forall|i: int|
            0 <= i < route_all(s, chs, from, origin, targets, text, verb, false).len() ==> !(
            #[trigger] route_all(s, chs, from, origin, targets, text, verb, false)[i] is Reply),
    decreases targets.len(),
{
    if targets.len() > 0 {
        lemma_route_all_no_reply(s, chs, from, origin, targets.drop_last(), text, verb);
    }
}

/// A sender that has not registered gets `ERR_NOTREGISTERED` for a
/// PRIVMSG and nothing at all for a NOTICE; nothing is delivered.
pub proof fn law_unregistered_sender_is_refused(
    s: ServerView,
    chs: Seq<ChannelView>,
    sender: crate::state::UserView,
    origin: Seq<u8>,
    targets: Seq<Seq<u8>>,
    text: Seq<u8>,
)
    requires
        !sender.registered,
    ensures
        deliver_spec(s, chs, sender, origin, targets, text, TextVerb::Privmsg, true) == seq![
            OutboundView::Reply(ReplyView::NotRegistered),
        ],
        deliver_spec(s, chs, sender, origin, targets, text, TextVerb::Notice, false) == Seq::<
            OutboundView,
        >::empty(),
{
}

/// Each target is routed on its own: routing a list of targets gives the
/// actions for its first part followed by those for the rest.
pub proof fn law_targets_routed_independently(
    s: ServerView,
    chs: Seq<ChannelView>,
    from: u64,
    origin: Seq<u8>,
    first: Seq<Seq<u8>>,
    rest: Seq<Seq<u8>>,
    text: Seq<u8>,
    verb: TextVerb,
    emit_errors: bool,
)
    ensures
        route_all(s, chs, from, origin, first + rest, text, verb, emit_errors) == route_all(
            s,
            chs,
            from,
            origin,
            first,
            text,
            verb,
            emit_errors,
        ) + route_all(s, chs, from, origin, rest, text, verb, emit_errors),
    decreases rest.len(),
{
    if rest.len() == 0 {
        assert(first + rest =~= first);
        assert(route_all(s, chs, from, origin, first, text, verb, emit_errors) + Seq::empty()
            =~= route_all(s, chs, from, origin, first, text, verb, emit_errors));
    } else {
        law_targets_routed_independently(
            s,
            chs,
            from,
            origin,
            first,
            rest.drop_last(),
            text,
            verb,
            emit_errors,
        );
        assert((first + rest).drop_last() =~= first + rest.drop_last());
        assert((first + rest).last() == rest.last());
        let a = route_all(s, chs, from, origin, first, text, verb, emit_errors);
        let b = route_all(s, chs, from, origin, rest.drop_last(), text, verb, emit_errors);
        let c = opt_seq(route_target(s, chs, from, origin, rest.last(), text, verb, emit_errors));
        assert(a + b + c =~= a + (b + c));
    }
}

/// The sender never hears its own channel message: it is not among the
/// recipients of any broadcast.
pub proof fn law_sender_not_in_broadcast(
    chs: Seq<ChannelView>,
    cm: Casemap,
    from: u64,
    origin: Seq<u8>,
    target: Seq<u8>,
    text: Seq<u8>,
    verb: TextVerb,
    emit_errors: bool,
)
    ensures
        route_to_channel(chs, cm, from, origin, target, text, verb, emit_errors) matches Some(
            OutboundView::Broadcast { recipients, line },
        ) ==> !recipients.contains(from),
{
    if let Some(i) = find_channel_spec(chs, cm, target) {
        let members = chs[i].members;
        let kept = members.filter(other_than(from));
        if kept.contains(from) {
            let j = choose|j: int| 0 <= j < kept.len() && kept[j] == from;
            members.lemma_filter_pred(other_than(from), j);
        }
    }
}

/// A message to a nickname goes to the live user that the nickname folds
/// to, addressed with that user's own spelling of its nick.
pub proof fn law_user_message_reaches_nick_owner(
    s: ServerView,
    origin: Seq<u8>,
    target: Seq<u8>,
    text: Seq<u8>,
    verb: TextVerb,
    emit_errors: bool,
    owner: crate::state::UserView,
)
    requires
        lookup_nick(s, target) == Some(owner),
        owner.nick is Some,
    ensures
        route_to_user(s, origin, target, text, verb, emit_errors) == Some(
            OutboundView::Send { to: owner.id, line: line_spec(origin, verb, owner.nick->0, text) },
        ),
{
}

/// A broadcast names each recipient once: when every channel lists each
/// member once, every action routed for a message to several targets that
/// goes to several users names each of them once.
pub proof fn law_broadcast_recipients_distinct(
    s: ServerView,
    chs: Seq<ChannelView>,
    from: u64,
    origin: Seq<u8>,
    targets: Seq<Seq<u8>>,
    text: Seq<u8>,
    verb: TextVerb,
    emit_errors: bool,
)
    requires
        forall|i: int| 0 <= i < chs.len() ==> (#[trigger] chs[i]).members.no_duplicates(),
    ensures
        forall|j: int|
            0 <= j < route_all(s, chs, from, origin, targets, text, verb, emit_errors).len()
                ==> recipients_distinct(
                #[trigger] route_all(s, chs, from, origin, targets, text, verb, emit_errors)[j],
            ),
    decreases targets.len(),
{
    if targets.len() > 0 {
        law_broadcast_recipients_distinct(
            s,
            chs,
            from,
            origin,
            targets.drop_last(),
            text,
            verb,
            emit_errors,
        );
        let t = targets.last();
        if is_channel_name(t) {
            if let Some(i) = find_channel_spec(chs, s.casemap, t) {
                lemma_find_channel_from_found(chs, s.casemap, t, 0);
                lemma_filter_keeps_distinct(chs[i].members, other_than(from));
            }
        }
        let prev = route_all(s, chs, from, origin, targets.drop_last(), text, verb, emit_errors);
        let last = opt_seq(route_target(s, chs, from, origin, t, text, verb, emit_errors));
        let all = route_all(s, chs, from, origin, targets, text, verb, emit_errors);
        assert(all == prev + last);
        assert forall|j: int| 0 <= j < all.len() implies recipients_distinct(#[trigger] all[j]) by {
            if j < prev.len() {
                assert(all[j] == prev[j]);
            } else {
                assert(all[j] == last[j - prev.len()]);
            }
        }
    }
}

/// What a PRIVMSG action becomes for the same NOTICE: a reply to the
/// sender is dropped, a line keeps its recipients and text and takes the
/// NOTICE verb.
pub open spec fn as_notice(o: OutboundView) -> Seq<OutboundView> {
    match o {
        OutboundView::Reply(_) => Seq::empty(),
        OutboundView::Send { to, line } => seq![
            OutboundView::Send { to, line: LineView { verb: TextVerb::Notice, ..line } },
        ],
        OutboundView::Broadcast { recipients, line } => seq![
            OutboundView::Broadcast {
                recipients,
                line: LineView { verb: TextVerb::Notice, ..line },
            },
        ],
    }
}

/// [`as_notice`] applied to each action, in order.
pub open spec fn as_notices(xs: Seq<OutboundView>) -> Seq<OutboundView>
    decreases xs.len(),
{
    if xs.len() == 0 {
        Seq::empty()
    } else {
        as_notices(xs.drop_last()) + as_notice(xs.last())
    }
}

proof fn lemma_as_notices_append(xs: Seq<OutboundView>, ys: Seq<OutboundView>)
    ensures
        as_notices(xs + ys) == as_notices(xs) + as_notices(ys),
    decreases ys.len(),
{
    if ys.len() == 0 {
        assert(xs + ys =~= xs);
        assert(as_notices(xs) + Seq::empty() =~= as_notices(xs));
    } else {
        lemma_as_notices_append(xs, ys.drop_last());
        assert((xs + ys).drop_last() =~= xs + ys.drop_last());
        assert((xs + ys).last() == ys.last());
        let a = as_notices(xs);
        let b = as_notices(ys.drop_last());
        let c = as_notice(ys.last());
        assert(a + b + c =~= a + (b + c));
    }
}

proof fn lemma_route_target_as_notice(
    s: ServerView,
    chs: Seq<ChannelView>,
    from: u64,
    origin: Seq<u8>,
    target: Seq<u8>,
    text: Seq<u8>,
)
    ensures
        opt_seq(route_target(s, chs, from, origin, target, text, TextVerb::Notice, false))
            == as_notices(
            opt_seq(route_target(s, chs, from, origin, target, text, TextVerb::Privmsg, true)),
        ),
{
    let p = opt_seq(route_target(s, chs, from, origin, target, text, TextVerb::Privmsg, true));
    if p.len() == 1 {
        assert(p.drop_last() =~= Seq::<OutboundView>::empty());
        assert(as_notices(Seq::<OutboundView>::empty()) == Seq::<OutboundView>::empty());
        assert(p.last() == p[0]);
        assert(as_notices(p) =~= as_notice(p[0]));
    }
}

/// NOTICE delivers exactly what PRIVMSG delivers, minus PRIVMSG's error
/// replies: for the same sender, targets and text, the NOTICE actions are
/// the PRIVMSG actions with every reply to the sender dropped and every
/// line carrying the NOTICE verb, in the same order.
pub proof fn law_notice_is_privmsg_without_replies(
    s: ServerView,
    chs: Seq<ChannelView>,
    sender: crate::state::UserView,
    origin: Seq<u8>,
    targets: Seq<Seq<u8>>,
    text: Seq<u8>,
)
    ensures
        deliver_spec(s, chs, sender, origin, targets, text, TextVerb::Notice, false) == as_notices(
            deliver_spec(s, chs, sender, origin, targets, text, TextVerb::Privmsg, true),
        ),
    decreases targets.len(),
{
    if !sender.registered {
        let p = seq![OutboundView::Reply(ReplyView::NotRegistered)];
        assert(p.drop_last() =~= Seq::<OutboundView>::empty());
        assert(as_notices(Seq::<OutboundView>::empty()) == Seq::<OutboundView>::empty());
        assert(p.last() == p[0]);
        assert(as_notices(p) =~= Seq::<OutboundView>::empty());
    } else if targets.len() > 0 {
        law_notice_is_privmsg_without_replies(s, chs, sender, origin, targets.drop_last(), text);
        lemma_route_target_as_notice(s, chs, sender.id, origin, targets.last(), text);
        lemma_as_notices_append(
            route_all(
                s,
                chs,
                sender.id,
                origin,
                targets.drop_last(),
                text,
                TextVerb::Privmsg,
                true,
            ),
            opt_seq(
                route_target(
                    s,
                    chs,
                    sender.id,
                    origin,
                    targets.last(),
                    text,
                    TextVerb::Privmsg,
                    true,
                ),
            ),
        );
    }
}

/// Whether channel `i` of `chs` is named `name` under `cm`.
pub open spec fn channel_named(chs: Seq<ChannelView>, cm: Casemap, name: Seq<u8>, i: int) -> bool {
    0 <= i < chs.len() && fold_seq(cm, chs[i].name) == fold_seq(cm, name)
}

proof fn lemma_find_channel_from_first(chs: Seq<ChannelView>, cm: Casemap, name: Seq<u8>, i: int)
    requires
        0 <= i,
    ensures
        find_channel_from(chs, cm, name, i) matches Some(j) ==> i <= j && channel_named(
            chs,
            cm,
            name,
            j,
        ) && forall|k: int| i <= k < j ==> !#[trigger] channel_named(chs, cm, name, k),
        find_channel_from(chs, cm, name, i) is None ==> forall|k: int|
            i <= k ==> !#[trigger] channel_named(chs, cm, name, k),
    decreases chs.len() - i,
{
    if i < chs.len() && fold_seq(cm, chs[i].name) != fold_seq(cm, name) {
        lemma_find_channel_from_first(chs, cm, name, i + 1);
        assert forall|k: int| i <= k < i + 1 implies !#[trigger] channel_named(chs, cm, name, k) by {
            assert(k == i);
        }
    }
}

/// Channel lookup finds a channel by its name wherever it stands: it gives
/// the first channel whose name folds to the folded target, and gives
/// nothing only when no channel's name does.
pub proof fn law_find_channel_finds_first_match(chs: Seq<ChannelView>, cm: Casemap, name: Seq<u8>)
    ensures
        find_channel_spec(chs, cm, name) is None <==> forall|k: int|
            !#[trigger] channel_named(chs, cm, name, k),
        find_channel_spec(chs, cm, name) matches Some(j) ==> channel_named(chs, cm, name, j)
            && forall|k: int| 0 <= k < j ==> !#[trigger] channel_named(chs, cm, name, k),
{
    lemma_find_channel_from_first(chs, cm, name, 0);
    if let Some(j) = find_channel_spec(chs, cm, name) {
        assert(channel_named(chs, cm, name, j));
    }
}

/// A message to a channel from one of its members goes, with the
/// channel's own spelling of its name, to every other member of the
/// channel the target names, wherever that channel stands in the list
/// (channel names being distinct under the casemap).
pub proof fn law_channel_message_reaches_other_members(
    chs: Seq<ChannelView>,
    cm: Casemap,
    from: u64,
    origin: Seq<u8>,
    target: Seq<u8>,
    text: Seq<u8>,
    verb: TextVerb,
    emit_errors: bool,
    i: int,
)
    requires
        channel_named(chs, cm, target, i),
        forall|k: int| #[trigger] channel_named(chs, cm, target, k) ==> k == i,
        chs[i].members.contains(from),
    ensures
        route_to_channel(chs, cm, from, origin, target, text, verb, emit_errors) == Some(
            OutboundView::Broadcast {
                recipients: chs[i].members.filter(other_than(from)),
                line: LineView { origin, verb, target: chs[i].name, text },
            },
        ),
        forall|m: u64|
            #[trigger] chs[i].members.filter(other_than(from)).contains(m) <==> (
            chs[i].members.contains(m) && m != from),
{
    law_find_channel_finds_first_match(chs, cm, target);
    let j = find_channel_spec(chs, cm, target)->0;
    assert(channel_named(chs, cm, target, j));
    let ms = chs[i].members;
    let f = other_than(from);
    assert forall|m: u64| #[trigger] ms.filter(f).contains(m) <==> (ms.contains(m) && m != from) by {
        if ms.filter(f).contains(m) {
            ms.lemma_filter_contains_rev(f, m);
            let k = choose|k: int| 0 <= k < ms.filter(f).len() && ms.filter(f)[k] == m;
            ms.lemma_filter_pred(f, k);
        }
        if ms.contains(m) && m != from {
            let k = choose|k: int| 0 <= k < ms.len() && ms[k] == m;
            ms.lemma_filter_contains(f, k);
        }
    }
}

/// A message to a nickname that no live user holds: PRIVMSG answers the
/// sender with `ERR_NOSUCHNICK` naming the target, NOTICE sends nothing.
pub proof fn law_unknown_nick_is_401(
    s: ServerView,
    origin: Seq<u8>,
    target: Seq<u8>,
    text: Seq<u8>,
    verb: TextVerb,
)
    requires
        lookup_nick(s, target) is None,
    ensures
        route_to_user(s, origin, target, text, verb, true) == Some(
            OutboundView::Reply(ReplyView::NoSuchNick(target)),
        ),
        route_to_user(s, origin, target, text, verb, false) is None,
{
}

/// A message to a channel name that names no channel: PRIVMSG answers the
/// sender with `ERR_NOSUCHCHANNEL` naming the target, NOTICE sends nothing.
pub proof fn law_missing_channel_is_403(
    chs: Seq<ChannelView>,
    cm: Casemap,
    from: u64,
    origin: Seq<u8>,
    target: Seq<u8>,
    text: Seq<u8>,
    verb: TextVerb,
)
    requires
        forall|k: int| !#[trigger] channel_named(chs, cm, target, k),
    ensures
        route_to_channel(chs, cm, from, origin, target, text, verb, true) == Some(
            OutboundView::Reply(ReplyView::NoSuchChannel(target)),
        ),
        route_to_channel(chs, cm, from, origin, target, text, verb, false) is None,
{
    law_find_channel_finds_first_match(chs, cm, target);
}

/// A message to a channel from someone who is not a member: PRIVMSG answers
/// the sender with `ERR_CANNOTSENDTOCHAN` naming the channel in its own
/// spelling, NOTICE sends nothing; nobody else hears it.
pub proof fn law_non_member_is_404(
    chs: Seq<ChannelView>,
    cm: Casemap,
    from: u64,
    origin: Seq<u8>,
    target: Seq<u8>,
    text: Seq<u8>,
    verb: TextVerb,
    i: int,
)
    requires
        channel_named(chs, cm, target, i),
        forall|k: int| #[trigger] channel_named(chs, cm, target, k) ==> k == i,
        !chs[i].members.contains(from),
    ensures
        route_to_channel(chs, cm, from, origin, target, text, verb, true) == Some(
            OutboundView::Reply(ReplyView::CannotSendToChan(chs[i].name)),
        ),
        route_to_channel(chs, cm, from, origin, target, text, verb, false) is None,
{
    law_find_channel_finds_first_match(chs, cm, target);
    let j = find_channel_spec(chs, cm, target)->0;
    assert(channel_named(chs, cm, target, j));
}

/// The numeric replies carry their IRC codes: 451 not registered, 401 no
/// such nick, 403 no such channel, 404 cannot send to channel.
pub proof fn law_reply_codes(n: Seq<u8>)
    ensures
        reply_code(ReplyView::NotRegistered) == 451,
        reply_code(ReplyView::NoSuchNick(n)) == 401,
        reply_code(ReplyView::NoSuchChannel(n)) == 403,
        reply_code(ReplyView::CannotSendToChan(n)) == 404,
{
}

} // verus!
