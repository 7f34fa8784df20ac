use std::collections::HashMap;
use vstd::prelude::*;

use crate::error::DisconnectReason;

verus! {

/// The voice target that sends a packet to the sender's own channel.
pub const CHANNEL_TARGET: u8 = 0;

/// The highest voice target that names a whisper target set up by the sender.
pub const LAST_WHISPER_TARGET: u8 = 30;

/// The voice target that sends a packet back to its sender.
pub const LOOPBACK_TARGET: u8 = 31;

/// Where an incoming voice packet goes.
#[derive(Debug, Clone, Copy, PartialEq, Eq, Structural)]
pub enum VoiceRoute {
    /// Nothing is relayed: the sender is muted or the packet carries no audio.
    Ignore,
    /// To the members of the sender's channel and the clients listening to it.
    Channel,
    /// To the sessions and channels of the sender's whisper target.
    Whisper,
    /// Straight back to the sender.
    Loopback,
    /// The target is unknown; nothing is relayed.
    InvalidTarget,
}

/// The route of a packet from a sender (`muted` or not), holding audio or not, sent to `target`.
pub open spec fn voice_route(muted: bool, is_audio: bool, target: u8) -> VoiceRoute {
    if muted || !is_audio {
        VoiceRoute::Ignore
    } else if target == CHANNEL_TARGET {
        VoiceRoute::Channel
    } else if target <= LAST_WHISPER_TARGET {
        VoiceRoute::Whisper
    } else if target == LOOPBACK_TARGET {
        VoiceRoute::Loopback
    } else {
        VoiceRoute::InvalidTarget
    }
}

/// Muted senders and packets without audio are never relayed; an unmuted sender's audio goes
/// to its channel for target 0, to a whisper target for targets 1 to 30, back to the sender
/// for target 31, and nowhere for any higher target.
pub proof fn lemma_voice_route_table(muted: bool, is_audio: bool, target: u8)
    ensures
        muted || !is_audio ==> voice_route(muted, is_audio, target) == VoiceRoute::Ignore,
        !muted && is_audio && target == 0 ==> voice_route(muted, is_audio, target)
            == VoiceRoute::Channel,
        !muted && is_audio && 1 <= target <= 30 ==> voice_route(muted, is_audio, target)
            == VoiceRoute::Whisper,
        !muted && is_audio && target == 31 ==> voice_route(muted, is_audio, target)
            == VoiceRoute::Loopback,
        !muted && is_audio && target >= 32 ==> voice_route(muted, is_audio, target)
            == VoiceRoute::InvalidTarget,
{
}

/// Decides where an incoming voice packet goes.
pub fn route_voice(muted: bool, is_audio: bool, target: u8) -> (route: VoiceRoute)
    ensures
        route == voice_route(muted, is_audio, target),
        muted ==> route == VoiceRoute::Ignore,
        !is_audio ==> route == VoiceRoute::Ignore,
        // the routes of an unmuted sender's audio, by target
        !muted && is_audio && target == 0 ==> route == VoiceRoute::Channel,
        !muted && is_audio && 1 <= target <= 30 ==> route == VoiceRoute::Whisper,
        !muted && is_audio && target == 31 ==> route == VoiceRoute::Loopback,
        !muted && is_audio && target >= 32 ==> route == VoiceRoute::InvalidTarget,
{
    proof {
        lemma_voice_route_table(muted, is_audio, target);
    }
    if muted || !is_audio {
        VoiceRoute::Ignore
    } else if target == CHANNEL_TARGET {
        VoiceRoute::Channel
    } else if target <= LAST_WHISPER_TARGET {
        VoiceRoute::Whisper
    } else if target == LOOPBACK_TARGET {
        VoiceRoute::Loopback
    } else {
        VoiceRoute::InvalidTarget
    }
}

/// The recipients gathered so far, one entry per session: a later entry for a session
/// replaces an earlier one.
pub open spec fn gathered_map<C>(gathered: Seq<(u32, C)>) -> Map<u32, C>
    decreases gathered.len(),
{
    if gathered.len() == 0 {
        Map::empty()
    } else {
        gathered_map(gathered.drop_last()).insert(gathered.last().0, gathered.last().1)
    }
}

/// The sessions of a packet's recipients, from the sessions gathered for it: each at most
/// once, and never the sender itself.
pub open spec fn listeners_of<C>(sender: u32, gathered: Seq<(u32, C)>) -> Map<u32, C> {
    gathered_map(gathered).remove(sender)
}

proof fn lemma_gathered_map_dom<C>(gathered: Seq<(u32, C)>)
    ensures
        forall|id: u32|
            #![trigger gathered_map(gathered).contains_key(id)]
            gathered_map(gathered).contains_key(id) <==> exists|i: int|
                0 <= i < gathered.len() && (#[trigger] gathered[i]).0 == id,
    decreases gathered.len(),
{
    if gathered.len() > 0 {
        let prev = gathered.drop_last();
        let last = gathered.len() - 1;
        assert(gathered.last() == gathered[last]);
        lemma_gathered_map_dom(prev);
        assert forall|id: u32| gathered_map(gathered).contains_key(id) implies exists|i: int|
            0 <= i < gathered.len() && (#[trigger] gathered[i]).0 == id by {
            if id != gathered[last].0 {
                assert(gathered_map(prev).contains_key(id));
                let i = choose|i: int| 0 <= i < prev.len() && (#[trigger] prev[i]).0 == id;
                assert(gathered[i] == prev[i]);
            }
        }
        assert forall|id: u32|
            (exists|i: int| 0 <= i < gathered.len() && (#[trigger] gathered[i]).0 == id) implies
            gathered_map(gathered).contains_key(id) by {
            let i = choose|i: int| 0 <= i < gathered.len() && (#[trigger] gathered[i]).0 == id;
            if i < last {
                assert(prev[i] == gathered[i]);
                assert(gathered_map(prev).contains_key(id));
            }
        }
    }
}

/// The last entry gathered for a session gives its handle.
pub proof fn lemma_gathered_map_last<C>(gathered: Seq<(u32, C)>, i: int)
    requires
        0 <= i < gathered.len(),
        forall|k: int| i < k < gathered.len() ==> (#[trigger] gathered[k]).0 != gathered[i].0,
    ensures
        gathered_map(gathered).contains_key(gathered[i].0),
        gathered_map(gathered)[gathered[i].0] == gathered[i].1,
    decreases gathered.len(),
{
    let prev = gathered.drop_last();
    let last = gathered.len() - 1;
    assert(gathered.last() == gathered[last]);
    if i < last {
        assert(prev[i] == gathered[i]);
        assert forall|k: int| i < k < prev.len() implies (#[trigger] prev[k]).0 != prev[i].0 by {
            assert(prev[k] == gathered[k]);
        }
        lemma_gathered_map_last(prev, i);
        assert(gathered[last].0 != gathered[i].0);
    }
}

/// Every gathered session but the sender receives the packet, and nothing else does.
pub proof fn lemma_listeners_are_gathered_others<C>(sender: u32, gathered: Seq<(u32, C)>)
    ensures
        !listeners_of(sender, gathered).contains_key(sender),
        forall|id: u32|
            #![trigger listeners_of(sender, gathered).contains_key(id)]
            listeners_of(sender, gathered).contains_key(id) <==> (id != sender && exists|i: int|
                0 <= i < gathered.len() && (#[trigger] gathered[i]).0 == id),
{
    lemma_gathered_map_dom(gathered);
    assert forall|id: u32| listeners_of(sender, gathered).contains_key(id) <==> (id != sender
        && exists|i: int| 0 <= i < gathered.len() && (#[trigger] gathered[i]).0 == id) by {
        if id != sender {
            assert(listeners_of(sender, gathered).contains_key(id) == gathered_map(
                gathered,
            ).contains_key(id));
        }
    }
}

/// Collects the recipients of a voice packet from the sessions gathered for it, in the
/// order they were gathered (a later handle for a session replaces an earlier one), and
/// leaves the sender out.
pub fn collect_listeners<C>(sender: u32, gathered: Vec<(u32, C)>) -> (listeners: HashMap<u32, C>)
    ensures
        listeners@ == listeners_of(sender, gathered@),
        !listeners@.contains_key(sender),
        forall|id: u32|
            #![trigger listeners@.contains_key(id)]
            listeners@.contains_key(id) <==> (id != sender && exists|i: int|
                0 <= i < gathered.len() && (#[trigger] gathered@[i]).0 == id),
        // a recipient is reached through the last handle gathered for it
        forall|i: int|
            0 <= i < gathered.len() && (#[trigger] gathered@[i]).0 != sender && (forall|k: int|
                i < k < gathered.len() ==> (#[trigger] gathered@[k]).0 != gathered@[i].0)
                ==> listeners@[gathered@[i].0] == gathered@[i].1,
{
    let ghost all = gathered@;
    let mut rest = gathered;
    let mut acc: HashMap<u32, C> = HashMap::new();
    while rest.len() > 0
        invariant
            rest@ == all.take(rest.len() as int),
            rest.len() <= all.len(),
            gathered_map(all) == gathered_map(rest@).union_prefer_right(acc@),
        decreases rest.len(),
    {
        let ghost before = rest@;
        let item = rest.pop();
        match item {
            Some((session_id, handle)) => {
                proof {
                    assert(before.drop_last() == rest@);
                    assert(rest@ == all.take(rest.len() as int));
                }
                if !acc.contains_key(&session_id) {
                    acc.insert(session_id, handle);
                    assert(gathered_map(before) =~= gathered_map(rest@).insert(session_id, handle));
                    assert(gathered_map(all) =~= gathered_map(rest@).union_prefer_right(acc@));
                } else {
                    assert(gathered_map(all) =~= gathered_map(rest@).union_prefer_right(acc@));
                }
            },
            None => {},
        }
    }
    assert(gathered_map(rest@) =~= Map::<u32, C>::empty());
    assert(gathered_map(all) =~= acc@);
    acc.remove(&sender);
    proof {
        assert(acc@ =~= listeners_of(sender, all));
        lemma_listeners_are_gathered_others(sender, all);
        assert forall|i: int|
            0 <= i < all.len() && (#[trigger] all[i]).0 != sender && (forall|k: int|
                i < k < all.len() ==> (#[trigger] all[k]).0 != all[i].0) implies acc@[all[i].0]
            == all[i].1 by {
            lemma_gathered_map_last(all, i);
        }
    }
    acc
}

/// A client that may hear a voice packet, as found while gathering its recipients.
pub struct Candidate<C> {
    pub session_id: u32,
    /// The client has deafened itself: it hears nothing.
    pub deaf: bool,
    /// How the packet reaches the client.
    pub handle: C,
}

/// The members of a channel and the clients listening to it from elsewhere.
pub struct TargetChannel<C> {
    pub listeners: Vec<Candidate<C>>,
    pub members: Vec<Candidate<C>>,
}

/// The candidates that are not deaf, in order, as sessions with their handles.
pub open spec fn audible<C>(candidates: Seq<Candidate<C>>) -> Seq<(u32, C)>
    decreases candidates.len(),
{
    if candidates.len() == 0 {
        Seq::empty()
    } else {
        let prev = audible(candidates.drop_last());
        if candidates.last().deaf {
            prev
        } else {
            prev.push((candidates.last().session_id, candidates.last().handle))
        }
    }
}

/// The audible candidates of whisper-target channels, channel by channel: first those
/// listening to the channel, then its members.
pub open spec fn channels_audible<C>(channels: Seq<TargetChannel<C>>) -> Seq<(u32, C)>
    decreases channels.len(),
{
    if channels.len() == 0 {
        Seq::empty()
    } else {
        channels_audible(channels.drop_last()) + audible(channels.last().listeners@) + audible(
            channels.last().members@,
        )
    }
}

/// Some entry of `entries` is for session `id`.
pub open spec fn has_session<C>(entries: Seq<(u32, C)>, id: u32) -> bool {
    exists|i: int| 0 <= i < entries.len() && (#[trigger] entries[i]).0 == id
}

/// Some candidate of `candidates` is session `id` and is not deaf.
pub open spec fn hears<C>(candidates: Seq<Candidate<C>>, id: u32) -> bool {
    exists|i: int|
        0 <= i < candidates.len() && (#[trigger] candidates[i]).session_id == id
            && !candidates[i].deaf
}

/// Some channel of `channels` has session `id` listening to it or as a member, not deaf.
pub open spec fn hears_in_channels<C>(channels: Seq<TargetChannel<C>>, id: u32) -> bool {
    exists|c: int|
        0 <= c < channels.len() && (hears((#[trigger] channels[c]).listeners@, id) || hears(
            channels[c].members@,
            id,
        ))
}

proof fn lemma_has_session_concat<C>(a: Seq<(u32, C)>, b: Seq<(u32, C)>, id: u32)
    ensures
        has_session(a + b, id) <==> (has_session(a, id) || has_session(b, id)),
{
    let ab = a + b;
    if has_session(ab, id) {
        let i = choose|i: int| 0 <= i < ab.len() && (#[trigger] ab[i]).0 == id;
        if i < a.len() {
            assert(a[i] == ab[i]);
        } else {
            assert(b[i - a.len()] == ab[i]);
        }
    }
    if has_session(a, id) {
        let i = choose|i: int| 0 <= i < a.len() && (#[trigger] a[i]).0 == id;
        assert(ab[i] == a[i]);
    }
    if has_session(b, id) {
        let i = choose|i: int| 0 <= i < b.len() && (#[trigger] b[i]).0 == id;
        assert(ab[i + a.len()] == b[i]);
    }
}

proof fn lemma_audible_sessions<C>(candidates: Seq<Candidate<C>>, id: u32)
    ensures
        has_session(audible(candidates), id) <==> hears(candidates, id),
    decreases candidates.len(),
{
    if candidates.len() > 0 {
        let prev = candidates.drop_last();
        let last = candidates.len() - 1;
        assert(candidates.last() == candidates[last]);
        lemma_audible_sessions(prev, id);
        let ap = audible(prev);
        if !candidates[last].deaf {
            let pair = (candidates[last].session_id, candidates[last].handle);
            lemma_has_session_concat(ap, seq![pair], id);
            assert(ap.push(pair) == ap + seq![pair]);
            if has_session(seq![pair], id) {
                assert(seq![pair][0] == pair);
            }
            if candidates[last].session_id == id {
                assert(seq![pair][0].0 == id);
            }
        }
        if hears(prev, id) {
            let i = choose|i: int|
                0 <= i < prev.len() && (#[trigger] prev[i]).session_id == id && !prev[i].deaf;
            assert(candidates[i] == prev[i]);
        }
        if hears(candidates, id) {
            let i = choose|i: int|
                0 <= i < candidates.len() && (#[trigger] candidates[i]).session_id == id
                    && !candidates[i].deaf;
            if i < last {
                assert(prev[i] == candidates[i]);
            }
        }
    }
}

proof fn lemma_channels_audible_sessions<C>(channels: Seq<TargetChannel<C>>, id: u32)
    ensures
        has_session(channels_audible(channels), id) <==> hears_in_channels(channels, id),
    decreases channels.len(),
{
    if channels.len() > 0 {
        let prev = channels.drop_last();
        let last = channels.len() - 1;
        let ch = channels[last];
        assert(channels.last() == ch);
        lemma_channels_audible_sessions(prev, id);
        let head = channels_audible(prev) + audible(ch.listeners@);
        lemma_has_session_concat(channels_audible(prev), audible(ch.listeners@), id);
        lemma_has_session_concat(head, audible(ch.members@), id);
        lemma_audible_sessions(ch.listeners@, id);
        lemma_audible_sessions(ch.members@, id);
        if hears_in_channels(prev, id) {
            let c = choose|c: int|
                0 <= c < prev.len() && (hears((#[trigger] prev[c]).listeners@, id) || hears(
                    prev[c].members@,
                    id,
                ));
            assert(channels[c] == prev[c]);
        }
        if hears_in_channels(channels, id) {
            let c = choose|c: int|
                0 <= c < channels.len() && (hears((#[trigger] channels[c]).listeners@, id)
                    || hears(channels[c].members@, id));
            if c < last {
                assert(prev[c] == channels[c]);
            }
        }
        if hears(ch.listeners@, id) || hears(ch.members@, id) {
            assert(hears_in_channels(channels, id));
        }
    }
}

/// Appends the candidates that are not deaf to `out`, in order.
fn push_audible<C>(out: &mut Vec<(u32, C)>, candidates: Vec<Candidate<C>>)
    ensures
        final(out)@ == old(out)@ + audible(candidates@),
{
    let ghost start = out@;
    let ghost all = candidates@;
    for candidate in it: candidates.into_iter()
        invariant
            it.seq() == all,
            out@ == start + audible(all.take(it.index() as int)),
    {
        let ghost k = it.index() as int;
        assert(all.take(k + 1).drop_last() == all.take(k));
        assert(all.take(k + 1).last() == candidate);
        if !candidate.deaf {
            out.push((candidate.session_id, candidate.handle));
        }
    }
    assert(all.take(all.len() as int) == all);
}

/// The recipients of ordinary talk in a channel: its members and the clients listening to
/// it from elsewhere, none of them deaf, each once, never the sender.
pub fn channel_recipients<C>(
    sender: u32,
    members: Vec<Candidate<C>>,
    listeners: Vec<Candidate<C>>,
) -> (recipients: HashMap<u32, C>)
    ensures
        recipients@ == listeners_of(sender, audible(members@) + audible(listeners@)),
        forall|id: u32|
            #![trigger recipients@.contains_key(id)]
            recipients@.contains_key(id) <==> (id != sender && (hears(members@, id) || hears(
                listeners@,
                id,
            ))),
{
    let ghost m = members@;
    let ghost l = listeners@;
    let mut gathered: Vec<(u32, C)> = Vec::new();
    push_audible(&mut gathered, members);
    push_audible(&mut gathered, listeners);
    assert(gathered@ =~= audible(m) + audible(l));
    let recipients = collect_listeners(sender, gathered);
    proof {
        assert forall|id: u32| #[trigger] recipients@.contains_key(id) <==> (id != sender && (hears(
            m,
            id,
        ) || hears(l, id))) by {
            lemma_has_session_concat(audible(m), audible(l), id);
            lemma_audible_sessions(m, id);
            lemma_audible_sessions(l, id);
        }
    }
    recipients
}

/// The recipients of a whisper: the target's sessions that are connected, then, for each
/// of the target's channels, the clients listening to it and its members; none of them
/// deaf, each once, never the sender.
pub fn whisper_recipients<C>(
    sender: u32,
    sessions: Vec<Candidate<C>>,
    channels: Vec<TargetChannel<C>>,
) -> (recipients: HashMap<u32, C>)
    ensures
        recipients@ == listeners_of(sender, audible(sessions@) + channels_audible(channels@)),
        forall|id: u32|
            #![trigger recipients@.contains_key(id)]
            recipients@.contains_key(id) <==> (id != sender && (hears(sessions@, id)
                || hears_in_channels(channels@, id))),
{
    let ghost s = sessions@;
    let ghost chs = channels@;
    let mut gathered: Vec<(u32, C)> = Vec::new();
    push_audible(&mut gathered, sessions);
    let ghost after_sessions = gathered@;
    for channel in it: channels.into_iter()
        invariant
            it.seq() == chs,
            after_sessions == audible(s),
            gathered@ == after_sessions + channels_audible(chs.take(it.index() as int)),
    {
        let ghost k = it.index() as int;
        assert(chs.take(k + 1).drop_last() == chs.take(k));
        assert(chs.take(k + 1).last() == channel);
        let TargetChannel { listeners, members } = channel;
        push_audible(&mut gathered, listeners);
        push_audible(&mut gathered, members);
        assert(gathered@ =~= after_sessions + channels_audible(chs.take(k + 1)));
    }
    assert(chs.take(chs.len() as int) == chs);
    let recipients = collect_listeners(sender, gathered);
    proof {
        assert forall|id: u32| #[trigger] recipients@.contains_key(id) <==> (id != sender && (hears(
            s,
            id,
        ) || hears_in_channels(chs, id))) by {
            lemma_has_session_concat(audible(s), channels_audible(chs), id);
            lemma_audible_sessions(s, id);
            lemma_channels_audible_sessions(chs, id);
        }
    }
    recipients
}

/// What follows an attempt to queue a packet to a client: nothing when it was queued,
/// and when the client's queue was full, the client is queued for disconnection.
pub fn send_outcome(queued: bool) -> (disconnect: Option<DisconnectReason>)
    ensures
        disconnect == (if queued {
            None
        } else {
            Some(DisconnectReason::ClientMSPCFull)
        }),
{
    if queued {
        None
    } else {
        Some(DisconnectReason::ClientMSPCFull)
    }
}

} // verus!
