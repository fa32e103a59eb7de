//! What the broker sends: the event loop, the latest reading of each topic, and the messages of an
//! observation window.
use crate::envelope;
use crate::envelope::{ScanEntry, ScanEntryView, TagDescriptor, TagDescriptorView, Vqt, VqtView};
use crate::mqtt::connection;
use crate::mqtt::connection::{
    ConnStatus, ConnStatusView, Incoming, MessageView, ReceivedMessage,
};
use crate::text;
use vstd::prelude::*;

verus! {

/// What the event loop keeps: the state of the connection, the last failure, and the latest reading
/// of each topic.
#[derive(Debug)]
pub struct Feed {
    pub status: ConnStatus,
    pub last_error: Option<String>,
    pub cache: Vec<Vqt>,
}

/// The model of a [`Feed`].
pub struct FeedView {
    pub status: ConnStatusView,
    pub last_error: Option<Seq<char>>,
    pub cache: Map<Seq<char>, VqtView>,
}

/// The readings by topic.
pub open spec fn by_topic(readings: Seq<Vqt>) -> Map<Seq<char>, VqtView>
    decreases readings.len(),
{
    if readings.len() == 0 {
        Map::empty()
    } else {
        by_topic(readings.drop_last()).insert(readings.last()@.tag_id, readings.last()@)
    }
}

/// Whether no two readings are of one topic.
pub open spec fn distinct(readings: Seq<Vqt>) -> bool {
    forall|i: int, j: int|
        0 <= i < j < readings.len() ==> (#[trigger] readings[i])@.tag_id != (
        #[trigger] readings[j])@.tag_id
}

impl View for Feed {
    type V = FeedView;

    open spec fn view(&self) -> FeedView {
        FeedView {
            status: self.status@,
            last_error: envelope::opt_text(self.last_error),
            cache: by_topic(self.cache@),
        }
    }
}

/// What the event loop meets.
#[derive(Debug)]
pub enum LoopEvent {
    /// The broker accepted the connection.
    ConnAck,
    /// A message came in.
    Publish(Incoming),
    /// The broker closed the connection.
    Disconnect,
    /// The transport failed; the client connects anew by itself.
    Failed(String),
    /// Anything else.
    Other,
}

/// What the event loop keeps after an event.
pub open spec fn stepped(feed: FeedView, event: LoopEvent) -> FeedView {
    match event {
        LoopEvent::ConnAck => FeedView { status: ConnStatusView::Connected, ..feed },
        LoopEvent::Publish(m) => FeedView {
            cache: feed.cache.insert(
                m.topic@,
                connection::reading(connection::decoded(m)),
            ),
            ..feed
        },
        LoopEvent::Disconnect => FeedView {
            status: ConnStatusView::Error("disconnected by broker"@),
            ..feed
        },
        LoopEvent::Failed(e) => FeedView {
            status: ConnStatusView::Error(e@),
            last_error: Some(e@),
            ..feed
        },
        LoopEvent::Other => feed,
    }
}

proof fn lemma_by_topic(readings: Seq<Vqt>, i: int)
    requires
        distinct(readings),
        0 <= i < readings.len(),
    ensures
        by_topic(readings).contains_key(readings[i]@.tag_id),
        by_topic(readings)[readings[i]@.tag_id] == readings[i]@,
    decreases readings.len(),
{
    if i < readings.len() - 1 {
        let rest = readings.drop_last();
        assert(distinct(rest)) by {
            assert forall|a: int, b: int| 0 <= a < b < rest.len() implies (#[trigger] rest[a])@.tag_id
                != (#[trigger] rest[b])@.tag_id by {
                assert(rest[a] == readings[a] && rest[b] == readings[b]);
            }
        }
        lemma_by_topic(rest, i);
        assert(readings[i]@.tag_id != readings[readings.len() - 1]@.tag_id);
    }
}

proof fn lemma_no_topic(readings: Seq<Vqt>, topic: Seq<char>)
    requires
        forall|i: int| 0 <= i < readings.len() ==> (#[trigger] readings[i])@.tag_id != topic,
    ensures
        !by_topic(readings).contains_key(topic),
    decreases readings.len(),
{
    if readings.len() > 0 {
        let rest = readings.drop_last();
        assert forall|i: int| 0 <= i < rest.len() implies (#[trigger] rest[i])@.tag_id != topic by {
            assert(rest[i] == readings[i]);
        }
        lemma_no_topic(rest, topic);
        assert(readings[readings.len() - 1]@.tag_id != topic);
    }
}

proof fn lemma_replace(readings: Seq<Vqt>, i: int, v: Vqt)
    requires
        distinct(readings),
        0 <= i < readings.len(),
        readings[i]@.tag_id == v@.tag_id,
    ensures
        distinct(readings.update(i, v)),
        by_topic(readings.update(i, v)) == by_topic(readings).insert(v@.tag_id, v@),
    decreases readings.len(),
{
    let new = readings.update(i, v);
    assert forall|a: int, b: int| 0 <= a < b < new.len() implies (#[trigger] new[a])@.tag_id != (
    #[trigger] new[b])@.tag_id by {
        assert(readings[a]@.tag_id != readings[b]@.tag_id);
    }
    let rest = readings.drop_last();
    if i < readings.len() - 1 {
        assert(distinct(rest)) by {
            assert forall|a: int, b: int| 0 <= a < b < rest.len() implies (#[trigger] rest[a])@.tag_id
                != (#[trigger] rest[b])@.tag_id by {
                assert(rest[a] == readings[a] && rest[b] == readings[b]);
            }
        }
        lemma_replace(rest, i, v);
        assert(new.drop_last() == rest.update(i, v));
        assert(readings[i]@.tag_id != readings[readings.len() - 1]@.tag_id);
        assert(by_topic(new) == by_topic(readings).insert(v@.tag_id, v@));
    } else {
        assert(new.drop_last() == rest);
        assert(by_topic(new) == by_topic(readings).insert(v@.tag_id, v@));
    }
}

/// The position of the reading of a topic.
fn position(readings: &Vec<Vqt>, topic: &str) -> (r: Option<usize>)
    requires
        distinct(readings@),
    ensures
        match r {
            Some(i) => {
                &&& i < readings@.len()
                &&& readings@[i as int]@.tag_id == topic@
                &&& by_topic(readings@).contains_key(topic@)
                &&& by_topic(readings@)[topic@] == readings@[i as int]@
            },
            None => {
                &&& !by_topic(readings@).contains_key(topic@)
                &&& forall|i: int|
                    0 <= i < readings@.len() ==> (#[trigger] readings@[i])@.tag_id != topic@
            },
        },
{
    let mut i: usize = 0;
    while i < readings.len()
        invariant
            i <= readings.len(),
            distinct(readings@),
            forall|j: int| 0 <= j < i ==> (#[trigger] readings@[j])@.tag_id != topic@,
        decreases readings.len() - i,
    {
        if text::same(readings[i].tag_id.as_str(), topic) {
            proof {
                lemma_by_topic(readings@, i as int);
            }
            return Some(i);
        }
        i = i + 1;
    }
    proof {
        lemma_no_topic(readings@, topic@);
    }
    None
}

impl Feed {
    /// Whether the cache holds one reading per topic.
    pub open spec fn wf(self) -> bool {
        distinct(self.cache@)
    }

    /// A feed that waits for the broker.
    pub fn new() -> (r: Feed)
        ensures
            r.wf(),
            r@ == (FeedView {
                status: ConnStatusView::Connecting,
                last_error: None,
                cache: Map::empty(),
            }),
    {
        Feed { status: ConnStatus::Connecting, last_error: None, cache: Vec::new() }
    }

    /// Takes an event in. A message that came in is handed back with its payload as text, for all
    /// that wait for one.
    pub fn step(&mut self, event: LoopEvent) -> (r: Option<ReceivedMessage>)
        requires
            old(self).wf(),
        ensures
            final(self).wf(),
            final(self)@ == stepped(old(self)@, event),
            match event {
                LoopEvent::Publish(m) => r is Some && r->0@ == connection::decoded(m),
                _ => r is None,
            },
    {
        match event {
            LoopEvent::ConnAck => {
                self.status = ConnStatus::Connected;
                None
            },
            LoopEvent::Publish(m) => {
                let received: ReceivedMessage = connection::decode(m);
                self.remember(connection::message_vqt(&received));
                Some(received)
            },
            LoopEvent::Disconnect => {
                self.status = ConnStatus::Error("disconnected by broker".to_owned());
                None
            },
            LoopEvent::Failed(e) => {
                self.status = ConnStatus::Error(e.clone());
                self.last_error = Some(e);
                None
            },
            LoopEvent::Other => None,
        }
    }

    /// Keeps a reading as the latest of its topic.
    fn remember(&mut self, v: Vqt)
        requires
            old(self).wf(),
        ensures
            final(self).wf(),
            final(self)@ == (FeedView {
                cache: old(self)@.cache.insert(v@.tag_id, v@),
                ..old(self)@
            }),
    {
        match position(&self.cache, v.tag_id.as_str()) {
            Some(i) => {
                proof {
                    lemma_replace(self.cache@, i as int, v);
                }
                self.cache.set(i, v);
            },
            None => {
                let ghost was = self.cache@;
                self.cache.push(v);
                proof {
                    assert(self.cache@.drop_last() == was);
                    assert forall|a: int, b: int| 0 <= a < b < self.cache@.len() implies (
                    #[trigger] self.cache@[a])@.tag_id != (#[trigger] self.cache@[b])@.tag_id by {
                        assert(self.cache@[a] == was[a]);
                        if b < was.len() {
                            assert(self.cache@[b] == was[b]);
                        }
                    }
                }
            },
        }
    }

    /// The latest reading of a topic.
    pub fn latest_reading(&self, topic: &str) -> (r: Option<&Vqt>)
        requires
            self.wf(),
        ensures
            match r {
                Some(v) => self@.cache.contains_key(topic@) && self@.cache[topic@] == v@,
                None => !self@.cache.contains_key(topic@),
            },
    {
        match position(&self.cache, topic) {
            Some(i) => Some(&self.cache[i]),
            None => None,
        }
    }

    /// The descriptors of the topics in the cache, the one that came first in front.
    pub fn describe_cache(&self) -> (r: Vec<TagDescriptor>)
        ensures
            envelope::views(r@) == cache_descriptors(self.cache@),
    {
        let mut r: Vec<TagDescriptor> = Vec::new();
        let mut i: usize = 0;
        while i < self.cache.len()
            invariant
                i <= self.cache.len(),
                r@.len() == i,
                forall|j: int|
                    0 <= j < i ==> (#[trigger] r@[j])@ == connection::descriptor_from(
                        self.cache@[j]@,
                    ),
            decreases self.cache.len() - i,
        {
            r.push(connection::vqt_to_descriptor(&self.cache[i]));
            i = i + 1;
        }
        assert(envelope::views(r@) == cache_descriptors(self.cache@));
        r
    }
}

/// The descriptors of the topics in a cache, in its order.
pub open spec fn cache_descriptors(readings: Seq<Vqt>) -> Seq<TagDescriptorView> {
    readings.map_values(|v: Vqt| connection::descriptor_from(v@))
}

/// The messages seen, after one more: it takes the place of the one on its topic, or comes last.
pub open spec fn noted(seen: Seq<MessageView>, m: MessageView) -> Seq<MessageView>
    decreases seen.len(),
{
    if seen.len() == 0 {
        seq![m]
    } else if seen[0].topic == m.topic {
        seen.update(0, m)
    } else {
        seq![seen[0]] + noted(seen.drop_first(), m)
    }
}

/// The last message on each topic, the topic that was seen first in front.
pub open spec fn latest(messages: Seq<MessageView>) -> Seq<MessageView>
    decreases messages.len(),
{
    if messages.len() == 0 {
        Seq::empty()
    } else {
        noted(latest(messages.drop_last()), messages.last())
    }
}

/// The first message on a topic, of those listed.
pub open spec fn held(seen: Seq<MessageView>, topic: Seq<char>) -> Option<MessageView>
    decreases seen.len(),
{
    if seen.len() == 0 {
        None
    } else if seen[0].topic == topic {
        Some(seen[0])
    } else {
        held(seen.drop_first(), topic)
    }
}

/// The last message on a topic, of those received.
pub open spec fn last_on(messages: Seq<MessageView>, topic: Seq<char>) -> Option<MessageView>
    decreases messages.len(),
{
    if messages.len() == 0 {
        None
    } else if messages.last().topic == topic {
        Some(messages.last())
    } else {
        last_on(messages.drop_last(), topic)
    }
}

proof fn lemma_noted_at(seen: Seq<MessageView>, i: int, m: MessageView)
    requires
        0 <= i <= seen.len(),
        forall|j: int| 0 <= j < i ==> (#[trigger] seen[j]).topic != m.topic,
        i < seen.len() ==> seen[i].topic == m.topic,
    ensures
        noted(seen, m) == if i < seen.len() {
            seen.update(i, m)
        } else {
            seen.push(m)
        },
    decreases seen.len(),
{
    if seen.len() > 0 && i > 0 {
        let rest = seen.drop_first();
        assert(seen[0].topic != m.topic);
        assert forall|j: int| 0 <= j < i - 1 implies (#[trigger] rest[j]).topic != m.topic by {
            assert(rest[j] == seen[j + 1]);
        }
        lemma_noted_at(rest, i - 1, m);
        if i < seen.len() {
            assert(seq![seen[0]] + rest.update(i - 1, m) == seen.update(i, m));
        } else {
            assert(seq![seen[0]] + rest.push(m) == seen.push(m));
        }
    } else if seen.len() == 0 {
        assert(seen.push(m) == seq![m]);
    }
}

/// Keeps a message as the last one on its topic.
pub fn note(seen: &mut Vec<ReceivedMessage>, m: ReceivedMessage)
    ensures
        envelope::views(final(seen)@) == noted(envelope::views(old(seen)@), m@),
{
    let ghost before = envelope::views(seen@);
    let mut i: usize = 0;
    while i < seen.len()
        invariant
            i <= seen.len(),
            before == envelope::views(seen@),
            seen@ == old(seen)@,
            forall|j: int| 0 <= j < i ==> (#[trigger] before[j]).topic != m@.topic,
        decreases seen.len() - i,
    {
        if text::same(seen[i].topic.as_str(), m.topic.as_str()) {
            proof {
                lemma_noted_at(before, i as int, m@);
            }
            seen.set(i, m);
            assert(envelope::views(seen@) == before.update(i as int, m@));
            return;
        }
        i = i + 1;
    }
    proof {
        lemma_noted_at(before, i as int, m@);
    }
    seen.push(m);
    assert(envelope::views(seen@) == before.push(m@));
}

/// The last message on each topic.
pub fn latest_messages(messages: &Vec<ReceivedMessage>) -> (r: Vec<ReceivedMessage>)
    ensures
        envelope::views(r@) == latest(envelope::views(messages@)),
{
    let ghost all = envelope::views(messages@);
    let mut seen: Vec<ReceivedMessage> = Vec::new();
    let mut i: usize = 0;
    assert(envelope::views(seen@) == Seq::<MessageView>::empty());
    while i < messages.len()
        invariant
            i <= messages.len(),
            all == envelope::views(messages@),
            envelope::views(seen@) == latest(all.take(i as int)),
        decreases messages.len() - i,
    {
        assert(all.take(i + 1).drop_last() == all.take(i as int));
        assert(all.take(i + 1).last() == messages@[i as int]@);
        note(&mut seen, messages[i].copy());
        i = i + 1;
    }
    assert(all.take(all.len() as int) == all);
    seen
}

proof fn lemma_noted_held(seen: Seq<MessageView>, m: MessageView, topic: Seq<char>)
    ensures
        held(noted(seen, m), topic) == if topic == m.topic {
            Some(m)
        } else {
            held(seen, topic)
        },
    decreases seen.len(),
{
    let new = noted(seen, m);
    if seen.len() == 0 {
        assert(new.drop_first() == Seq::<MessageView>::empty());
        assert(held(new.drop_first(), topic) is None);
    } else if seen[0].topic == m.topic {
        assert(new.drop_first() == seen.drop_first());
    } else {
        lemma_noted_held(seen.drop_first(), m, topic);
        assert(new.drop_first() == noted(seen.drop_first(), m));
    }
}

proof fn lemma_noted_topics(seen: Seq<MessageView>, m: MessageView)
    requires
        one_per_topic(seen),
    ensures
        one_per_topic(noted(seen, m)),
        forall|i: int|
            0 <= i < noted(seen, m).len() ==> (#[trigger] noted(seen, m)[i]).topic == m.topic || (
            exists|j: int| 0 <= j < seen.len() && (#[trigger] seen[j]).topic == noted(seen, m)[i].topic),
    decreases seen.len(),
{
    let new = noted(seen, m);
    if seen.len() == 0 {
    } else if seen[0].topic == m.topic {
        assert forall|a: int, b: int| 0 <= a < b < new.len() implies (#[trigger] new[a]).topic != (
        #[trigger] new[b]).topic by {
            assert(seen[a].topic != seen[b].topic);
        }
        assert forall|i: int| 0 <= i < new.len() implies (#[trigger] new[i]).topic == m.topic || (
        exists|j: int| 0 <= j < seen.len() && (#[trigger] seen[j]).topic == new[i].topic) by {
            assert(seen[i].topic == new[i].topic);
        }
    } else {
        let rest = seen.drop_first();
        assert forall|a: int, b: int| 0 <= a < b < rest.len() implies (#[trigger] rest[a]).topic != (
        #[trigger] rest[b]).topic by {
            assert(rest[a] == seen[a + 1] && rest[b] == seen[b + 1]);
        }
        lemma_noted_topics(rest, m);
        let tail = noted(rest, m);
        assert forall|i: int| 0 <= i < new.len() implies (#[trigger] new[i]).topic == m.topic || (
        exists|j: int| 0 <= j < seen.len() && (#[trigger] seen[j]).topic == new[i].topic) by {
            if i == 0 {
                assert(seen[0].topic == new[0].topic);
            } else {
                assert(new[i] == tail[i - 1]);
                if new[i].topic != m.topic {
                    let j = choose|j: int|
                        0 <= j < rest.len() && (#[trigger] rest[j]).topic == tail[i - 1].topic;
                    assert(seen[j + 1].topic == new[i].topic);
                }
            }
        }
        assert forall|a: int, b: int| 0 <= a < b < new.len() implies (#[trigger] new[a]).topic != (
        #[trigger] new[b]).topic by {
            assert(new[b] == tail[b - 1]);
            if a > 0 {
                assert(new[a] == tail[a - 1]);
            } else if new[b].topic != m.topic {
                let j = choose|j: int|
                    0 <= j < rest.len() && (#[trigger] rest[j]).topic == tail[b - 1].topic;
                assert(seen[0].topic != seen[j + 1].topic);
            }
        }
    }
}

/// Whether no two messages are on one topic.
pub open spec fn one_per_topic(seen: Seq<MessageView>) -> bool {
    forall|i: int, j: int|
        0 <= i < j < seen.len() ==> (#[trigger] seen[i]).topic != (#[trigger] seen[j]).topic
}

/// An observation window ends with one message per topic: the last one that came in on it.
pub proof fn law_last_message_wins(messages: Seq<MessageView>, topic: Seq<char>)
    ensures
        one_per_topic(latest(messages)),
        held(latest(messages), topic) == last_on(messages, topic),
    decreases messages.len(),
{
    if messages.len() > 0 {
        law_last_message_wins(messages.drop_last(), topic);
        lemma_noted_held(latest(messages.drop_last()), messages.last(), topic);
        lemma_noted_topics(latest(messages.drop_last()), messages.last());
    }
}

/// A topic's cached reading is that of the last message on it, as its bytes decode; the readings of
/// other topics stay, and so does the state of the connection.
pub proof fn law_cache_holds_last(feed: FeedView, m: Incoming, topic: Seq<char>)
    ensures
        ({
            let after = stepped(feed, LoopEvent::Publish(m));
            &&& after.cache.contains_key(m.topic@)
            &&& after.cache[m.topic@] == connection::parsed_payload(
                m.topic@,
                connection::lossy_of(m.payload@),
                m.number,
                m.timestamp@,
            )
            &&& after.cache[m.topic@].tag_id == m.topic@
            &&& topic != m.topic@ ==> {
                &&& after.cache.contains_key(topic) == feed.cache.contains_key(topic)
                &&& after.cache[topic] == feed.cache[topic]
            }
            &&& after.status == feed.status
            &&& after.last_error == feed.last_error
        }),
{
}

/// A topic that a scan saw.
#[derive(Debug)]
pub struct MqttScanEntry {
    pub entry: ScanEntry,
    pub retain: bool,
}

/// The model of an [`MqttScanEntry`].
pub struct MqttScanEntryView {
    pub entry: ScanEntryView,
    pub retain: bool,
}

impl View for MqttScanEntry {
    type V = MqttScanEntryView;

    open spec fn view(&self) -> MqttScanEntryView {
        MqttScanEntryView { entry: self.entry@, retain: self.retain }
    }
}

/// What a scan tells of a message: its reading.
pub open spec fn scan_entry(m: MessageView) -> MqttScanEntryView {
    let v = connection::reading(m);
    MqttScanEntryView {
        entry: ScanEntryView {
            topic: m.topic,
            last_value: Some(v.value),
            quality: v.quality,
            timestamp: Some(v.timestamp),
        },
        retain: m.retain,
    }
}

/// What a scan tells of the messages of its window: one entry per topic.
pub open spec fn scanned(messages: Seq<MessageView>) -> Seq<MqttScanEntryView> {
    latest(messages).map_values(|m: MessageView| scan_entry(m))
}

/// What a scan tells of the messages of its window.
pub fn scan_entries(messages: &Vec<ReceivedMessage>) -> (r: Vec<MqttScanEntry>)
    ensures
        envelope::views(r@) == scanned(envelope::views(messages@)),
{
    let seen: Vec<ReceivedMessage> = latest_messages(messages);
    let mut r: Vec<MqttScanEntry> = Vec::new();
    let mut i: usize = 0;
    while i < seen.len()
        invariant
            i <= seen.len(),
            r@.len() == i,
            forall|j: int| 0 <= j < i ==> (#[trigger] r@[j])@ == scan_entry(seen@[j]@),
        decreases seen.len() - i,
    {
        let m: &ReceivedMessage = &seen[i];
        let vqt: Vqt = connection::message_vqt(m);
        let entry = ScanEntry {
            topic: m.topic.clone(),
            last_value: Some(vqt.value),
            quality: vqt.quality,
            timestamp: Some(vqt.timestamp),
        };
        r.push(MqttScanEntry { entry, retain: m.retain });
        i = i + 1;
    }
    assert(envelope::views(r@) == scanned(envelope::views(messages@))) by {
        assert(latest(envelope::views(messages@)) == envelope::views(seen@));
    }
    r
}

} // verus!
