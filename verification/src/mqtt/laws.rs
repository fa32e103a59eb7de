//! What the MQTT adapter keeps to, whatever the broker sends.
use crate::double::Double;
use crate::envelope;
use crate::envelope::{
    AdapterError, ConnectResponse, ErrorCode, Quality, ServerInfoResponse, TagDescriptor,
    TagValueView, Vqt, VqtView, WriteValue,
};
use crate::json::{Json, JsonView, Number};
use crate::laws;
use crate::mqtt::connection;
use crate::mqtt::connection::{
    ConnStatus, Incoming, MemberView, MessageView, PayloadMembers, ReceivedMessage,
};
use crate::mqtt::feed;
use crate::mqtt::feed::{Feed, LoopEvent, MqttScanEntry};
use crate::mqtt::server;
use crate::mqtt::server::{
    Awaited, ConnectAttempt, ConnectSettings, Heard, MqttMcpServer, Publication, Subscription,
};
use crate::mqtt::topics;
use crate::text;
use crate::topology;
use crate::topology::TopologyConfig;
use crate::writing::{Disconnected, WriteRequest, Written};
use vstd::prelude::*;

verus! {

/// Whether a reading of a plain payload is of good quality, has no units, and carries the topic and
/// the time of reception.
pub open spec fn plain_reading(topic: Seq<char>, received_at: Seq<char>, v: VqtView) -> bool {
    &&& v.tag_id == topic
    &&& v.quality == Quality::Good
    &&& v.timestamp == received_at
    &&& v.units.len() == 0
}

/// A payload without a JSON value that writes a number in decimal is read as exactly that number,
/// bit for bit.
pub proof fn law_plain_numbers_are_read_as_they_are(
    topic: &str,
    payload: &str,
    d: Double,
    timestamp: &str,
    v: Vqt,
)
    requires
        connection::json_member_of(payload@, "value"@) is None,
        call_ensures(connection::parse_mqtt_payload, (topic, payload, Some(d), timestamp), v),
    ensures
        v.value is Float,
        v.value->Float_0.bits == d.bits,
        plain_reading(topic@, timestamp@, v@),
{
}

/// The same, from the members that a payload was found to have: without a value, its number counts.
pub proof fn law_numbers_count_without_a_value(
    topic: &str,
    payload: &str,
    d: Double,
    timestamp: &str,
    members: &PayloadMembers,
    v: Vqt,
)
    requires
        members.value is None,
        call_ensures(connection::payload_vqt, (topic, payload, Some(d), timestamp, members), v),
    ensures
        v.value is Float,
        v.value->Float_0.bits == d.bits,
        plain_reading(topic@, timestamp@, v@),
{
}

/// A plain payload that writes no number is read as a state if it is, but for white space at its ends
/// and for capitals, one of the words for one; else as the text that it is.
pub proof fn law_plain_words_are_read_as_states(
    topic: &str,
    payload: &str,
    timestamp: &str,
    v: Vqt,
)
    requires
        connection::json_member_of(payload@, "value"@) is None,
        call_ensures(connection::parse_mqtt_payload, (topic, payload, None, timestamp), v),
    ensures
        ({
            let word = text::lowercase(text::trimmed(payload@));
            let on = seq!["true"@, "1"@, "on"@, "open"@, "active"@, "high"@].contains(word);
            let off = seq!["false"@, "0"@, "off"@, "closed"@, "inactive"@, "low"@].contains(word);
            &&& on ==> v.value@ == TagValueView::Bool(true)
            &&& off && !on ==> v.value@ == TagValueView::Bool(false)
            &&& !on && !off ==> v.value@ == TagValueView::Text(payload@)
        }),
        plain_reading(topic@, timestamp@, v@),
{
    let word = text::lowercase(text::trimmed(payload@));
    let on = seq!["true"@, "1"@, "on"@, "open"@, "active"@, "high"@];
    let off = seq!["false"@, "0"@, "off"@, "closed"@, "inactive"@, "low"@];
    assert(on[0] == "true"@ && on[1] == "1"@ && on[2] == "on"@ && on[3] == "open"@ && on[4]
        == "active"@ && on[5] == "high"@);
    assert(off[0] == "false"@ && off[1] == "0"@ && off[2] == "off"@ && off[3] == "closed"@ && off[4]
        == "inactive"@ && off[5] == "low"@);
}

/// The text of a member, if it holds one.
pub open spec fn text_in(m: Option<MemberView>) -> Option<Seq<char>> {
    match m {
        Some((_, _, Some(t))) => Some(t),
        _ => None,
    }
}

/// A JSON payload with a value is read as that value, a number bit for bit; with the quality, the
/// time and the units that it names, and else good, at the time of reception and without units.
pub proof fn law_json_payloads_are_read_as_they_say(
    topic: &str,
    payload: &str,
    number: Option<Double>,
    timestamp: &str,
    value: MemberView,
    v: Vqt,
)
    requires
        connection::json_member_of(payload@, "value"@) == Some(value),
        call_ensures(connection::parse_mqtt_payload, (topic, payload, number, timestamp), v),
    ensures
        v.tag_id@ == topic@,
        match value {
            (Some(bits), _, _) => v.value@ is Float && v.value@->Float_0.bits == bits,
            (None, Some(b), _) => v.value@ == TagValueView::Bool(b),
            (None, None, Some(t)) => v.value@ == TagValueView::Text(t),
            (None, None, None) => v.value@ == TagValueView::Text(payload@),
        },
        match text_in(connection::json_member_of(payload@, "quality"@)) {
            None => v.quality == Quality::Good,
            Some(q) => {
                &&& v.quality == Quality::Good <==> q == "good"@
                &&& v.quality == Quality::Uncertain <==> q == "uncertain"@
            },
        },
        v.timestamp@ == match text_in(connection::json_member_of(payload@, "timestamp"@)) {
            Some(t) => t,
            None => timestamp@,
        },
        v.units@ == match text_in(connection::json_member_of(payload@, "units"@)) {
            Some(u) => u,
            None => Seq::empty(),
        },
{
    reveal_strlit("good");
    reveal_strlit("uncertain");
    assert("good"@.len() == 4);
    assert("uncertain"@.len() == 9);
}

/// A message is read as its payload is, on its topic and with its time of reception.
pub proof fn law_messages_are_read_by_their_payload(
    m: &ReceivedMessage,
    topic: &str,
    payload: &str,
    timestamp: &str,
    v: Vqt,
    w: Vqt,
)
    requires
        topic@ == m.topic@,
        payload@ == m.payload@,
        timestamp@ == m.timestamp@,
        call_ensures(connection::message_vqt, (m,), v),
        call_ensures(connection::parse_mqtt_payload, (topic, payload, m.number, timestamp), w),
    ensures
        v@ == w@,
{
}

/// The part of a payload that may write a number is its text but for white space at the ends.
pub proof fn law_number_text(payload: &[u8], r: String)
    requires
        call_ensures(connection::number_text, (payload,), r),
    ensures
        r@ == text::trimmed(connection::lossy_of(payload@)),
{
}

/// A read that waited for a message answers the reading of that message; one that waited in vain
/// answers the cached reading, but as uncertain; one that could not wait fails, as does one for which
/// there is nothing.
pub proof fn law_read_tag(
    s: &MqttMcpServer,
    f: &Feed,
    tag_id: &str,
    awaited: &Awaited,
    r: Result<Vqt, AdapterError>,
)
    requires
        call_ensures(MqttMcpServer::read_tag, (s, f, tag_id, awaited), r),
    ensures
        match awaited {
            Awaited::Message(m) => r matches Ok(v) && forall|w: Vqt| #[trigger]
                call_ensures(connection::message_vqt, (m,), w) ==> v@ == w@,
            Awaited::Refused(_) => r matches Err(e) && e.code == ErrorCode::ConnectionError
                && e.tag_id is Some && e.tag_id->0@ == tag_id@,
            Awaited::Nothing => if f@.cache.contains_key(tag_id@) {
                let c = f@.cache[tag_id@];
                r matches Ok(v) && {
                    &&& v.quality == Quality::Uncertain
                    &&& v.tag_id@ == c.tag_id
                    &&& v.value@ == c.value
                    &&& v.timestamp@ == c.timestamp
                    &&& v.units@ == c.units
                }
            } else {
                r matches Err(e) && e.code == ErrorCode::Timeout && e.tag_id is Some
                    && e.tag_id->0@ == tag_id@
            },
        },
{
}

/// A message that comes in on a topic becomes that topic's reading, and is handed on as it came; what
/// is known of other topics stays.
pub proof fn law_feed_keeps_the_latest_reading(
    f: &mut Feed,
    m: Incoming,
    r: Option<ReceivedMessage>,
    topic: Seq<char>,
)
    requires
        call_ensures(Feed::step, (f, LoopEvent::Publish(m)), r),
    ensures
        r is Some,
        r->0.topic@ == m.topic@,
        r->0.payload@ == connection::lossy_of(m.payload@),
        r->0.number == m.number,
        r->0.timestamp@ == m.timestamp@,
        r->0.retain == m.retain,
        final(f)@.cache.contains_key(m.topic@),
        forall|w: Vqt| #[trigger]
            call_ensures(connection::message_vqt, (&r->0,), w) ==> final(f)@.cache[m.topic@] == w@,
        topic != m.topic@ ==> final(f)@.cache.contains_key(topic) == old(f)@.cache.contains_key(
            topic,
        ),
        topic != m.topic@ && old(f)@.cache.contains_key(topic) ==> final(f)@.cache[topic] == old(
            f,
        )@.cache[topic],
        final(f)@.status == old(f)@.status,
        final(f)@.last_error == old(f)@.last_error,
{
}

/// The state of the connection follows the broker: up when it accepts, down when it closes or fails,
/// and then with the reason. Of these only a failure is remembered as the last error. The readings
/// stay.
pub proof fn law_feed_follows_the_connection(
    f: &mut Feed,
    event: LoopEvent,
    r: Option<ReceivedMessage>,
)
    requires
        !(event is Publish),
        call_ensures(Feed::step, (f, event), r),
    ensures
        r is None,
        final(f)@.cache == old(f)@.cache,
        event is ConnAck ==> final(f)@.status is Connected,
        event is Disconnect ==> final(f)@.status is Error,
        event matches LoopEvent::Failed(e) ==> final(f)@.status
            == connection::ConnStatusView::Error(e@) && final(f)@.last_error == Some(e@),
        event is Other ==> final(f)@.status == old(f)@.status,
        !(event is Failed) ==> final(f)@.last_error == old(f)@.last_error,
{
}

/// Whether a scan entry tells of a message what it reads as.
pub open spec fn tells(m: MessageView, e: MqttScanEntry) -> bool {
    let v = connection::parsed_payload(m.topic, m.payload, m.number, m.timestamp);
    &&& e.entry.topic@ == m.topic
    &&& e.entry.last_value is Some
    &&& e.entry.last_value->0@ == v.value
    &&& e.entry.quality == v.quality
    &&& e.entry.timestamp is Some
    &&& e.entry.timestamp->0@ == v.timestamp
    &&& e.retain == m.retain
}

/// Whether a message is the last one on its topic.
pub open spec fn is_last(messages: Seq<ReceivedMessage>, i: int) -> bool {
    &&& 0 <= i < messages.len()
    &&& forall|j: int|
        i < j < messages.len() ==> (#[trigger] messages[j]).topic@ != messages[i].topic@
}

/// Whether a scan entry tells of the last message on some topic.
pub open spec fn tells_of_last(messages: Seq<ReceivedMessage>, e: MqttScanEntry) -> bool {
    exists|i: int| #[trigger] is_last(messages, i) && tells(messages[i]@, e)
}

proof fn lemma_latest_holds(messages: Seq<MessageView>, i: int)
    requires
        0 <= i < messages.len(),
        forall|j: int| i < j < messages.len() ==> (#[trigger] messages[j]).topic
            != messages[i].topic,
    ensures
        feed::last_on(messages, messages[i].topic) == Some(messages[i]),
    decreases messages.len(),
{
    if i < messages.len() - 1 {
        let before = messages.drop_last();
        assert(messages.last() == messages[messages.len() - 1]);
        assert forall|j: int| i < j < before.len() implies (#[trigger] before[j]).topic
            != before[i].topic by {
            assert(before[j] == messages[j]);
        }
        lemma_latest_holds(before, i);
    }
}

proof fn lemma_last_is_some(messages: Seq<MessageView>, topic: Seq<char>) -> (i: int)
    requires
        feed::last_on(messages, topic) is Some,
    ensures
        0 <= i < messages.len(),
        messages[i].topic == topic,
        feed::last_on(messages, topic) == Some(messages[i]),
        forall|j: int| i < j < messages.len() ==> (#[trigger] messages[j]).topic != topic,
    decreases messages.len(),
{
    if messages.last().topic == topic {
        messages.len() - 1
    } else {
        let i = lemma_last_is_some(messages.drop_last(), topic);
        assert forall|j: int| i < j < messages.len() implies (#[trigger] messages[j]).topic
            != topic by {
            if j < messages.len() - 1 {
                assert(messages[j] == messages.drop_last()[j]);
            }
        }
        i
    }
}

proof fn lemma_held_at(seen: Seq<MessageView>, topic: Seq<char>) -> (k: int)
    requires
        feed::held(seen, topic) is Some,
    ensures
        0 <= k < seen.len(),
        seen[k].topic == topic,
        feed::held(seen, topic) == Some(seen[k]),
    decreases seen.len(),
{
    if seen[0].topic == topic {
        0
    } else {
        let k = lemma_held_at(seen.drop_first(), topic);
        k + 1
    }
}

proof fn lemma_holds(seen: Seq<MessageView>, k: int)
    requires
        feed::one_per_topic(seen),
        0 <= k < seen.len(),
    ensures
        feed::held(seen, seen[k].topic) == Some(seen[k]),
    decreases seen.len(),
{
    if k > 0 {
        let rest = seen.drop_first();
        assert(seen[0].topic != seen[k].topic);
        assert(feed::one_per_topic(rest)) by {
            assert forall|a: int, b: int| 0 <= a < b < rest.len() implies (
            #[trigger] rest[a]).topic != (#[trigger] rest[b]).topic by {
                assert(rest[a] == seen[a + 1] && rest[b] == seen[b + 1]);
            }
        }
        lemma_holds(rest, k - 1);
        assert(rest[k - 1] == seen[k]);
    }
}

/// A scan tells, for every topic on which messages came in, what the last one of them reads as; it
/// tells of no topic twice, and of no other.
pub proof fn law_scan_tells_of_the_last_messages(
    s: &MqttMcpServer,
    messages: Vec<ReceivedMessage>,
    r: Result<Vec<MqttScanEntry>, AdapterError>,
)
    requires
        call_ensures(MqttMcpServer::scan, (s, &Heard::Messages(messages)), r),
    ensures
        r is Ok,
        forall|i: int| #[trigger]
            is_last(messages@, i) ==> exists|k: int|
                0 <= k < r->Ok_0@.len() && tells(messages@[i]@, #[trigger] r->Ok_0@[k]),
        forall|k: int|
            0 <= k < r->Ok_0@.len() ==> tells_of_last(messages@, #[trigger] r->Ok_0@[k]),
        forall|k: int, l: int|
            0 <= k < l < r->Ok_0@.len() ==> (#[trigger] r->Ok_0@[k]).entry.topic@ != (
            #[trigger] r->Ok_0@[l]).entry.topic@,
{
    let all = envelope::views(messages@);
    let seen = feed::latest(all);
    let entries = r->Ok_0@;
    laws::lemma_views(messages@);
    laws::lemma_views(entries);
    assert(envelope::views(entries) == feed::scanned(all));
    assert(entries.len() == seen.len());
    assert forall|k: int| 0 <= k < entries.len() implies tells(
        seen[k],
        #[trigger] entries[k],
    ) by {
        assert(envelope::views(entries)[k] == feed::scan_entry(seen[k]));
        assert(entries[k]@ == feed::scan_entry(seen[k]));
    }
    assert forall|i: int| #[trigger] is_last(messages@, i) implies exists|k: int|
        0 <= k < entries.len() && tells(messages@[i]@, #[trigger] entries[k]) by {
        assert forall|j: int| i < j < all.len() implies (#[trigger] all[j]).topic
            != all[i].topic by {
            assert(messages@[j].topic@ != messages@[i].topic@);
        }
        lemma_latest_holds(all, i);
        feed::law_last_message_wins(all, all[i].topic);
        let k = lemma_held_at(seen, all[i].topic);
        assert(tells(messages@[i]@, entries[k]));
    }
    assert forall|k: int| 0 <= k < entries.len() implies tells_of_last(
        messages@,
        #[trigger] entries[k],
    ) by {
        feed::law_last_message_wins(all, seen[k].topic);
        lemma_holds(seen, k);
        let i = lemma_last_is_some(all, seen[k].topic);
        assert forall|j: int| i < j < messages@.len() implies (
        #[trigger] messages@[j]).topic@ != messages@[i].topic@ by {
            assert(all[j].topic != seen[k].topic);
        }
        assert(is_last(messages@, i) && tells(messages@[i]@, entries[k]));
    }
    assert forall|k: int, l: int| 0 <= k < l < entries.len() implies (
    #[trigger] entries[k]).entry.topic@ != (#[trigger] entries[l]).entry.topic@ by {
        feed::law_last_message_wins(all, seen[k].topic);
        assert(tells(seen[k], entries[k]) && tells(seen[l], entries[l]));
    }
}

/// Whether of two topics neither is a level above the other, nor the other itself.
pub open spec fn topics_apart(messages: Seq<ReceivedMessage>) -> bool {
    forall|i: int, j: int|
        0 <= i < j < messages.len() && (#[trigger] messages[i]).topic@ != (
        #[trigger] messages[j]).topic@ ==> topics::diverge(
            text::split_on(messages[i].topic@, '/'),
            text::split_on(messages[j].topic@, '/'),
        ) && topics::diverge(
            text::split_on(messages[j].topic@, '/'),
            text::split_on(messages[i].topic@, '/'),
        )
}

/// Whether a leaf of a topic tree tells of a message: its topic, and if values are asked for what it
/// reads as.
pub open spec fn leaf_tells(m: MessageView, include_values: bool, leaf: JsonView) -> bool {
    let v = connection::parsed_payload(m.topic, m.payload, m.number, m.timestamp);
    leaf matches JsonView::Object(o) && {
        &&& o.contains_key("tag_id"@)
        &&& o["tag_id"@] == JsonView::Text(m.topic)
        &&& !include_values ==> forall|key: Seq<char>| #[trigger] o.contains_key(key) ==> key
            == "tag_id"@
        &&& include_values ==> {
            &&& o.contains_key("value"@)
            &&& o["value"@] == match v.value {
                TagValueView::Float(d) => if d.finite() {
                    JsonView::Number(Number::Float(d))
                } else {
                    JsonView::Null
                },
                TagValueView::Bool(b) => JsonView::Bool(b),
                TagValueView::Text(t) => JsonView::Text(t),
            }
            &&& o.contains_key("quality"@)
            &&& o["quality"@] == JsonView::Text(
                match v.quality {
                    Quality::Good => "good"@,
                    Quality::Uncertain => "uncertain"@,
                    Quality::Bad => "bad"@,
                },
            )
            &&& o.contains_key("timestamp"@)
            &&& o["timestamp"@] == JsonView::Text(v.timestamp)
            &&& o.contains_key("units"@)
            &&& o["units"@] == JsonView::Text(v.units)
        }
    }
}

proof fn lemma_leaf(m: MessageView, include_values: bool)
    ensures
        leaf_tells(m, include_values, topics::leaf(m, include_values)),
{
    reveal_strlit("tag_id");
    reveal_strlit("value");
    reveal_strlit("quality");
    reveal_strlit("timestamp");
    reveal_strlit("units");
    assert("tag_id"@.len() == 6);
    assert("value"@.len() == 5);
    assert("quality"@.len() == 7);
    assert("timestamp"@.len() == 9);
    assert("units"@.len() == 5);
    assert("value"@[0] == 'v');
    assert("units"@[0] == 'u');
}

/// The topic tree holds, at the levels of every topic on which messages came in, what is told of the
/// last one of them, if no topic is a level above another.
pub proof fn law_topic_tree_holds_every_topic(
    s: &MqttMcpServer,
    messages: Vec<ReceivedMessage>,
    include_values: Option<bool>,
    r: Result<Json, AdapterError>,
    i: int,
)
    requires
        call_ensures(
            MqttMcpServer::get_topic_tree,
            (s, &Heard::Messages(messages), include_values),
            r,
        ),
        topics_apart(messages@),
        is_last(messages@, i),
    ensures
        r is Ok,
        r->Ok_0@ is Object,
        ({
            let levels = text::split_on(messages@[i].topic@, '/');
            let leaf = topics::at_path(r->Ok_0@->Object_0, levels);
            leaf is Some && leaf_tells(messages@[i]@, include_values == Some(true), leaf->0)
        }),
{
    let all = envelope::views(messages@);
    let seen = feed::latest(all);
    let with_values = include_values == Some(true);
    let leaves = topics::leaves(all, with_values);
    laws::lemma_views(messages@);
    assert(leaves.len() == seen.len());
    assert forall|a: int, b: int| 0 <= a < b < leaves.len() implies topics::diverge(
        text::split_on((#[trigger] leaves[a]).0, '/'),
        text::split_on((#[trigger] leaves[b]).0, '/'),
    ) by {
        feed::law_last_message_wins(all, seen[a].topic);
        feed::law_last_message_wins(all, seen[b].topic);
        lemma_holds(seen, a);
        lemma_holds(seen, b);
        let x = lemma_last_is_some(all, seen[a].topic);
        let y = lemma_last_is_some(all, seen[b].topic);
        assert(seen[a].topic != seen[b].topic);
        assert(messages@[x].topic@ == seen[a].topic);
        assert(messages@[y].topic@ == seen[b].topic);
        if x < y {
            assert(messages@[x].topic@ != messages@[y].topic@);
        } else {
            assert(messages@[y].topic@ != messages@[x].topic@);
        }
    }
    assert forall|j: int| i < j < all.len() implies (#[trigger] all[j]).topic != all[i].topic by {
        assert(messages@[j].topic@ != messages@[i].topic@);
    }
    lemma_latest_holds(all, i);
    feed::law_last_message_wins(all, all[i].topic);
    let k = lemma_held_at(seen, all[i].topic);
    assert(seen[k] == all[i]);
    topics::law_tree_holds_every_topic(leaves, k);
    assert(leaves[k] == (all[i].topic, topics::leaf(all[i], with_values)));
    lemma_leaf(all[i], with_values);
}

/// A scan listens to the pattern asked for, and to all topics if none is; for as long as asked for,
/// five seconds if nothing is.
pub proof fn law_scan_subscription(
    s: &MqttMcpServer,
    topic_pattern: Option<String>,
    scan_duration_ms: Option<u32>,
    r: Result<Subscription, AdapterError>,
)
    requires
        call_ensures(
            MqttMcpServer::scan_subscription,
            (s, topic_pattern, scan_duration_ms),
            r,
        ),
    ensures
        r is Ok <==> s.inner is Some,
        r matches Err(e) ==> e.code == ErrorCode::ConnectionError,
        r matches Ok(q) ==> {
            &&& topic_pattern matches Some(p) ==> q.pattern@ == p@
            &&& topic_pattern is None ==> q.pattern@ == "#"@
            &&& scan_duration_ms matches Some(ms) ==> q.window_ms == ms
            &&& scan_duration_ms is None ==> q.window_ms == 5000
        },
{
}

/// The topic tree listens to all topics, or to all that are below the prefix asked for.
pub proof fn law_tree_subscription(
    s: &MqttMcpServer,
    topic_prefix: Option<String>,
    r: Result<Subscription, AdapterError>,
)
    requires
        call_ensures(MqttMcpServer::tree_subscription, (s, topic_prefix), r),
    ensures
        r is Ok <==> s.inner is Some,
        r matches Err(e) ==> e.code == ErrorCode::ConnectionError,
        r matches Ok(q) ==> {
            &&& topic_prefix is None ==> q.pattern@ == "#"@
            &&& topic_prefix matches Some(p) ==> if p@.len() == 0 {
                q.pattern@ == "#"@
            } else {
                q.pattern@ == p@ + "/#"@
            }
        },
{
}

/// A read listens to the tag's topic and no other.
pub proof fn law_read_subscription(
    s: &MqttMcpServer,
    tag_id: &str,
    r: Result<Subscription, AdapterError>,
)
    requires
        call_ensures(MqttMcpServer::read_subscription, (s, tag_id), r),
    ensures
        r is Ok <==> s.inner is Some,
        r matches Err(e) ==> e.code == ErrorCode::ConnectionError,
        r matches Ok(q) ==> q.pattern@ == tag_id@ && q.window_ms == 10000,
{
}

/// Scans and topic trees that could not be listened for fail with the connection.
pub proof fn law_refused_subscriptions(
    s: &MqttMcpServer,
    reason: String,
    include_values: Option<bool>,
    entries: Result<Vec<MqttScanEntry>, AdapterError>,
    tree: Result<Json, AdapterError>,
)
    requires
        call_ensures(MqttMcpServer::scan, (s, &Heard::Refused(reason)), entries),
        call_ensures(
            MqttMcpServer::get_topic_tree,
            (s, &Heard::Refused(reason), include_values),
            tree,
        ),
    ensures
        entries matches Err(e) && e.code == ErrorCode::ConnectionError,
        tree matches Err(e) && e.code == ErrorCode::ConnectionError,
{
}

/// What a write publishes is what the request asks for: on the tag's topic, not retained, with the
/// value of the document, which a permission for the tag allows; and with exactly the configured
/// units, where any are configured.
pub proof fn law_write_request(
    s: &MqttMcpServer,
    req: &WriteRequest,
    timestamp: &str,
    p: Publication,
    value: WriteValue,
)
    requires
        call_ensures(
            MqttMcpServer::write_tag_request,
            (s, req, timestamp),
            Ok::<(Publication, WriteValue), AdapterError>((p, value)),
        ),
    ensures
        s.inner is Some,
        s.link()->0.topology.write_permissions.contains_key(req.tag_id@),
        ({
            let perm = s.link()->0.topology.write_permissions[req.tag_id@];
            &&& perm.units matches Some(u) ==> u.len() == 0 || u == req.units@
            &&& value matches WriteValue::Float(f) ==> {
                &&& perm.min matches Some(l) ==> l.at.nan() || f.nan() || l.at.value() <= f.value()
                &&& perm.max matches Some(l) ==> l.at.nan() || f.nan() || f.value() <= l.at.value()
            }
        }),
        laws::is_document(req.value, value),
        p.topic@ == req.tag_id@,
        !p.retain,
        p.payload is Text <==> !(req.value matches Json::Number(Number::Float(_))),
{
    laws::lemma_document(req.value, value);
}

/// The text that a write of a boolean or an integer publishes is read as what was written, whenever
/// it comes in: the value, of good quality, with the time and the units of the write.
pub proof fn law_published_text_reads_back(
    s: &MqttMcpServer,
    req: &WriteRequest,
    timestamp: &str,
    p: Publication,
    value: WriteValue,
    topic: &str,
    payload: &str,
    number: Option<Double>,
    received_at: &str,
    v: Vqt,
)
    requires
        call_ensures(
            MqttMcpServer::write_tag_request,
            (s, req, timestamp),
            Ok::<(Publication, WriteValue), AdapterError>((p, value)),
        ),
        topic@ == p.topic@,
        p.payload is Text,
        payload@ == p.payload->Text_0@,
        call_ensures(connection::parse_mqtt_payload, (topic, payload, number, received_at), v),
    ensures
        v.tag_id@ == req.tag_id@,
        value matches WriteValue::Bool(b) ==> v.value@ == TagValueView::Bool(b),
        value matches WriteValue::Float(f) ==> v.value@ is Float && v.value@->Float_0.bits == f.bits,
        v.quality == Quality::Good,
        v.timestamp@ == timestamp@,
        v.units@ == req.units@,
{
    assert(server::reads_back(req@, value, timestamp@, payload@));
    assert(v@ == connection::parsed_payload(req@.tag_id, payload@, number, received_at@));
}

/// The document that a write of a number with a fraction publishes holds that number, good quality,
/// and the time and the units of the write.
pub proof fn law_published_document(
    s: &MqttMcpServer,
    req: &WriteRequest,
    timestamp: &str,
    p: Publication,
    value: WriteValue,
    document: JsonView,
)
    requires
        call_ensures(
            MqttMcpServer::write_tag_request,
            (s, req, timestamp),
            Ok::<(Publication, WriteValue), AdapterError>((p, value)),
        ),
        p.payload is Document,
        document == p.payload->Document_0@,
    ensures
        document matches JsonView::Object(o) && {
            &&& o.contains_key("value"@)
            &&& value matches WriteValue::Float(f) && o["value"@] == JsonView::Number(
                Number::Float(f),
            )
            &&& o.contains_key("quality"@)
            &&& o["quality"@] == JsonView::Text("good"@)
            &&& o.contains_key("timestamp"@)
            &&& o["timestamp"@] == JsonView::Text(timestamp@)
            &&& o.contains_key("units"@)
            &&& o["units"@] == JsonView::Text(req.units@)
        },
{
    reveal_strlit("value");
    reveal_strlit("quality");
    reveal_strlit("timestamp");
    reveal_strlit("units");
    assert("value"@.len() == 5);
    assert("quality"@.len() == 7);
    assert("timestamp"@.len() == 9);
    assert("units"@.len() == 5);
    assert("value"@[0] == 'v');
    assert("units"@[0] == 'u');
}

/// What is refused is refused for a reason: there is no connection, no permission names the tag, or
/// the value is not one that is permitted. A value that is permitted is not refused.
pub proof fn law_refused_writes(
    s: &MqttMcpServer,
    req: &WriteRequest,
    timestamp: &str,
    e: AdapterError,
)
    requires
        call_ensures(
            MqttMcpServer::write_tag_request,
            (s, req, timestamp),
            Err::<(Publication, WriteValue), AdapterError>(e),
        ),
    ensures
        e.tag_id is Some && e.tag_id->0@ == req.tag_id@,
        s.inner is None ==> e.code == ErrorCode::ConnectionError,
        s.inner is Some && !s.link()->0.topology.write_permissions.contains_key(req.tag_id@)
            ==> e.code == ErrorCode::TagNotWritable,
        s.inner is Some && s.link()->0.topology.write_permissions.contains_key(req.tag_id@) ==> {
            let perm = s.link()->0.topology.write_permissions[req.tag_id@];
            let units_differ = perm.units matches Some(u) && u.len() > 0 && u != req.units@;
            &&& e.code == ErrorCode::InvalidValue
            &&& req.value is Bool ==> units_differ
            &&& req.value matches Json::Number(Number::Float(f)) ==> units_differ || (perm.min
                is Some && f.value() < perm.min->0.at.value()) || (perm.max is Some
                && perm.max->0.at.value() < f.value())
        },
{
}

/// A write that was published is confirmed, with the value, the units, the operator and the time of
/// the write; one that was not fails with the connection.
pub proof fn law_write_tag(
    s: &MqttMcpServer,
    req: WriteRequest,
    value: WriteValue,
    published: Result<(), String>,
    timestamp: String,
    r: Result<Written, AdapterError>,
)
    requires
        call_ensures(MqttMcpServer::write_tag, (s, req, value, published, timestamp), r),
    ensures
        r is Ok <==> published is Ok,
        r matches Ok(w) ==> {
            &&& w.confirmation.tag_id@ == req.tag_id@
            &&& w.confirmation.value_written == value
            &&& w.confirmation.quality == Quality::Good
            &&& w.confirmation.timestamp@ == timestamp@
            &&& w.confirmation.units@ == req.units@
            &&& w.confirmation.operator_id@ == req.operator_id@
            &&& w.audit.tag_id@ == req.tag_id@
            &&& w.audit.value@ == req.value@
            &&& w.audit.units@ == req.units@
            &&& w.audit.operator_id@ == req.operator_id@
            &&& w.audit.reason@ == req.reason@
        },
        r matches Err(e) ==> e.code == ErrorCode::ConnectionError && e.tag_id is Some
            && e.tag_id->0@ == req.tag_id@,
{
}

/// A connect that reached the broker leaves a connection to the host and the port that were asked
/// for, and answers with them. One that did not leaves none, and is a timeout if that was the reason.
pub proof fn law_connect(
    s: &mut MqttMcpServer,
    host: String,
    port: u16,
    timeout_ms: u32,
    attempt: ConnectAttempt,
    tried: Vec<Option<TopologyConfig>>,
    timestamp: String,
    r: Result<ConnectResponse, AdapterError>,
)
    requires
        call_ensures(
            MqttMcpServer::connect,
            (s, host, port, timeout_ms, attempt, tried, timestamp),
            r,
        ),
    ensures
        r is Ok <==> attempt is Connected,
        r matches Ok(c) ==> {
            &&& c.connected
            &&& c.server_name@ == host@ + ":"@ + text::decimal_text(port as nat)
            &&& c.timestamp@ == timestamp@
            &&& final(s).link() matches Some(l) && {
                &&& l.host == host@
                &&& l.port == port
                &&& l.topology == topology::first_loaded(tried@)
            }
        },
        r matches Err(e) ==> {
            &&& final(s).link() is None
            &&& e.tag_id is None
            &&& e.code == if attempt is TimedOut {
                ErrorCode::Timeout
            } else {
                ErrorCode::ConnectionError
            }
        },
{
}

/// How an attempt to connect went follows from the state of the connection: it is open while that is
/// connecting and somebody will still report.
pub proof fn law_connect_progress(status: &ConnStatus, closed: bool, r: Option<ConnectAttempt>)
    requires
        call_ensures(server::connect_progress, (status, closed), r),
    ensures
        r == Some(ConnectAttempt::Connected) <==> status is Connected,
        r is None <==> status is Connecting && !closed,
        *status matches ConnStatus::Error(e) ==> r matches Some(ConnectAttempt::Failed(got))
            && got@ == e@,
        !(r matches Some(ConnectAttempt::TimedOut)),
{
}

/// The settings are those that the options name, under their own names; what they do not name is at
/// its default. Credentials are used only if there are both a user name and a password.
pub proof fn law_connect_settings(
    timeout_ms: Option<u32>,
    options: &Option<Json>,
    c: ConnectSettings,
)
    requires
        call_ensures(server::connect_settings, (timeout_ms, options), c),
    ensures
        match laws::option_named(*options, "client_id"@) {
            Some(JsonView::Text(t)) => c.client_id@ == t,
            _ => c.client_id@ == "fieldworks-mqtt-mcp"@,
        },
        match laws::option_named(*options, "keep_alive_secs"@) {
            Some(JsonView::Number(Number::Unsigned(n))) => c.keep_alive_secs == n,
            _ => c.keep_alive_secs == 60,
        },
        match laws::option_named(*options, "clean_session"@) {
            Some(JsonView::Bool(b)) => c.clean_session == b,
            _ => c.clean_session,
        },
        match (laws::option_named(*options, "username"@), laws::option_named(*options, "password"@)) {
            (Some(JsonView::Text(u)), Some(JsonView::Text(p))) => c.credentials matches Some((x, y))
                && x@ == u && y@ == p,
            _ => c.credentials is None,
        },
        timeout_ms matches Some(ms) ==> c.timeout_ms == ms,
        timeout_ms is None ==> c.timeout_ms == 5000,
{
}

/// A disconnect drops the connection, if there is one, and logs the reason if one is given.
pub proof fn law_disconnect(
    s: &mut MqttMcpServer,
    reason: Option<String>,
    timestamp: String,
    d: Disconnected,
)
    requires
        call_ensures(MqttMcpServer::disconnect, (s, reason, timestamp), d),
    ensures
        final(s).link() is None,
        d.response.disconnected,
        d.response.timestamp@ == timestamp@,
        d.audit is Some <==> old(s).link() is Some && reason is Some,
        d.audit matches Some(e) ==> e.reason@ == reason->0@ && e.timestamp@ == timestamp@,
{
}

/// The adapter reports itself connected exactly if it has a connection that is up, and then to which
/// broker and for how long; the last error is that of the feed.
pub proof fn law_server_info(
    s: &MqttMcpServer,
    f: &Feed,
    uptime_seconds: u64,
    info: ServerInfoResponse,
)
    requires
        call_ensures(MqttMcpServer::get_server_info, (s, f, uptime_seconds), info),
    ensures
        info.connected <==> s.inner is Some && f.status is Connected,
        s.link() matches Some(c) ==> {
            &&& info.server_name@ == "mqtt-mcp@"@ + (c.host + ":"@ + text::decimal_text(
                c.port as nat,
            ))
            &&& info.protocol_version@ == c.protocol_version
            &&& info.uptime_seconds == uptime_seconds
            &&& envelope::opt_text(info.last_error) == envelope::opt_text(f.last_error)
            &&& info.connection_state@ == match f.status {
                ConnStatus::Connected => "connected"@,
                ConnStatus::Connecting => "connecting"@,
                ConnStatus::Error(e) => "error: "@ + e@,
            }
        },
        s.inner is None ==> {
            &&& info.uptime_seconds == 0
            &&& info.connection_state@ == "disconnected"@
            &&& info.last_error is None
        },
        info.capabilities@.len() == 9,
{
    assert(text::texts(info.capabilities@).len() == 9);
}

/// A topic of which only a reading is known is described by that: called by the last level of the
/// topic, of the reading's units and kind of value, and not writable.
pub proof fn law_topics_are_described_by_their_reading(v: &Vqt, d: TagDescriptor)
    requires
        call_ensures(connection::vqt_to_descriptor, (v,), d),
    ensures
        d.tag_id@ == v.tag_id@,
        d.units@ == v.units@,
        !d.name@.contains('/'),
        d.name@ == v.tag_id@ || (d.name@.len() < v.tag_id@.len() && v.tag_id@.skip(
            v.tag_id@.len() - d.name@.len(),
        ) == d.name@ && v.tag_id@[v.tag_id@.len() - d.name@.len() - 1] == '/'),
        v.value is Float ==> d.data_type@ == "float"@,
        v.value is Bool ==> d.data_type@ == "boolean"@,
        v.value is Text ==> d.data_type@ == "string"@,
        !d.writable,
        d.normal_range is None,
{
    let levels = text::split_on(v.tag_id@, '/');
    text::lemma_split_join(v.tag_id@, '/');
    assert(levels[levels.len() - 1] == levels.last());
    if levels.len() > 1 {
        let head = text::join_with(levels.drop_last(), '/').push('/');
        assert(v.tag_id@ == head + levels.last());
        assert((head + levels.last()).skip(head.len() as int) == levels.last());
    }
}

/// Discovery lists the configured tags, or the topics that have a reading if none is configured: of
/// these what is asked for, with their metadata unless that is declined.
pub proof fn law_discover_tags(
    s: &MqttMcpServer,
    f: &Feed,
    config: &TopologyConfig,
    process_area: &Option<String>,
    equipment_id: &Option<String>,
    include_metadata: Option<bool>,
    r: Result<Vec<TagDescriptor>, AdapterError>,
    configured: Vec<TagDescriptor>,
    cached: Vec<TagDescriptor>,
    all: Vec<TagDescriptor>,
    kept: Vec<TagDescriptor>,
    shown: Vec<TagDescriptor>,
)
    requires
        call_ensures(
            MqttMcpServer::discover_tags,
            (s, f, process_area, equipment_id, include_metadata),
            r,
        ),
        call_ensures(topology::describe_tags, (config,), configured),
        call_ensures(Feed::describe_cache, (f,), cached),
        envelope::views(all@) == if config.tags@.len() == 0 {
            envelope::views(cached@)
        } else {
            envelope::views(configured@)
        },
        call_ensures(topology::select_tags, (all, process_area, equipment_id), kept),
        call_ensures(topology::apply_metadata_choice, (kept, include_metadata), shown),
        s.inner is Some ==> s.link()->0.topology == config@,
    ensures
        s.inner is None ==> r is Err && r->Err_0.code == ErrorCode::ConnectionError,
        s.inner is Some ==> r is Ok && envelope::views(r->Ok_0@) == envelope::views(shown@),
{
    laws::lemma_views(config.tags@);
}

/// Every topic that has a reading is described, by that reading.
pub proof fn law_cached_topics_are_described(f: &Feed, r: Vec<TagDescriptor>, i: int, d: TagDescriptor)
    requires
        call_ensures(Feed::describe_cache, (f,), r),
        0 <= i < f.cache@.len(),
        call_ensures(connection::vqt_to_descriptor, (&f.cache@[i],), d),
    ensures
        r@.len() == f.cache@.len(),
        r@[i]@ == d@,
{
    laws::lemma_views(r@);
    assert(envelope::views(r@)[i] == connection::descriptor_from(f.cache@[i]@));
}

/// MQTT has no history to read.
pub proof fn law_no_history(s: &MqttMcpServer, tag_id: &str, e: AdapterError)
    requires
        call_ensures(MqttMcpServer::read_tag_history, (s, tag_id), e),
    ensures
        e.code == ErrorCode::HistoryUnavailable,
        e.tag_id is Some && e.tag_id->0@ == tag_id@,
{
}

/// A read takes a message for its answer exactly if it is on the tag's topic.
pub proof fn law_answers(m: &ReceivedMessage, tag_id: &str, r: bool)
    requires
        call_ensures(server::answers, (m, tag_id), r),
    ensures
        r <==> m.topic@ == tag_id@,
{
}

/// The names of the qualities are read as these, and any other text as bad.
pub proof fn law_qualities(s: &str, q: Quality)
    requires
        call_ensures(connection::str_to_quality, (s,), q),
    ensures
        q == Quality::Good <==> s@ == "good"@,
        q == Quality::Uncertain <==> s@ == "uncertain"@,
{
    reveal_strlit("good");
    reveal_strlit("uncertain");
    assert("good"@.len() == 4);
    assert("uncertain"@.len() == 9);
}

/// A feed knows nothing before the broker speaks.
pub proof fn law_new_feeds_are_empty(f: Feed, topic: Seq<char>)
    requires
        call_ensures(Feed::new, (), f),
    ensures
        f@.status is Connecting,
        f@.last_error is None,
        !f@.cache.contains_key(topic),
{
}

/// The latest reading of a topic is the one in the cache, if there is one.
pub proof fn law_latest_reading(f: &Feed, topic: &str, r: Option<&Vqt>)
    requires
        call_ensures(Feed::latest_reading, (f, topic), r),
    ensures
        r is Some <==> f@.cache.contains_key(topic@),
        r matches Some(v) ==> v@ == f@.cache[topic@],
{
}

proof fn lemma_inserted_paths(
    node: topics::Node,
    path: Seq<Seq<char>>,
    value: JsonView,
    at: Seq<Seq<char>>,
)
    requires
        at.len() > 0,
        topics::at_path(topics::inserted(node, path, value), at) is Some,
    ensures
        topics::at_path(node, at) is Some || path.is_prefix_of(at) || at.is_prefix_of(path),
    decreases path.len(),
{
    if path.len() > 0 && path[0] == at[0] {
        if path.len() == 1 {
            assert(path.is_prefix_of(at));
        } else if at.len() == 1 {
            assert(at.is_prefix_of(path));
        } else {
            if let Some(m) = topics::child(node, path[0]) {
                lemma_inserted_paths(m, path.drop_first(), value, at.drop_first());
                let p = path.drop_first();
                let q = at.drop_first();
                if p.is_prefix_of(q) {
                    assert(path =~= at.take(path.len() as int)) by {
                        assert forall|i: int| 0 <= i < path.len() implies path[i] == at[i] by {
                            if i > 0 {
                                assert(p[i - 1] == q[i - 1]);
                            }
                        }
                    }
                } else if q.is_prefix_of(p) {
                    assert(at =~= path.take(at.len() as int)) by {
                        assert forall|i: int| 0 <= i < at.len() implies at[i] == path[i] by {
                            if i > 0 {
                                assert(q[i - 1] == p[i - 1]);
                            }
                        }
                    }
                } else if !node.contains_key(path[0]) {
                    assert(topics::at_path(Map::empty(), q) is None);
                }
            }
        }
    }
}

/// A topic tree holds nothing else: where something stands in it, that is on the way to a topic, or
/// within what is told of one.
pub proof fn law_topic_tree_holds_nothing_else(
    topics: Seq<(Seq<char>, JsonView)>,
    at: Seq<Seq<char>>,
) -> (i: int)
    requires
        at.len() > 0,
        topics::at_path(topics::tree_of(topics), at) is Some,
    ensures
        0 <= i < topics.len(),
        ({
            let levels = text::split_on(topics[i].0, '/');
            levels.is_prefix_of(at) || at.is_prefix_of(levels)
        }),
    decreases topics.len(),
{
    if topics.len() == 0 {
        assert(topics::at_path(Map::empty(), at) is None);
        0
    } else {
        let before = topics.drop_last();
        let levels = text::split_on(topics.last().0, '/');
        lemma_inserted_paths(topics::tree_of(before), levels, topics.last().1, at);
        if topics::at_path(topics::tree_of(before), at) is Some {
            law_topic_tree_holds_nothing_else(before, at)
        } else {
            topics.len() - 1
        }
    }
}

/// The topic tree is built of the topics in their order.
pub proof fn law_topic_tree_is_built_of_its_topics(
    all: Vec<(String, Json)>,
    before: Vec<(String, Json)>,
    tree: Json,
    smaller: Json,
)
    requires
        all@.len() > 0,
        before@ == all@.drop_last(),
        call_ensures(topics::build_topic_tree, (all,), tree),
        call_ensures(topics::build_topic_tree, (before,), smaller),
    ensures
        tree@ is Object,
        smaller@ is Object,
        tree@->Object_0 == topics::inserted(
            smaller@->Object_0,
            text::split_on(all@.last().0@, '/'),
            all@.last().1@,
        ),
{
    let v = topics::topic_views(all@);
    assert(v.drop_last() == topics::topic_views(before@));
    assert(v.last() == (all@.last().0@, all@.last().1@));
}

/// Two paths part exactly if they have different names at some level that both have.
pub proof fn law_paths_part_at_a_level(p: Seq<Seq<char>>, q: Seq<Seq<char>>)
    ensures
        topics::diverge(p, q) <==> exists|i: int|
            0 <= i < p.len() && i < q.len() && #[trigger] p[i] != q[i],
    decreases p.len(),
{
    if p.len() > 0 && q.len() > 0 {
        let a = p.drop_first();
        let b = q.drop_first();
        law_paths_part_at_a_level(a, b);
        if p[0] == q[0] {
            if topics::diverge(a, b) {
                let i = choose|i: int| 0 <= i < a.len() && i < b.len() && #[trigger] a[i] != b[i];
                assert(p[i + 1] != q[i + 1]);
            }
            if exists|i: int| 0 <= i < p.len() && i < q.len() && #[trigger] p[i] != q[i] {
                let i = choose|i: int| 0 <= i < p.len() && i < q.len() && #[trigger] p[i] != q[i];
                assert(a[i - 1] != b[i - 1]);
            }
        } else {
            assert(p[0] != q[0]);
        }
    }
}

/// What stands at a path is found by going into one object per level, from the first level on.
pub proof fn law_paths_go_level_by_level(node: topics::Node, path: Seq<Seq<char>>, value: JsonView)
    requires
        path.len() > 0,
    ensures
        topics::at_path(node, path) == Some(value) <==> {
            &&& node.contains_key(path[0])
            &&& path.len() == 1 ==> node[path[0]] == value
            &&& path.len() > 1 ==> node[path[0]] is Object && topics::at_path(
                node[path[0]]->Object_0,
                path.drop_first(),
            ) == Some(value)
        },
{
}

/// Where something that is no object stands on the way to a path, a document for that path changes
/// nothing.
pub proof fn law_barred_paths_change_nothing(
    node: topics::Node,
    path: Seq<Seq<char>>,
    value: JsonView,
    n: int,
)
    requires
        0 < n < path.len(),
        topics::at_path(node, path.take(n)) is Some,
        !(topics::at_path(node, path.take(n))->0 is Object),
    ensures
        topics::inserted(node, path, value) == node,
    decreases path.len(),
{
    let way = path.take(n);
    assert(way[0] == path[0]);
    if n > 1 {
        let m = node[path[0]]->Object_0;
        assert(way.drop_first() == path.drop_first().take(n - 1));
        law_barred_paths_change_nothing(m, path.drop_first(), value, n - 1);
        assert(node.insert(path[0], JsonView::Object(m)) =~= node);
    }
}

/// What an operator is told of a failed publish does not depend on how it failed, nor on the tag.
pub proof fn law_publish_failures_are_told_alike(
    s: &MqttMcpServer,
    a: WriteRequest,
    b: WriteRequest,
    value: WriteValue,
    why_a: String,
    why_b: String,
    timestamp: String,
    x: AdapterError,
    y: AdapterError,
)
    requires
        call_ensures(
            MqttMcpServer::write_tag,
            (s, a, value, Err::<(), String>(why_a), timestamp),
            Err::<Written, AdapterError>(x),
        ),
        call_ensures(
            MqttMcpServer::write_tag,
            (s, b, value, Err::<(), String>(why_b), timestamp),
            Err::<Written, AdapterError>(y),
        ),
    ensures
        x.message@ == y.message@,
{
}

} // verus!
