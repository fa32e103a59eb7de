//! Topic trees: the levels of the topics as nested JSON objects.
use crate::envelope;
use crate::envelope::{Quality, Vqt, VqtView};
use crate::json;
use crate::json::{Json, JsonView};
use crate::mqtt::connection;
use crate::mqtt::connection::{MessageView, ReceivedMessage};
use crate::mqtt::feed;
use crate::text;
use crate::tools;
use vstd::prelude::*;

verus! {

/// The members of an object.
pub type Node = Map<Seq<char>, JsonView>;

/// The object that stands at a level, or a new one if nothing stands there; none if what stands
/// there is no object.
pub open spec fn child(node: Node, level: Seq<char>) -> Option<Node> {
    if node.contains_key(level) {
        match node[level] {
            JsonView::Object(m) => Some(m),
            _ => None,
        }
    } else {
        Some(Map::empty())
    }
}

/// An object with a document put at a path. What is no object stays as it is, and hides the paths
/// below it.
pub open spec fn inserted(node: Node, path: Seq<Seq<char>>, value: JsonView) -> Node
    decreases path.len(),
{
    if path.len() == 0 {
        node
    } else if path.len() == 1 {
        node.insert(path[0], value)
    } else {
        match child(node, path[0]) {
            Some(m) => node.insert(
                path[0],
                JsonView::Object(inserted(m, path.drop_first(), value)),
            ),
            None => node,
        }
    }
}

/// What stands at a path.
pub open spec fn at_path(node: Node, path: Seq<Seq<char>>) -> Option<JsonView>
    decreases path.len(),
{
    if path.len() == 0 {
        Some(JsonView::Object(node))
    } else if !node.contains_key(path[0]) {
        None
    } else if path.len() == 1 {
        Some(node[path[0]])
    } else {
        match node[path[0]] {
            JsonView::Object(m) => at_path(m, path.drop_first()),
            _ => None,
        }
    }
}

/// An object with a document put at each topic's path, one after the other.
pub open spec fn tree_of(topics: Seq<(Seq<char>, JsonView)>) -> Node
    decreases topics.len(),
{
    if topics.len() == 0 {
        Map::empty()
    } else {
        inserted(
            tree_of(topics.drop_last()),
            text::split_on(topics.last().0, '/'),
            topics.last().1,
        )
    }
}

proof fn lemma_remove(members: Seq<(String, Json)>, i: int, key: Seq<char>, value: JsonView)
    requires
        0 <= i < members.len(),
        members[i].0@ == key,
    ensures
        json::members_view(members.remove(i)).insert(key, value) == json::members_view(
            members,
        ).insert(key, value),
    decreases members.len(),
{
    let new = members.remove(i);
    if i > 0 {
        let rest = members.drop_first();
        lemma_remove(rest, i - 1, key, value);
        assert(new.drop_first() == rest.remove(i - 1));
        assert(new[0] == members[0]);
        let a = json::members_view(rest.remove(i - 1));
        let b = json::members_view(rest);
        let k = members[0].0@;
        let v = members[0].1@;
        assert(json::members_view(new) == a.insert(k, v));
        assert(json::members_view(members) == b.insert(k, v));
        if k == key {
            assert(a.insert(k, v).insert(key, value) == a.insert(key, value));
            assert(b.insert(k, v).insert(key, value) == b.insert(key, value));
        } else {
            assert(a.insert(k, v).insert(key, value) == a.insert(key, value).insert(k, v));
            assert(b.insert(k, v).insert(key, value) == b.insert(key, value).insert(k, v));
        }
    } else {
        assert(new == members.drop_first());
        let b = json::members_view(members.drop_first());
        assert(json::members_view(members) == b.insert(key, members[0].1@));
        assert(b.insert(key, value) == b.insert(key, members[0].1@).insert(key, value));
    }
}

/// The levels from `at` on.
pub open spec fn levels_from(path: Seq<String>, at: int) -> Seq<Seq<char>> {
    text::texts(path).skip(at)
}

/// Puts a document at the path of the levels from `at` on.
fn insert_path(node: &mut Vec<(String, Json)>, path: &Vec<String>, at: usize, value: Json)
    requires
        at <= path@.len(),
    ensures
        json::members_view(final(node)@) == inserted(
            json::members_view(old(node)@),
            levels_from(path@, at as int),
            value@,
        ),
    decreases path@.len() - at,
{
    let ghost levels = levels_from(path@, at as int);
    let ghost before = json::members_view(node@);
    if at == path.len() {
        return;
    }
    let head: &str = path[at].as_str();
    assert(levels[0] == head@);
    if at + 1 == path.len() {
        json::set_member(node, head, value);
        return;
    }
    assert(levels.drop_first() == levels_from(path@, at + 1));
    match json::find(node, head) {
        None => {
            let mut below: Vec<(String, Json)> = Vec::new();
            insert_path(&mut below, path, at + 1, value);
            json::set_member(node, head, Json::Object(below));
        },
        Some(i) => {
            let ghost was = node@;
            let m: (String, Json) = node.remove(i);
            match m.1 {
                Json::Object(inner) => {
                    let mut below: Vec<(String, Json)> = inner;
                    insert_path(&mut below, path, at + 1, value);
                    let new: Json = Json::Object(below);
                    proof {
                        lemma_remove(was, i as int, head@, new@);
                    }
                    json::set_member(node, head, new);
                },
                other => {
                    proof {
                        lemma_remove(was, i as int, head@, other@);
                        assert(before.insert(head@, other@) == before);
                    }
                    json::set_member(node, head, other);
                },
            }
        },
    }
}

/// Topics with their documents by the model.
pub open spec fn topic_views(topics: Seq<(String, Json)>) -> Seq<(Seq<char>, JsonView)> {
    topics.map_values(|t: (String, Json)| (t.0@, t.1@))
}

/// Nests documents by the levels of their topics: `factory/pump01/flow` comes to stand at
/// `{"factory": {"pump01": {"flow": ..}}}`.
pub fn build_topic_tree(topics: Vec<(String, Json)>) -> (r: Json)
    ensures
        r@ == JsonView::Object(tree_of(topic_views(topics@))),
{
    let ghost all = topic_views(topics@);
    let mut root: Vec<(String, Json)> = Vec::new();
    let mut rest: Vec<(String, Json)> = reversed(topics);
    assert(all.take(0) == Seq::<(Seq<char>, JsonView)>::empty());
    assert(topic_views(rest@) == all.reverse());
    while rest.len() > 0
        invariant
            rest@.len() <= all.len(),
            topic_views(rest@) == all.skip(all.len() - rest@.len()).reverse(),
            json::members_view(root@) == tree_of(all.take(all.len() - rest@.len())),
        decreases rest.len(),
    {
        let ghost n = all.len() - rest@.len();
        let ghost was = rest@;
        if let Some(t) = rest.pop() {
            proof {
                assert(topic_views(was).last() == all[n]);
                assert(topic_views(was).last() == (t.0@, t.1@));
                assert(all.take(n + 1).drop_last() == all.take(n));
                assert(topic_views(rest@) == all.skip(n + 1).reverse()) by {
                    assert(topic_views(rest@) == topic_views(was).drop_last());
                }
            }
            let levels: Vec<String> = text::split(t.0.as_str(), '/');
            assert(levels_from(levels@, 0) == text::split_on(t.0@, '/'));
            insert_path(&mut root, &levels, 0, t.1);
        }
    }
    assert(all.take(all.len() as int) == all);
    Json::Object(root)
}

/// The items in reverse order.
fn reversed(items: Vec<(String, Json)>) -> (r: Vec<(String, Json)>)
    ensures
        r@ == items@.reverse(),
{
    let mut left: Vec<(String, Json)> = items;
    let mut r: Vec<(String, Json)> = Vec::new();
    while left.len() > 0
        invariant
            left@.len() <= items@.len(),
            left@ == items@.take(left@.len() as int),
            r@ == items@.skip(left@.len() as int).reverse(),
        decreases left.len(),
    {
        let ghost n = left@.len() as int;
        if let Some(t) = left.pop() {
            r.push(t);
            assert(r@ == items@.skip(n - 1).reverse());
        }
    }
    assert(items@.skip(0) == items@);
    r
}

/// Whether two paths part at some level that both have, so that neither leads to the other.
pub open spec fn diverge(p: Seq<Seq<char>>, q: Seq<Seq<char>>) -> bool
    decreases p.len(),
{
    &&& p.len() > 0
    &&& q.len() > 0
    &&& p[0] != q[0] || diverge(p.drop_first(), q.drop_first())
}

/// Whether nothing but objects stands on the way to a path.
pub open spec fn open_path(node: Node, path: Seq<Seq<char>>) -> bool
    decreases path.len(),
{
    path.len() > 1 ==> child(node, path[0]) is Some && open_path(
        child(node, path[0])->0,
        path.drop_first(),
    )
}

/// What was put at a path stands there, unless the way to it was barred.
pub proof fn law_inserted_stands_there(node: Node, path: Seq<Seq<char>>, value: JsonView)
    requires
        path.len() > 0,
        open_path(node, path),
    ensures
        at_path(inserted(node, path, value), path) == Some(value),
    decreases path.len(),
{
    if path.len() > 1 {
        law_inserted_stands_there(child(node, path[0])->0, path.drop_first(), value);
    }
}

/// Putting a document at one path leaves alone what stands at a path that parts from it.
pub proof fn law_insertion_keeps_the_rest(
    node: Node,
    path: Seq<Seq<char>>,
    value: JsonView,
    other: Seq<Seq<char>>,
)
    requires
        diverge(other, path),
    ensures
        at_path(inserted(node, path, value), other) == at_path(node, other),
    decreases path.len(),
{
    if path[0] == other[0] {
        assert(diverge(other.drop_first(), path.drop_first()));
        let m = child(node, path[0]);
        if m is Some {
            law_insertion_keeps_the_rest(m->0, path.drop_first(), value, other.drop_first());
            if !node.contains_key(path[0]) {
                assert(at_path(Map::empty(), other.drop_first()) is None);
            }
        }
    }
}

proof fn lemma_stays_open(
    node: Node,
    path: Seq<Seq<char>>,
    value: JsonView,
    other: Seq<Seq<char>>,
)
    requires
        diverge(other, path),
        open_path(node, other),
    ensures
        open_path(inserted(node, path, value), other),
    decreases path.len(),
{
    if path[0] == other[0] {
        assert(diverge(other.drop_first(), path.drop_first()));
        lemma_stays_open(
            child(node, path[0])->0,
            path.drop_first(),
            value,
            other.drop_first(),
        );
    }
}

proof fn lemma_empty_open(path: Seq<Seq<char>>)
    ensures
        open_path(Map::empty(), path),
    decreases path.len(),
{
    if path.len() > 1 {
        lemma_empty_open(path.drop_first());
    }
}

proof fn lemma_diverge_symmetric(p: Seq<Seq<char>>, q: Seq<Seq<char>>)
    requires
        diverge(p, q),
    ensures
        diverge(q, p),
    decreases p.len(),
{
    if p[0] == q[0] {
        lemma_diverge_symmetric(p.drop_first(), q.drop_first());
    }
}

proof fn lemma_tree_open(topics: Seq<(Seq<char>, JsonView)>, path: Seq<Seq<char>>)
    requires
        forall|j: int|
            0 <= j < topics.len() ==> diverge(path, text::split_on((#[trigger] topics[j]).0, '/')),
    ensures
        open_path(tree_of(topics), path),
    decreases topics.len(),
{
    if topics.len() == 0 {
        lemma_empty_open(path);
    } else {
        let before = topics.drop_last();
        assert forall|j: int| 0 <= j < before.len() implies diverge(
            path,
            text::split_on((#[trigger] before[j]).0, '/'),
        ) by {
            assert(before[j] == topics[j]);
        }
        lemma_tree_open(before, path);
        assert(topics.last() == topics[topics.len() - 1]);
        lemma_stays_open(
            tree_of(before),
            text::split_on(topics.last().0, '/'),
            topics.last().1,
            path,
        );
    }
}

/// Whether no topic leads to another.
pub open spec fn apart(topics: Seq<(Seq<char>, JsonView)>) -> bool {
    forall|i: int, j: int|
        0 <= i < j < topics.len() ==> diverge(
            text::split_on((#[trigger] topics[i]).0, '/'),
            text::split_on((#[trigger] topics[j]).0, '/'),
        )
}

/// The tree of topics of which none leads to another holds each topic's document at the topic's
/// levels.
pub proof fn law_tree_holds_every_topic(topics: Seq<(Seq<char>, JsonView)>, i: int)
    requires
        apart(topics),
        0 <= i < topics.len(),
    ensures
        at_path(tree_of(topics), text::split_on(topics[i].0, '/')) == Some(topics[i].1),
    decreases topics.len(),
{
    let before = topics.drop_last();
    let path = text::split_on(topics[i].0, '/');
    let last = text::split_on(topics.last().0, '/');
    text::lemma_split_join(topics[i].0, '/');
    if i == topics.len() - 1 {
        assert forall|j: int| 0 <= j < before.len() implies diverge(
            path,
            text::split_on((#[trigger] before[j]).0, '/'),
        ) by {
            assert(before[j] == topics[j]);
            lemma_diverge_symmetric(text::split_on(topics[j].0, '/'), path);
        }
        lemma_tree_open(before, path);
        law_inserted_stands_there(tree_of(before), path, topics[i].1);
    } else {
        assert(apart(before)) by {
            assert forall|a: int, b: int| 0 <= a < b < before.len() implies diverge(
                text::split_on((#[trigger] before[a]).0, '/'),
                text::split_on((#[trigger] before[b]).0, '/'),
            ) by {
                assert(before[a] == topics[a] && before[b] == topics[b]);
            }
        }
        law_tree_holds_every_topic(before, i);
        assert(before[i] == topics[i]);
        assert(topics.last() == topics[topics.len() - 1]);
        law_insertion_keeps_the_rest(tree_of(before), last, topics.last().1, path);
    }
}

/// Of two documents at paths that part, it does not matter which is put in first.
pub proof fn law_insertions_commute(
    node: Node,
    p: Seq<Seq<char>>,
    v: JsonView,
    q: Seq<Seq<char>>,
    w: JsonView,
)
    requires
        diverge(p, q),
    ensures
        inserted(inserted(node, p, v), q, w) == inserted(inserted(node, q, w), p, v),
    decreases p.len(),
{
    if p[0] == q[0] {
        assert(diverge(p.drop_first(), q.drop_first()));
        if let Some(m) = child(node, p[0]) {
            law_insertions_commute(m, p.drop_first(), v, q.drop_first(), w);
        }
    }
    assert(inserted(inserted(node, p, v), q, w) =~= inserted(inserted(node, q, w), p, v));
}

proof fn lemma_apart_without(topics: Seq<(Seq<char>, JsonView)>, i: int)
    requires
        apart(topics),
        0 <= i < topics.len(),
    ensures
        apart(topics.remove(i)),
{
    let rest = topics.remove(i);
    assert forall|a: int, b: int| 0 <= a < b < rest.len() implies diverge(
        text::split_on((#[trigger] rest[a]).0, '/'),
        text::split_on((#[trigger] rest[b]).0, '/'),
    ) by {
        let a1 = if a < i {
            a
        } else {
            a + 1
        };
        let b1 = if b < i {
            b
        } else {
            b + 1
        };
        assert(rest[a] == topics[a1] && rest[b] == topics[b1]);
    }
}

proof fn lemma_inserted_last(topics: Seq<(Seq<char>, JsonView)>, i: int)
    requires
        apart(topics),
        0 <= i < topics.len(),
    ensures
        tree_of(topics) == inserted(
            tree_of(topics.remove(i)),
            text::split_on(topics[i].0, '/'),
            topics[i].1,
        ),
    decreases topics.len(),
{
    let n = topics.len() - 1;
    let before = topics.drop_last();
    if i == n {
        assert(topics.remove(i) == before);
    } else {
        let path = text::split_on(topics[i].0, '/');
        let last = text::split_on(topics[n].0, '/');
        lemma_apart_without(topics, n);
        assert(topics.remove(n) == before);
        lemma_inserted_last(before, i);
        assert(diverge(path, last));
        law_insertions_commute(
            tree_of(before.remove(i)),
            path,
            topics[i].1,
            last,
            topics[n].1,
        );
        assert(topics.remove(i).drop_last() == before.remove(i));
        assert(topics.remove(i).last() == topics[n]);
    }
}

/// The tree of topics of which none leads to another does not depend on their order.
pub proof fn law_tree_ignores_order(
    topics: Seq<(Seq<char>, JsonView)>,
    other: Seq<(Seq<char>, JsonView)>,
)
    requires
        apart(topics),
        topics.to_multiset() == other.to_multiset(),
    ensures
        tree_of(topics) == tree_of(other),
    decreases other.len(),
{
    topics.to_multiset_ensures();
    other.to_multiset_ensures();
    if other.len() > 0 {
        let n = other.len() - 1;
        assert(other.to_multiset().count(other[n]) > 0);
        let i = topics.index_of(other[n]);
        assert(topics.remove(i).to_multiset() == other.remove(n).to_multiset());
        assert(other.remove(n) == other.drop_last());
        lemma_apart_without(topics, i);
        law_tree_ignores_order(topics.remove(i), other.drop_last());
        lemma_inserted_last(topics, i);
    }
}

/// The name of a quality.
pub open spec fn quality_name(q: Quality) -> Seq<char> {
    match q {
        Quality::Good => "good"@,
        Quality::Uncertain => "uncertain"@,
        Quality::Bad => "bad"@,
    }
}

/// The document of a reading.
pub open spec fn reading_document(v: VqtView) -> JsonView {
    JsonView::Object(
        Map::<Seq<char>, JsonView>::empty().insert("tag_id"@, JsonView::Text(v.tag_id)).insert(
            "value"@,
            tools::value_document(v.value),
        ).insert("quality"@, JsonView::Text(quality_name(v.quality))).insert(
            "timestamp"@,
            JsonView::Text(v.timestamp),
        ).insert("units"@, JsonView::Text(v.units)),
    )
}

/// What the topic tree holds for a message: its reading, or only the topic.
pub open spec fn leaf(m: MessageView, include_values: bool) -> JsonView {
    if include_values {
        reading_document(connection::reading(m))
    } else {
        JsonView::Object(
            Map::<Seq<char>, JsonView>::empty().insert("tag_id"@, JsonView::Text(m.topic)),
        )
    }
}

/// The topics of the messages of a window, each with what the tree holds for its last message.
pub open spec fn leaves(messages: Seq<MessageView>, include_values: bool) -> Seq<
    (Seq<char>, JsonView),
> {
    feed::latest(messages).map_values(|m: MessageView| (m.topic, leaf(m, include_values)))
}

fn to_quality_name(q: Quality) -> (r: String)
    ensures
        r@ == quality_name(q),
{
    match q {
        Quality::Good => "good".to_owned(),
        Quality::Uncertain => "uncertain".to_owned(),
        Quality::Bad => "bad".to_owned(),
    }
}

fn make_leaf(m: &ReceivedMessage, include_values: bool) -> (r: Json)
    ensures
        r@ == leaf(m@, include_values),
{
    let mut members: Vec<(String, Json)> = Vec::new();
    if include_values {
        let vqt: Vqt = connection::message_vqt(m);
        json::set_member(&mut members, "tag_id", Json::Text(vqt.tag_id));
        json::set_member(&mut members, "value", tools::to_document(&vqt.value));
        json::set_member(&mut members, "quality", Json::Text(to_quality_name(vqt.quality)));
        json::set_member(&mut members, "timestamp", Json::Text(vqt.timestamp));
        json::set_member(&mut members, "units", Json::Text(vqt.units));
    } else {
        json::set_member(&mut members, "tag_id", Json::Text(m.topic.clone()));
    }
    Json::Object(members)
}

/// The tree of the topics that the messages of a window came in on.
pub fn topic_tree(messages: &Vec<ReceivedMessage>, include_values: bool) -> (r: Json)
    ensures
        r@ == JsonView::Object(
            tree_of(leaves(envelope::views(messages@), include_values)),
        ),
{
    let seen: Vec<ReceivedMessage> = feed::latest_messages(messages);
    let mut topics: Vec<(String, Json)> = Vec::new();
    let mut i: usize = 0;
    while i < seen.len()
        invariant
            i <= seen.len(),
            topics@.len() == i,
            forall|j: int|
                0 <= j < i ==> (#[trigger] topics@[j]).0@ == seen@[j]@.topic && topics@[j].1@
                    == leaf(seen@[j]@, include_values),
        decreases seen.len() - i,
    {
        topics.push((seen[i].topic.clone(), make_leaf(&seen[i], include_values)));
        i = i + 1;
    }
    proof {
        let all = envelope::views(messages@);
        assert(feed::latest(all) == envelope::views(seen@));
        assert(topic_views(topics@) == leaves(all, include_values));
    }
    build_topic_tree(topics)
}

} // verus!
