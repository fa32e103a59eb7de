//! What the OPC UA adapter keeps to, whatever the server answers.
use crate::double;
use crate::envelope;
use crate::envelope::{
    AdapterError, ConnectResponse, DisconnectResponse, ErrorCode, Quality, ServerInfoResponse,
    TagDescriptor, TagValue, TagValueView, Vqt, WriteValue,
};
use crate::json::{Json, JsonView, Number};
use crate::laws;
use crate::opcua::browse;
use crate::opcua::browse::{
    Answers, BrowseEntryView, BrowseRequest, FlatBrowse, FlatView, Reference, ReferenceView,
};
use crate::opcua::connection;
use crate::opcua::connection::{
    DataReading, HistoryReading, OpcWriteValue, ReadValueId, Variant,
};
use crate::opcua::nodes;
use crate::opcua::nodes::{NodeId, NodeIdView};
use crate::opcua::server;
use crate::opcua::server::{
    ConnectAttempt, HistoryRequest, Identity, OpcUaMcpServer, Reply, SessionSettings,
};
use crate::opcua::tree;
use crate::opcua::tree::{NodeTree, Server, Step, TreeBrowse, TreeRequest, Walk};
use crate::text;
use crate::topology;
use crate::topology::TopologyConfig;
use crate::writing::{WriteRequest, Written};
use vstd::prelude::*;

verus! {

/// The members of an object.
pub type Members = Map<Seq<char>, JsonView>;

/// The nodes that an entry of a tree has below it.
pub open spec fn shown_below(entry: JsonView) -> Members {
    match entry {
        JsonView::Object(m) => if m.contains_key("children"@) {
            match m["children"@] {
                JsonView::Object(below) => below,
                _ => Map::empty(),
            }
        } else {
            Map::empty()
        },
        _ => Map::empty(),
    }
}

/// How many nodes a level of a tree shows, with those below them, this many levels deep.
pub open spec fn shown_nodes(level: Members, depth: nat) -> nat
    decreases depth, level.dom().len(),
{
    if depth == 0 || !level.dom().finite() || level.dom().len() == 0 {
        0
    } else {
        let name = level.dom().choose();
        1 + shown_nodes(shown_below(level[name]), (depth - 1) as nat) + shown_nodes(
            level.remove(name),
            depth,
        )
    }
}

/// Whether no two of the references are shown by one name.
pub open spec fn names_differ(refs: Seq<ReferenceView>) -> bool {
    forall|i: int, j: int|
        0 <= i < j < refs.len() ==> (#[trigger] refs[i]).display_name != (
        #[trigger] refs[j]).display_name
}

/// Whether the server never answers a browse with two nodes of one name.
pub open spec fn tells_apart(server: Server) -> bool {
    forall|asked: nat, node: NodeIdView|
        (#[trigger] (server.browse)(asked, node)) matches Some(refs) ==> names_differ(refs)
}

/// Whether an entry tells of a node: its identifier and class, the value that the server gave for
/// a variable if values are asked for, and under `children` all that was found below it.
pub open spec fn tells_of(
    server: Server,
    r: ReferenceView,
    include_values: bool,
    found: Members,
    read_asked: nat,
    entry: JsonView,
) -> bool {
    let value = if include_values && r.is_variable {
        (server.read)(read_asked, r.node_id)
    } else {
        None
    };
    entry matches JsonView::Object(m) && {
        &&& m.contains_key("node_id"@)
        &&& m["node_id"@] == JsonView::Text(nodes::node_text_of(r.node_id))
        &&& m.contains_key("node_class"@)
        &&& m["node_class"@] == JsonView::Text(r.node_class)
        &&& m.contains_key("value"@) <==> value is Some
        &&& value matches Some(v) ==> m["value"@] == match v {
            TagValueView::Float(d) => if d.finite() {
                JsonView::Number(Number::Float(d))
            } else {
                JsonView::Null
            },
            TagValueView::Bool(b) => JsonView::Bool(b),
            TagValueView::Text(t) => JsonView::Text(t),
        }
        &&& m.contains_key("children"@) <==> found.dom().len() > 0
        &&& m.contains_key("children"@) ==> m["children"@] == JsonView::Object(found)
        &&& forall|key: Seq<char>| #[trigger]
            m.contains_key(key) ==> key == "node_id"@ || key == "node_class"@ || key == "value"@
                || key == "children"@
    }
}

/// Whether an entry tells of a node and of what the walk below it found, at some point before `end`.
/// A value is read just before the walk goes down.
pub open spec fn tells_of_walk(
    server: Server,
    r: ReferenceView,
    depth: nat,
    include_values: bool,
    end: Walk,
    entry: JsonView,
) -> bool {
    exists|count: nat, asked: nat|
        {
            &&& count <= end.count
            &&& asked <= end.asked
            &&& tells_of(
                server,
                r,
                include_values,
                (#[trigger] tree::tree(
                    server,
                    r.node_id,
                    depth,
                    include_values,
                    count,
                    asked,
                )).children,
                (asked - 1) as nat,
                entry,
            )
        }
}

proof fn lemma_entry_keys()
    ensures
        "node_id"@ != "node_class"@,
        "node_id"@ != "value"@,
        "node_id"@ != "children"@,
        "node_class"@ != "value"@,
        "node_class"@ != "children"@,
        "value"@ != "children"@,
{
    reveal_strlit("node_id");
    reveal_strlit("node_class");
    reveal_strlit("value");
    reveal_strlit("children");
    assert("node_id"@.len() == 7);
    assert("node_class"@.len() == 10);
    assert("value"@.len() == 5);
    assert("children"@.len() == 8);
}

proof fn lemma_shown_insert(level: Members, name: Seq<char>, entry: JsonView, depth: nat)
    requires
        level.dom().finite(),
        !level.contains_key(name),
        depth > 0,
    ensures
        shown_nodes(level.insert(name, entry), depth) == shown_nodes(level, depth) + 1
            + shown_nodes(shown_below(entry), (depth - 1) as nat),
    decreases level.dom().len(),
{
    let all = level.insert(name, entry);
    let first = all.dom().choose();
    assert(all.dom() == level.dom().insert(name));
    assert(all.dom().len() == level.dom().len() + 1);
    assert(all.dom().contains(name));
    assert(all.dom().contains(first));
    if first == name {
        assert(all.remove(name) == level);
    } else {
        let rest = level.remove(first);
        assert(level.contains_key(first));
        assert(rest.dom() == level.dom().remove(first));
        assert(all.remove(first) == rest.insert(name, entry));
        assert(rest.insert(first, level[first]) == level);
        lemma_shown_insert(rest, name, entry, depth);
        lemma_shown_insert(rest, first, level[first], depth);
    }
}

proof fn lemma_entry_tells(
    server: Server,
    r: ReferenceView,
    include_values: bool,
    found: Members,
    asked: nat,
)
    requires
        found.dom().finite(),
    ensures
        ({
            let value = if tree::wants_value(r, include_values) {
                (server.read)(asked, r.node_id)
            } else {
                None
            };
            let entry = JsonView::Object(tree::tree_entry(r, value, found));
            &&& tells_of(server, r, include_values, found, asked, entry)
            &&& shown_below(entry) == found
        }),
{
    lemma_entry_keys();
    if found.dom().len() == 0 {
        assert(found =~= Map::<Seq<char>, JsonView>::empty());
    } else {
        assert(found != Map::<Seq<char>, JsonView>::empty());
    }
}

proof fn lemma_tree_shows(
    server: Server,
    node: NodeIdView,
    depth: nat,
    include_values: bool,
    count: nat,
    asked: nat,
)
    requires
        tells_apart(server),
    ensures
        ({
            let w = tree::tree(server, node, depth, include_values, count, asked);
            &&& w.children.dom().finite()
            &&& w.count == count + shown_nodes(w.children, depth)
            &&& w.asked >= asked
        }),
    decreases depth, 1nat, 0nat,
{
    if count < 1000 && depth > 0 {
        if let Some(refs) = (server.browse)(asked, node) {
            lemma_siblings_show(
                server,
                refs,
                depth,
                include_values,
                Map::empty(),
                count,
                asked + 1,
            );
        }
    }
}

proof fn lemma_siblings_show(
    server: Server,
    refs: Seq<ReferenceView>,
    depth: nat,
    include_values: bool,
    children: Members,
    count: nat,
    asked: nat,
)
    requires
        tells_apart(server),
        names_differ(refs),
        children.dom().finite(),
        depth > 0,
        forall|i: int|
            0 <= i < refs.len() ==> !children.contains_key((#[trigger] refs[i]).display_name),
    ensures
        ({
            let w = tree::siblings(server, refs, depth, include_values, children, count, asked);
            &&& w.children.dom().finite()
            &&& w.count + shown_nodes(children, depth) == count + shown_nodes(w.children, depth)
            &&& w.count >= count
            &&& w.asked >= asked
            &&& forall|name: Seq<char>| #[trigger]
                children.contains_key(name) ==> w.children.contains_key(name)
                    && w.children[name] == children[name]
            &&& forall|name: Seq<char>| #[trigger]
                w.children.contains_key(name) && !children.contains_key(name) ==> exists|i: int|
                    {
                        &&& 0 <= i < refs.len()
                        &&& (#[trigger] refs[i]).display_name == name
                        &&& tells_of_walk(
                            server,
                            refs[i],
                            (depth - 1) as nat,
                            include_values,
                            w,
                            w.children[name],
                        )
                    }
            &&& w.count < 1000 ==> forall|i: int|
                0 <= i < refs.len() ==> w.children.contains_key((#[trigger] refs[i]).display_name)
        }),
    decreases depth, 0nat, refs.len(),
{
    if refs.len() > 0 && count < 1000 {
        let r = refs[0];
        let rest = refs.drop_first();
        let below = (depth - 1) as nat;
        let (value, after) = if tree::wants_value(r, include_values) {
            ((server.read)(asked, r.node_id), asked + 1)
        } else {
            (None, asked)
        };
        let sub = tree::tree(server, r.node_id, below, include_values, count + 1, after);
        let entry = JsonView::Object(tree::tree_entry(r, value, sub.children));
        let more = children.insert(r.display_name, entry);
        lemma_tree_shows(server, r.node_id, below, include_values, count + 1, after);
        if tree::wants_value(r, include_values) {
            lemma_entry_tells(server, r, include_values, sub.children, asked);
        } else {
            lemma_entry_tells(server, r, include_values, sub.children, (after - 1) as nat);
        }
        assert(tells_of(server, r, include_values, sub.children, (after - 1) as nat, entry));
        lemma_shown_insert(children, r.display_name, entry, depth);
        assert forall|i: int| 0 <= i < rest.len() implies !more.contains_key(
            (#[trigger] rest[i]).display_name,
        ) by {
            assert(rest[i] == refs[i + 1]);
            assert(refs[0].display_name != refs[i + 1].display_name);
        }
        assert(names_differ(rest)) by {
            assert forall|i: int, j: int| 0 <= i < j < rest.len() implies (
            #[trigger] rest[i]).display_name != (#[trigger] rest[j]).display_name by {
                assert(rest[i] == refs[i + 1] && rest[j] == refs[j + 1]);
            }
        }
        lemma_siblings_show(
            server,
            rest,
            depth,
            include_values,
            more,
            sub.count,
            sub.asked,
        );
        let w = tree::siblings(server, refs, depth, include_values, children, count, asked);
        assert(w == tree::siblings(
            server,
            rest,
            depth,
            include_values,
            more,
            sub.count,
            sub.asked,
        ));
        assert forall|name: Seq<char>| #[trigger]
            children.contains_key(name) implies w.children.contains_key(name)
            && w.children[name] == children[name] by {
            assert(name != refs[0].display_name);
            assert(more.contains_key(name));
        }
        assert(tells_of_walk(server, r, below, include_values, w, entry));
        assert(more.contains_key(r.display_name));
        assert forall|name: Seq<char>| #[trigger]
            w.children.contains_key(name) && !children.contains_key(name) implies exists|i: int|
            {
                &&& 0 <= i < refs.len()
                &&& (#[trigger] refs[i]).display_name == name
                &&& tells_of_walk(server, refs[i], below, include_values, w, w.children[name])
            } by {
            if name == r.display_name {
                assert(refs[0].display_name == name);
            } else {
                assert(!more.contains_key(name));
                let i = choose|i: int|
                    {
                        &&& 0 <= i < rest.len()
                        &&& (#[trigger] rest[i]).display_name == name
                        &&& tells_of_walk(
                            server,
                            rest[i],
                            below,
                            include_values,
                            w,
                            w.children[name],
                        )
                    };
                assert(rest[i] == refs[i + 1]);
            }
        }
        if w.count < 1000 {
            assert forall|i: int| 0 <= i < refs.len() implies w.children.contains_key(
                (#[trigger] refs[i]).display_name,
            ) by {
                if i > 0 {
                    assert(refs[i] == rest[i - 1]);
                }
            }
        }
    }
}

/// Every node that a walk counts stands in its tree: the tree shows as many nodes as are counted,
/// if the server names the nodes that it lists together differently.
pub proof fn law_tree_shows_every_counted_node(
    server: Server,
    root: NodeIdView,
    max_depth: nat,
    include_values: bool,
)
    requires
        tells_apart(server),
    ensures
        ({
            let w = tree::tree(server, root, max_depth, include_values, 0, 0);
            shown_nodes(w.children, max_depth) == w.count
        }),
{
    lemma_tree_shows(server, root, max_depth, include_values, 0, 0);
}

/// The top level of a tree has an entry for each node that the root refers to, under the name it is
/// shown by, unless the tree is full; and it has no others. Each entry tells of its node, and of all
/// that was found below it, whether or not its value was read. The same holds of every level below,
/// since what was found below a node is the tree of a walk from there.
pub proof fn law_tree_level(
    server: Server,
    node: NodeIdView,
    depth: nat,
    include_values: bool,
    count: nat,
    asked: nat,
)
    requires
        tells_apart(server),
        depth > 0,
        count < 1000,
    ensures
        ({
            let w = tree::tree(server, node, depth, include_values, count, asked);
            match (server.browse)(asked, node) {
                None => w.children.dom().len() == 0 && w.count == count,
                Some(refs) => {
                    &&& forall|name: Seq<char>| #[trigger]
                        w.children.contains_key(name) ==> exists|i: int|
                            {
                                &&& 0 <= i < refs.len()
                                &&& (#[trigger] refs[i]).display_name == name
                                &&& tells_of_walk(
                                    server,
                                    refs[i],
                                    (depth - 1) as nat,
                                    include_values,
                                    w,
                                    w.children[name],
                                )
                            }
                    &&& w.count < 1000 ==> forall|i: int|
                        0 <= i < refs.len() ==> w.children.contains_key(
                            (#[trigger] refs[i]).display_name,
                        )
                },
            }
        }),
{
    if let Some(refs) = (server.browse)(asked, node) {
        assert(names_differ(refs));
        lemma_siblings_show(
            server,
            refs,
            depth,
            include_values,
            Map::empty(),
            count,
            asked + 1,
        );
    }
}

/// A walk that may not go down shows nothing and counts nothing.
pub proof fn law_tree_ends(
    server: Server,
    node: NodeIdView,
    depth: nat,
    include_values: bool,
    count: nat,
    asked: nat,
)
    requires
        depth == 0 || count >= 1000,
    ensures
        tree::tree(server, node, depth, include_values, count, asked).children.dom().len() == 0,
        tree::tree(server, node, depth, include_values, count, asked).count == count,
        tree::tree(server, node, depth, include_values, count, asked).asked == asked,
{
}

/// A walk that is asked for starts at the node that is named, at the root folder if none is, and goes
/// as deep as asked for: three levels if nothing is, and never more than six. It reads values only if
/// that is asked for.
pub proof fn law_get_node_tree(
    s: &OpcUaMcpServer,
    root_node: Option<&str>,
    depth: Option<u32>,
    include_values: Option<bool>,
    r: Result<TreeBrowse, AdapterError>,
    answers: Server,
)
    requires
        call_ensures(
            OpcUaMcpServer::get_node_tree,
            (s, root_node, depth, include_values),
            r,
        ),
        r is Ok,
    ensures
        s.inner is Some,
        ({
            let root = match root_node {
                Some(n) => nodes::node_id_of(n@)->0,
                None => NodeIdView { namespace: 0, identifier: nodes::IdentifierView::Numeric(84) },
            };
            let levels: nat = match depth {
                None => 3,
                Some(d) => if d <= 6 {
                    d as nat
                } else {
                    6
                },
            };
            tree::outcome(answers, r->Ok_0@) == tree::tree(
                answers,
                root,
                levels,
                include_values == Some(true),
                0,
                0,
            )
        }),
        root_node matches Some(n) ==> nodes::node_id_of(n@) is Some,
{
    let start = server::start_node(
        match root_node {
            Some(n) => Some(n@),
            None => None,
        },
        nodes::numbered(0, 84),
    );
    assert(start is Ok);
    assert(tree::comes_to(
        r->Ok_0@,
        start->Ok_0,
        server::depth_of(depth, 3, 6) as nat,
        include_values == Some(true),
    ));
}

/// A browse that is asked for starts at the node that is named, at the objects folder if none is, and
/// goes as deep as asked for: one level if nothing is, and never more than five.
pub proof fn law_browse_request(
    s: &OpcUaMcpServer,
    node_id: Option<&str>,
    depth: Option<u32>,
    b: FlatBrowse,
)
    requires
        call_ensures(
            OpcUaMcpServer::browse,
            (s, node_id, depth),
            Ok::<FlatBrowse, AdapterError>(b),
        ),
    ensures
        s.inner is Some,
        ({
            let start = match node_id {
                Some(n) => nodes::node_id_of(n@)->0,
                None => NodeIdView { namespace: 0, identifier: nodes::IdentifierView::Numeric(85) },
            };
            let levels: nat = match depth {
                None => 1,
                Some(d) => if d <= 5 {
                    d as nat
                } else {
                    5
                },
            };
            &&& b@.max_depth == levels
            &&& b@.queue == seq![(start, 0nat)]
            &&& b@.next == 0
            &&& b@.results.len() == 0
        }),
        node_id matches Some(n) ==> nodes::node_id_of(n@) is Some,
{
}

/// Whether a listed entry shows a reference: its identifier, its two names and its class.
pub open spec fn entry_shows(r: ReferenceView, e: BrowseEntryView) -> bool {
    &&& e.node_id == nodes::node_text_of(r.node_id)
    &&& e.browse_name == r.browse_name
    &&& e.display_name == r.display_name
    &&& e.node_class == r.node_class
}

/// How many references the first `n` nodes of a queue have, by what the server answers.
pub open spec fn answered_by(answers: Answers, queue: Seq<(NodeIdView, nat)>, n: nat) -> nat
    decreases n,
{
    if n == 0 {
        0
    } else {
        answered_by(answers, queue, (n - 1) as nat) + answers((n - 1) as nat, queue[n - 1].0).len()
    }
}

proof fn lemma_listed(answers: Answers, queue: Seq<(NodeIdView, nat)>, n: nat, k: nat, j: int)
    requires
        k < n <= queue.len(),
        0 <= j < answers(k, queue[k as int].0).len(),
    ensures
        ({
            let entries = browse::all_entries(answers, queue, n);
            let at = answered_by(answers, queue, k) + j;
            &&& entries.len() == answered_by(answers, queue, n)
            &&& at < entries.len()
            &&& entry_shows(answers(k, queue[k as int].0)[j], entries[at])
        }),
    decreases n,
{
    lemma_listed_len(answers, queue, n);
    lemma_listed_len(answers, queue, (n - 1) as nat);
    let before = browse::all_entries(answers, queue, (n - 1) as nat);
    let refs = answers((n - 1) as nat, queue[n - 1].0);
    let entries = browse::all_entries(answers, queue, n);
    assert(entries == before + browse::entries_of(refs));
    if k < n - 1 {
        lemma_listed(answers, queue, (n - 1) as nat, k, j);
        let at = answered_by(answers, queue, k) + j;
        assert(entries[at] == before[at]);
    } else {
        assert(entries[before.len() + j] == browse::entry_of(refs[j]));
    }
}

proof fn lemma_listed_len(answers: Answers, queue: Seq<(NodeIdView, nat)>, n: nat)
    ensures
        browse::all_entries(answers, queue, n).len() == answered_by(answers, queue, n),
    decreases n,
{
    if n > 0 {
        lemma_listed_len(answers, queue, (n - 1) as nat);
    }
}

/// A browse lists what the nodes that it asks about refer to: one node after the other, and the
/// references of each in their order. The list ends after a thousand entries.
pub proof fn law_browse_lists_every_reference(
    answers: Answers,
    start: NodeIdView,
    max_depth: nat,
    k: nat,
    j: int,
)
    requires
        k < browse::flat_end(answers, browse::flat_start(start, max_depth)).next,
        0 <= j < answers(
            k,
            browse::flat_end(answers, browse::flat_start(start, max_depth)).queue[k as int].0,
        ).len(),
    ensures
        ({
            let end = browse::flat_end(answers, browse::flat_start(start, max_depth));
            let at = answered_by(answers, end.queue, k) + j;
            let total = answered_by(answers, end.queue, end.next);
            &&& end.results.len() == if total <= 1000 {
                total
            } else {
                1000
            }
            &&& at < 1000 ==> entry_shows(
                answers(k, end.queue[k as int].0)[j],
                end.results[at],
            )
        }),
{
    browse::law_browse_lists_level_by_level(answers, start, max_depth);
    let end = browse::flat_end(answers, browse::flat_start(start, max_depth));
    lemma_listed(answers, end.queue, end.next, k, j);
}

proof fn lemma_found_below(
    answers: Answers,
    queue: Seq<(NodeIdView, nat)>,
    n: nat,
    max_depth: nat,
    k: nat,
    j: int,
) -> (at: int)
    requires
        k < n <= queue.len(),
        0 <= j < answers(k, queue[k as int].0).len(),
        queue[k as int].1 + 1 < max_depth,
    ensures
        0 <= at < browse::all_below(answers, queue, n, max_depth).len(),
        browse::all_below(answers, queue, n, max_depth)[at] == (
            answers(k, queue[k as int].0)[j].node_id,
            queue[k as int].1 + 1,
        ),
    decreases n,
{
    let before = browse::all_below(answers, queue, (n - 1) as nat, max_depth);
    let refs = answers((n - 1) as nat, queue[n - 1].0);
    let more = browse::below(refs, queue[n - 1].1, max_depth);
    assert(browse::all_below(answers, queue, n, max_depth) == before + more);
    if k < n - 1 {
        lemma_found_below(answers, queue, (n - 1) as nat, max_depth, k, j)
    } else {
        assert((before + more)[before.len() + j] == more[j]);
        before.len() + j
    }
}

proof fn lemma_found_above(
    answers: Answers,
    queue: Seq<(NodeIdView, nat)>,
    n: nat,
    max_depth: nat,
    at: int,
) -> (from: (nat, int))
    requires
        n <= queue.len(),
        0 <= at < browse::all_below(answers, queue, n, max_depth).len(),
    ensures
        from.0 < n,
        0 <= from.1 < answers(from.0, queue[from.0 as int].0).len(),
        queue[from.0 as int].1 + 1 < max_depth,
        browse::all_below(answers, queue, n, max_depth)[at] == (
            answers(from.0, queue[from.0 as int].0)[from.1].node_id,
            queue[from.0 as int].1 + 1,
        ),
    decreases n,
{
    let before = browse::all_below(answers, queue, (n - 1) as nat, max_depth);
    let refs = answers((n - 1) as nat, queue[n - 1].0);
    let more = browse::below(refs, queue[n - 1].1, max_depth);
    assert(browse::all_below(answers, queue, n, max_depth) == before + more);
    if at < before.len() {
        lemma_found_above(answers, queue, (n - 1) as nat, max_depth, at)
    } else {
        assert((before + more)[at] == more[at - before.len()]);
        ((n - 1) as nat, at - before.len())
    }
}

/// A browse that does not fill its list asks about the start and about every node that it found above
/// the deepest level: a node that it asked about at one level has those it refers to asked about at
/// the next, until `max_depth` levels are through.
pub proof fn law_browse_goes_down_level_by_level(
    answers: Answers,
    start: NodeIdView,
    max_depth: nat,
    k: nat,
    j: int,
) -> (at: int)
    requires
        k < browse::flat_end(answers, browse::flat_start(start, max_depth)).next,
        browse::flat_end(answers, browse::flat_start(start, max_depth)).results.len() < 1000,
        0 <= j < answers(
            k,
            browse::flat_end(answers, browse::flat_start(start, max_depth)).queue[k as int].0,
        ).len(),
    ensures
        ({
            let end = browse::flat_end(answers, browse::flat_start(start, max_depth));
            let level = end.queue[k as int].1;
            &&& end.next == end.queue.len()
            &&& end.queue[0] == (start, 0nat)
            &&& level + 1 < max_depth ==> 0 < at < end.next && end.queue[at] == (
                answers(k, end.queue[k as int].0)[j].node_id,
                level + 1,
            )
        }),
{
    browse::law_browse_lists_level_by_level(answers, start, max_depth);
    let end = browse::flat_end(answers, browse::flat_start(start, max_depth));
    let found = browse::all_below(answers, end.queue, end.next, end.max_depth);
    assert(end.queue == seq![(start, 0nat)] + found);
    lemma_flat_depth(answers, browse::flat_start(start, max_depth));
    if end.queue[k as int].1 + 1 < max_depth {
        let at = lemma_found_below(answers, end.queue, end.next, max_depth, k, j);
        assert(end.queue[at + 1] == found[at]);
        at + 1
    } else {
        0
    }
}

/// A browse asks about nothing else: every node that it asks about, but for the start, is one that a
/// node one level above refers to.
pub proof fn law_browse_asks_about_what_it_found(
    answers: Answers,
    start: NodeIdView,
    max_depth: nat,
    at: int,
) -> (from: (nat, int))
    requires
        0 < at < browse::flat_end(answers, browse::flat_start(start, max_depth)).queue.len(),
    ensures
        ({
            let end = browse::flat_end(answers, browse::flat_start(start, max_depth));
            &&& from.0 < end.next
            &&& 0 <= from.1 < answers(from.0, end.queue[from.0 as int].0).len()
            &&& end.queue[at] == (
                answers(from.0, end.queue[from.0 as int].0)[from.1].node_id,
                end.queue[from.0 as int].1 + 1,
            )
            &&& end.queue[at].1 < max_depth
        }),
{
    browse::law_browse_lists_level_by_level(answers, start, max_depth);
    let end = browse::flat_end(answers, browse::flat_start(start, max_depth));
    let found = browse::all_below(answers, end.queue, end.next, end.max_depth);
    let all = seq![(start, 0nat)] + found;
    assert(end.queue == all.take(end.queue.len() as int));
    assert(end.queue[at] == all[at]);
    assert(all[at] == found[at - 1]);
    lemma_flat_depth(answers, browse::flat_start(start, max_depth));
    lemma_found_above(answers, end.queue, end.next, max_depth, at - 1)
}

proof fn lemma_listing_depth(s: FlatView, depth: nat, refs: Seq<ReferenceView>)
    ensures
        browse::listing(s, depth, refs).max_depth == s.max_depth,
        browse::listing(s, depth, refs).next == s.next,
    decreases refs.len(),
{
    if refs.len() > 0 && s.results.len() < 1000 {
        let results = s.results.push(browse::entry_of(refs[0]));
        let queue = if depth + 1 < s.max_depth && results.len() < 1000 {
            s.queue.push((refs[0].node_id, depth + 1))
        } else {
            s.queue
        };
        lemma_listing_depth(FlatView { results, queue, ..s }, depth, refs.drop_first());
    }
}

proof fn lemma_flat_depth(answers: Answers, s: FlatView)
    ensures
        browse::flat_end(answers, s).max_depth == s.max_depth,
    decreases 1001 - s.next,
{
    if !browse::flat_done(s) && s.next <= 1000 {
        let refs = answers(s.next, s.queue[s.next as int].0);
        lemma_listing_depth(
            FlatView { next: s.next + 1, ..s },
            s.queue[s.next as int].1,
            refs,
        );
        lemma_flat_depth(answers, browse::advanced(s, refs));
    }
}

/// A server is asked for what a node refers to along the hierarchy, subtypes included, whatever the
/// class of the nodes.
pub proof fn law_browse_asks_along_the_hierarchy(node_id: &NodeId, q: BrowseRequest)
    requires
        call_ensures(browse::browse_request, (node_id,), q),
    ensures
        q.node_id@ == node_id@,
        q.reference_type@ == (NodeIdView {
            namespace: 0,
            identifier: nodes::IdentifierView::Numeric(33),
        }),
        q.include_subtypes,
        q.node_class_mask == 0,
        q.max_references == 500,
{
}

/// A browse that the server refuses fails with the connection, and stays where it was.
pub proof fn law_refused_browses(b: &mut FlatBrowse, status: u32, r: Result<(), AdapterError>)
    requires
        call_ensures(
            FlatBrowse::answer,
            (b, Err::<Vec<Reference>, u32>(status)),
            r,
        ),
    ensures
        r matches Err(e) && e.code == ErrorCode::ConnectionError,
        final(b)@ == old(b)@,
{
}

/// Whether a tag's value is the number that a value on the wire holds.
pub open spec fn shows_number(n: int, t: TagValueView) -> bool {
    &&& t is Float
    &&& -2 * double::LEAD < n < 2 * double::LEAD ==> t->Float_0.is_integer(n)
}

/// A value on the wire is shown as what it is: a boolean, a text, a binary64 number bit for bit, a
/// binary32 number exactly, and an integer exactly where binary64 can hold it.
pub proof fn law_values_are_shown_as_they_are(v: &Variant, t: TagValue)
    requires
        call_ensures(connection::variant_to_tag_value, (v,), t),
    ensures
        match *v {
            Variant::Boolean(b) => t@ == TagValueView::Bool(b),
            Variant::SByte(n) => shows_number(n as int, t@),
            Variant::Byte(n) => shows_number(n as int, t@),
            Variant::Int16(n) => shows_number(n as int, t@),
            Variant::UInt16(n) => shows_number(n as int, t@),
            Variant::Int32(n) => shows_number(n as int, t@),
            Variant::UInt32(n) => shows_number(n as int, t@),
            Variant::Int64(n) => shows_number(n as int, t@),
            Variant::UInt64(n) => shows_number(n as int, t@),
            Variant::Float(bits) => t@ is Float && t@->Float_0.widens(bits),
            Variant::Double(d) => t@ is Float && t@->Float_0.bits == d.bits,
            Variant::Text(x) => t@ == TagValueView::Text(x@),
            Variant::Other(x) => t@ == TagValueView::Text(x@),
        },
{
    let n: int = match *v {
        Variant::SByte(n) => n as int,
        Variant::Byte(n) => n as int,
        Variant::Int16(n) => n as int,
        Variant::UInt16(n) => n as int,
        Variant::Int32(n) => n as int,
        Variant::UInt32(n) => n as int,
        Variant::Int64(n) => n as int,
        Variant::UInt64(n) => n as int,
        _ => 0,
    };
    if -2 * double::LEAD < n < 2 * double::LEAD {
        double::lemma_of_integer_exact(n);
    }
}

/// Which quality the two highest bits of a status stand for: 00 is good, 01 uncertain, and the rest
/// bad; without a status it is good.
pub open spec fn quality_by_bits(status: Option<u32>) -> Quality {
    match status {
        None => Quality::Good,
        Some(code) => if code / 0x4000_0000 == 0 {
            Quality::Good
        } else if code / 0x4000_0000 == 1 {
            Quality::Uncertain
        } else {
            Quality::Bad
        },
    }
}

/// The quality of a value goes by the two highest bits of its status.
pub proof fn law_quality_goes_by_the_status(status: Option<u32>, q: Quality)
    requires
        call_ensures(connection::status_code_to_quality, (status,), q),
    ensures
        q == quality_by_bits(status),
{
}

/// Whether an envelope tells of a reading: of the node, in its units, with the quality of the status,
/// the time of the source or else of the server, and the value as it is shown.
pub open spec fn envelope_tells(
    tag_id: Seq<char>,
    units: Seq<char>,
    dv: DataReading,
    v: Vqt,
) -> bool {
    &&& v.tag_id@ == tag_id
    &&& v.units@ == units
    &&& v.quality == quality_by_bits(dv.status)
    &&& dv.source_timestamp matches Some(t) ==> v.timestamp@ == connection::rfc3339_of(t)
    &&& dv.source_timestamp is None ==> (dv.server_timestamp matches Some(t) ==> v.timestamp@
        == connection::rfc3339_of(t))
    &&& dv.value matches Some(x) ==> connection::shows(x, v.value@)
    &&& dv.value is None ==> v.value@ == TagValueView::Text("null"@)
}

proof fn lemma_envelope_tells(tag_id: Seq<char>, units: Seq<char>, dv: DataReading, v: Vqt)
    requires
        connection::envelopes_now(tag_id, dv, units, v@),
    ensures
        envelope_tells(tag_id, units, dv, v),
{
}

/// A value is shown in one way: what the envelope of a reading shows is what its value shows as, but
/// for the bits of a NaN.
pub proof fn law_values_are_shown_in_one_way(v: &Variant, t: TagValue, shown: TagValueView)
    requires
        call_ensures(connection::variant_to_tag_value, (v,), t),
        connection::shows(*v, shown),
    ensures
        shown == t@ || match (shown, t@) {
            (TagValueView::Float(x), TagValueView::Float(y)) => x.nan() && y.nan(),
            _ => false,
        },
{
    if let Variant::Float(bits) = *v {
        if !double::single_nan(bits) {
            double::lemma_widen_unique(bits, shown->Float_0, t@->Float_0);
        }
    }
}

/// A reading goes into its envelope as it is.
pub proof fn law_readings_go_into_envelopes(
    node_id: &str,
    dv: &DataReading,
    units: &str,
    now: String,
    v: Vqt,
)
    requires
        call_ensures(connection::reading_at, (node_id, dv, units, now), v),
    ensures
        envelope_tells(node_id@, units@, *dv, v),
        dv.source_timestamp is None && dv.server_timestamp is None ==> v.timestamp@ == now@,
{
}

/// A read asks for the value of the node that the tag names, and takes along the tag's units.
pub proof fn law_read_request(
    s: &OpcUaMcpServer,
    tag_id: &str,
    r: Result<(ReadValueId, String), AdapterError>,
)
    requires
        call_ensures(OpcUaMcpServer::read_tag_request, (s, tag_id), r),
    ensures
        r is Ok <==> s.inner is Some && nodes::node_id_of(tag_id@) is Some,
        r matches Ok((q, units)) ==> {
            &&& q.node_id@ == nodes::node_id_of(tag_id@)->0
            &&& q.attribute_id == 13
            &&& units@ == topology::units_of(s.link()->0.topology.tags, tag_id@)
        },
        r matches Err(e) ==> {
            &&& e.tag_id is Some && e.tag_id->0@ == tag_id@
            &&& e.code == if s.inner is None {
                ErrorCode::ConnectionError
            } else {
                ErrorCode::TagNotFound
            }
        },
{
}

/// A read answers the last reading that came back. A node that the server does not know, or of which
/// nothing came back, is not found; a refused request is a failure of the connection.
pub proof fn law_read_tag(
    s: &OpcUaMcpServer,
    tag_id: &str,
    units: &str,
    reply: Reply<DataReading>,
    r: Result<Vqt, AdapterError>,
)
    requires
        call_ensures(OpcUaMcpServer::read_tag, (s, tag_id, units, reply), r),
    ensures
        match reply {
            Err(_) => r matches Err(e) && e.code == ErrorCode::ConnectionError && e.tag_id is Some
                && e.tag_id->0@ == tag_id@,
            Ok(readings) => if readings@.len() == 0 || readings@.last().status == Some(
                0x8034_0000u32,
            ) {
                r matches Err(e) && e.code == ErrorCode::TagNotFound && e.tag_id is Some
                    && e.tag_id->0@ == tag_id@
            } else {
                r matches Ok(v) && envelope_tells(tag_id@, units@, readings@.last(), v)
            },
        },
{
}

/// Whether a reading passes a filter by quality. A filter that names no quality lets all pass.
pub open spec fn filter_lets_pass(filter: Option<String>, d: DataReading) -> bool {
    match filter {
        None => true,
        Some(f) => {
            &&& f@ == "good"@ ==> quality_by_bits(d.status) == Quality::Good
            &&& f@ == "uncertain"@ ==> quality_by_bits(d.status) == Quality::Uncertain
            &&& f@ == "bad"@ ==> quality_by_bits(d.status) == Quality::Bad
        },
    }
}

proof fn lemma_quality_names()
    ensures
        "good"@ != "uncertain"@,
        "good"@ != "bad"@,
        "uncertain"@ != "bad"@,
{
    reveal_strlit("good");
    reveal_strlit("uncertain");
    reveal_strlit("bad");
    assert("good"@.len() == 4);
    assert("uncertain"@.len() == 9);
    assert("bad"@.len() == 3);
}

/// Whether an envelope tells of one of the readings of an answer that pass the filter.
pub open spec fn tells_of_kept(
    answers: Seq<HistoryReading>,
    filter: Option<String>,
    tag_id: Seq<char>,
    units: Seq<char>,
    v: Vqt,
) -> bool {
    exists|a: int, i: int|
        {
            &&& 0 <= a < answers.len()
            &&& 0 <= i < answers[a].data@.len()
            &&& filter_lets_pass(filter, #[trigger] answers[a].data@[i])
            &&& envelope_tells(tag_id, units, answers[a].data@[i], v)
        }
}

proof fn lemma_passing(readings: Seq<DataReading>, filter: Option<String>, k: int) -> (i: int)
    requires
        0 <= k < server::passing(readings, envelope::opt_text(filter)).len(),
    ensures
        0 <= i < readings.len(),
        readings[i] == server::passing(readings, envelope::opt_text(filter))[k],
        filter_lets_pass(filter, readings[i]),
    decreases readings.len(),
{
    reveal(Seq::filter);
    lemma_quality_names();
    let f = envelope::opt_text(filter);
    let before = server::passing(readings.drop_last(), f);
    if k < before.len() {
        let i = lemma_passing(readings.drop_last(), filter, k);
        i
    } else {
        readings.len() - 1
    }
}

proof fn lemma_all_pass(readings: Seq<DataReading>, filter: Option<String>)
    requires
        forall|i: int|
            0 <= i < readings.len() ==> filter_lets_pass(filter, #[trigger] readings[i]),
    ensures
        server::passing(readings, envelope::opt_text(filter)) == readings,
    decreases readings.len(),
{
    reveal(Seq::filter);
    lemma_quality_names();
    if readings.len() > 0 {
        let before = readings.drop_last();
        assert forall|i: int| 0 <= i < before.len() implies filter_lets_pass(
            filter,
            #[trigger] before[i],
        ) by {
            assert(before[i] == readings[i]);
        }
        lemma_all_pass(before, filter);
        assert(filter_lets_pass(filter, readings[readings.len() - 1]));
        assert(readings.last() == readings[readings.len() - 1]);
        assert(before.push(readings.last()) == readings);
    }
}

proof fn lemma_kept(answers: Seq<HistoryReading>, filter: Option<String>, k: int) -> (at: (int, int))
    requires
        0 <= k < server::kept(answers, envelope::opt_text(filter)).len(),
    ensures
        0 <= at.0 < answers.len(),
        0 <= at.1 < answers[at.0].data@.len(),
        answers[at.0].data@[at.1] == server::kept(answers, envelope::opt_text(filter))[k],
        filter_lets_pass(filter, answers[at.0].data@[at.1]),
    decreases answers.len(),
{
    let f = envelope::opt_text(filter);
    let before = server::kept(answers.drop_last(), f);
    if k < before.len() {
        lemma_kept(answers.drop_last(), filter, k)
    } else {
        let i = lemma_passing(answers.last().data@, filter, k - before.len());
        (answers.len() - 1, i)
    }
}

/// What a read of the past answers are readings that came back and pass the filter, at most as many
/// as asked for, a thousand if nothing is. It fails exactly if the server refused, or an answer tells
/// of failure.
pub proof fn law_history_answers_what_was_kept(
    s: &OpcUaMcpServer,
    tag_id: &str,
    units: &str,
    filter: &Option<String>,
    max_points: Option<u32>,
    reply: Reply<HistoryReading>,
    r: Result<Vec<Vqt>, AdapterError>,
)
    requires
        call_ensures(
            OpcUaMcpServer::read_tag_history,
            (s, tag_id, units, filter, max_points, reply),
            r,
        ),
    ensures
        r is Ok <==> reply is Ok && forall|a: int|
            0 <= a < reply->Ok_0@.len() ==> (#[trigger] reply->Ok_0@[a]).status < 0x8000_0000,
        r matches Err(e) ==> e.code == ErrorCode::HistoryUnavailable && e.tag_id is Some
            && e.tag_id->0@ == tag_id@,
        r matches Ok(vqts) ==> {
            &&& max_points matches Some(n) ==> vqts@.len() <= n
            &&& max_points is None ==> vqts@.len() <= 1000
            &&& forall|k: int|
                0 <= k < vqts@.len() ==> tells_of_kept(
                    reply->Ok_0@,
                    *filter,
                    tag_id@,
                    units@,
                    #[trigger] vqts@[k],
                )
        },
{
    if let Ok(answers) = reply {
        assert(server::none_bad(answers@) <==> forall|a: int|
            0 <= a < answers@.len() ==> (#[trigger] answers@[a]).status < 0x8000_0000);
        if let Ok(vqts) = r {
            let f = envelope::opt_text(*filter);
            let all = server::kept(answers@, f);
            let shown = server::limited(all, server::point_limit(max_points));
            assert forall|k: int| 0 <= k < vqts@.len() implies tells_of_kept(
                answers@,
                *filter,
                tag_id@,
                units@,
                #[trigger] vqts@[k],
            ) by {
                assert(shown[k] == all[k]);
                let (a, i) = lemma_kept(answers@, *filter, k);
                lemma_envelope_tells(tag_id@, units@, all[k], vqts@[k]);
                assert(filter_lets_pass(*filter, answers@[a].data@[i]));
            }
        }
    }
}

/// A read of the past that gets one answer, of which everything passes the filter, answers its
/// readings in their order from the first on, as many as asked for.
pub proof fn law_history_answers_in_order(
    s: &OpcUaMcpServer,
    tag_id: &str,
    units: &str,
    filter: &Option<String>,
    max_points: Option<u32>,
    answers: Vec<HistoryReading>,
    r: Result<Vec<Vqt>, AdapterError>,
)
    requires
        answers@.len() == 1,
        answers@[0].status < 0x8000_0000,
        forall|i: int|
            0 <= i < answers@[0].data@.len() ==> filter_lets_pass(
                *filter,
                #[trigger] answers@[0].data@[i],
            ),
        call_ensures(
            OpcUaMcpServer::read_tag_history,
            (s, tag_id, units, filter, max_points, Ok::<Vec<HistoryReading>, u32>(answers)),
            r,
        ),
    ensures
        r is Ok,
        ({
            let found = answers@[0].data@;
            let most: nat = match max_points {
                Some(n) => n as nat,
                None => 1000,
            };
            &&& r->Ok_0@.len() == if found.len() <= most {
                found.len()
            } else {
                most
            }
            &&& forall|i: int|
                0 <= i < r->Ok_0@.len() ==> envelope_tells(
                    tag_id@,
                    units@,
                    found[i],
                    #[trigger] r->Ok_0@[i],
                )
        }),
{
    let f = envelope::opt_text(*filter);
    let found = answers@[0].data@;
    assert(server::none_bad(answers@));
    lemma_all_pass(found, *filter);
    reveal_with_fuel(server::kept, 2);
    assert(answers@.drop_last().len() == 0);
    assert(answers@.last() == answers@[0]);
    let all = server::kept(answers@, f);
    assert(all == found);
    let shown = server::limited(all, server::point_limit(max_points));
    let vqts = r->Ok_0@;
    assert forall|i: int| 0 <= i < vqts.len() implies envelope_tells(
        tag_id@,
        units@,
        found[i],
        #[trigger] vqts[i],
    ) by {
        assert(shown[i] == found[i]);
        lemma_envelope_tells(tag_id@, units@, found[i], vqts[i]);
    }
}

/// The readings kept of several answers are those kept of the answers before the last one, and then
/// those of the last one that pass; and of the readings of one answer, those kept of the readings
/// before the last one, and then the last one if it passes.
pub proof fn law_history_keeps_what_passes(
    answers: Seq<HistoryReading>,
    readings: Seq<DataReading>,
    filter: Option<String>,
)
    ensures
        answers.len() == 0 ==> server::kept(answers, envelope::opt_text(filter)).len() == 0,
        answers.len() > 0 ==> server::kept(answers, envelope::opt_text(filter)) == server::kept(
            answers.drop_last(),
            envelope::opt_text(filter),
        ) + server::passing(answers.last().data@, envelope::opt_text(filter)),
        readings.len() == 0 ==> server::passing(readings, envelope::opt_text(filter)).len() == 0,
        readings.len() > 0 ==> server::passing(readings, envelope::opt_text(filter))
            == if filter_lets_pass(filter, readings.last()) {
            server::passing(readings.drop_last(), envelope::opt_text(filter)).push(readings.last())
        } else {
            server::passing(readings.drop_last(), envelope::opt_text(filter))
        },
{
    reveal(Seq::filter);
    lemma_quality_names();
}

/// A read of the past asks for the values of the node that the tag names, as recorded, between the
/// two times given, and at most as many as asked for; a thousand if nothing is.
pub proof fn law_history_request(
    s: &OpcUaMcpServer,
    tag_id: &str,
    start_time: &str,
    end_time: &str,
    max_points: Option<u32>,
    r: Result<(HistoryRequest, String), AdapterError>,
)
    requires
        call_ensures(
            OpcUaMcpServer::read_tag_history_request,
            (s, tag_id, start_time, end_time, max_points),
            r,
        ),
    ensures
        r is Ok <==> s.inner is Some && nodes::node_id_of(tag_id@) is Some && connection::ticks_of(
            start_time@,
        ) is Some && connection::ticks_of(end_time@) is Some,
        r matches Ok((q, units)) ==> {
            &&& q.node.node_id@ == nodes::node_id_of(tag_id@)->0
            &&& q.details.start_time == connection::ticks_of(start_time@)->0
            &&& q.details.end_time == connection::ticks_of(end_time@)->0
            &&& q.details.num_values_per_node == match max_points {
                Some(n) => n,
                None => 1000,
            }
            &&& !q.details.is_read_modified
            &&& !q.details.return_bounds
            &&& units@ == topology::units_of(s.link()->0.topology.tags, tag_id@)
        },
        r matches Err(e) ==> {
            &&& e.tag_id is Some && e.tag_id->0@ == tag_id@
            &&& e.code == if s.inner is None {
                ErrorCode::ConnectionError
            } else if nodes::node_id_of(tag_id@) is None {
                ErrorCode::TagNotFound
            } else {
                ErrorCode::InvalidValue
            }
        },
{
}

/// What a write sends is what the request asks for: to the node that the tag names, the value of the
/// document, which a permission for the tag allows, as a double or a boolean; and with exactly the
/// configured units, where any are configured.
pub proof fn law_write_request(
    s: &OpcUaMcpServer,
    req: &WriteRequest,
    q: OpcWriteValue,
    value: WriteValue,
)
    requires
        call_ensures(
            OpcUaMcpServer::write_tag_request,
            (s, req),
            Ok::<(OpcWriteValue, WriteValue), AdapterError>((q, value)),
        ),
    ensures
        s.inner is Some,
        s.link()->0.topology.write_permissions.contains_key(req.tag_id@),
        ({
            let perm = s.link()->0.topology.write_permissions[req.tag_id@];
            &&& perm.units matches Some(u) ==> u.len() == 0 || u == req.units@
            &&& value matches WriteValue::Float(f) ==> {
                &&& perm.min matches Some(l) ==> l.at.nan() || f.nan() || l.at.value() <= f.value()
                &&& perm.max matches Some(l) ==> l.at.nan() || f.nan() || f.value() <= l.at.value()
            }
        }),
        laws::is_document(req.value, value),
        nodes::node_id_of(req.tag_id@) == Some(q.node_id@),
        q.attribute_id == 13,
        value matches WriteValue::Float(f) ==> q.value == Variant::Double(f),
        value matches WriteValue::Bool(b) ==> q.value == Variant::Boolean(b),
{
    laws::lemma_document(req.value, value);
}

/// What is refused is refused for a reason: there is no session, no permission names the tag, the
/// value is not one that is permitted, or the tag names no node. A value that is permitted is not
/// refused if its tag names a node.
pub proof fn law_refused_writes(s: &OpcUaMcpServer, req: &WriteRequest, e: AdapterError)
    requires
        call_ensures(
            OpcUaMcpServer::write_tag_request,
            (s, req),
            Err::<(OpcWriteValue, WriteValue), AdapterError>(e),
        ),
    ensures
        e.tag_id is Some && e.tag_id->0@ == req.tag_id@,
        s.inner is None ==> e.code == ErrorCode::ConnectionError,
        s.inner is Some && !s.link()->0.topology.write_permissions.contains_key(req.tag_id@)
            ==> e.code == ErrorCode::TagNotWritable,
        s.inner is Some && s.link()->0.topology.write_permissions.contains_key(req.tag_id@) ==> {
            let perm = s.link()->0.topology.write_permissions[req.tag_id@];
            let units_differ = perm.units matches Some(u) && u.len() > 0 && u != req.units@;
            let unknown = e.code == ErrorCode::TagNotFound && nodes::node_id_of(
                req.tag_id@,
            ) is None;
            &&& e.code == ErrorCode::InvalidValue || unknown
            &&& req.value is Bool ==> units_differ || unknown
            &&& req.value matches Json::Number(Number::Float(f)) ==> units_differ || unknown || (
            perm.min is Some && f.value() < perm.min->0.at.value()) || (perm.max is Some
                && perm.max->0.at.value() < f.value())
        },
{
}

/// A write that the server did not turn down is confirmed, with the quality of its status, and the
/// value, the units, the operator and the time of the write. One that it turned down, or that could
/// not be carried out, is not.
pub proof fn law_write_tag(
    s: &OpcUaMcpServer,
    req: WriteRequest,
    value: WriteValue,
    reply: Reply<u32>,
    timestamp: String,
    r: Result<Written, AdapterError>,
)
    requires
        call_ensures(OpcUaMcpServer::write_tag, (s, req, value, reply, timestamp), r),
    ensures
        r is Ok <==> reply is Ok && (reply->Ok_0@.len() == 0 || reply->Ok_0@[0] < 0x8000_0000),
        r matches Ok(w) ==> {
            &&& w.confirmation.tag_id@ == req.tag_id@
            &&& w.confirmation.value_written == value
            &&& w.confirmation.quality == quality_by_bits(
                if reply->Ok_0@.len() > 0 {
                    Some(reply->Ok_0@[0])
                } else {
                    None
                },
            )
            &&& w.confirmation.timestamp@ == timestamp@
            &&& w.confirmation.units@ == req.units@
            &&& w.confirmation.operator_id@ == req.operator_id@
            &&& w.audit.tag_id@ == req.tag_id@
            &&& w.audit.value@ == req.value@
            &&& w.audit.units@ == req.units@
            &&& w.audit.operator_id@ == req.operator_id@
            &&& w.audit.reason@ == req.reason@
        },
        r matches Err(e) ==> {
            &&& e.tag_id is Some && e.tag_id->0@ == req.tag_id@
            &&& reply is Err ==> e.code == ErrorCode::ConnectionError
            &&& reply matches Ok(codes) ==> {
                &&& codes@[0] == 0x8034_0000u32 ==> e.code == ErrorCode::TagNotFound
                &&& codes@[0] == 0x803b_0000u32 ==> e.code == ErrorCode::TagNotWritable
                &&& codes@[0] == 0x801f_0000u32 ==> e.code == ErrorCode::PermissionDenied
                &&& codes@[0] == 0x8074_0000u32 || codes@[0] == 0x803c_0000u32 ==> e.code
                    == ErrorCode::InvalidValue
                &&& codes@[0] == 0x800a_0000u32 ==> e.code == ErrorCode::Timeout
                &&& e.code == ErrorCode::ConnectionError <==> !(seq![
                    0x8034_0000u32,
                    0x803b_0000u32,
                    0x8073_0000u32,
                    0x801f_0000u32,
                    0x8074_0000u32,
                    0x803c_0000u32,
                    0x800a_0000u32,
                ].contains(codes@[0]))
            }
        },
{
}

/// The settings of a session are those that are asked for. The endpoint is the host itself if that is
/// a URL, and else made of host and port. A mode that is not known is none. Without message security
/// any certificate is accepted and the client has none of its own, and only then.
pub proof fn law_session_settings(
    host: &str,
    port: Option<u16>,
    timeout_ms: Option<u32>,
    options: &Option<Json>,
    c: SessionSettings,
)
    requires
        call_ensures(server::session_settings, (host, port, timeout_ms, options), c),
    ensures
        "opc.tcp://"@.is_prefix_of(host@) ==> c.endpoint_url@ == host@,
        !"opc.tcp://"@.is_prefix_of(host@) ==> c.endpoint_url@ == "opc.tcp://"@ + (host@ + ":"@
            + text::decimal_text(
            match port {
                Some(p) => p as nat,
                None => 4840,
            },
        )),
        match laws::option_named(*options, "security_mode"@) {
            Some(JsonView::Text(m)) => {
                &&& c.security_mode is Sign <==> m == "Sign"@
                &&& c.security_mode is SignAndEncrypt <==> m == "SignAndEncrypt"@
            },
            _ => c.security_mode is Unsecured,
        },
        match laws::option_named(*options, "security_policy"@) {
            Some(JsonView::Text(p)) => c.security_policy@ == p,
            _ => c.security_policy@ == "None"@,
        },
        match laws::option_named(*options, "username"@) {
            Some(JsonView::Text(u)) => c.identity matches Identity::UserName { user, password }
                && user@ == u && match laws::option_named(*options, "password"@) {
                Some(JsonView::Text(p)) => password@ == p,
                _ => password@.len() == 0,
            },
            _ => c.identity is Anonymous,
        },
        timeout_ms matches Some(ms) ==> c.timeout_ms == ms,
        timeout_ms is None ==> c.timeout_ms == 10000,
        c.trust_server_certs <==> c.security_mode is Unsecured,
        c.create_sample_keypair <==> !(c.security_mode is Unsecured),
{
    reveal_strlit("Sign");
    reveal_strlit("SignAndEncrypt");
    assert("Sign"@.len() == 4);
    assert("SignAndEncrypt"@.len() == 14);
}

/// A connect that got a session leaves one with the endpoint that was asked for, and answers with it.
/// One that did not leaves none, and is a timeout if that was the reason.
pub proof fn law_connect(
    s: &mut OpcUaMcpServer,
    endpoint_url: String,
    attempt: ConnectAttempt,
    tried: Vec<Option<TopologyConfig>>,
    timestamp: String,
    r: Result<ConnectResponse, AdapterError>,
)
    requires
        call_ensures(OpcUaMcpServer::connect, (s, endpoint_url, attempt, tried, timestamp), r),
    ensures
        r is Ok <==> attempt is Connected,
        r matches Ok(c) ==> {
            &&& c.connected
            &&& c.server_name@ == endpoint_url@
            &&& c.timestamp@ == timestamp@
            &&& final(s).link() matches Some(l) && {
                &&& l.endpoint_url == endpoint_url@
                &&& l.server_name == endpoint_url@
                &&& l.protocol_version == c.protocol_version@
                &&& l.topology == topology::first_loaded(tried@)
            }
        },
        r matches Err(e) ==> {
            &&& final(s).link() is None
            &&& e.tag_id is None
            &&& e.code == if attempt is TimedOut {
                ErrorCode::Timeout
            } else {
                ErrorCode::ConnectionError
            }
        },
{
}

/// A disconnect drops the session, if there is one.
pub proof fn law_disconnect(s: &mut OpcUaMcpServer, timestamp: String, d: DisconnectResponse)
    requires
        call_ensures(OpcUaMcpServer::disconnect, (s, timestamp), d),
    ensures
        final(s).link() is None,
        d.disconnected,
        d.timestamp@ == timestamp@,
{
}

/// The adapter reports itself connected exactly if it has a session, and then with which server and
/// for how long.
pub proof fn law_server_info(s: &OpcUaMcpServer, uptime_seconds: u64, info: ServerInfoResponse)
    requires
        call_ensures(OpcUaMcpServer::get_server_info, (s, uptime_seconds), info),
    ensures
        info.connected <==> s.link() is Some,
        s.link() matches Some(c) ==> {
            &&& info.server_name@ == c.server_name
            &&& info.protocol_version@ == c.protocol_version
            &&& info.uptime_seconds == uptime_seconds
            &&& info.connection_state@ == "connected"@
        },
        s.link() is None ==> {
            &&& info.uptime_seconds == 0
            &&& info.connection_state@ == "disconnected"@
        },
        info.capabilities@.len() == 9,
{
    assert(text::texts(info.capabilities@).len() == 9);
}

/// Discovery lists the configured tags that are asked for.
pub proof fn law_discover_tags(
    s: &OpcUaMcpServer,
    config: &TopologyConfig,
    process_area: &Option<String>,
    equipment_id: &Option<String>,
    r: Result<Vec<TagDescriptor>, AdapterError>,
    found: Vec<TagDescriptor>,
)
    requires
        call_ensures(OpcUaMcpServer::discover_tags, (s, process_area, equipment_id), r),
        call_ensures(topology::discover_tags, (config, process_area, equipment_id), found),
        s.inner is Some ==> s.link()->0.topology == config@,
    ensures
        s.inner is None ==> r is Err && r->Err_0.code == ErrorCode::ConnectionError,
        s.inner is Some ==> r is Ok && envelope::views(r->Ok_0@) == envelope::views(found@),
{
}

/// What is spelled as a node is that node; what is read as no node names none.
pub proof fn law_node_identifiers(
    text: &str,
    n: NodeIdView,
    r: Result<NodeId, AdapterError>,
)
    requires
        call_ensures(nodes::parse_node_id, (text,), r),
    ensures
        r is Ok <==> nodes::node_id_of(text@) is Some,
        r matches Ok(got) ==> nodes::node_id_of(text@) == Some(got@),
        r matches Err(e) ==> e.code == ErrorCode::TagNotFound && e.tag_id is Some && e.tag_id->0@
            == text@,
        n.identifier matches nodes::IdentifierView::Numeric(i) && text@ == "ns="@
            + text::decimal_text(n.namespace as nat) + ";"@ + "i="@ + text::decimal_text(i as nat)
            ==> r is Ok && r->Ok_0@ == n,
        n.identifier matches nodes::IdentifierView::Text(Some(t)) && t.len() > 0 && !t.contains(
            '\n',
        ) && text@ == "ns="@ + text::decimal_text(n.namespace as nat) + ";"@ + "s="@ + t ==> r is Ok
            && r->Ok_0@ == n,
{
    assert(nodes::spelling(n, true) == text@ && nodes::spellable(n) ==> r is Ok && r->Ok_0@ == n);
}

/// A walk that is over hands out the tree that it came to, how many nodes it counted, and whether
/// that is as many as a tree can hold.
pub proof fn law_finished_walks(w: TreeBrowse, answers: Server, r: NodeTree)
    requires
        call_ensures(TreeBrowse::finish, (w,), r),
    ensures
        r.tree@ == JsonView::Object(tree::outcome(answers, w@).children),
        r.node_count == tree::outcome(answers, w@).count,
        r.truncated <==> r.node_count >= 1000,
{
}

/// The value of a read that a walk asks for is that of the first reading, if it has one.
pub proof fn law_first_value(reply: Result<Vec<DataReading>, u32>, r: Option<TagValue>)
    requires
        call_ensures(tree::first_value, (reply,), r),
    ensures
        r is Some <==> reply is Ok && reply->Ok_0@.len() > 0 && reply->Ok_0@[0].value is Some,
        r matches Some(v) ==> connection::shows(reply->Ok_0@[0].value->0, v@),
{
}

/// A walk asks about the node that it is at: what it refers to, or its value.
pub proof fn law_pending_requests(w: &TreeBrowse, r: Option<TreeRequest<'_>>)
    requires
        call_ensures(TreeBrowse::pending, (w,), r),
    ensures
        w.step matches Step::Browse { node, .. } ==> r matches Some(TreeRequest::Browse(n)) && n@
            == node@,
        w.step matches Step::Read { node } ==> r matches Some(TreeRequest::Read(n)) && n@ == node@,
        w.step is Done ==> r is None,
{
}

/// A browse asks about the first node in its queue that it has not asked about, as long as there is
/// one and the list is not full.
pub proof fn law_pending_browses(b: &FlatBrowse, r: Option<&NodeId>)
    requires
        call_ensures(FlatBrowse::pending, (b,), r),
    ensures
        r is Some <==> b@.next < b@.queue.len() && b@.results.len() < 1000,
        r matches Some(n) ==> n@ == b@.queue[b@.next as int].0,
{
}

/// What a walk takes in counts as the answer to its request: with a server that answers so, it comes
/// to what it would have come to.
pub proof fn law_walks_take_answers_in(
    w: &mut TreeBrowse,
    refs: Option<Vec<Reference>>,
    answers: Server,
)
    requires
        old(w)@.step is Browse,
        call_ensures(TreeBrowse::browsed, (w, refs), ()),
        (answers.browse)(old(w)@.asked, old(w)@.step->Browse_node) == (match refs {
            Some(v) => Some(envelope::views(v@)),
            None => None,
        }),
    ensures
        tree::outcome(answers, final(w)@) == tree::outcome(answers, old(w)@),
        final(w)@.asked == old(w)@.asked + 1,
{
}

/// What a walk takes in counts as the answer to its request: with a server that answers so, it comes
/// to what it would have come to.
pub proof fn law_walks_take_values_in(
    w: &mut TreeBrowse,
    value: Option<TagValue>,
    answers: Server,
)
    requires
        old(w)@.step is Read,
        call_ensures(TreeBrowse::value_read, (w, value), ()),
        (answers.read)(old(w)@.asked, old(w)@.step->Read_node) == (match value {
            Some(v) => Some(v@),
            None => None,
        }),
    ensures
        tree::outcome(answers, final(w)@) == tree::outcome(answers, old(w)@),
        final(w)@.asked == old(w)@.asked + 1,
{
}

/// Data of the past that came back is taken as it is; where none did, there is none.
pub proof fn law_history_data(data: Option<Vec<DataReading>>, r: Vec<DataReading>)
    requires
        call_ensures(connection::extract_history_data, (data,), r),
    ensures
        data matches Some(d) ==> r@ == d@,
        data is None ==> r@.len() == 0,
{
}

/// A browse of one level lists what the start refers to, in its order, and at most a thousand nodes.
pub proof fn law_browse_of_one_level(answers: Answers, start: NodeIdView, i: int)
    requires
        0 <= i < answers(0, start).len(),
        i < 1000,
    ensures
        ({
            let end = browse::flat_end(answers, browse::flat_start(start, 1));
            let found = answers(0, start).len();
            &&& end.results.len() == if found <= 1000 {
                found
            } else {
                1000
            }
            &&& entry_shows(answers(0, start)[i], end.results[i])
        }),
{
    let s = browse::flat_start(start, 1);
    let end = browse::flat_end(answers, s);
    browse::law_browse_lists_level_by_level(answers, start, 1);
    lemma_flat_depth(answers, s);
    let found = browse::all_below(answers, end.queue, end.next, 1);
    lemma_nothing_below(answers, end.queue, end.next);
    assert(end.queue.len() <= 1);
    assert(end.next <= 1);
    assert(!browse::flat_done(s));
    lemma_flat_moves_on(answers, s);
    assert(end.next == 1);
    assert(end.queue[0] == (start, 0nat)) by {
        let all = seq![(start, 0nat)] + found;
        assert(end.queue == all.take(end.queue.len() as int));
    }
    assert(answered_by(answers, end.queue, 0) == 0);
    assert(answered_by(answers, end.queue, 1) == answers(0, start).len()) by {
        reveal_with_fuel(answered_by, 2);
    }
    law_browse_lists_every_reference(answers, start, 1, 0, i);
}

proof fn lemma_nothing_below(answers: Answers, queue: Seq<(NodeIdView, nat)>, n: nat)
    ensures
        browse::all_below(answers, queue, n, 1).len() == 0,
    decreases n,
{
    if n > 0 {
        lemma_nothing_below(answers, queue, (n - 1) as nat);
    }
}

proof fn lemma_flat_moves_on(answers: Answers, s: FlatView)
    ensures
        browse::flat_end(answers, s).next >= s.next,
        !browse::flat_done(s) && s.next <= 1000 ==> browse::flat_end(answers, s).next > s.next,
    decreases 1001 - s.next,
{
    if !browse::flat_done(s) && s.next <= 1000 {
        let refs = answers(s.next, s.queue[s.next as int].0);
        lemma_listing_depth(
            FlatView { next: s.next + 1, ..s },
            s.queue[s.next as int].1,
            refs,
        );
        lemma_flat_moves_on(answers, browse::advanced(s, refs));
    }
}

/// Whether a reference is the last one of its name.
pub open spec fn last_of_name(refs: Seq<ReferenceView>, i: int) -> bool {
    &&& 0 <= i < refs.len()
    &&& forall|j: int|
        i < j < refs.len() ==> (#[trigger] refs[j]).display_name != refs[i].display_name
}

proof fn lemma_tree_finite(
    server: Server,
    node: NodeIdView,
    depth: nat,
    include_values: bool,
    count: nat,
    asked: nat,
)
    ensures
        ({
            let w = tree::tree(server, node, depth, include_values, count, asked);
            &&& w.children.dom().finite()
            &&& w.count >= count
            &&& w.asked >= asked
        }),
    decreases depth, 1nat, 0nat,
{
    if count < 1000 && depth > 0 {
        if let Some(refs) = (server.browse)(asked, node) {
            lemma_last_siblings(
                server,
                refs,
                depth,
                include_values,
                Map::empty(),
                count,
                asked + 1,
            );
        }
    }
}

proof fn lemma_last_siblings(
    server: Server,
    refs: Seq<ReferenceView>,
    depth: nat,
    include_values: bool,
    children: Members,
    count: nat,
    asked: nat,
)
    requires
        children.dom().finite(),
        depth > 0,
    ensures
        ({
            let w = tree::siblings(server, refs, depth, include_values, children, count, asked);
            &&& w.children.dom().finite()
            &&& w.count >= count
            &&& w.asked >= asked
            &&& forall|name: Seq<char>|
                (forall|i: int| 0 <= i < refs.len() ==> (#[trigger] refs[i]).display_name != name)
                    ==> (#[trigger] w.children.contains_key(name) <==> children.contains_key(name))
                    && w.children[name] == children[name]
            &&& w.count < 1000 ==> forall|i: int| #[trigger]
                last_of_name(refs, i) ==> w.children.contains_key(refs[i].display_name)
                    && tells_of_walk(
                    server,
                    refs[i],
                    (depth - 1) as nat,
                    include_values,
                    w,
                    w.children[refs[i].display_name],
                )
        }),
    decreases depth, 0nat, refs.len(),
{
    if refs.len() > 0 && count < 1000 {
        let r = refs[0];
        let rest = refs.drop_first();
        let below = (depth - 1) as nat;
        let (value, after) = if tree::wants_value(r, include_values) {
            ((server.read)(asked, r.node_id), asked + 1)
        } else {
            (None, asked)
        };
        let sub = tree::tree(server, r.node_id, below, include_values, count + 1, after);
        let entry = JsonView::Object(tree::tree_entry(r, value, sub.children));
        let more = children.insert(r.display_name, entry);
        lemma_tree_finite(server, r.node_id, below, include_values, count + 1, after);
        if tree::wants_value(r, include_values) {
            lemma_entry_tells(server, r, include_values, sub.children, asked);
        } else {
            lemma_entry_tells(server, r, include_values, sub.children, (after - 1) as nat);
        }
        lemma_last_siblings(
            server,
            rest,
            depth,
            include_values,
            more,
            sub.count,
            sub.asked,
        );
        let w = tree::siblings(server, refs, depth, include_values, children, count, asked);
        assert(w == tree::siblings(
            server,
            rest,
            depth,
            include_values,
            more,
            sub.count,
            sub.asked,
        ));
        assert(tells_of_walk(server, r, below, include_values, w, entry));
        assert forall|name: Seq<char>|
            (forall|i: int| 0 <= i < refs.len() ==> (#[trigger] refs[i]).display_name
                != name) implies (#[trigger] w.children.contains_key(name)
            <==> children.contains_key(name)) && w.children[name] == children[name] by {
            assert(refs[0].display_name != name);
            assert forall|i: int| 0 <= i < rest.len() implies (#[trigger] rest[i]).display_name
                != name by {
                assert(rest[i] == refs[i + 1]);
            }
        }
        if w.count < 1000 {
            assert forall|i: int| #[trigger] last_of_name(refs, i) implies w.children.contains_key(
                refs[i].display_name,
            ) && tells_of_walk(
                server,
                refs[i],
                below,
                include_values,
                w,
                w.children[refs[i].display_name],
            ) by {
                if i > 0 {
                    assert(rest[i - 1] == refs[i]);
                    assert forall|j: int| i - 1 < j < rest.len() implies (
                    #[trigger] rest[j]).display_name != rest[i - 1].display_name by {
                        assert(rest[j] == refs[j + 1]);
                    }
                    assert(last_of_name(rest, i - 1));
                } else {
                    assert forall|j: int| 0 <= j < rest.len() implies (
                    #[trigger] rest[j]).display_name != r.display_name by {
                        assert(rest[j] == refs[j + 1]);
                    }
                    assert(more.contains_key(r.display_name));
                    assert(w.children.contains_key(r.display_name));
                    assert(w.children[r.display_name] == entry);
                }
            }
        }
    } else if refs.len() == 0 {
        assert forall|i: int| !(#[trigger] last_of_name(refs, i)) by {}
    }
}

/// Of nodes that a level shows by one name, the last one stands in the tree, unless the tree is full.
pub proof fn law_later_nodes_of_a_name_stay(
    server: Server,
    node: NodeIdView,
    depth: nat,
    include_values: bool,
    count: nat,
    asked: nat,
    i: int,
)
    requires
        depth > 0,
        (server.browse)(asked, node) is Some,
        last_of_name((server.browse)(asked, node)->0, i),
        tree::tree(server, node, depth, include_values, count, asked).count < 1000,
        count < 1000,
    ensures
        ({
            let w = tree::tree(server, node, depth, include_values, count, asked);
            let r = (server.browse)(asked, node)->0[i];
            &&& w.children.contains_key(r.display_name)
            &&& tells_of_walk(
                server,
                r,
                (depth - 1) as nat,
                include_values,
                w,
                w.children[r.display_name],
            )
        }),
{
    lemma_last_siblings(
        server,
        (server.browse)(asked, node)->0,
        depth,
        include_values,
        Map::empty(),
        count,
        asked + 1,
    );
}

/// What an operator is told of a refused read does not depend on the status, nor on the tag.
pub proof fn law_refusals_are_told_alike(
    s: &OpcUaMcpServer,
    tag_a: &str,
    tag_b: &str,
    units: &str,
    status_a: u32,
    status_b: u32,
    x: AdapterError,
    y: AdapterError,
)
    requires
        call_ensures(
            OpcUaMcpServer::read_tag,
            (s, tag_a, units, Err::<Vec<DataReading>, u32>(status_a)),
            Err::<Vqt, AdapterError>(x),
        ),
        call_ensures(
            OpcUaMcpServer::read_tag,
            (s, tag_b, units, Err::<Vec<DataReading>, u32>(status_b)),
            Err::<Vqt, AdapterError>(y),
        ),
    ensures
        x.message@ == y.message@,
{
}

} // verus!
