//! Browsing an address space: level by level into a list.
use crate::envelope;
use crate::envelope::{AdapterError, AdapterErrorView, ErrorCode};
use crate::opcua::nodes;
use crate::opcua::nodes::{NodeId, NodeIdView};
use vstd::prelude::*;

verus! {

/// The most nodes that one browse lists.
pub const NODE_CAP: usize = 1000;

/// What a server is asked to list: the nodes that a node refers to.
#[derive(Debug)]
pub struct BrowseRequest {
    pub node_id: NodeId,
    /// The references to follow, with their subtypes.
    pub reference_type: NodeId,
    pub include_subtypes: bool,
    pub node_class_mask: u32,
    pub result_mask: u32,
    pub max_references: u32,
}

/// Asks for the nodes that a node refers to along the hierarchy.
pub fn browse_request(node_id: &NodeId) -> (r: BrowseRequest)
    ensures
        r.node_id@ == node_id@,
        r.reference_type@ == nodes::numbered(0, 33),
        r.include_subtypes,
        r.node_class_mask == 0,
        r.result_mask == 0x3f,
        r.max_references == 500,
{
    BrowseRequest {
        node_id: node_id.copy(),
        reference_type: NodeId::numeric(0, 33),
        include_subtypes: true,
        node_class_mask: 0,
        result_mask: 0x3f,
        max_references: 500,
    }
}

/// A node that another one refers to.
#[derive(Debug)]
pub struct Reference {
    pub node_id: NodeId,
    pub browse_name: String,
    pub display_name: String,
    pub node_class: String,
    /// Whether the node has a value.
    pub is_variable: bool,
}

/// The model of a [`Reference`].
pub struct ReferenceView {
    pub node_id: NodeIdView,
    pub browse_name: Seq<char>,
    pub display_name: Seq<char>,
    pub node_class: Seq<char>,
    pub is_variable: bool,
}

impl View for Reference {
    type V = ReferenceView;

    open spec fn view(&self) -> ReferenceView {
        ReferenceView {
            node_id: self.node_id@,
            browse_name: self.browse_name@,
            display_name: self.display_name@,
            node_class: self.node_class@,
            is_variable: self.is_variable,
        }
    }
}

/// A node that a browse lists.
#[derive(Debug)]
pub struct BrowseEntry {
    pub node_id: String,
    pub browse_name: String,
    pub display_name: String,
    pub node_class: String,
}

/// The model of a [`BrowseEntry`].
pub struct BrowseEntryView {
    pub node_id: Seq<char>,
    pub browse_name: Seq<char>,
    pub display_name: Seq<char>,
    pub node_class: Seq<char>,
}

impl View for BrowseEntry {
    type V = BrowseEntryView;

    open spec fn view(&self) -> BrowseEntryView {
        BrowseEntryView {
            node_id: self.node_id@,
            browse_name: self.browse_name@,
            display_name: self.display_name@,
            node_class: self.node_class@,
        }
    }
}

/// What a browse lists of a reference.
pub open spec fn entry_of(r: ReferenceView) -> BrowseEntryView {
    BrowseEntryView {
        node_id: nodes::node_text_of(r.node_id),
        browse_name: r.browse_name,
        display_name: r.display_name,
        node_class: r.node_class,
    }
}

fn make_entry(r: &Reference) -> (e: BrowseEntry)
    ensures
        e@ == entry_of(r@),
        nodes::spellable(r@.node_id) ==> e@.node_id == nodes::spelling(
            r@.node_id,
            r@.node_id.namespace != 0,
        ),
{
    BrowseEntry {
        node_id: nodes::node_text(&r.node_id),
        browse_name: r.browse_name.clone(),
        display_name: r.display_name.clone(),
        node_class: r.node_class.clone(),
    }
}

/// A browse level by level: the nodes found so far with their depth, how many of them have been
/// browsed, and what has been listed.
#[derive(Debug)]
pub struct FlatBrowse {
    pub max_depth: u32,
    pub queue: Vec<(NodeId, u32)>,
    pub next: usize,
    pub results: Vec<BrowseEntry>,
}

/// The model of a [`FlatBrowse`].
#[verifier::ext_equal]
pub struct FlatView {
    pub max_depth: nat,
    pub queue: Seq<(NodeIdView, nat)>,
    pub next: nat,
    pub results: Seq<BrowseEntryView>,
}

/// Nodes with their depth by the model.
pub open spec fn queue_view(queue: Seq<(NodeId, u32)>) -> Seq<(NodeIdView, nat)> {
    queue.map_values(|q: (NodeId, u32)| (q.0@, q.1 as nat))
}

impl View for FlatBrowse {
    type V = FlatView;

    open spec fn view(&self) -> FlatView {
        FlatView {
            max_depth: self.max_depth as nat,
            queue: queue_view(self.queue@),
            next: self.next as nat,
            results: envelope::views(self.results@),
        }
    }
}

/// A browse that lists the references of a node at a given depth one by one, as long as there is
/// room. What is found above the deepest level is to be browsed itself.
pub open spec fn listing(s: FlatView, depth: nat, refs: Seq<ReferenceView>) -> FlatView
    decreases refs.len(),
{
    if refs.len() == 0 || s.results.len() >= NODE_CAP {
        s
    } else {
        let results = s.results.push(entry_of(refs[0]));
        let queue = if depth + 1 < s.max_depth && results.len() < NODE_CAP {
            s.queue.push((refs[0].node_id, depth + 1))
        } else {
            s.queue
        };
        listing(FlatView { results, queue, ..s }, depth, refs.drop_first())
    }
}

/// A browse after the answer for the node it is at.
pub open spec fn advanced(s: FlatView, refs: Seq<ReferenceView>) -> FlatView {
    listing(FlatView { next: s.next + 1, ..s }, s.queue[s.next as int].1, refs)
}

/// Whether a browse is over: every node found has been browsed, or the list is full.
pub open spec fn flat_done(s: FlatView) -> bool {
    s.next >= s.queue.len() || s.results.len() >= NODE_CAP
}

/// What holds of every browse: the list is within its bound, what is to be browsed was listed before
/// or is the start, and lies above the deepest level.
pub open spec fn flat_wf(s: FlatView) -> bool {
    &&& s.results.len() <= NODE_CAP
    &&& s.next <= s.queue.len() <= s.results.len() + 1
    &&& forall|i: int|
        0 <= i < s.queue.len() ==> (#[trigger] s.queue[i]).1 == 0 || s.queue[i].1 < s.max_depth
}

proof fn lemma_listing_wf(s: FlatView, depth: nat, refs: Seq<ReferenceView>)
    requires
        flat_wf(s),
    ensures
        flat_wf(listing(s, depth, refs)),
        listing(s, depth, refs).next == s.next,
        listing(s, depth, refs).max_depth == s.max_depth,
    decreases refs.len(),
{
    if refs.len() > 0 && s.results.len() < NODE_CAP {
        let results = s.results.push(entry_of(refs[0]));
        let queue = if depth + 1 < s.max_depth && results.len() < NODE_CAP {
            s.queue.push((refs[0].node_id, depth + 1))
        } else {
            s.queue
        };
        lemma_listing_wf(FlatView { results, queue, ..s }, depth, refs.drop_first());
    }
}

/// The error on a browse that the server refused. Its status stays out of the message.
pub open spec fn browse_error() -> AdapterErrorView {
    envelope::plain_error(
        ErrorCode::ConnectionError,
        "The address space could not be browsed."@,
    )
}

impl FlatBrowse {
    /// Whether the parts of this browse fit together.
    pub open spec fn wf(self) -> bool {
        flat_wf(self@)
    }

    /// A browse from a node, this many levels deep.
    pub fn new(start: NodeId, max_depth: u32) -> (r: FlatBrowse)
        ensures
            r.wf(),
            r@ == flat_start(start@, max_depth as nat),
    {
        let mut queue: Vec<(NodeId, u32)> = Vec::new();
        queue.push((start, 0));
        let r = FlatBrowse { max_depth, queue, next: 0, results: Vec::new() };
        assert(r@ =~= flat_start(start@, max_depth as nat));
        r
    }

    /// The node to browse next; none if the browse is over.
    pub fn pending(&self) -> (r: Option<&NodeId>)
        ensures
            match r {
                Some(n) => !flat_done(self@) && n@ == self@.queue[self@.next as int].0,
                None => flat_done(self@),
            },
    {
        if self.next < self.queue.len() && self.results.len() < NODE_CAP {
            Some(&self.queue[self.next].0)
        } else {
            None
        }
    }

    /// Takes in the answer for the node that is pending: what it refers to, or the status with which
    /// the server refused.
    pub fn answer(&mut self, reply: Result<Vec<Reference>, u32>) -> (r: Result<(), AdapterError>)
        requires
            old(self).wf(),
            !flat_done(old(self)@),
        ensures
            final(self).wf(),
            match reply {
                Ok(refs) => r is Ok && final(self)@ == advanced(
                    old(self)@,
                    envelope::views(refs@),
                ),
                Err(_) => envelope::outcome(r) == Err::<(), AdapterErrorView>(
                    browse_error(),
                ) && final(self)@ == old(self)@,
            },
    {
        let refs: Vec<Reference> = match reply {
            Err(_) => {
                let m: String = "The address space could not be browsed.".to_owned();
                return Err(AdapterError::plain(ErrorCode::ConnectionError, m));
            },
            Ok(refs) => refs,
        };
        let ghost all = envelope::views(refs@);
        let ghost before = self@;
        let depth: u32 = self.queue[self.next].1;
        assert(before.queue[before.next as int].1 == depth);
        self.next = self.next + 1;
        let mut i: usize = 0;
        assert(all.skip(0) == all);
        assert(self@ =~= (FlatView { next: before.next + 1, ..before }));
        while i < refs.len() && self.results.len() < NODE_CAP
            invariant
                i <= refs.len(),
                all == envelope::views(refs@),
                flat_wf(self@),
                self.max_depth == before.max_depth,
                depth == 0 || depth < self.max_depth,
                listing(self@, depth as nat, all.skip(i as int)) == advanced(before, all),
            decreases refs.len() - i,
        {
            let ghost now = self@;
            let r: &Reference = &refs[i];
            proof {
                assert(all.skip(i as int)[0] == r@);
                assert(all.skip(i as int).drop_first() == all.skip(i + 1));
            }
            let entry: BrowseEntry = make_entry(r);
            let ghost listed = self.results@;
            self.results.push(entry);
            let ghost queued = self.queue@;
            if depth + 1 < self.max_depth && self.results.len() < NODE_CAP {
                self.queue.push((r.node_id.copy(), depth + 1));
            }
            proof {
                assert(envelope::views(self.results@) == envelope::views(listed).push(entry_of(r@)));
                assert(queue_view(queued.push(self.queue@.last())) == queue_view(queued).push(
                    (self.queue@.last().0@, self.queue@.last().1 as nat),
                ));
                assert(self@.results == now.results.push(entry_of(r@)));
                if depth + 1 < self.max_depth && self.results@.len() < NODE_CAP {
                    assert(self@.queue == now.queue.push((r@.node_id, (depth + 1) as nat)));
                } else {
                    assert(self@.queue == now.queue);
                }
                lemma_listing_wf(now, depth as nat, seq![r@]);
                assert(seq![r@].drop_first() == Seq::<ReferenceView>::empty());
                assert(listing(self@, depth as nat, Seq::empty()) == self@);
                assert(listing(now, depth as nat, seq![r@]) == self@);
            }
            i = i + 1;
        }
        Ok(())
    }

    /// What has been listed.
    pub fn entries(self) -> (r: Vec<BrowseEntry>)
        ensures
            envelope::views(r@) == self@.results,
    {
        self.results
    }
}

/// A browse that has not asked for anything yet.
pub open spec fn flat_start(start: NodeIdView, max_depth: nat) -> FlatView {
    FlatView { max_depth, queue: seq![(start, 0nat)], next: 0, results: Seq::empty() }
}

/// What a server answers to the requests of a browse: to the one with this number, for this node.
pub type Answers = spec_fn(nat, NodeIdView) -> Seq<ReferenceView>;

/// Listing the references of a node asks for nothing.
pub proof fn lemma_listing_next(s: FlatView, depth: nat, refs: Seq<ReferenceView>)
    ensures
        listing(s, depth, refs).next == s.next,
    decreases refs.len(),
{
    if refs.len() > 0 && s.results.len() < NODE_CAP {
        let results = s.results.push(entry_of(refs[0]));
        let queue = if depth + 1 < s.max_depth && results.len() < NODE_CAP {
            s.queue.push((refs[0].node_id, depth + 1))
        } else {
            s.queue
        };
        lemma_listing_next(FlatView { results, queue, ..s }, depth, refs.drop_first());
    }
}

/// A browse that ran to its end. No browse asks more often than the list has room.
pub open spec fn flat_end(answers: Answers, s: FlatView) -> FlatView
    decreases NODE_CAP + 1 - s.next,
{
    if flat_done(s) || s.next > NODE_CAP {
        s
    } else {
        let refs = answers(s.next, s.queue[s.next as int].0);
        proof {
            lemma_listing_next(
                FlatView { next: s.next + 1, ..s },
                s.queue[s.next as int].1,
                refs,
            );
        }
        flat_end(answers, advanced(s, refs))
    }
}

/// What a browse lists of references, in their order.
pub open spec fn entries_of(refs: Seq<ReferenceView>) -> Seq<BrowseEntryView> {
    refs.map_values(|r: ReferenceView| entry_of(r))
}

/// The nodes of references, one level below a depth; none if that is too deep.
pub open spec fn below(refs: Seq<ReferenceView>, depth: nat, max_depth: nat) -> Seq<
    (NodeIdView, nat),
> {
    if depth + 1 < max_depth {
        refs.map_values(|r: ReferenceView| (r.node_id, depth + 1))
    } else {
        Seq::empty()
    }
}

/// What the first `n` nodes of a queue refer to, in their order.
pub open spec fn all_entries(answers: Answers, queue: Seq<(NodeIdView, nat)>, n: nat) -> Seq<
    BrowseEntryView,
>
    decreases n,
{
    if n == 0 {
        Seq::empty()
    } else {
        all_entries(answers, queue, (n - 1) as nat) + entries_of(
            answers((n - 1) as nat, queue[n - 1].0),
        )
    }
}

/// The nodes to browse that the first `n` nodes of a queue refer to, in their order.
pub open spec fn all_below(
    answers: Answers,
    queue: Seq<(NodeIdView, nat)>,
    n: nat,
    max_depth: nat,
) -> Seq<(NodeIdView, nat)>
    decreases n,
{
    if n == 0 {
        Seq::empty()
    } else {
        all_below(answers, queue, (n - 1) as nat, max_depth) + below(
            answers((n - 1) as nat, queue[n - 1].0),
            queue[n - 1].1,
            max_depth,
        )
    }
}

/// Whether a browse has listed what the nodes it browsed refer to and nothing else, and has queued
/// those of them that are not too deep.
pub open spec fn level_order(answers: Answers, start: NodeIdView, s: FlatView) -> bool {
    &&& s.next <= s.queue.len()
    &&& s.results == all_entries(answers, s.queue, s.next)
    &&& s.queue == seq![(start, 0nat)] + all_below(answers, s.queue, s.next, s.max_depth)
}

/// Whether a browse that is perhaps full has listed, in their order, the first ones of what the nodes
/// it browsed refer to: all of them, or as many as there is room for. What it has queued are the
/// first ones of those that are not too deep.
pub open spec fn level_prefix(answers: Answers, start: NodeIdView, s: FlatView) -> bool {
    let entries = all_entries(answers, s.queue, s.next);
    let found = seq![(start, 0nat)] + all_below(answers, s.queue, s.next, s.max_depth);
    &&& s.next <= s.queue.len() <= found.len()
    &&& s.results == if entries.len() <= NODE_CAP {
        entries
    } else {
        entries.take(NODE_CAP as int)
    }
    &&& s.queue == found.take(s.queue.len() as int)
}

proof fn lemma_prefix_same(
    answers: Answers,
    queue: Seq<(NodeIdView, nat)>,
    more: Seq<(NodeIdView, nat)>,
    n: nat,
    max_depth: nat,
)
    requires
        n <= queue.len(),
    ensures
        all_entries(answers, queue + more, n) == all_entries(answers, queue, n),
        all_below(answers, queue + more, n, max_depth) == all_below(answers, queue, n, max_depth),
    decreases n,
{
    if n > 0 {
        lemma_prefix_same(answers, queue, more, (n - 1) as nat, max_depth);
        assert((queue + more)[n - 1] == queue[n - 1]);
    }
}

proof fn lemma_listing_all(s: FlatView, depth: nat, refs: Seq<ReferenceView>)
    ensures
        s.results.len() + refs.len() >= NODE_CAP && s.results.len() <= NODE_CAP ==> listing(
            s,
            depth,
            refs,
        ).results.len() >= NODE_CAP,
        s.results.len() + refs.len() < NODE_CAP ==> listing(s, depth, refs) == (FlatView {
            results: s.results + entries_of(refs),
            queue: s.queue + below(refs, depth, s.max_depth),
            ..s
        }),
    decreases refs.len(),
{
    if refs.len() == 0 {
        assert(s.results + entries_of(refs) == s.results);
        assert(s.queue + below(refs, depth, s.max_depth) == s.queue);
    } else if s.results.len() < NODE_CAP {
        let results = s.results.push(entry_of(refs[0]));
        let queue = if depth + 1 < s.max_depth && results.len() < NODE_CAP {
            s.queue.push((refs[0].node_id, depth + 1))
        } else {
            s.queue
        };
        let rest = refs.drop_first();
        lemma_listing_all(FlatView { results, queue, ..s }, depth, rest);
        assert(results + entries_of(rest) == s.results + entries_of(refs));
        if s.results.len() + refs.len() < NODE_CAP {
            assert(queue + below(rest, depth, s.max_depth) == s.queue + below(
                refs,
                depth,
                s.max_depth,
            ));
        }
    }
}

proof fn lemma_listing_first(s: FlatView, depth: nat, refs: Seq<ReferenceView>)
    requires
        s.results.len() <= NODE_CAP,
    ensures
        ({
            let t = listing(s, depth, refs);
            let entries = s.results + entries_of(refs);
            let queue = s.queue + below(refs, depth, s.max_depth);
            &&& t.results == if entries.len() <= NODE_CAP {
                entries
            } else {
                entries.take(NODE_CAP as int)
            }
            &&& s.queue.len() <= t.queue.len() <= queue.len()
            &&& t.queue == queue.take(t.queue.len() as int)
        }),
    decreases refs.len(),
{
    let entries = s.results + entries_of(refs);
    let all = s.queue + below(refs, depth, s.max_depth);
    if refs.len() == 0 {
        assert(entries == s.results);
        assert(all.take(s.queue.len() as int) == s.queue);
    } else if s.results.len() >= NODE_CAP {
        assert(entries.take(NODE_CAP as int) == s.results);
        assert(all.take(s.queue.len() as int) == s.queue);
    } else {
        let results = s.results.push(entry_of(refs[0]));
        let queue = if depth + 1 < s.max_depth && results.len() < NODE_CAP {
            s.queue.push((refs[0].node_id, depth + 1))
        } else {
            s.queue
        };
        let rest = refs.drop_first();
        let s2 = FlatView { results, queue, ..s };
        lemma_listing_first(s2, depth, rest);
        assert(results + entries_of(rest) == entries);
        if depth + 1 < s.max_depth && results.len() < NODE_CAP {
            assert(queue + below(rest, depth, s.max_depth) == all);
        } else if results.len() >= NODE_CAP {
            assert(listing(s2, depth, rest) == s2);
            assert(all.take(s.queue.len() as int) == s.queue);
        } else {
            assert(queue + below(rest, depth, s.max_depth) == all);
        }
    }
}

proof fn lemma_level_prefix_step(answers: Answers, start: NodeIdView, s: FlatView)
    requires
        flat_wf(s),
        !flat_done(s),
        level_order(answers, start, s),
    ensures
        level_prefix(answers, start, advanced(s, answers(s.next, s.queue[s.next as int].0))),
{
    let refs = answers(s.next, s.queue[s.next as int].0);
    let depth = s.queue[s.next as int].1;
    let s1 = FlatView { next: s.next + 1, ..s };
    let t = advanced(s, refs);
    lemma_listing_first(s1, depth, refs);
    lemma_listing_wf(s1, depth, refs);
    let full = s.queue + below(refs, depth, s.max_depth);
    let more = t.queue.skip(s.queue.len() as int);
    assert(t.queue == s.queue + more);
    lemma_prefix_same(answers, s.queue, more, s.next, s.max_depth);
    assert(t.queue[s.next as int] == s.queue[s.next as int]);
    assert(all_entries(answers, t.queue, t.next) == s.results + entries_of(refs));
    let found = seq![(start, 0nat)] + all_below(answers, t.queue, t.next, t.max_depth);
    assert(found == full);
}

proof fn lemma_level_order_step(answers: Answers, start: NodeIdView, s: FlatView)
    requires
        flat_wf(s),
        !flat_done(s),
        level_order(answers, start, s),
    ensures
        ({
            let t = advanced(s, answers(s.next, s.queue[s.next as int].0));
            t.results.len() < NODE_CAP ==> level_order(answers, start, t)
        }),
{
    let refs = answers(s.next, s.queue[s.next as int].0);
    let depth = s.queue[s.next as int].1;
    let s1 = FlatView { next: s.next + 1, ..s };
    let t = advanced(s, refs);
    lemma_listing_all(s1, depth, refs);
    if t.results.len() < NODE_CAP {
        let more = below(refs, depth, s.max_depth);
        assert(t.queue == s.queue + more);
        lemma_prefix_same(answers, s.queue, more, s.next, s.max_depth);
        assert(t.queue[s.next as int] == s.queue[s.next as int]);
        assert(t.results == all_entries(answers, t.queue, t.next));
        assert(t.queue == seq![(start, 0nat)] + all_below(answers, t.queue, t.next, t.max_depth));
    }
}

proof fn lemma_end(answers: Answers, start: NodeIdView, s: FlatView)
    requires
        flat_wf(s),
        s.results.len() < NODE_CAP ==> level_order(answers, start, s),
        level_prefix(answers, start, s),
    ensures
        flat_wf(flat_end(answers, s)),
        flat_done(flat_end(answers, s)),
        level_prefix(answers, start, flat_end(answers, s)),
        flat_end(answers, s).results.len() < NODE_CAP ==> level_order(
            answers,
            start,
            flat_end(answers, s),
        ),
    decreases NODE_CAP + 1 - s.next,
{
    if !flat_done(s) {
        let refs = answers(s.next, s.queue[s.next as int].0);
        let s1 = FlatView { next: s.next + 1, ..s };
        assert(flat_wf(s1));
        lemma_listing_wf(s1, s.queue[s.next as int].1, refs);
        lemma_level_order_step(answers, start, s);
        lemma_level_prefix_step(answers, start, s);
        lemma_end(answers, start, advanced(s, refs));
    }
}

/// A browse lists at most a thousand nodes, level by level. If it lists fewer, it has listed all that
/// the start and the nodes found above the deepest level refer to. If it is full, it has listed the
/// first thousand of them, in that order.
pub proof fn law_browse_lists_level_by_level(answers: Answers, start: NodeIdView, max_depth: nat)
    ensures
        ({
            let end = flat_end(answers, flat_start(start, max_depth));
            &&& end.results.len() <= NODE_CAP
            &&& level_prefix(answers, start, end)
            &&& end.results.len() == NODE_CAP ==> end.results == all_entries(
                answers,
                end.queue,
                end.next,
            ).take(NODE_CAP as int)
            &&& end.results.len() < NODE_CAP ==> {
                &&& end.next == end.queue.len()
                &&& level_order(answers, start, end)
            }
        }),
{
    let s = flat_start(start, max_depth);
    assert(s.results == all_entries(answers, s.queue, 0));
    assert(s.queue == seq![(start, 0nat)] + all_below(answers, s.queue, 0, max_depth));
    assert(flat_wf(s));
    assert(s.queue == s.queue.take(s.queue.len() as int));
    lemma_end(answers, start, s);
    let end = flat_end(answers, s);
    let entries = all_entries(answers, end.queue, end.next);
    if end.results.len() == NODE_CAP && entries.len() <= NODE_CAP {
        assert(entries.take(NODE_CAP as int) == entries);
    }
}

} // verus!
