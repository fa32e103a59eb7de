//! Browsing an address space: branch by branch into a tree.
use crate::envelope;
use crate::envelope::{TagValue, TagValueView};
use crate::json;
use crate::json::{Json, JsonView};
use crate::opcua::browse::{Reference, ReferenceView, NODE_CAP};
use crate::opcua::connection;
use crate::opcua::connection::DataReading;
use crate::opcua::nodes;
use crate::opcua::nodes::{NodeId, NodeIdView};
use crate::tools;
use vstd::prelude::*;

verus! {

/// The members of an object.
pub type Node = Map<Seq<char>, JsonView>;

/// What a server answers to the requests of a walk: to the one with this number, for this node. A
/// browse may be refused, a read may bring no value.
pub struct Server {
    pub browse: spec_fn(nat, NodeIdView) -> Option<Seq<ReferenceView>>,
    pub read: spec_fn(nat, NodeIdView) -> Option<TagValueView>,
}

/// What a walk has come to: the nodes below the one it started from, how many nodes have been
/// counted, and how many requests were made.
#[verifier::ext_equal]
pub struct Walk {
    pub children: Node,
    pub count: nat,
    pub asked: nat,
}

/// Whether the value of a node is asked for.
pub open spec fn wants_value(r: ReferenceView, include_values: bool) -> bool {
    include_values && r.is_variable
}

/// What the tree holds for a node: its identifier and class, its value if it was read, and the nodes
/// below it if there are any.
pub open spec fn tree_entry(r: ReferenceView, value: Option<TagValueView>, children: Node) -> Node {
    let bare = Map::<Seq<char>, JsonView>::empty().insert(
        "node_id"@,
        JsonView::Text(nodes::node_text_of(r.node_id)),
    ).insert("node_class"@, JsonView::Text(r.node_class));
    let valued = match value {
        Some(v) => bare.insert("value"@, tools::value_document(v)),
        None => bare,
    };
    if children == Map::<Seq<char>, JsonView>::empty() {
        valued
    } else {
        valued.insert("children"@, JsonView::Object(children))
    }
}

/// The tree below a node, this many levels deep, after `count` nodes and `asked` requests.
pub open spec fn tree(
    server: Server,
    node: NodeIdView,
    depth: nat,
    include_values: bool,
    count: nat,
    asked: nat,
) -> Walk
    decreases depth, 1nat, 0nat,
{
    if count >= NODE_CAP || depth == 0 {
        Walk { children: Map::empty(), count, asked }
    } else {
        match (server.browse)(asked, node) {
            None => Walk { children: Map::empty(), count, asked: asked + 1 },
            Some(refs) => siblings(
                server,
                refs,
                depth,
                include_values,
                Map::empty(),
                count,
                asked + 1,
            ),
        }
    }
}

/// The nodes at one level with what is below each of them, after those in `children`. Of two nodes
/// shown by one name the later one stays.
pub open spec fn siblings(
    server: Server,
    refs: Seq<ReferenceView>,
    depth: nat,
    include_values: bool,
    children: Node,
    count: nat,
    asked: nat,
) -> Walk
    decreases depth, 0nat, refs.len(),
{
    if refs.len() == 0 || count >= NODE_CAP || depth == 0 {
        Walk { children, count, asked }
    } else {
        let r = refs[0];
        let (value, after) = if wants_value(r, include_values) {
            ((server.read)(asked, r.node_id), asked + 1)
        } else {
            (None, asked)
        };
        let sub = tree(server, r.node_id, (depth - 1) as nat, include_values, count + 1, after);
        siblings(
            server,
            refs.drop_first(),
            depth,
            include_values,
            children.insert(
                r.display_name,
                JsonView::Object(tree_entry(r, value, sub.children)),
            ),
            sub.count,
            sub.asked,
        )
    }
}

/// A level that a walk is on: what the node refers to, at which reference the walk is, what has been
/// put together so far, and the value of the node it is at.
#[derive(Debug)]
pub struct Frame {
    pub refs: Vec<Reference>,
    pub at: usize,
    pub children: Vec<(String, Json)>,
    pub depth: u32,
    pub value: Option<TagValue>,
}

/// The model of a [`Frame`].
pub struct FrameView {
    pub refs: Seq<ReferenceView>,
    pub at: nat,
    pub children: Node,
    pub depth: nat,
    pub value: Option<TagValueView>,
}

/// The model of an optional value.
pub open spec fn opt_value(v: Option<TagValue>) -> Option<TagValueView> {
    match v {
        Some(x) => Some(x@),
        None => None,
    }
}

impl View for Frame {
    type V = FrameView;

    open spec fn view(&self) -> FrameView {
        FrameView {
            refs: envelope::views(self.refs@),
            at: self.at as nat,
            children: json::members_view(self.children@),
            depth: self.depth as nat,
            value: opt_value(self.value),
        }
    }
}

/// What a walk does next.
#[derive(Debug)]
pub enum Step {
    /// Go down to a node.
    Enter { node: NodeId, depth: u32 },
    /// Go on with the level it is on.
    Continue,
    /// Go up, with what was put together.
    Leave { children: Vec<(String, Json)> },
    /// Ask what a node refers to.
    Browse { node: NodeId, depth: u32 },
    /// Ask for the value of the node it is at.
    Read { node: NodeId },
    /// Stop, with what was put together.
    Done { children: Vec<(String, Json)> },
}

/// The model of a [`Step`].
pub enum StepView {
    Enter { node: NodeIdView, depth: nat },
    Continue,
    Leave { children: Node },
    Browse { node: NodeIdView, depth: nat },
    Read { node: NodeIdView },
    Done { children: Node },
}

impl View for Step {
    type V = StepView;

    open spec fn view(&self) -> StepView {
        match *self {
            Step::Enter { node, depth } => StepView::Enter { node: node@, depth: depth as nat },
            Step::Continue => StepView::Continue,
            Step::Leave { children } => StepView::Leave {
                children: json::members_view(children@),
            },
            Step::Browse { node, depth } => StepView::Browse { node: node@, depth: depth as nat },
            Step::Read { node } => StepView::Read { node: node@ },
            Step::Done { children } => StepView::Done { children: json::members_view(children@) },
        }
    }
}

/// A walk through an address space.
pub struct TreeBrowse {
    pub include_values: bool,
    pub count: usize,
    pub asked: Ghost<nat>,
    pub stack: Vec<Frame>,
    pub step: Step,
}

/// The model of a [`TreeBrowse`].
pub struct TreeView {
    pub include_values: bool,
    pub count: nat,
    pub asked: nat,
    pub stack: Seq<FrameView>,
    pub step: StepView,
}

impl View for TreeBrowse {
    type V = TreeView;

    open spec fn view(&self) -> TreeView {
        TreeView {
            include_values: self.include_values,
            count: self.count as nat,
            asked: self.asked@,
            stack: envelope::views(self.stack@),
            step: self.step@,
        }
    }
}

/// What a walk comes to once the node that the top level is at has been dealt with, with this below
/// it.
pub open spec fn returned(
    server: Server,
    include_values: bool,
    stack: Seq<FrameView>,
    sub: Walk,
) -> Walk
    decreases stack.len(),
{
    if stack.len() == 0 {
        sub
    } else {
        let f = stack.last();
        let r = f.refs[f.at as int];
        returned(
            server,
            include_values,
            stack.drop_last(),
            siblings(
                server,
                f.refs.skip((f.at + 1) as int),
                f.depth,
                include_values,
                f.children.insert(
                    r.display_name,
                    JsonView::Object(tree_entry(r, f.value, sub.children)),
                ),
                sub.count,
                sub.asked,
            ),
        )
    }
}

/// What a walk will have come to, if the server answers like this.
pub open spec fn outcome(server: Server, s: TreeView) -> Walk {
    match s.step {
        StepView::Enter { node, depth } => returned(
            server,
            s.include_values,
            s.stack,
            tree(server, node, depth, s.include_values, s.count, s.asked),
        ),
        StepView::Browse { node, depth } => returned(
            server,
            s.include_values,
            s.stack,
            tree(server, node, depth, s.include_values, s.count, s.asked),
        ),
        StepView::Continue => {
            let f = s.stack.last();
            returned(
                server,
                s.include_values,
                s.stack.drop_last(),
                siblings(
                    server,
                    f.refs.skip(f.at as int),
                    f.depth,
                    s.include_values,
                    f.children,
                    s.count,
                    s.asked,
                ),
            )
        },
        StepView::Leave { children } => returned(
            server,
            s.include_values,
            s.stack,
            Walk { children, count: s.count, asked: s.asked },
        ),
        StepView::Read { node } => {
            let f = s.stack.last();
            let value = (server.read)(s.asked, node);
            returned(
                server,
                s.include_values,
                s.stack.drop_last().push(FrameView { value, ..f }),
                tree(
                    server,
                    node,
                    (f.depth - 1) as nat,
                    s.include_values,
                    s.count,
                    s.asked + 1,
                ),
            )
        },
        StepView::Done { children } => Walk { children, count: s.count, asked: s.asked },
    }
}

/// Whether a level of a walk is at one of its references.
pub open spec fn frame_wf(f: FrameView) -> bool {
    f.at < f.refs.len() && f.depth > 0
}

/// What holds of every walk.
pub open spec fn tree_wf(s: TreeView) -> bool {
    &&& s.count <= NODE_CAP
    &&& forall|i: int| 0 <= i < s.stack.len() - 1 ==> frame_wf(#[trigger] s.stack[i])
    &&& match s.step {
        StepView::Continue => s.stack.len() > 0 && s.stack.last().at <= s.stack.last().refs.len()
            && s.stack.last().depth > 0,
        StepView::Browse { depth, .. } => {
            &&& s.stack.len() > 0 ==> frame_wf(s.stack.last())
            &&& s.count < NODE_CAP
            &&& depth > 0
        },
        StepView::Read { node } => {
            &&& s.stack.len() > 0
            &&& frame_wf(s.stack.last())
            &&& node == s.stack.last().refs[s.stack.last().at as int].node_id
        },
        StepView::Done { .. } => s.stack.len() == 0,
        _ => s.stack.len() > 0 ==> frame_wf(s.stack.last()),
    }
}

/// Whether a walk waits for an answer or is over.
pub open spec fn settled(step: StepView) -> bool {
    step is Browse || step is Read || step is Done
}

/// Whether a walk is over exactly when it has made all the requests that it takes, whatever the
/// server answers.
pub open spec fn over_when_answered(s: TreeView) -> bool {
    forall|server: Server|
        #![trigger outcome(server, s)]
        s.step is Done <==> outcome(server, s).asked == s.asked
}

/// Whether a walk will have come to the tree below a node, whatever the server answers.
pub open spec fn comes_to(s: TreeView, root: NodeIdView, depth: nat, include_values: bool) -> bool {
    forall|server: Server|
        #![trigger outcome(server, s)]
        outcome(server, s) == tree(server, root, depth, include_values, 0, 0)
}

/// The references that a walk has not dealt with on the levels it is on.
pub open spec fn remaining(stack: Seq<FrameView>) -> nat
    decreases stack.len(),
{
    if stack.len() == 0 {
        0
    } else {
        remaining(stack.drop_last()) + (if stack.last().at <= stack.last().refs.len() {
            (stack.last().refs.len() - stack.last().at) as nat
        } else {
            0
        })
    }
}

/// How much a walk has left to do before it waits or is over, at most.
pub open spec fn to_do(s: TreeView) -> nat {
    4 * remaining(s.stack) + 4 * s.stack.len() + match s.step {
        StepView::Enter { .. } => 2nat,
        StepView::Continue => 3,
        StepView::Leave { .. } => 1,
        _ => 0,
    }
}

proof fn lemma_tree_asks(
    server: Server,
    node: NodeIdView,
    depth: nat,
    include_values: bool,
    count: nat,
    asked: nat,
)
    ensures
        tree(server, node, depth, include_values, count, asked).asked >= asked,
        count < NODE_CAP && depth > 0 ==> tree(
            server,
            node,
            depth,
            include_values,
            count,
            asked,
        ).asked > asked,
    decreases depth, 1nat, 0nat,
{
    if count < NODE_CAP && depth > 0 {
        if let Some(refs) = (server.browse)(asked, node) {
            lemma_siblings_ask(
                server,
                refs,
                depth,
                include_values,
                Map::empty(),
                count,
                asked + 1,
            );
        }
    }
}

proof fn lemma_siblings_ask(
    server: Server,
    refs: Seq<ReferenceView>,
    depth: nat,
    include_values: bool,
    children: Node,
    count: nat,
    asked: nat,
)
    ensures
        siblings(server, refs, depth, include_values, children, count, asked).asked >= asked,
    decreases depth, 0nat, refs.len(),
{
    if refs.len() > 0 && count < NODE_CAP && depth > 0 {
        let r = refs[0];
        let (value, after) = if wants_value(r, include_values) {
            ((server.read)(asked, r.node_id), asked + 1)
        } else {
            (None, asked)
        };
        let sub = tree(server, r.node_id, (depth - 1) as nat, include_values, count + 1, after);
        lemma_tree_asks(server, r.node_id, (depth - 1) as nat, include_values, count + 1, after);
        lemma_siblings_ask(
            server,
            refs.drop_first(),
            depth,
            include_values,
            children.insert(
                r.display_name,
                JsonView::Object(tree_entry(r, value, sub.children)),
            ),
            sub.count,
            sub.asked,
        );
    }
}

proof fn lemma_returned_asks(
    server: Server,
    include_values: bool,
    stack: Seq<FrameView>,
    sub: Walk,
)
    ensures
        returned(server, include_values, stack, sub).asked >= sub.asked,
    decreases stack.len(),
{
    if stack.len() > 0 {
        let f = stack.last();
        let r = f.refs[f.at as int];
        let children = f.children.insert(
            r.display_name,
            JsonView::Object(tree_entry(r, f.value, sub.children)),
        );
        let rest = f.refs.skip((f.at + 1) as int);
        lemma_siblings_ask(server, rest, f.depth, include_values, children, sub.count, sub.asked);
        lemma_returned_asks(
            server,
            include_values,
            stack.drop_last(),
            siblings(server, rest, f.depth, include_values, children, sub.count, sub.asked),
        );
    }
}

proof fn lemma_over_when_answered(s: TreeView)
    requires
        tree_wf(s),
        settled(s.step),
    ensures
        over_when_answered(s),
{
    assert forall|server: Server| #![trigger outcome(server, s)]
        s.step is Done <==> outcome(server, s).asked == s.asked by {
        match s.step {
            StepView::Browse { node, depth } => {
                let sub = tree(server, node, depth, s.include_values, s.count, s.asked);
                lemma_tree_asks(server, node, depth, s.include_values, s.count, s.asked);
                lemma_returned_asks(server, s.include_values, s.stack, sub);
            },
            StepView::Read { node } => {
                let f = s.stack.last();
                let value = (server.read)(s.asked, node);
                let depth = (f.depth - 1) as nat;
                let sub = tree(server, node, depth, s.include_values, s.count, s.asked + 1);
                lemma_tree_asks(server, node, depth, s.include_values, s.count, s.asked + 1);
                lemma_returned_asks(
                    server,
                    s.include_values,
                    s.stack.drop_last().push(FrameView { value, ..f }),
                    sub,
                );
            },
            _ => {},
        }
    }
}

proof fn lemma_views_push(stack: Seq<Frame>, f: Frame)
    ensures
        envelope::views(stack.push(f)) == envelope::views(stack).push(f@),
        envelope::views(stack.push(f)).drop_last() == envelope::views(stack),
        envelope::views(stack.push(f)).last() == f@,
{
    assert(envelope::views(stack.push(f)) =~= envelope::views(stack).push(f@));
    assert(envelope::views(stack).push(f@).drop_last() =~= envelope::views(stack));
}

proof fn lemma_views_pop(stack: Seq<Frame>)
    requires
        stack.len() > 0,
    ensures
        envelope::views(stack.drop_last()) == envelope::views(stack).drop_last(),
        envelope::views(stack).last() == stack.last()@,
{
    assert(envelope::views(stack.drop_last()) =~= envelope::views(stack).drop_last());
}

proof fn lemma_no_members(members: Seq<(String, Json)>)
    ensures
        members.len() == 0 <==> json::members_view(members) == Map::<Seq<char>, JsonView>::empty(),
{
    if members.len() > 0 {
        assert(json::members_view(members).contains_key(members[0].0@));
    }
}

fn make_tree_entry(r: &Reference, value: &Option<TagValue>, children: Vec<(String, Json)>) -> (e: Json)
    ensures
        e@ == JsonView::Object(
            tree_entry(r@, opt_value(*value), json::members_view(children@)),
        ),
{
    let mut entry: Vec<(String, Json)> = Vec::new();
    json::set_member(&mut entry, "node_id", Json::Text(nodes::node_text(&r.node_id)));
    json::set_member(&mut entry, "node_class", Json::Text(r.node_class.clone()));
    if let Some(v) = value {
        json::set_member(&mut entry, "value", tools::to_document(v));
    }
    proof {
        lemma_no_members(children@);
    }
    if children.len() > 0 {
        json::set_member(&mut entry, "children", Json::Object(children));
    }
    Json::Object(entry)
}

impl TreeBrowse {
    /// Whether the parts of this walk fit together.
    pub open spec fn wf(self) -> bool {
        tree_wf(self@)
    }

    /// Goes down to a node, or back up if that is too deep or the tree is full.
    fn enter(&mut self, node: NodeId, depth: u32)
        requires
            tree_wf(
                TreeView {
                    step: StepView::Enter { node: node@, depth: depth as nat },
                    ..old(self)@
                },
            ),
        ensures
            final(self).wf(),
            final(self)@.stack == old(self)@.stack,
            final(self)@.asked == old(self)@.asked,
            final(self)@.include_values == old(self)@.include_values,
            old(self)@.count <= final(self)@.count,
            final(self)@.step is Leave || final(self)@.step is Browse,
            forall|server: Server|
                #![trigger outcome(server, final(self)@)]
                outcome(server, final(self)@) == outcome(
                    server,
                    TreeView {
                        step: StepView::Enter { node: node@, depth: depth as nat },
                        ..old(self)@
                    },
                ),
    {
        if self.count >= NODE_CAP || depth == 0 {
            self.step = Step::Leave { children: Vec::new() };
        } else {
            self.step = Step::Browse { node, depth };
        }
    }

    /// Goes up, with what was put together.
    fn leave(&mut self, children: Vec<(String, Json)>)
        requires
            tree_wf(
                TreeView {
                    step: StepView::Leave { children: json::members_view(children@) },
                    ..old(self)@
                },
            ),
        ensures
            final(self).wf(),
            final(self)@.asked == old(self)@.asked,
            final(self)@.include_values == old(self)@.include_values,
            old(self)@.count <= final(self)@.count,
            final(self)@.step is Done || (final(self)@.step is Continue && to_do(final(self)@)
                < to_do(
                TreeView {
                    step: StepView::Leave { children: json::members_view(children@) },
                    ..old(self)@
                },
            )),
            forall|server: Server|
                #![trigger outcome(server, final(self)@)]
                outcome(server, final(self)@) == outcome(
                    server,
                    TreeView {
                        step: StepView::Leave { children: json::members_view(children@) },
                        ..old(self)@
                    },
                ),
    {
        let ghost before = TreeView {
            step: StepView::Leave { children: json::members_view(children@) },
            ..self@
        };
        let ghost was = self.stack@;
        match self.stack.pop() {
            None => {
                self.step = Step::Done { children };
            },
            Some(f) => {
                let mut frame: Frame = f;
                proof {
                    lemma_views_pop(was);
                }
                let r: &Reference = &frame.refs[frame.at];
                assert(r@ == f@.refs[f@.at as int]);
                assert(frame.at < frame.refs.len());
                let next: usize = frame.at + 1;
                let name: String = r.display_name.clone();
                let entry: Json = make_tree_entry(r, &frame.value, children);
                json::set_member(&mut frame.children, name.as_str(), entry);
                frame.at = next;
                frame.value = None;
                let ghost rest = self.stack@;
                let ghost top = frame;
                self.stack.push(frame);
                self.step = Step::Continue;
                proof {
                    lemma_views_push(rest, top);
                    assert(self@.stack.drop_last() == before.stack.drop_last());
                    assert forall|i: int| 0 <= i < self@.stack.len() - 1 implies frame_wf(
                        #[trigger] self@.stack[i],
                    ) by {
                        assert(self@.stack[i] == before.stack[i]);
                    }
                }
            },
        }
    }

    /// Goes on with the level it is on.
    fn go_on(&mut self)
        requires
            old(self).wf(),
            old(self)@.step is Continue,
        ensures
            final(self).wf(),
            final(self)@.asked == old(self)@.asked,
            final(self)@.include_values == old(self)@.include_values,
            old(self)@.count <= final(self)@.count,
            final(self)@.step is Leave || final(self)@.step is Enter || final(self)@.step is Read,
            to_do(final(self)@) < to_do(old(self)@),
            forall|server: Server|
                #![trigger outcome(server, final(self)@)]
                outcome(server, final(self)@) == outcome(server, old(self)@),
    {
        let ghost before = self@;
        let ghost was = self.stack@;
        match self.stack.pop() {
            None => {},
            Some(f) => {
                let mut frame: Frame = f;
                proof {
                    lemma_views_pop(was);
                }
                let ghost rest = self.stack@;
                assert(envelope::views(rest) == before.stack.drop_last());
                assert forall|i: int| 0 <= i < rest.len() implies frame_wf(
                    #[trigger] envelope::views(rest)[i],
                ) by {
                    assert(envelope::views(rest)[i] == before.stack[i]);
                }
                if frame.at == frame.refs.len() || self.count >= NODE_CAP {
                    self.step = Step::Leave { children: frame.children };
                    assert(self@.stack == envelope::views(rest));
                } else {
                    self.count = self.count + 1;
                    let r: &Reference = &frame.refs[frame.at];
                    let node: NodeId = r.node_id.copy();
                    let read: bool = self.include_values && r.is_variable;
                    let depth: u32 = frame.depth - 1;
                    frame.value = None;
                    let ghost top = frame;
                    let ghost fv = before.stack.last();
                    proof {
                        assert(fv == f@);
                        assert(fv.refs.skip(fv.at as int)[0] == r@);
                        assert(fv.refs.skip(fv.at as int).drop_first() == fv.refs.skip(
                            (fv.at + 1) as int,
                        ));
                    }
                    self.stack.push(frame);
                    proof {
                        lemma_views_push(rest, top);
                        assert forall|i: int| 0 <= i < self@.stack.len() - 1 implies frame_wf(
                            #[trigger] self@.stack[i],
                        ) by {
                            assert(self@.stack[i] == envelope::views(rest)[i]);
                        }
                    }
                    if read {
                        self.step = Step::Read { node };
                        proof {
                            assert forall|server: Server|
                                #![trigger outcome(server, self@)]
                                outcome(server, self@) == outcome(server, before) by {
                                let value = (server.read)(before.asked, r@.node_id);
                                let fr = FrameView { value, ..self@.stack.last() };
                                let st = self@.stack.drop_last().push(fr);
                                assert(st.drop_last() == before.stack.drop_last());
                                assert(st.last() == fr);
                            }
                        }
                    } else {
                        self.step = Step::Enter { node, depth };
                    }
                }
            },
        }
    }

    /// Goes on until it has to wait or is over.
    fn settle(&mut self)
        requires
            old(self).wf(),
        ensures
            final(self).wf(),
            settled(final(self)@.step),
            final(self)@.asked == old(self)@.asked,
            final(self)@.include_values == old(self)@.include_values,
            old(self)@.count <= final(self)@.count,
            forall|server: Server|
                #![trigger outcome(server, final(self)@)]
                outcome(server, final(self)@) == outcome(server, old(self)@),
    {
        let ghost before = self@;
        let mut waiting: bool = false;
        while !waiting
            invariant
                self.wf(),
                waiting ==> settled(self@.step),
                self@.asked == before.asked,
                self@.include_values == before.include_values,
                before.count <= self@.count,
                forall|server: Server|
                    #![trigger outcome(server, self@)]
                    outcome(server, self@) == outcome(server, before),
            decreases to_do(self@), if waiting { 0nat } else { 1 },
        {
            let ghost now = self@;
            let mut step: Step = Step::Continue;
            std::mem::swap(&mut step, &mut self.step);
            match step {
                Step::Enter { node, depth } => {
                    assert(now == (TreeView {
                        step: StepView::Enter { node: node@, depth: depth as nat },
                        ..self@
                    }));
                    self.enter(node, depth);
                },
                Step::Continue => {
                    assert(now == self@);
                    self.go_on();
                },
                Step::Leave { children } => {
                    assert(now == (TreeView {
                        step: StepView::Leave { children: json::members_view(children@) },
                        ..self@
                    }));
                    self.leave(children);
                },
                other => {
                    self.step = other;
                    waiting = true;
                    assert(self@ == now);
                },
            }
            assert forall|server: Server|
                #![trigger outcome(server, self@)]
                outcome(server, self@) == outcome(server, before) by {
                assert(outcome(server, self@) == outcome(server, now));
            }
        }
    }

    /// A walk from a node, this many levels deep.
    pub fn new(root: NodeId, max_depth: u32, include_values: bool) -> (r: TreeBrowse)
        ensures
            r.wf(),
            settled(r@.step),
            r@.asked == 0,
            r@.include_values == include_values,
            over_when_answered(r@),
            forall|server: Server|
                #![trigger outcome(server, r@)]
                outcome(server, r@) == tree(
                    server,
                    root@,
                    max_depth as nat,
                    include_values,
                    0,
                    0,
                ),
    {
        let mut r = TreeBrowse {
            include_values,
            count: 0,
            asked: Ghost(0),
            stack: Vec::new(),
            step: Step::Enter { node: root, depth: max_depth },
        };
        let ghost start = r@;
        r.settle();
        assert forall|server: Server|
            #![trigger outcome(server, r@)]
            outcome(server, r@) == tree(server, root@, max_depth as nat, include_values, 0, 0) by {
            assert(outcome(server, r@) == outcome(server, start));
        }
        proof {
            lemma_over_when_answered(r@);
        }
        r
    }

    /// Takes in what the node it asked about refers to; none if the server refused to tell. The
    /// request counts as answered, and what the walk will come to is what it would have come to with
    /// that answer. The walk is over exactly when nothing is left to ask.
    pub fn browsed(&mut self, refs: Option<Vec<Reference>>)
        requires
            old(self).wf(),
            old(self)@.step is Browse,
        ensures
            final(self).wf(),
            settled(final(self)@.step),
            final(self)@.asked == old(self)@.asked + 1,
            final(self)@.include_values == old(self)@.include_values,
            old(self)@.count <= final(self)@.count,
            over_when_answered(final(self)@),
            forall|server: Server|
                #![trigger outcome(server, final(self)@)]
                (server.browse)(old(self)@.asked, old(self)@.step->Browse_node) == (match refs {
                    Some(v) => Some(envelope::views(v@)),
                    None => None,
                }) ==> outcome(server, final(self)@) == outcome(server, old(self)@),
    {
        let ghost before = self@;
        let mut step: Step = Step::Continue;
        std::mem::swap(&mut step, &mut self.step);
        self.asked = Ghost(self.asked@ + 1);
        if let Step::Browse { node, depth } = step {
            match refs {
                None => {
                    self.step = Step::Leave { children: Vec::new() };
                    assert(self@.stack == before.stack);
                },
                Some(refs) => {
                    let ghost rest = self.stack@;
                    let frame = Frame { refs, at: 0, children: Vec::new(), depth, value: None };
                    let ghost top = frame;
                    self.stack.push(frame);
                    self.step = Step::Continue;
                    proof {
                        lemma_views_push(rest, top);
                        assert forall|i: int| 0 <= i < self@.stack.len() - 1 implies frame_wf(
                            #[trigger] self@.stack[i],
                        ) by {
                            assert(self@.stack[i] == before.stack[i]);
                        }
                        assert(top@.refs.skip(0) == top@.refs);
                    }
                },
            }
        }
        let ghost now = self@;
        self.settle();
        assert forall|server: Server|
            #![trigger outcome(server, self@)]
            (server.browse)(before.asked, before.step->Browse_node) == (match refs {
                Some(v) => Some(envelope::views(v@)),
                None => None,
            }) implies outcome(server, self@) == outcome(server, before) by {
            assert(outcome(server, self@) == outcome(server, now));
        }
        proof {
            lemma_over_when_answered(self@);
        }
    }

    /// Takes in the value of the node it asked about; none if there was none. The request counts as
    /// answered, and what the walk will come to is what it would have come to with that answer. The
    /// walk is over exactly when nothing is left to ask.
    pub fn value_read(&mut self, value: Option<TagValue>)
        requires
            old(self).wf(),
            old(self)@.step is Read,
        ensures
            final(self).wf(),
            settled(final(self)@.step),
            final(self)@.asked == old(self)@.asked + 1,
            final(self)@.include_values == old(self)@.include_values,
            old(self)@.count <= final(self)@.count,
            over_when_answered(final(self)@),
            forall|server: Server|
                #![trigger outcome(server, final(self)@)]
                (server.read)(old(self)@.asked, old(self)@.step->Read_node) == opt_value(value)
                    ==> outcome(server, final(self)@) == outcome(server, old(self)@),
    {
        let ghost before = self@;
        let ghost was = self.stack@;
        let mut step: Step = Step::Continue;
        std::mem::swap(&mut step, &mut self.step);
        self.asked = Ghost(self.asked@ + 1);
        if let Step::Read { node } = step {
            if let Some(f) = self.stack.pop() {
                let mut frame: Frame = f;
                let depth: u32 = frame.depth - 1;
                frame.value = value;
                let ghost rest = self.stack@;
                let ghost top = frame;
                self.stack.push(frame);
                self.step = Step::Enter { node, depth };
                proof {
                    lemma_views_pop(was);
                    lemma_views_push(rest, top);
                    assert forall|i: int| 0 <= i < self@.stack.len() - 1 implies frame_wf(
                        #[trigger] self@.stack[i],
                    ) by {
                        assert(self@.stack[i] == before.stack[i]);
                    }
                    assert(self@.stack == before.stack.drop_last().push(
                        FrameView { value: opt_value(value), ..before.stack.last() },
                    ));
                }
            }
        }
        let ghost now = self@;
        self.settle();
        assert forall|server: Server|
            #![trigger outcome(server, self@)]
            (server.read)(before.asked, before.step->Read_node) == opt_value(value) implies outcome(
            server,
            self@,
        ) == outcome(server, before) by {
            assert(outcome(server, self@) == outcome(server, now));
        }
        proof {
            lemma_over_when_answered(self@);
        }
    }

    /// What to ask the server next; none if the walk is over.
    pub fn pending(&self) -> (r: Option<TreeRequest<'_>>)
        requires
            self.wf(),
            settled(self@.step),
        ensures
            match (self@.step, r) {
                (StepView::Browse { node, .. }, Some(TreeRequest::Browse(n))) => n@ == node,
                (StepView::Read { node }, Some(TreeRequest::Read(n))) => n@ == node,
                (StepView::Done { .. }, None) => true,
                _ => false,
            },
    {
        match &self.step {
            Step::Browse { node, .. } => Some(TreeRequest::Browse(node)),
            Step::Read { node } => Some(TreeRequest::Read(node)),
            _ => None,
        }
    }

    /// What the walk has come to.
    pub fn finish(self) -> (r: NodeTree)
        requires
            self.wf(),
            self@.step is Done,
        ensures
            forall|server: Server|
                #![trigger outcome(server, self@)]
                r.tree@ == JsonView::Object(outcome(server, self@).children) && r.node_count
                    == outcome(server, self@).count,
            r.truncated == (r.node_count >= NODE_CAP),
    {
        let truncated: bool = self.count >= NODE_CAP;
        let node_count: usize = self.count;
        match self.step {
            Step::Done { children } => NodeTree {
                tree: Json::Object(children),
                node_count,
                truncated,
            },
            _ => NodeTree { tree: Json::Null, node_count, truncated },
        }
    }
}

/// What a walk asks a server.
#[derive(Debug)]
pub enum TreeRequest<'a> {
    /// What does this node refer to?
    Browse(&'a NodeId),
    /// What is this node's value?
    Read(&'a NodeId),
}

/// A tree of nodes.
#[derive(Debug)]
pub struct NodeTree {
    pub tree: Json,
    pub node_count: usize,
    /// Whether the tree is full, so that nodes may be missing.
    pub truncated: bool,
}

/// The value of the first reading in the answer to a read; none if the read was refused, or brought
/// no reading or none with a value.
pub fn first_value(reply: Result<Vec<DataReading>, u32>) -> (r: Option<TagValue>)
    ensures
        match (reply, r) {
            (Ok(readings), Some(v)) => readings@.len() > 0 && readings@[0].value is Some
                && connection::shows(readings@[0].value->0, v@),
            (Ok(readings), None) => readings@.len() == 0 || readings@[0].value is None,
            (Err(_), r) => r is None,
        },
{
    match reply {
        Err(_) => None,
        Ok(readings) => {
            if readings.len() == 0 {
                return None;
            }
            match &readings[0].value {
                Some(v) => Some(connection::variant_to_tag_value(v)),
                None => None,
            }
        },
    }
}

proof fn lemma_count(
    server: Server,
    node: NodeIdView,
    depth: nat,
    include_values: bool,
    count: nat,
    asked: nat,
)
    requires
        count <= NODE_CAP,
    ensures
        count <= tree(server, node, depth, include_values, count, asked).count <= NODE_CAP,
    decreases depth, 1nat, 0nat,
{
    if count < NODE_CAP && depth > 0 {
        if let Some(refs) = (server.browse)(asked, node) {
            lemma_count_siblings(
                server,
                refs,
                depth,
                include_values,
                Map::empty(),
                count,
                asked + 1,
            );
        }
    }
}

proof fn lemma_count_siblings(
    server: Server,
    refs: Seq<ReferenceView>,
    depth: nat,
    include_values: bool,
    children: Node,
    count: nat,
    asked: nat,
)
    requires
        count <= NODE_CAP,
    ensures
        count <= siblings(server, refs, depth, include_values, children, count, asked).count
            <= NODE_CAP,
    decreases depth, 0nat, refs.len(),
{
    if refs.len() > 0 && count < NODE_CAP && depth > 0 {
        let r = refs[0];
        let (value, after) = if wants_value(r, include_values) {
            ((server.read)(asked, r.node_id), asked + 1)
        } else {
            (None, asked)
        };
        let sub = tree(server, r.node_id, (depth - 1) as nat, include_values, count + 1, after);
        lemma_count(server, r.node_id, (depth - 1) as nat, include_values, count + 1, after);
        lemma_count_siblings(
            server,
            refs.drop_first(),
            depth,
            include_values,
            children.insert(
                r.display_name,
                JsonView::Object(tree_entry(r, value, sub.children)),
            ),
            sub.count,
            sub.asked,
        );
    }
}

/// A tree counts at most a thousand nodes, whatever the server answers.
pub proof fn law_tree_is_bounded(
    server: Server,
    root: NodeIdView,
    max_depth: nat,
    include_values: bool,
)
    ensures
        tree(server, root, max_depth, include_values, 0, 0).count <= NODE_CAP,
{
    lemma_count(server, root, max_depth, include_values, 0, 0);
}

} // verus!
