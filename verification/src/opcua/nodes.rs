//! Node identifiers of an OPC UA address space.
use crate::envelope;
use crate::envelope::{AdapterError, AdapterErrorView, ErrorCode};
use crate::text;
use ::opcua::types::{
    ByteString, Guid, Identifier as OpcIdentifier, NodeId as OpcNodeId, UAString,
};
use vstd::prelude::*;

verus! {

/// What identifies a node within its namespace.
#[derive(Debug, Clone)]
pub enum Identifier {
    Numeric(u32),
    Text(Option<String>),
    Guid([u8; 16]),
    Opaque(Option<Vec<u8>>),
}

/// A node identifier.
#[derive(Debug, Clone)]
pub struct NodeId {
    pub namespace: u16,
    pub identifier: Identifier,
}

/// The model of an [`Identifier`].
pub enum IdentifierView {
    Numeric(u32),
    Text(Option<Seq<char>>),
    Guid(Seq<u8>),
    Opaque(Option<Seq<u8>>),
}

/// The model of a [`NodeId`].
pub struct NodeIdView {
    pub namespace: u16,
    pub identifier: IdentifierView,
}

impl View for Identifier {
    type V = IdentifierView;

    open spec fn view(&self) -> IdentifierView {
        match *self {
            Identifier::Numeric(n) => IdentifierView::Numeric(n),
            Identifier::Text(t) => IdentifierView::Text(envelope::opt_text(t)),
            Identifier::Guid(g) => IdentifierView::Guid(g@),
            Identifier::Opaque(b) => IdentifierView::Opaque(
                match b {
                    Some(v) => Some(v@),
                    None => None,
                },
            ),
        }
    }
}

impl View for NodeId {
    type V = NodeIdView;

    open spec fn view(&self) -> NodeIdView {
        NodeIdView { namespace: self.namespace, identifier: self.identifier@ }
    }
}

/// The model of an optional node identifier.
pub open spec fn opt_node(n: Option<NodeId>) -> Option<NodeIdView> {
    match n {
        Some(x) => Some(x@),
        None => None,
    }
}

impl NodeId {
    /// The identifier of a node by number.
    pub fn numeric(namespace: u16, number: u32) -> (r: NodeId)
        ensures
            r@ == numbered(namespace, number),
    {
        NodeId { namespace, identifier: Identifier::Numeric(number) }
    }

    /// A copy of this identifier.
    pub fn copy(&self) -> (r: NodeId)
        ensures
            r@ == self@,
    {
        let identifier: Identifier = match &self.identifier {
            Identifier::Numeric(n) => Identifier::Numeric(*n),
            Identifier::Text(t) => Identifier::Text(envelope::copy_opt(t)),
            Identifier::Guid(g) => Identifier::Guid(*g),
            Identifier::Opaque(b) => Identifier::Opaque(
                match b {
                    Some(v) => Some(copy_bytes(v)),
                    None => None,
                },
            ),
        };
        NodeId { namespace: self.namespace, identifier }
    }
}

fn copy_bytes(b: &Vec<u8>) -> (r: Vec<u8>)
    ensures
        r@ == b@,
{
    let mut r: Vec<u8> = Vec::new();
    let mut i: usize = 0;
    while i < b.len()
        invariant
            i <= b.len(),
            r@ == b@.take(i as int),
        decreases b.len() - i,
    {
        r.push(b[i]);
        assert(b@.take(i + 1) == b@.take(i as int).push(b@[i as int]));
        i = i + 1;
    }
    assert(b@.take(b@.len() as int) == b@);
    r
}

/// The identifier of a node by number.
pub open spec fn numbered(namespace: u16, number: u32) -> NodeIdView {
    NodeIdView { namespace, identifier: IdentifierView::Numeric(number) }
}

/// How a node identified by a number or a text is written: `ns=2;i=1001`, `ns=2;s=Pump01.FlowRate`.
/// The namespace may be left out if it is zero.
pub open spec fn spelling(n: NodeIdView, with_namespace: bool) -> Seq<char> {
    let namespace = if with_namespace {
        "ns="@ + text::decimal_text(n.namespace as nat) + ";"@
    } else {
        Seq::empty()
    };
    match n.identifier {
        IdentifierView::Numeric(i) => namespace + "i="@ + text::decimal_text(i as nat),
        IdentifierView::Text(Some(t)) => namespace + "s="@ + t,
        _ => namespace,
    }
}

/// Whether a node is identified by a number, or by a text that is not empty and has no line feed.
pub open spec fn spellable(n: NodeIdView) -> bool {
    match n.identifier {
        IdentifierView::Numeric(_) => true,
        IdentifierView::Text(Some(t)) => t.len() > 0 && !t.contains('\n'),
        _ => false,
    }
}

/// What `NodeId::from_str` of `opcua` reads in a text; none if it refuses the text.
pub uninterp spec fn node_id_of(text: Seq<char>) -> Option<NodeIdView>;

/// Reads a node identifier with `NodeId::from_str` of `opcua`. What comes back depends on the
/// text alone, and is called [`node_id_of`] here. The identifiers that [`spelling`] covers are read
/// as what they spell; of other texts nothing is said.
#[verifier::external_body]
fn read_node_id(s: &str) -> (r: Option<NodeId>)
    ensures
        opt_node(r) == node_id_of(s@),
        forall|n: NodeIdView, with_namespace: bool|
            spellable(n) && (with_namespace || n.namespace == 0) && s@ == #[trigger] spelling(
                n,
                with_namespace,
            ) ==> opt_node(r) == Some(n),
{
    let n: OpcNodeId = s.parse().ok()?;
    let identifier = match n.identifier {
        OpcIdentifier::Numeric(v) => Identifier::Numeric(v),
        OpcIdentifier::String(v) => Identifier::Text(v.value().clone()),
        OpcIdentifier::Guid(v) => Identifier::Guid(*v.as_bytes()),
        OpcIdentifier::ByteString(v) => Identifier::Opaque(v.value),
    };
    Some(NodeId { namespace: n.namespace, identifier })
}

/// How `Display` of `opcua`'s `NodeId` writes an identifier.
pub uninterp spec fn node_text_of(n: NodeIdView) -> Seq<char>;

/// Writes a node identifier with `NodeId::to_string` of `opcua`. What comes back depends on
/// the identifier alone, and is called [`node_text_of`] here. Numbers and texts are written as
/// [`spelling`] has it, without the namespace if it is zero.
#[verifier::external_body]
pub(crate) fn node_text(n: &NodeId) -> (r: String)
    ensures
        r@ == node_text_of(n@),
        spellable(n@) ==> r@ == spelling(n@, n@.namespace != 0),
{
    let identifier = match &n.identifier {
        Identifier::Numeric(v) => OpcIdentifier::Numeric(*v),
        Identifier::Text(Some(v)) => OpcIdentifier::String(UAString::from(v.as_str())),
        Identifier::Text(None) => OpcIdentifier::String(UAString::null()),
        Identifier::Guid(v) => OpcIdentifier::Guid(Guid::from_bytes(*v)),
        Identifier::Opaque(v) => OpcIdentifier::ByteString(ByteString { value: v.clone() }),
    };
    OpcNodeId { namespace: n.namespace, identifier }.to_string()
}

/// The node that a tag names, or the error, from what was read in the tag.
pub open spec fn node_or_error(s: Seq<char>, read: Option<NodeIdView>) -> Result<
    NodeIdView,
    AdapterErrorView,
> {
    match read {
        Some(n) => Ok(n),
        None => Err(
            envelope::tag_error(
                ErrorCode::TagNotFound,
                "'"@ + s
                    + "' is not a valid OPC-UA NodeId. Expected format: ns=<ns>;s=<id> or ns=<ns>;i=<id>"@,
                s,
            ),
        ),
    }
}

/// The node that a tag names, or the error, from what was read in the tag.
pub fn found_node(s: &str, read: Option<NodeId>) -> (r: Result<NodeId, AdapterError>)
    ensures
        envelope::outcome_view(r) == node_or_error(s@, opt_node(read)),
{
    match read {
        Some(n) => Ok(n),
        None => {
            let m: String = text::cat3(
                "'",
                s,
                "' is not a valid OPC-UA NodeId. Expected format: ns=<ns>;s=<id> or ns=<ns>;i=<id>",
            );
            Err(AdapterError::on_tag(ErrorCode::TagNotFound, m, s))
        },
    }
}

/// The node that a tag names, or the error on a tag that names none.
pub fn parse_node_id(s: &str) -> (r: Result<NodeId, AdapterError>)
    ensures
        envelope::outcome_view(r) == node_or_error(s@, node_id_of(s@)),
        forall|n: NodeIdView, with_namespace: bool|
            spellable(n) && (with_namespace || n.namespace == 0) && s@ == #[trigger] spelling(
                n,
                with_namespace,
            ) ==> envelope::outcome_view(r) == Ok::<NodeIdView, AdapterErrorView>(n),
{
    found_node(s, read_node_id(s))
}

proof fn lemma_first_separator(a: Seq<char>, x: Seq<char>, b: Seq<char>, y: Seq<char>, sep: char)
    requires
        !a.contains(sep),
        !b.contains(sep),
        a.push(sep) + x == b.push(sep) + y,
    ensures
        a == b,
        x == y,
{
    let s = a.push(sep) + x;
    let t = b.push(sep) + y;
    assert(s[a.len() as int] == sep);
    assert(t[b.len() as int] == sep);
    if a.len() < b.len() {
        assert(b[a.len() as int] == t[a.len() as int]);
    } else if b.len() < a.len() {
        assert(a[b.len() as int] == s[b.len() as int]);
    } else {
        assert forall|i: int| 0 <= i < a.len() implies a[i] == b[i] by {
            assert(s[i] == t[i]);
        }
        assert(a =~= b);
        assert(s.len() == a.len() + 1 + x.len());
        assert(t.len() == b.len() + 1 + y.len());
        assert forall|i: int| 0 <= i < x.len() implies x[i] == y[i] by {
            assert(s[a.len() + 1 + i] == t[a.len() + 1 + i]);
        }
        assert(x =~= y);
    }
}

proof fn lemma_digits_hold_no(n: nat, c: char)
    requires
        !text::digit(c),
    ensures
        !text::decimal_text(n).contains(c),
{
    let digits = text::decimal_text(n);
    text::lemma_decimal_reads_back(n, n);
    assert forall|i: int| 0 <= i < digits.len() implies digits[i] != c by {
        assert(text::digit(digits[i]));
    }
}

proof fn lemma_decimal_unique(a: nat, b: nat)
    requires
        text::decimal_text(a) == text::decimal_text(b),
    ensures
        a == b,
{
    text::lemma_decimal_reads_back(a, a + b);
    text::lemma_decimal_reads_back(b, a + b);
}

/// What follows the namespace in a spelling.
pub open spec fn bare_spelling(n: NodeIdView) -> Seq<char> {
    spelling(NodeIdView { namespace: 0, ..n }, false)
}

proof fn lemma_bare_unique(a: NodeIdView, b: NodeIdView)
    requires
        spellable(a),
        spellable(b),
        bare_spelling(a) == bare_spelling(b),
    ensures
        a.identifier == b.identifier,
{
    reveal_strlit("i=");
    reveal_strlit("s=");
    let s = bare_spelling(a);
    let t = bare_spelling(b);
    assert(s[0] == if a.identifier is Numeric { 'i' } else { 's' });
    assert(t[0] == if b.identifier is Numeric { 'i' } else { 's' });
    assert(s.skip(2) == t.skip(2));
    match (a.identifier, b.identifier) {
        (IdentifierView::Numeric(x), IdentifierView::Numeric(y)) => {
            assert(s.skip(2) == text::decimal_text(x as nat));
            assert(t.skip(2) == text::decimal_text(y as nat));
            lemma_decimal_unique(x as nat, y as nat);
        },
        (IdentifierView::Text(Some(x)), IdentifierView::Text(Some(y))) => {
            assert(s.skip(2) == x);
            assert(t.skip(2) == y);
        },
        _ => {},
    }
}

proof fn lemma_spelling_parts(n: NodeIdView)
    requires
        spellable(n),
    ensures
        spelling(n, true) == ("ns="@ + text::decimal_text(n.namespace as nat)).push(';')
            + bare_spelling(n),
        !("ns="@ + text::decimal_text(n.namespace as nat)).contains(';'),
        spelling(n, true)[0] == 'n',
        bare_spelling(n)[0] != 'n',
        spelling(n, false) == bare_spelling(n),
{
    reveal_strlit("ns=");
    reveal_strlit(";");
    reveal_strlit("i=");
    reveal_strlit("s=");
    let head = "ns="@ + text::decimal_text(n.namespace as nat);
    assert(head + ";"@ == head.push(';'));
    lemma_digits_hold_no(n.namespace as nat, ';');
    assert forall|i: int| 0 <= i < head.len() implies head[i] != ';' by {
        if i >= 3 {
            assert(head[i] == text::decimal_text(n.namespace as nat)[i - 3]);
            assert(text::decimal_text(n.namespace as nat).contains(head[i]));
        }
    }
    assert(spelling(n, true) == head.push(';') + bare_spelling(n));
}

/// No two nodes are spelled alike.
pub proof fn law_spelling_unique(a: NodeIdView, with_a: bool, b: NodeIdView, with_b: bool)
    requires
        spellable(a),
        spellable(b),
        with_a || a.namespace == 0,
        with_b || b.namespace == 0,
        spelling(a, with_a) == spelling(b, with_b),
    ensures
        a == b,
{
    lemma_spelling_parts(a);
    lemma_spelling_parts(b);
    if with_a && with_b {
        let p = "ns="@ + text::decimal_text(a.namespace as nat);
        let q = "ns="@ + text::decimal_text(b.namespace as nat);
        lemma_first_separator(p, bare_spelling(a), q, bare_spelling(b), ';');
        reveal_strlit("ns=");
        assert(p.skip(3) == text::decimal_text(a.namespace as nat));
        assert(q.skip(3) == text::decimal_text(b.namespace as nat));
        lemma_decimal_unique(a.namespace as nat, b.namespace as nat);
        lemma_bare_unique(a, b);
    } else if !with_a && !with_b {
        lemma_bare_unique(a, b);
    }
}

} // verus!
