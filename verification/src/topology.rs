//! The topology: what is configured of the tags, and which writes are permitted.
use crate::double::Double;
use crate::envelope::{
    AdapterError, AdapterErrorView, ErrorCode, NormalRange, TagDescriptor, TagDescriptorView,
    WriteValue,
};
use crate::envelope;
use crate::json::{Json, JsonView};
use crate::text;
use vstd::prelude::*;

verus! {

/// The range of a tag in the topology.
#[derive(Debug, Clone, Copy, PartialEq, Eq, Structural)]
pub struct TopologyRange {
    pub min: Double,
    pub max: Double,
}

/// A tag in the topology.
#[derive(Debug)]
pub struct TopologyTag {
    pub tag_id: String,
    pub name: String,
    pub description: String,
    pub units: String,
    pub data_type: String,
    pub writable: bool,
    pub process_area: String,
    pub equipment_id: String,
    pub normal_range: Option<TopologyRange>,
}

/// An end of a permitted range, and how it is shown in decimal.
#[derive(Debug)]
pub struct Limit {
    pub at: Double,
    pub shown: String,
}

/// What may be written to a tag.
#[derive(Debug)]
pub struct WritePermission {
    pub min: Option<Limit>,
    pub max: Option<Limit>,
    pub units: Option<String>,
}

/// The configured tags, and the permissions by tag. Of two permissions for one tag the first
/// counts.
#[derive(Debug)]
pub struct TopologyConfig {
    pub tags: Vec<TopologyTag>,
    pub write_permissions: Vec<(String, WritePermission)>,
}

/// The model of a [`TopologyTag`].
pub struct TopologyTagView {
    pub tag_id: Seq<char>,
    pub name: Seq<char>,
    pub description: Seq<char>,
    pub units: Seq<char>,
    pub data_type: Seq<char>,
    pub writable: bool,
    pub process_area: Seq<char>,
    pub equipment_id: Seq<char>,
    pub normal_range: Option<TopologyRange>,
}

impl View for TopologyTag {
    type V = TopologyTagView;

    open spec fn view(&self) -> TopologyTagView {
        TopologyTagView {
            tag_id: self.tag_id@,
            name: self.name@,
            description: self.description@,
            units: self.units@,
            data_type: self.data_type@,
            writable: self.writable,
            process_area: self.process_area@,
            equipment_id: self.equipment_id@,
            normal_range: self.normal_range,
        }
    }
}

/// The model of a [`Limit`].
pub struct LimitView {
    pub at: Double,
    pub shown: Seq<char>,
}

impl View for Limit {
    type V = LimitView;

    open spec fn view(&self) -> LimitView {
        LimitView { at: self.at, shown: self.shown@ }
    }
}

/// The model of a [`WritePermission`].
pub struct WritePermissionView {
    pub min: Option<LimitView>,
    pub max: Option<LimitView>,
    pub units: Option<Seq<char>>,
}

/// The model of an optional limit.
pub open spec fn opt_limit(l: Option<Limit>) -> Option<LimitView> {
    match l {
        Some(x) => Some(x@),
        None => None,
    }
}

impl View for WritePermission {
    type V = WritePermissionView;

    open spec fn view(&self) -> WritePermissionView {
        WritePermissionView {
            min: opt_limit(self.min),
            max: opt_limit(self.max),
            units: envelope::opt_text(self.units),
        }
    }
}

/// The model of a [`TopologyConfig`].
pub struct TopologyConfigView {
    pub tags: Seq<TopologyTagView>,
    pub write_permissions: Map<Seq<char>, WritePermissionView>,
}

/// The permissions by tag; of two for one tag the first counts.
pub open spec fn permissions(entries: Seq<(String, WritePermission)>) -> Map<
    Seq<char>,
    WritePermissionView,
>
    decreases entries.len(),
{
    if entries.len() == 0 {
        Map::empty()
    } else {
        permissions(entries.drop_first()).insert(entries[0].0@, entries[0].1@)
    }
}

impl View for TopologyConfig {
    type V = TopologyConfigView;

    open spec fn view(&self) -> TopologyConfigView {
        TopologyConfigView {
            tags: envelope::views(self.tags@),
            write_permissions: permissions(self.write_permissions@),
        }
    }
}

/// A topology without tags and without permissions.
pub open spec fn empty_topology() -> TopologyConfigView {
    TopologyConfigView { tags: Seq::empty(), write_permissions: Map::empty() }
}

impl Default for TopologyConfig {
    fn default() -> (r: TopologyConfig)
        ensures
            r@ == empty_topology(),
    {
        let r = TopologyConfig { tags: Vec::new(), write_permissions: Vec::new() };
        assert(r@.tags == Seq::<TopologyTagView>::empty());
        r
    }
}

/// The files that may hold the topology, in the order in which they are tried.
pub fn topology_candidates() -> (r: Vec<String>)
    ensures
        text::texts(r@) == seq!["topology.yaml"@, "topology.yml"@, "../topology.yaml"@],
{
    let mut r: Vec<String> = Vec::new();
    r.push("topology.yaml".to_owned());
    r.push("topology.yml".to_owned());
    r.push("../topology.yaml".to_owned());
    assert(text::texts(r@) == seq!["topology.yaml"@, "topology.yml"@, "../topology.yaml"@]);
    r
}

/// The first topology that could be read and parsed, of those tried; the empty one if none could.
pub open spec fn first_loaded(tried: Seq<Option<TopologyConfig>>) -> TopologyConfigView
    decreases tried.len(),
{
    if tried.len() == 0 {
        empty_topology()
    } else {
        match tried[0] {
            Some(c) => c@,
            None => first_loaded(tried.drop_first()),
        }
    }
}

/// Picks the topology. `tried` holds, for each candidate file in turn, what was read from it;
/// `None` where it could not be read or parsed.
pub fn load_topology(tried: Vec<Option<TopologyConfig>>) -> (r: TopologyConfig)
    ensures
        r@ == first_loaded(tried@),
{
    let mut found: Option<TopologyConfig> = None;
    let mut rest: Vec<Option<TopologyConfig>> = tried;
    let ghost all = tried@;
    assert(all.take(all.len() as int) == all);
    assert(all.skip(all.len() as int) == Seq::<Option<TopologyConfig>>::empty());
    while rest.len() > 0
        invariant
            rest@.len() <= all.len(),
            rest@ == all.take(rest@.len() as int),
            first_loaded(all.skip(rest@.len() as int)) == match found {
                Some(c) => c@,
                None => empty_topology(),
            },
        decreases rest.len(),
    {
        let ghost n = rest@.len() as int;
        assert(all.skip(n - 1).drop_first() == all.skip(n));
        assert(all.skip(n - 1)[0] == rest@[n - 1]);
        let last: Option<Option<TopologyConfig>> = rest.pop();
        if let Some(Some(c)) = last {
            found = Some(c);
        }
        assert(rest@ == all.take(n - 1));
    }
    assert(all.skip(0) == all);
    match found {
        Some(c) => c,
        None => TopologyConfig::default(),
    }
}

/// The descriptor of a configured tag.
pub open spec fn descriptor_of(t: TopologyTagView) -> TagDescriptorView {
    TagDescriptorView {
        tag_id: t.tag_id,
        name: t.name,
        description: t.description,
        units: t.units,
        data_type: t.data_type,
        writable: t.writable,
        process_area: t.process_area,
        equipment_id: t.equipment_id,
        normal_range: match t.normal_range {
            Some(r) => Some(NormalRange { min: r.min, max: r.max }),
            None => None,
        },
    }
}

/// The descriptor of a configured tag.
pub fn topology_tag_to_descriptor(t: &TopologyTag) -> (r: TagDescriptor)
    ensures
        r@ == descriptor_of(t@),
{
    TagDescriptor {
        tag_id: t.tag_id.clone(),
        name: t.name.clone(),
        description: t.description.clone(),
        units: t.units.clone(),
        data_type: t.data_type.clone(),
        writable: t.writable,
        process_area: t.process_area.clone(),
        equipment_id: t.equipment_id.clone(),
        normal_range: match &t.normal_range {
            Some(r) => Some(NormalRange { min: r.min, max: r.max }),
            None => None,
        },
    }
}

/// The units of the first tag called `tag_id`; none if there is no such tag.
pub open spec fn units_of(tags: Seq<TopologyTagView>, tag_id: Seq<char>) -> Seq<char>
    decreases tags.len(),
{
    if tags.len() == 0 {
        Seq::empty()
    } else if tags[0].tag_id == tag_id {
        tags[0].units
    } else {
        units_of(tags.drop_first(), tag_id)
    }
}

/// The units of the first tag called `tag_id`; none if there is no such tag.
pub fn tag_units(topology: &TopologyConfig, tag_id: &str) -> (r: String)
    ensures
        r@ == units_of(topology@.tags, tag_id@),
{
    let ghost all = topology@.tags;
    let mut i: usize = 0;
    assert(all.skip(0) == all);
    while i < topology.tags.len()
        invariant
            i <= topology.tags.len(),
            all == topology@.tags,
            units_of(all.skip(i as int), tag_id@) == units_of(all, tag_id@),
        decreases topology.tags.len() - i,
    {
        assert(all.skip(i as int)[0] == topology.tags@[i as int]@);
        if text::same(topology.tags[i].tag_id.as_str(), tag_id) {
            return topology.tags[i].units.clone();
        }
        assert(all.skip(i as int).drop_first() == all.skip(i + 1));
        i = i + 1;
    }
    String::new()
}

/// The permission to write a tag.
pub fn permission<'a>(topology: &'a TopologyConfig, tag_id: &str) -> (r: Option<&'a WritePermission>)
    ensures
        match r {
            Some(p) => topology@.write_permissions.contains_key(tag_id@)
                && topology@.write_permissions[tag_id@] == p@,
            None => !topology@.write_permissions.contains_key(tag_id@),
        },
{
    let ghost all = topology.write_permissions@;
    let mut i: usize = 0;
    assert(all.skip(0) == all);
    while i < topology.write_permissions.len()
        invariant
            i <= topology.write_permissions.len(),
            all == topology.write_permissions@,
            permissions(all.skip(i as int)).contains_key(tag_id@) == permissions(all).contains_key(
                tag_id@,
            ),
            permissions(all.skip(i as int)).contains_key(tag_id@) ==> permissions(
                all.skip(i as int),
            )[tag_id@] == permissions(all)[tag_id@],
        decreases topology.write_permissions.len() - i,
    {
        assert(all.skip(i as int)[0] == all[i as int]);
        assert(all.skip(i as int).drop_first() == all.skip(i + 1));
        if text::same(topology.write_permissions[i].0.as_str(), tag_id) {
            return Some(&topology.write_permissions[i].1);
        }
        i = i + 1;
    }
    None
}

/// Whether a tag passes the filters: an absent filter lets every tag pass.
pub open spec fn passes(
    t: TagDescriptorView,
    process_area: Option<Seq<char>>,
    equipment_id: Option<Seq<char>>,
) -> bool {
    &&& process_area matches Some(a) ==> t.process_area == a
    &&& equipment_id matches Some(e) ==> t.equipment_id == e
}

/// The tags that pass the filters, in their order.
pub open spec fn selected(
    tags: Seq<TagDescriptorView>,
    process_area: Option<Seq<char>>,
    equipment_id: Option<Seq<char>>,
) -> Seq<TagDescriptorView> {
    tags.filter(|t: TagDescriptorView| passes(t, process_area, equipment_id))
}

/// The descriptors of the configured tags, in their order.
pub open spec fn described(tags: Seq<TopologyTagView>) -> Seq<TagDescriptorView> {
    tags.map_values(|t: TopologyTagView| descriptor_of(t))
}

fn admits(filter: &Option<String>, value: &String) -> (r: bool)
    ensures
        r == (envelope::opt_text(*filter) matches Some(f) ==> value@ == f),
{
    match filter {
        Some(f) => *f == *value,
        None => true,
    }
}

/// Keeps the tags that pass the filters.
pub fn select_tags(
    tags: Vec<TagDescriptor>,
    process_area: &Option<String>,
    equipment_id: &Option<String>,
) -> (r: Vec<TagDescriptor>)
    ensures
        envelope::views(r@) == selected(
            envelope::views(tags@),
            envelope::opt_text(*process_area),
            envelope::opt_text(*equipment_id),
        ),
{
    let ghost area = envelope::opt_text(*process_area);
    let ghost equipment = envelope::opt_text(*equipment_id);
    let ghost all = envelope::views(tags@);
    let ghost pred = |t: TagDescriptorView| passes(t, area, equipment);
    let mut kept: Vec<TagDescriptor> = Vec::new();
    assert(all.take(0).filter(pred) == Seq::<TagDescriptorView>::empty()) by {
        reveal(Seq::filter);
    }
    assert(envelope::views(kept@) == Seq::<TagDescriptorView>::empty());
    let mut i: usize = 0;
    while i < tags.len()
        invariant
            i <= tags.len(),
            all == envelope::views(tags@),
            area == envelope::opt_text(*process_area),
            equipment == envelope::opt_text(*equipment_id),
            pred == (|t: TagDescriptorView| passes(t, area, equipment)),
            envelope::views(kept@) == all.take(i as int).filter(pred),
        decreases tags.len() - i,
    {
        let t: &TagDescriptor = &tags[i];
        proof {
            reveal(Seq::filter);
            assert(all.take(i + 1).drop_last() == all.take(i as int));
            assert(all.take(i + 1).last() == t@);
        }
        if admits(process_area, &t.process_area) && admits(equipment_id, &t.equipment_id) {
            let ghost was = kept@;
            let copy: TagDescriptor = copy_descriptor(t);
            kept.push(copy);
            proof {
                assert(envelope::views(kept@) == envelope::views(was).push(t@));
            }
        }
        i = i + 1;
    }
    assert(all.take(all.len() as int) == all);
    kept
}

fn copy_descriptor(t: &TagDescriptor) -> (r: TagDescriptor)
    ensures
        r@ == t@,
{
    TagDescriptor {
        tag_id: t.tag_id.clone(),
        name: t.name.clone(),
        description: t.description.clone(),
        units: t.units.clone(),
        data_type: t.data_type.clone(),
        writable: t.writable,
        process_area: t.process_area.clone(),
        equipment_id: t.equipment_id.clone(),
        normal_range: t.normal_range,
    }
}

/// The descriptors of the configured tags.
pub fn describe_tags(topology: &TopologyConfig) -> (r: Vec<TagDescriptor>)
    ensures
        envelope::views(r@) == described(topology@.tags),
{
    let mut r: Vec<TagDescriptor> = Vec::new();
    let mut i: usize = 0;
    while i < topology.tags.len()
        invariant
            i <= topology.tags.len(),
            r@.len() == i,
            forall|j: int| 0 <= j < i ==> (#[trigger] r@[j])@ == descriptor_of(topology.tags@[j]@),
        decreases topology.tags.len() - i,
    {
        r.push(topology_tag_to_descriptor(&topology.tags[i]));
        i = i + 1;
    }
    assert(envelope::views(r@) == described(topology@.tags));
    r
}

/// Lists the configured tags that pass the filters.
pub fn discover_tags(
    topology: &TopologyConfig,
    process_area: &Option<String>,
    equipment_id: &Option<String>,
) -> (r: Vec<TagDescriptor>)
    ensures
        envelope::views(r@) == selected(
            described(topology@.tags),
            envelope::opt_text(*process_area),
            envelope::opt_text(*equipment_id),
        ),
{
    select_tags(describe_tags(topology), process_area, equipment_id)
}

/// A descriptor without its extended metadata: description and normal range.
pub open spec fn bare(t: TagDescriptorView) -> TagDescriptorView {
    TagDescriptorView { description: Seq::empty(), normal_range: None, ..t }
}

/// The descriptors as asked for: with their extended metadata unless that is declined.
pub open spec fn as_asked(tags: Seq<TagDescriptorView>, include_metadata: Option<bool>) -> Seq<
    TagDescriptorView,
> {
    if include_metadata == Some(false) {
        tags.map_values(|t: TagDescriptorView| bare(t))
    } else {
        tags
    }
}

/// Takes the extended metadata out of the descriptors if it is declined.
pub fn apply_metadata_choice(tags: Vec<TagDescriptor>, include_metadata: Option<bool>) -> (r: Vec<
    TagDescriptor,
>)
    ensures
        envelope::views(r@) == as_asked(envelope::views(tags@), include_metadata),
{
    match include_metadata {
        Some(false) => {},
        _ => {
            return tags;
        },
    }
    let mut r: Vec<TagDescriptor> = Vec::new();
    let mut i: usize = 0;
    while i < tags.len()
        invariant
            i <= tags.len(),
            r@.len() == i,
            forall|j: int| 0 <= j < i ==> (#[trigger] r@[j])@ == bare(tags@[j]@),
        decreases tags.len() - i,
    {
        let mut t: TagDescriptor = copy_descriptor(&tags[i]);
        t.description = String::new();
        t.normal_range = None;
        r.push(t);
        i = i + 1;
    }
    assert(envelope::views(r@) == as_asked(envelope::views(tags@), include_metadata));
    r
}

/// The message on a value below the permitted range.
pub open spec fn below_message(shown: Seq<char>, limit: Seq<char>) -> Seq<char> {
    "Value "@ + shown + " is below the configured minimum "@ + limit + "."@
}

/// The message on a value above the permitted range.
pub open spec fn above_message(shown: Seq<char>, limit: Seq<char>) -> Seq<char> {
    "Value "@ + shown + " exceeds the configured maximum "@ + limit + "."@
}

/// The message on units other than the configured ones.
pub open spec fn units_message(expected: Seq<char>, got: Seq<char>) -> Seq<char> {
    "Units mismatch: expected '"@ + expected + "', got '"@ + got + "'."@
}

/// The message on a value that is neither a number nor a boolean.
pub open spec fn kind_message() -> Seq<char> {
    "write_tag value must be a number or boolean. String values are not writable."@
}

/// The value that a document asks to write, as far as the permitted range goes.
pub open spec fn in_range(
    perm: WritePermissionView,
    value: JsonView,
    shown: Seq<char>,
    tag_id: Seq<char>,
) -> Result<WriteValue, AdapterErrorView> {
    match value.number() {
        Some(f) => if perm.min is Some && f.below(perm.min->0.at) {
            Err(
                envelope::tag_error(
                    ErrorCode::InvalidValue,
                    below_message(shown, perm.min->0.shown),
                    tag_id,
                ),
            )
        } else if perm.max is Some && perm.max->0.at.below(f) {
            Err(
                envelope::tag_error(
                    ErrorCode::InvalidValue,
                    above_message(shown, perm.max->0.shown),
                    tag_id,
                ),
            )
        } else {
            Ok(WriteValue::Float(f))
        },
        None => match value.boolean() {
            Some(b) => Ok(WriteValue::Bool(b)),
            None => Err(envelope::tag_error(ErrorCode::InvalidValue, kind_message(), tag_id)),
        },
    }
}

/// Whether `units` are the configured ones. Where none are configured, any will do.
pub open spec fn units_fit(perm: WritePermissionView, units: Seq<char>) -> bool {
    perm.units matches Some(u) ==> u.len() == 0 || u == units
}

/// The value that may be written, or why it may not.
pub open spec fn validated(
    perm: WritePermissionView,
    value: JsonView,
    shown: Seq<char>,
    units: Seq<char>,
    tag_id: Seq<char>,
) -> Result<WriteValue, AdapterErrorView> {
    match in_range(perm, value, shown, tag_id) {
        Err(e) => Err(e),
        Ok(v) => if units_fit(perm, units) {
            Ok(v)
        } else {
            Err(
                envelope::tag_error(
                    ErrorCode::InvalidValue,
                    units_message(perm.units->0, units),
                    tag_id,
                ),
            )
        },
    }
}

fn check_range(perm: &WritePermission, value: &Json, shown: &str, tag_id: &str) -> (r: Result<
    WriteValue,
    AdapterError,
>)
    ensures
        envelope::outcome(r) == in_range(perm@, value@, shown@, tag_id@),
{
    if let Some(f) = value.as_f64() {
        if let Some(min) = &perm.min {
            if f.less_than(&min.at) {
                let m: String = text::cat5(
                    "Value ",
                    shown,
                    " is below the configured minimum ",
                    min.shown.as_str(),
                    ".",
                );
                return Err(AdapterError::on_tag(ErrorCode::InvalidValue, m, tag_id));
            }
        }
        if let Some(max) = &perm.max {
            if max.at.less_than(&f) {
                let m: String = text::cat5(
                    "Value ",
                    shown,
                    " exceeds the configured maximum ",
                    max.shown.as_str(),
                    ".",
                );
                return Err(AdapterError::on_tag(ErrorCode::InvalidValue, m, tag_id));
            }
        }
        Ok(WriteValue::Float(f))
    } else if let Some(b) = value.as_bool() {
        Ok(WriteValue::Bool(b))
    } else {
        let m: String =
            "write_tag value must be a number or boolean. String values are not writable.".to_owned();
        Err(AdapterError::on_tag(ErrorCode::InvalidValue, m, tag_id))
    }
}

/// Checks a value against what may be written to a tag. `shown` is the value's number in decimal,
/// for the message.
pub fn validate_write(
    perm: &WritePermission,
    value: &Json,
    shown: &str,
    units: &str,
    tag_id: &str,
) -> (r: Result<WriteValue, AdapterError>)
    ensures
        envelope::outcome(r) == validated(perm@, value@, shown@, units@, tag_id@),
{
    match check_range(perm, value, shown, tag_id) {
        Err(e) => Err(e),
        Ok(v) => {
            if let Some(u) = &perm.units {
                if !u.as_str().is_empty() && !text::same(u.as_str(), units) {
                    let m: String = text::cat5(
                        "Units mismatch: expected '",
                        u.as_str(),
                        "', got '",
                        units,
                        "'.",
                    );
                    return Err(AdapterError::on_tag(ErrorCode::InvalidValue, m, tag_id));
                }
            }
            Ok(v)
        },
    }
}

/// A value that may be written lies within the permitted range, has fitting units, and is what the
/// document holds.
pub proof fn law_validated_in_range(
    perm: WritePermissionView,
    value: JsonView,
    shown: Seq<char>,
    units: Seq<char>,
    tag_id: Seq<char>,
)
    requires
        validated(perm, value, shown, units, tag_id) is Ok,
    ensures
        units_fit(perm, units),
        match validated(perm, value, shown, units, tag_id)->Ok_0 {
            WriteValue::Float(f) => {
                &&& value.number() == Some(f)
                &&& perm.min matches Some(l) ==> !f.below(l.at)
                &&& perm.max matches Some(l) ==> !l.at.below(f)
            },
            WriteValue::Bool(b) => value.number() is None && value.boolean() == Some(b),
        },
{
}

/// A document that is neither a number nor a boolean is never writable.
pub proof fn law_texts_are_not_writable(
    perm: WritePermissionView,
    value: JsonView,
    shown: Seq<char>,
    units: Seq<char>,
    tag_id: Seq<char>,
)
    requires
        !(value is Number) && !(value is Bool),
    ensures
        validated(perm, value, shown, units, tag_id) == Err::<WriteValue, AdapterErrorView>(
            envelope::tag_error(ErrorCode::InvalidValue, kind_message(), tag_id),
        ),
{
}

/// Discovery without filters lists every configured tag.
pub proof fn law_no_filter_lists_all(tags: Seq<TopologyTagView>)
    ensures
        selected(described(tags), None, None) == described(tags),
{
    let pred = |t: TagDescriptorView| passes(t, None, None);
    lemma_filter_all(described(tags), pred);
}

proof fn lemma_filter_all(s: Seq<TagDescriptorView>, pred: spec_fn(TagDescriptorView) -> bool)
    requires
        forall|t: TagDescriptorView| #[trigger] pred(t),
    ensures
        s.filter(pred) == s,
    decreases s.len(),
{
    reveal(Seq::filter);
    if s.len() > 0 {
        lemma_filter_all(s.drop_last(), pred);
        assert(pred(s.last()));
    }
}

} // verus!
