//! What the adapters share and keep to: permissions, units, filters, audit entries and texts.
use crate::double;
use crate::double::Double;
use crate::envelope;
use crate::envelope::{
    AdapterError, ErrorCode, NormalRange, Quality, TagDescriptor, TagValue, WriteConfirmation,
    WriteValue,
};
use crate::json;
use crate::json::{Json, JsonView, Number};
use crate::text;
use crate::tools;
use crate::topology;
use crate::topology::{
    TopologyConfig, TopologyTag, TopologyTagView, WritePermission, WritePermissionView,
};
use crate::writing;
use crate::writing::{AuditEntry, Disconnected, WriteRequest, Written};
use vstd::prelude::*;

verus! {

/// The models of items are the items' models, one by one.
pub proof fn lemma_views<T: View>(s: Seq<T>)
    ensures
        envelope::views(s).len() == s.len(),
        forall|i: int| 0 <= i < s.len() ==> #[trigger] envelope::views(s)[i] == s[i]@,
{
}

/// The member of the options called `key`.
pub open spec fn option_named(options: Option<Json>, key: Seq<char>) -> Option<JsonView> {
    match options {
        Some(o) => match o@ {
            JsonView::Object(m) => if m.contains_key(key) {
                Some(m[key])
            } else {
                None
            },
            _ => None,
        },
        None => None,
    }
}

/// Whether the units of a write are those that the permission asks for, if it asks for any.
pub open spec fn has_units(perm: WritePermission, units: Seq<char>) -> bool {
    perm.units is None || perm.units->0@.len() == 0 || perm.units->0@ == units
}

/// Whether a number lies between the ends of the permitted range, as far as it has ends. Infinities
/// lie past every number; a NaN is on neither side of anything.
pub open spec fn lies_within(perm: WritePermission, f: Double) -> bool {
    &&& perm.min matches Some(l) ==> l.at.nan() || f.nan() || l.at.value() <= f.value()
    &&& perm.max matches Some(l) ==> l.at.nan() || f.nan() || f.value() <= l.at.value()
}

/// Whether a value to write is what a document holds: a boolean, a number as it is, an integer as the
/// same number where binary64 can hold it.
pub open spec fn is_document(value: Json, v: WriteValue) -> bool {
    match (value, v) {
        (Json::Bool(b), WriteValue::Bool(x)) => x == b,
        (Json::Number(Number::Float(d)), WriteValue::Float(f)) => f == d,
        (Json::Number(Number::Unsigned(n)), WriteValue::Float(f)) => n < 2 * double::LEAD
            ==> f.is_integer(n as int),
        (Json::Number(Number::Negative(n)), WriteValue::Float(f)) => -2 * double::LEAD < n < 2
            * double::LEAD ==> f.is_integer(n as int),
        _ => false,
    }
}

/// What a document holds as a binary64 number, or as a boolean, is what the document holds.
pub proof fn lemma_document(value: Json, v: WriteValue)
    requires
        v matches WriteValue::Float(f) ==> value@.number() == Some(f),
        v matches WriteValue::Bool(b) ==> value@.boolean() == Some(b),
    ensures
        is_document(value, v),
{
    if let Json::Number(Number::Unsigned(n)) = value {
        if n < 2 * double::LEAD {
            double::lemma_of_integer_exact(n as int);
        }
    }
    if let Json::Number(Number::Negative(n)) = value {
        if -2 * double::LEAD < n < 2 * double::LEAD {
            double::lemma_of_integer_exact(n as int);
        }
    }
}

/// A write is let through exactly if its document is a boolean, or a number between the ends of the
/// permitted range, and its units are the configured ones, where any are configured. What is let
/// through is what the document holds. What is not is an invalid value for the tag.
pub proof fn law_validated_writes(
    perm: &WritePermission,
    value: &Json,
    shown: &str,
    units: &str,
    tag_id: &str,
    r: Result<WriteValue, AdapterError>,
)
    requires
        call_ensures(topology::validate_write, (perm, value, shown, units, tag_id), r),
    ensures
        r matches Ok(v) ==> {
            &&& has_units(*perm, units@)
            &&& is_document(*value, v)
            &&& v matches WriteValue::Float(f) ==> lies_within(*perm, f)
        },
        r matches Err(e) ==> {
            &&& e.code == ErrorCode::InvalidValue
            &&& e.tag_id is Some && e.tag_id->0@ == tag_id@
            &&& value is Bool ==> !has_units(*perm, units@)
            &&& *value matches Json::Number(Number::Float(f)) ==> !has_units(*perm, units@)
                || !lies_within(*perm, f)
        },
{
    if let Ok(v) = r {
        lemma_document(*value, v);
    }
}

/// A write with units other than the configured ones is refused, whatever else it asks for.
pub proof fn law_other_units_are_refused(
    perm: &WritePermission,
    value: &Json,
    shown: &str,
    units: &str,
    tag_id: &str,
    r: Result<WriteValue, AdapterError>,
)
    requires
        call_ensures(topology::validate_write, (perm, value, shown, units, tag_id), r),
        perm.units is Some,
        perm.units->0@.len() > 0,
        perm.units->0@ != units@,
    ensures
        r is Err,
        r->Err_0.code == ErrorCode::InvalidValue,
{
}

/// A write that is permitted under a permission with units has exactly those units.
pub proof fn law_permitted_units(
    perm: WritePermissionView,
    value: JsonView,
    shown: Seq<char>,
    units: Seq<char>,
    tag_id: Seq<char>,
    u: Seq<char>,
)
    requires
        topology::validated(perm, value, shown, units, tag_id) is Ok,
        perm.units == Some(u),
        u.len() > 0,
    ensures
        u == units,
{
}

proof fn lemma_permission_at(entries: Seq<(String, WritePermission)>, i: int, tag_id: Seq<char>)
    requires
        0 <= i < entries.len(),
        entries[i].0@ == tag_id,
        forall|j: int| 0 <= j < i ==> (#[trigger] entries[j]).0@ != tag_id,
    ensures
        topology::permissions(entries).contains_key(tag_id),
        topology::permissions(entries)[tag_id] == entries[i].1@,
    decreases entries.len(),
{
    if i > 0 {
        let rest = entries.drop_first();
        assert(entries[0].0@ != tag_id);
        assert forall|j: int| 0 <= j < i - 1 implies (#[trigger] rest[j]).0@ != tag_id by {
            assert(rest[j] == entries[j + 1]);
        }
        lemma_permission_at(rest, i - 1, tag_id);
    }
}

proof fn lemma_no_permission(entries: Seq<(String, WritePermission)>, tag_id: Seq<char>)
    requires
        forall|j: int| 0 <= j < entries.len() ==> (#[trigger] entries[j]).0@ != tag_id,
    ensures
        !topology::permissions(entries).contains_key(tag_id),
    decreases entries.len(),
{
    if entries.len() > 0 {
        let rest = entries.drop_first();
        assert(entries[0].0@ != tag_id);
        assert forall|j: int| 0 <= j < rest.len() implies (#[trigger] rest[j]).0@ != tag_id by {
            assert(rest[j] == entries[j + 1]);
        }
        lemma_no_permission(rest, tag_id);
    }
}

/// The permission of a tag is the first one that is configured for it; a tag for which none is
/// configured has none.
pub proof fn law_first_permission_counts(config: TopologyConfig, tag_id: Seq<char>)
    ensures
        config@.write_permissions.contains_key(tag_id) <==> exists|i: int|
            0 <= i < config.write_permissions@.len() && (
            #[trigger] config.write_permissions@[i]).0@ == tag_id,
        forall|i: int|
            {
                &&& 0 <= i < config.write_permissions@.len()
                &&& (#[trigger] config.write_permissions@[i]).0@ == tag_id
                &&& forall|j: int|
                    0 <= j < i ==> (#[trigger] config.write_permissions@[j]).0@ != tag_id
            } ==> config@.write_permissions[tag_id] == config.write_permissions@[i].1@,
{
    let entries = config.write_permissions@;
    assert forall|i: int|
        {
            &&& 0 <= i < entries.len()
            &&& (#[trigger] entries[i]).0@ == tag_id
            &&& forall|j: int| 0 <= j < i ==> (#[trigger] entries[j]).0@ != tag_id
        } implies config@.write_permissions.contains_key(tag_id)
        && config@.write_permissions[tag_id] == entries[i].1@ by {
        lemma_permission_at(entries, i, tag_id);
    }
    if exists|i: int| 0 <= i < entries.len() && (#[trigger] entries[i]).0@ == tag_id {
        let i = choose|i: int| 0 <= i < entries.len() && (#[trigger] entries[i]).0@ == tag_id;
        lemma_some_first(entries, i, tag_id);
    } else {
        lemma_no_permission(entries, tag_id);
    }
}

proof fn lemma_some_first(entries: Seq<(String, WritePermission)>, i: int, tag_id: Seq<char>)
    requires
        0 <= i < entries.len(),
        entries[i].0@ == tag_id,
    ensures
        topology::permissions(entries).contains_key(tag_id),
    decreases i,
{
    if forall|j: int| 0 <= j < i ==> (#[trigger] entries[j]).0@ != tag_id {
        lemma_permission_at(entries, i, tag_id);
    } else {
        let j = choose|j: int| 0 <= j < i && (#[trigger] entries[j]).0@ == tag_id;
        lemma_some_first(entries, j, tag_id);
    }
}

proof fn lemma_units_at(tags: Seq<TopologyTagView>, i: int, tag_id: Seq<char>)
    requires
        0 <= i <= tags.len(),
        i < tags.len() ==> tags[i].tag_id == tag_id,
        forall|j: int| 0 <= j < i ==> (#[trigger] tags[j]).tag_id != tag_id,
    ensures
        topology::units_of(tags, tag_id) == if i < tags.len() {
            tags[i].units
        } else {
            Seq::empty()
        },
    decreases tags.len(),
{
    if i > 0 {
        let rest = tags.drop_first();
        assert(tags[0].tag_id != tag_id);
        assert forall|j: int| 0 <= j < i - 1 implies (#[trigger] rest[j]).tag_id != tag_id by {
            assert(rest[j] == tags[j + 1]);
        }
        lemma_units_at(rest, i - 1, tag_id);
    }
}

/// The units of a tag are those of the first configured tag of that name, and empty if none has it:
/// `i` is the place of that tag, or past the end.
pub proof fn law_units_are_the_configured_ones(
    config: &TopologyConfig,
    tag_id: &str,
    r: String,
    i: int,
)
    requires
        call_ensures(topology::tag_units, (config, tag_id), r),
        0 <= i <= config.tags@.len(),
        i < config.tags@.len() ==> config.tags@[i].tag_id@ == tag_id@,
        forall|j: int| 0 <= j < i ==> (#[trigger] config.tags@[j]).tag_id@ != tag_id@,
    ensures
        i < config.tags@.len() ==> r@ == config.tags@[i].units@,
        i == config.tags@.len() ==> r@.len() == 0,
{
    let tags = config@.tags;
    lemma_views(config.tags@);
    assert forall|j: int| 0 <= j < i implies (#[trigger] tags[j]).tag_id != tag_id@ by {
        assert(config.tags@[j].tag_id@ != tag_id@);
    }
    lemma_units_at(tags, i, tag_id@);
}

proof fn lemma_loaded_at(tried: Seq<Option<TopologyConfig>>, i: int)
    requires
        0 <= i <= tried.len(),
        i < tried.len() ==> tried[i] is Some,
        forall|j: int| 0 <= j < i ==> (#[trigger] tried[j]) is None,
    ensures
        i < tried.len() ==> topology::first_loaded(tried) == tried[i]->0@,
        i == tried.len() ==> topology::first_loaded(tried).tags.len() == 0,
        i == tried.len() ==> forall|tag_id: Seq<char>|
            !(#[trigger] topology::first_loaded(tried).write_permissions.contains_key(tag_id)),
    decreases tried.len(),
{
    if i > 0 {
        let rest = tried.drop_first();
        assert(tried[0] is None);
        assert forall|j: int| 0 <= j < i - 1 implies (#[trigger] rest[j]) is None by {
            assert(rest[j] == tried[j + 1]);
        }
        lemma_loaded_at(rest, i - 1);
    }
}

/// The topology is the first one that could be loaded; if none could, it has no tags and permits no
/// writes: `i` is the place of that topology, or past the end.
pub proof fn law_first_topology_counts(
    tried: Vec<Option<TopologyConfig>>,
    r: TopologyConfig,
    i: int,
)
    requires
        call_ensures(topology::load_topology, (tried,), r),
        0 <= i <= tried@.len(),
        i < tried@.len() ==> tried@[i] is Some,
        forall|j: int| 0 <= j < i ==> (#[trigger] tried@[j]) is None,
    ensures
        i < tried@.len() ==> r@ == tried@[i]->0@,
        i == tried@.len() ==> r@.tags.len() == 0,
        i == tried@.len() ==> forall|tag_id: Seq<char>|
            !(#[trigger] r@.write_permissions.contains_key(tag_id)),
{
    lemma_loaded_at(tried@, i);
}

/// Whether a descriptor tells of a configured tag all that is configured.
pub open spec fn describes(t: TopologyTag, d: TagDescriptor) -> bool {
    &&& d.tag_id@ == t.tag_id@
    &&& d.name@ == t.name@
    &&& d.description@ == t.description@
    &&& d.units@ == t.units@
    &&& d.data_type@ == t.data_type@
    &&& d.writable == t.writable
    &&& d.process_area@ == t.process_area@
    &&& d.equipment_id@ == t.equipment_id@
    &&& (d.normal_range is Some <==> t.normal_range is Some)
    &&& t.normal_range matches Some(r) ==> d.normal_range == Some(
        NormalRange { min: r.min, max: r.max },
    )
}

/// Every configured tag is described, in its place and with all that is configured of it.
pub proof fn law_tags_are_described(config: &TopologyConfig, r: Vec<TagDescriptor>)
    requires
        call_ensures(topology::describe_tags, (config,), r),
    ensures
        r@.len() == config.tags@.len(),
        forall|i: int| 0 <= i < r@.len() ==> describes(config.tags@[i], #[trigger] r@[i]),
{
    lemma_views(r@);
    lemma_views(config.tags@);
    assert(topology::described(config@.tags).len() == config.tags@.len());
    assert forall|i: int| 0 <= i < r@.len() implies describes(
        config.tags@[i],
        #[trigger] r@[i],
    ) by {
        assert(envelope::views(r@)[i] == topology::descriptor_of(config@.tags[i]));
        assert(config@.tags[i] == config.tags@[i]@);
        assert(r@[i]@ == topology::descriptor_of(config.tags@[i]@));
    }
}

/// Whether a tag is in the process area and of the equipment asked for, as far as they are.
pub open spec fn asked_for(
    d: TagDescriptor,
    process_area: Option<String>,
    equipment_id: Option<String>,
) -> bool {
    &&& process_area matches Some(a) ==> d.process_area@ == a@
    &&& equipment_id matches Some(e) ==> d.equipment_id@ == e@
}

/// A filter keeps what is asked for, in its order, and nothing else: it keeps of all tags what it
/// keeps of those before the last one, and then the last one if that is asked for.
pub proof fn law_filters_keep_what_is_asked_for(
    tags: Vec<TagDescriptor>,
    before: Vec<TagDescriptor>,
    process_area: &Option<String>,
    equipment_id: &Option<String>,
    kept: Vec<TagDescriptor>,
    kept_before: Vec<TagDescriptor>,
)
    requires
        tags@.len() > 0,
        before@ == tags@.drop_last(),
        call_ensures(topology::select_tags, (tags, process_area, equipment_id), kept),
        call_ensures(topology::select_tags, (before, process_area, equipment_id), kept_before),
    ensures
        envelope::views(kept@) == if asked_for(tags@.last(), *process_area, *equipment_id) {
            envelope::views(kept_before@).push(tags@.last()@)
        } else {
            envelope::views(kept_before@)
        },
{
    reveal(Seq::filter);
    let all = envelope::views(tags@);
    assert(all.drop_last() == envelope::views(before@));
    assert(all.last() == tags@.last()@);
}

/// A filter keeps nothing of nothing.
pub proof fn law_filters_add_nothing(
    tags: Vec<TagDescriptor>,
    process_area: &Option<String>,
    equipment_id: &Option<String>,
    kept: Vec<TagDescriptor>,
)
    requires
        tags@.len() == 0,
        call_ensures(topology::select_tags, (tags, process_area, equipment_id), kept),
    ensures
        kept@.len() == 0,
{
    reveal(Seq::filter);
    lemma_views(kept@);
    assert(envelope::views(tags@) == Seq::<envelope::TagDescriptorView>::empty());
}

/// Discovery is a filter on the descriptions of all configured tags.
pub proof fn law_discovery_filters_the_configured_tags(
    config: &TopologyConfig,
    process_area: &Option<String>,
    equipment_id: &Option<String>,
    all: Vec<TagDescriptor>,
    found: Vec<TagDescriptor>,
    kept: Vec<TagDescriptor>,
)
    requires
        call_ensures(topology::describe_tags, (config,), all),
        call_ensures(topology::select_tags, (all, process_area, equipment_id), kept),
        call_ensures(topology::discover_tags, (config, process_area, equipment_id), found),
    ensures
        envelope::views(found@) == envelope::views(kept@),
{
}

/// Metadata is left out only where it is declined, and then only the description and the normal
/// range of each tag are.
pub proof fn law_metadata_is_left_out_if_declined(
    tags: Vec<TagDescriptor>,
    include_metadata: Option<bool>,
    r: Vec<TagDescriptor>,
)
    requires
        call_ensures(topology::apply_metadata_choice, (tags, include_metadata), r),
    ensures
        r@.len() == tags@.len(),
        include_metadata != Some(false) ==> envelope::views(r@) == envelope::views(tags@),
        include_metadata == Some(false) ==> forall|i: int|
            0 <= i < r@.len() ==> {
                &&& (#[trigger] r@[i]).tag_id@ == tags@[i].tag_id@
                &&& r@[i].name@ == tags@[i].name@
                &&& r@[i].units@ == tags@[i].units@
                &&& r@[i].data_type@ == tags@[i].data_type@
                &&& r@[i].writable == tags@[i].writable
                &&& r@[i].process_area@ == tags@[i].process_area@
                &&& r@[i].equipment_id@ == tags@[i].equipment_id@
                &&& r@[i].description@.len() == 0
                &&& r@[i].normal_range is None
            },
{
    lemma_views(r@);
    lemma_views(tags@);
    let asked = topology::as_asked(envelope::views(tags@), include_metadata);
    assert(asked.len() == tags@.len());
    if include_metadata == Some(false) {
        assert forall|i: int| 0 <= i < r@.len() implies {
            &&& (#[trigger] r@[i]).tag_id@ == tags@[i].tag_id@
            &&& r@[i].name@ == tags@[i].name@
            &&& r@[i].units@ == tags@[i].units@
            &&& r@[i].data_type@ == tags@[i].data_type@
            &&& r@[i].writable == tags@[i].writable
            &&& r@[i].process_area@ == tags@[i].process_area@
            &&& r@[i].equipment_id@ == tags@[i].equipment_id@
            &&& r@[i].description@.len() == 0
            &&& r@[i].normal_range is None
        } by {
            assert(envelope::views(r@)[i] == topology::bare(envelope::views(tags@)[i]));
            assert(r@[i]@ == topology::bare(tags@[i]@));
        }
    }
}

/// An audit entry holds who wrote which value to which tag, in which units and why, and when it was
/// logged.
pub proof fn law_audit_entries_hold_the_request(
    req: WriteRequest,
    logged_at: String,
    e: AuditEntry,
)
    requires
        call_ensures(writing::audit_entry, (req, logged_at), e),
    ensures
        e.timestamp@ == logged_at@,
        e.tag_id@ == req.tag_id@,
        e.value@ == req.value@,
        e.units@ == req.units@,
        e.operator_id@ == req.operator_id@,
        e.reason@ == req.reason@,
{
}

/// A confirmation tells what was written to which tag, in which units, by whom and when; with it
/// goes the audit entry of the same request.
pub proof fn law_confirmations_tell_what_was_written(
    req: WriteRequest,
    written: WriteValue,
    quality: Quality,
    timestamp: String,
    w: Written,
)
    requires
        call_ensures(writing::confirm, (req, written, quality, timestamp), w),
    ensures
        w.confirmation.tag_id@ == req.tag_id@,
        w.confirmation.value_written == written,
        w.confirmation.quality == quality,
        w.confirmation.timestamp@ == timestamp@,
        w.confirmation.units@ == req.units@,
        w.confirmation.operator_id@ == req.operator_id@,
        w.audit.tag_id@ == req.tag_id@,
        w.audit.value@ == req.value@,
        w.audit.units@ == req.units@,
        w.audit.operator_id@ == req.operator_id@,
        w.audit.reason@ == req.reason@,
{
}

/// A write is confirmed, as it was carried out, exactly if its audit entry was appended; otherwise it
/// is an error on its tag.
pub proof fn law_unlogged_writes_are_not_confirmed(
    w: Written,
    appended: bool,
    r: Result<WriteConfirmation, AdapterError>,
)
    requires
        call_ensures(writing::logged, (w, appended), r),
    ensures
        r is Ok <==> appended,
        r matches Ok(c) ==> c@ == w.confirmation@,
        r matches Err(e) ==> e.code == ErrorCode::PermissionDenied && e.tag_id is Some
            && e.tag_id->0@ == w.confirmation.tag_id@,
{
}

/// A disconnect is always answered as one. It is logged exactly if there was a connection and a
/// reason is given, with that reason and the time of the answer.
pub proof fn law_disconnects_are_logged_with_their_reason(
    connected: bool,
    reason: Option<String>,
    timestamp: String,
    d: Disconnected,
)
    requires
        call_ensures(writing::after_disconnect, (connected, reason, timestamp), d),
    ensures
        d.response.disconnected,
        d.response.timestamp@ == timestamp@,
        d.audit is Some <==> connected && reason is Some,
        d.audit matches Some(e) ==> e.reason@ == reason->0@ && e.timestamp@ == timestamp@,
{
}

proof fn lemma_trim_start(s: Seq<char>) -> (n: int)
    ensures
        0 <= n <= s.len(),
        text::trim_start(s) == s.skip(n),
        forall|i: int| 0 <= i < n ==> text::white_space(#[trigger] s[i]),
        n < s.len() ==> !text::white_space(s[n]),
    decreases s.len(),
{
    if s.len() > 0 && text::white_space(s[0]) {
        let rest = s.drop_first();
        let n = lemma_trim_start(rest);
        assert forall|i: int| 0 <= i < n + 1 implies text::white_space(#[trigger] s[i]) by {
            if i > 0 {
                assert(s[i] == rest[i - 1]);
            }
        }
        assert(rest.skip(n) == s.skip(n + 1));
        if n < rest.len() {
            assert(s[n + 1] == rest[n]);
        }
        n + 1
    } else {
        assert(s.skip(0) == s);
        0
    }
}

proof fn lemma_trim_end(s: Seq<char>) -> (n: int)
    ensures
        0 <= n <= s.len(),
        text::trim_end(s) == s.take(n),
        forall|i: int| n <= i < s.len() ==> text::white_space(#[trigger] s[i]),
        n > 0 ==> !text::white_space(s[n - 1]),
    decreases s.len(),
{
    if s.len() > 0 && text::white_space(s.last()) {
        let rest = s.drop_last();
        let n = lemma_trim_end(rest);
        assert forall|i: int| n <= i < s.len() implies text::white_space(#[trigger] s[i]) by {
            if i < rest.len() {
                assert(s[i] == rest[i]);
            }
        }
        assert(rest.take(n) == s.take(n));
        n
    } else {
        assert(s.take(s.len() as int) == s);
        s.len() as int
    }
}

/// Trimming takes white space off the two ends and nothing else: what is left is a piece of the text
/// that neither starts nor ends with white space, and all around it is white space.
pub proof fn law_trimming_takes_white_space_off_the_ends(s: &str, r: &str) -> (at: (int, int))
    requires
        call_ensures(text::trim, (s,), r),
    ensures
        0 <= at.0 <= at.1 <= s@.len(),
        r@ == s@.subrange(at.0, at.1),
        forall|i: int|
            0 <= i < at.0 || at.1 <= i < s@.len() ==> text::white_space(#[trigger] s@[i]),
        r@.len() > 0 ==> !text::white_space(r@[0]) && !text::white_space(r@.last()),
{
    let a = lemma_trim_start(s@);
    let rest = s@.skip(a);
    let b = lemma_trim_end(rest);
    assert(rest.take(b) == s@.subrange(a, a + b));
    assert forall|i: int|
        0 <= i < a || a + b <= i < s@.len() implies text::white_space(#[trigger] s@[i]) by {
        if i >= a + b {
            assert(s@[i] == rest[i - a]);
        }
    }
    if b > 0 {
        assert(rest[0] == s@[a]);
    }
    (a, a + b)
}

/// Lower case changes ASCII capitals to the small letter of the same place in the alphabet, and
/// nothing else.
pub proof fn law_lower_case(s: &str, r: String, i: int)
    requires
        call_ensures(text::ascii_lowercase, (s,), r),
        0 <= i < s@.len(),
    ensures
        r@.len() == s@.len(),
        'A' <= s@[i] <= 'Z' ==> r@[i] as int - 'a' as int == s@[i] as int - 'A' as int,
        !('A' <= s@[i] <= 'Z') ==> r@[i] == s@[i],
{
}

/// Blanks, tabs and line ends are white space; what can be seen of ASCII is not.
pub proof fn law_white_space(c: char)
    ensures
        c == ' ' || c == '\t' || c == '\n' || c == '\r' ==> text::white_space(c),
        '!' <= c <= '~' ==> !text::white_space(c),
{
}

/// A text is split into pieces that do not hold the separator, and that joined by it give the text
/// back.
pub proof fn law_split(s: &str, sep: char, r: Vec<String>)
    requires
        call_ensures(text::split, (s, sep), r),
    ensures
        r@.len() > 0,
        text::join_with(text::texts(r@), sep) == s@,
        forall|i: int| 0 <= i < r@.len() ==> !(#[trigger] r@[i])@.contains(sep),
{
    text::lemma_split_join(s@, sep);
    let pieces = text::split_on(s@, sep);
    assert forall|i: int| 0 <= i < r@.len() implies !(#[trigger] r@[i])@.contains(sep) by {
        assert(pieces[i] == r@[i]@);
    }
}

/// A number in decimal is made of digits, the last of which is its remainder by ten; those before
/// write the tenth of it.
pub proof fn law_decimal(n: u64, r: String)
    requires
        call_ensures(text::decimal, (n,), r),
    ensures
        r@.len() > 0,
        r@.last() as int == '0' as int + n as int % 10,
        n < 10 ==> r@.len() == 1,
        n >= 10 ==> r@.drop_last() == text::decimal_text((n / 10) as nat),
        text::unsigned(r@, n as nat) == Some(n as nat),
{
    text::lemma_decimal_reads_back(n as nat, n as nat);
    if n >= 10 {
        let head = text::decimal_text((n / 10) as nat);
        assert(r@ == head.push(r@.last()));
        assert(r@.drop_last() == head);
    }
}

/// Host and port are written with a colon between them, the port in decimal.
pub proof fn law_host_and_port(host: &str, port: u16, r: String)
    requires
        call_ensures(tools::host_and_port, (host, port), r),
    ensures
        r@ == host@ + ":"@ + text::decimal_text(port as nat),
{
}

/// The nine tools are all listed, the two that the protocol has names for by these.
pub proof fn law_capabilities(explore: &str, dump: &str, r: Vec<String>)
    requires
        call_ensures(tools::capabilities, (explore, dump), r),
    ensures
        r@.len() == 9,
        text::texts(r@).contains(explore@),
        text::texts(r@).contains(dump@),
        text::texts(r@).contains("connect"@),
        text::texts(r@).contains("disconnect"@),
        text::texts(r@).contains("discover_tags"@),
        text::texts(r@).contains("read_tag"@),
        text::texts(r@).contains("read_tag_history"@),
        text::texts(r@).contains("write_tag"@),
        text::texts(r@).contains("get_server_info"@),
{
    let names = text::texts(r@);
    assert(names.len() == 9);
    assert(names[0] == "connect"@ && names[1] == "disconnect"@ && names[2] == "discover_tags"@);
    assert(names[3] == explore@ && names[4] == dump@ && names[5] == "read_tag"@);
    assert(names[6] == "read_tag_history"@ && names[7] == "write_tag"@);
    assert(names[8] == "get_server_info"@);
}

/// Numbers are compared by their value; a NaN is less than nothing, and nothing is less than it.
pub proof fn law_numbers_compare_by_value(a: &Double, b: &Double, r: bool)
    requires
        call_ensures(Double::less_than, (a, b), r),
    ensures
        a.nan() || b.nan() ==> !r,
        !a.nan() && !b.nan() ==> (r <==> a.value() < b.value()),
{
}

/// The document of a value holds that value: a number bit for bit, unless JSON has no such number.
pub proof fn law_documents_hold_the_value(v: &TagValue, d: Json)
    requires
        call_ensures(tools::to_document, (v,), d),
    ensures
        match *v {
            TagValue::Bool(b) => d@ == JsonView::Bool(b),
            TagValue::Text(t) => d@ == JsonView::Text(t@),
            TagValue::Float(f) => if f.finite() {
                d@ == JsonView::Number(Number::Float(f))
            } else {
                d@ == JsonView::Null
            },
        },
{
}

/// An error on a tag holds the code, the message and the tag; one on no tag holds no tag.
pub proof fn law_errors(
    code: ErrorCode,
    message: String,
    tag_id: &str,
    on_tag: AdapterError,
    plain: AdapterError,
)
    requires
        call_ensures(AdapterError::on_tag, (code, message, tag_id), on_tag),
        call_ensures(AdapterError::plain, (code, message), plain),
    ensures
        on_tag.code == code,
        on_tag.message@ == message@,
        on_tag.tag_id is Some && on_tag.tag_id->0@ == tag_id@,
        plain.code == code,
        plain.message@ == message@,
        plain.tag_id is None,
{
}

/// A write that cannot be logged is not permitted, and the two cases in which that comes about, before
/// and after it was sent, are told apart.
pub proof fn law_unlogged(tag_id: &str, before: AdapterError, after: AdapterError)
    requires
        call_ensures(writing::unlogged, (false, tag_id), before),
        call_ensures(writing::unlogged, (true, tag_id), after),
    ensures
        before.code == ErrorCode::PermissionDenied,
        after.code == ErrorCode::PermissionDenied,
        before.tag_id is Some && before.tag_id->0@ == tag_id@,
        after.tag_id is Some && after.tag_id->0@ == tag_id@,
        before.message@ != after.message@,
{
    reveal_strlit("The write was carried out, but could not be logged for audit.");
    reveal_strlit("The write was not carried out, since it cannot be logged for audit.");
    assert("The write was carried out, but could not be logged for audit."@[10] == 'w');
    assert("The write was carried out, but could not be logged for audit."@.len() == 61);
    assert("The write was not carried out, since it cannot be logged for audit."@.len() == 67);
}

/// What a refused write is told of: the number and the end of the range that it lies past, or the
/// units that were expected and those that came.
pub proof fn law_refusals_tell_why(
    perm: &WritePermission,
    f: Double,
    shown: &str,
    units: &str,
    tag_id: &str,
    e: AdapterError,
)
    requires
        !f.nan(),
        call_ensures(
            topology::validate_write,
            (perm, &Json::Number(Number::Float(f)), shown, units, tag_id),
            Err::<WriteValue, AdapterError>(e),
        ),
    ensures
        ({
            let below = perm.min matches Some(l) && !l.at.nan() && f.value() < l.at.value();
            let above = perm.max matches Some(l) && !l.at.nan() && l.at.value() < f.value();
            &&& below ==> e.message@ == "Value "@ + shown@ + " is below the configured minimum "@
                + perm.min->0.shown@ + "."@
            &&& above && !below ==> e.message@ == "Value "@ + shown@
                + " exceeds the configured maximum "@ + perm.max->0.shown@ + "."@
            &&& !above && !below ==> perm.units is Some && e.message@
                == "Units mismatch: expected '"@ + perm.units->0@ + "', got '"@ + units@ + "'."@
        }),
{
}

/// The distance between two numbers.
pub open spec fn distance(a: int, b: int) -> int {
    if a <= b {
        b - a
    } else {
        a - b
    }
}

proof fn lemma_nearest_is_closest(exact: nat, m: nat, other: nat, p: nat, top: nat, unit: nat)
    requires
        double::nearest(exact, m, p, top, unit),
        other <= top,
    ensures
        distance((double::steps(m, p) * unit) as int, exact as int) <= distance(
            (double::steps(other, p) * unit) as int,
            exact as int,
        ),
{
    let a = double::steps(m, p) as int;
    let b = double::steps(other, p) as int;
    let u = unit as int;
    if m < other {
        let n = double::steps(m + 1, p) as int;
        double::lemma_steps_increase(m, m + 1, p);
        if m + 1 < other {
            double::lemma_steps_increase(m + 1, other, p);
        }
        assert((a + n) * u == a * u + n * u) by (nonlinear_arith);
        assert(n * u <= b * u) by (nonlinear_arith)
            requires
                n <= b,
                u >= 0,
        ;
        assert(a * u <= n * u) by (nonlinear_arith)
            requires
                a <= n,
                u >= 0,
        ;
    } else if other < m {
        let n = double::steps((m - 1) as nat, p) as int;
        double::lemma_steps_increase((m - 1) as nat, m, p);
        if other < m - 1 {
            double::lemma_steps_increase(other, (m - 1) as nat, p);
        }
        assert((n + a) * u == n * u + a * u) by (nonlinear_arith);
        assert(b * u <= n * u) by (nonlinear_arith)
            requires
                b <= n,
                u >= 0,
        ;
        assert(n * u <= a * u) by (nonlinear_arith)
            requires
                n <= a,
                u >= 0,
        ;
    }
}

/// An integer becomes the binary64 number closest to it: no finite number is closer.
pub proof fn law_integers_become_the_closest_number(n: i64, r: Double, other: Double)
    requires
        call_ensures(Double::from_i64, (n,), r),
        other.finite(),
    ensures
        r.finite(),
        distance(r.value(), n * double::one()) <= distance(other.value(), n * double::one()),
{
    lemma_rounded_integer(n as int, r, other);
}

/// An unsigned integer becomes the binary64 number closest to it: no finite number is closer.
pub proof fn law_unsigned_integers_become_the_closest_number(n: u64, r: Double, other: Double)
    requires
        call_ensures(Double::from_u64, (n,), r),
        other.finite(),
    ensures
        r.finite(),
        distance(r.value(), n * double::one()) <= distance(other.value(), n * double::one()),
{
    lemma_rounded_integer(n as int, r, other);
}

proof fn lemma_rounded_integer(n: int, r: Double, other: Double)
    requires
        r.rounds_integer(n),
        other.finite(),
    ensures
        distance(r.value(), n * double::one()) <= distance(other.value(), n * double::one()),
{
    let o = double::one() as int;
    let a = if n < 0 {
        -n
    } else {
        n
    };
    assert((-n) * o == -(n * o)) by (nonlinear_arith);
    assert(a * o >= 0) by (nonlinear_arith)
        requires
            a >= 0,
            o >= 0,
    ;
    let exact = (a * o) as nat;
    let top = double::INFINITE as nat;
    lemma_nearest_is_closest(exact, r.magnitude(), other.magnitude(), 52, top, 1);
    lemma_nearest_is_closest(exact, r.magnitude(), 0, 52, top, 1);
    assert(double::steps(0, 52) == 0) by {
        vstd::arithmetic::power2::lemma_pow2_pos(52);
        vstd::arithmetic::div_mod::lemma_div_basics(vstd::arithmetic::power2::pow2(52) as int);
        vstd::arithmetic::div_mod::lemma_small_mod(0, vstd::arithmetic::power2::pow2(52));
    }
    assert(double::steps(r.magnitude(), 52) * 1 == double::steps(r.magnitude(), 52));
    assert(double::steps(other.magnitude(), 52) * 1 == double::steps(other.magnitude(), 52));
}

/// A number becomes the binary32 number closest to it: of its own sign none is closer.
pub proof fn law_numbers_become_the_closest_binary32(d: &Double, bits: u32, other: u32)
    requires
        call_ensures(Double::to_single, (d,), bits),
        !d.nan(),
        double::single_finite(other),
    ensures
        double::single_negative(bits) == d.negative(),
        ({
            let exact = double::steps(d.magnitude(), 52) as int;
            distance(
                (double::steps(double::single_magnitude(bits), 23) * double::single_step()) as int,
                exact,
            ) <= distance(
                (double::steps(double::single_magnitude(other), 23) * double::single_step()) as int,
                exact,
            )
        }),
{
    lemma_nearest_is_closest(
        double::steps(d.magnitude(), 52),
        double::single_magnitude(bits),
        double::single_magnitude(other),
        23,
        double::INFINITE_SINGLE as nat,
        double::single_step(),
    );
}

proof fn lemma_member_at(members: Seq<(String, Json)>, i: int, key: Seq<char>)
    requires
        0 <= i <= members.len(),
        i < members.len() ==> members[i].0@ == key,
        forall|j: int| 0 <= j < i ==> (#[trigger] members[j]).0@ != key,
    ensures
        json::members_view(members).contains_key(key) <==> i < members.len(),
        i < members.len() ==> json::members_view(members)[key] == members[i].1@,
    decreases members.len(),
{
    if i > 0 {
        let rest = members.drop_first();
        assert(members[0].0@ != key);
        assert forall|j: int| 0 <= j < i - 1 implies (#[trigger] rest[j]).0@ != key by {
            assert(rest[j] == members[j + 1]);
        }
        lemma_member_at(rest, i - 1, key);
    }
}

/// The member of an object is the first one with the key that is asked for, letter by letter, and
/// there is none if no member has it: `i` is the place of that member, or past the end.
pub proof fn law_members_are_found_by_their_key(
    members: Vec<(String, Json)>,
    key: &str,
    r: Option<&Json>,
    i: int,
)
    requires
        call_ensures(Json::get, (&Json::Object(members), key), r),
        0 <= i <= members@.len(),
        i < members@.len() ==> members@[i].0@ == key@,
        forall|j: int| 0 <= j < i ==> (#[trigger] members@[j]).0@ != key@,
    ensures
        r is Some <==> i < members@.len(),
        r matches Some(v) ==> v@ == members@[i].1@,
{
    lemma_member_at(members@, i, key@);
}

/// A document is read as what it is, and as nothing else.
pub proof fn law_documents_are_read_as_they_are(
    d: &Json,
    number: Option<Double>,
    boolean: Option<bool>,
    string: Option<&str>,
    unsigned: Option<u64>,
)
    requires
        call_ensures(Json::as_f64, (d,), number),
        call_ensures(Json::as_bool, (d,), boolean),
        call_ensures(Json::as_str, (d,), string),
        call_ensures(Json::as_u64, (d,), unsigned),
    ensures
        number is Some <==> d is Number,
        *d matches Json::Number(Number::Float(f)) ==> number == Some(f),
        boolean is Some <==> d is Bool,
        *d matches Json::Bool(b) ==> boolean == Some(b),
        string is Some <==> d is Text,
        *d matches Json::Text(t) ==> string is Some && string->0@ == t@,
        unsigned is Some <==> *d matches Json::Number(Number::Unsigned(_)),
        *d matches Json::Number(Number::Unsigned(n)) ==> unsigned == Some(n),
{
}

} // verus!
