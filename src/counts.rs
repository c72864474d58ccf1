//! Per-stream statistics of the path attributes that records carry: how often each sorted group
//! of attribute type codes occurs, and how often each single code occurs. Statistics of
//! different streams are merged by adding counts, saturating at `u64::MAX`.
use crate::iter::RecordError;
use bgpkit_parser::models::{
    Attributes, Bgp4MpEnum, BgpMessage, MrtMessage, MrtRecord, RibEntry, TableDumpV2Message,
};
use vstd::prelude::*;
use vstd::slice::*;

verus! {

/// The number of attribute type codes.
pub const NUM_CODES: usize = 256;

/// Addition that stops at `u64::MAX`.
pub open spec fn sat_add(a: nat, b: nat) -> nat {
    if a + b > u64::MAX {
        u64::MAX as nat
    } else {
        a + b
    }
}

pub fn sat_add_exec(a: u64, b: u64) -> (r: u64)
    ensures
        r == sat_add(a as nat, b as nat),
{
    if a > u64::MAX - b {
        u64::MAX
    } else {
        a + b
    }
}

/// Whether the codes are in ascending order.
pub open spec fn is_sorted(s: Seq<u8>) -> bool {
    forall|i: int, j: int| 0 <= i < j < s.len() ==> s[i] <= s[j]
}

/// `group` is `codes` in ascending order.
pub open spec fn is_group_of(group: Seq<u8>, codes: Seq<u8>) -> bool {
    is_sorted(group) && group.to_multiset() == codes.to_multiset()
}

/// A list has one ascending order: two sorted lists with the same elements are equal.
pub proof fn lemma_sorted_unique(a: Seq<u8>, b: Seq<u8>)
    requires
        is_sorted(a),
        is_sorted(b),
        a.to_multiset() == b.to_multiset(),
    ensures
        a == b,
    decreases a.len(),
{
    a.to_multiset_ensures();
    b.to_multiset_ensures();
    assert(a.len() == b.len());
    if a.len() == 0 {
        assert(a =~= b);
    } else {
        let n = a.len() - 1;
        let x = a[n];
        let y = b[n];
        assert(a.contains(x));
        assert(a.to_multiset().count(x) > 0);
        assert(b.to_multiset().count(x) > 0);
        assert(b.contains(x));
        assert(b.contains(y));
        assert(b.to_multiset().count(y) > 0);
        assert(a.to_multiset().count(y) > 0);
        assert(a.contains(y));
        let i = choose|i: int| 0 <= i < b.len() && b[i] == x;
        let j = choose|j: int| 0 <= j < a.len() && a[j] == y;
        assert(x <= y);
        assert(y <= x);
        assert(a.remove(n) =~= a.drop_last());
        assert(b.remove(n) =~= b.drop_last());
        lemma_sorted_unique(a.drop_last(), b.drop_last());
        assert forall|k: int| 0 <= k < a.len() implies a[k] == b[k] by {
            if k < n {
                assert(a.drop_last()[k] == b.drop_last()[k]);
            }
        }
        assert(a =~= b);
    }
}

/// Relies on `slice::sort_unstable`: the same elements, in ascending order.
#[verifier::external_body]
fn sort_codes(codes: &mut Vec<u8>)
    ensures
        final(codes)@.to_multiset() == old(codes)@.to_multiset(),
        is_sorted(final(codes)@),
{
    codes.sort_unstable();
}

/// Whether two code lists are equal, element by element.
pub fn codes_equal(a: &Vec<u8>, b: &Vec<u8>) -> (r: bool)
    ensures
        r == (a@ == b@),
{
    if a.len() != b.len() {
        return false;
    }
    let mut i: usize = 0;
    while i < a.len()
        invariant
            a@.len() == b@.len(),
            i <= a@.len(),
            forall|j: int| 0 <= j < i ==> a@[j] == b@[j],
        decreases a@.len() - i,
    {
        if a[i] != b[i] {
            return false;
        }
        i = i + 1;
    }
    assert(a@ =~= b@);
    true
}

/// The count that a list of (group, count) entries holds for `group`: that of the entry whose
/// group it is, or zero where there is none.
pub open spec fn count_in(entries: Seq<(Vec<u8>, u64)>, group: Seq<u8>) -> nat {
    if exists|i: int| 0 <= i < entries.len() && (#[trigger] entries[i]).0@ == group {
        let i = choose|i: int| 0 <= i < entries.len() && (#[trigger] entries[i]).0@ == group;
        entries[i].1 as nat
    } else {
        0
    }
}

/// No group has two entries.
pub open spec fn keys_unique(entries: Seq<(Vec<u8>, u64)>) -> bool {
    forall|i: int, j: int|
        0 <= i < entries.len() && 0 <= j < entries.len() && (#[trigger] entries[i]).0@ == (
        #[trigger] entries[j]).0@ ==> i == j
}

proof fn lemma_count_at(entries: Seq<(Vec<u8>, u64)>, i: int)
    requires
        keys_unique(entries),
        0 <= i < entries.len(),
    ensures
        count_in(entries, entries[i].0@) == entries[i].1 as nat,
{
    let group = entries[i].0@;
    assert(0 <= i < entries.len() && entries[i].0@ == group);
}

/// How often `code` occurs in `codes`.
pub open spec fn occurrences(codes: Seq<u8>, code: int) -> nat
    decreases codes.len(),
{
    if codes.len() == 0 {
        0
    } else {
        occurrences(codes.drop_last(), code) + if codes.last() as int == code {
            1nat
        } else {
            0nat
        }
    }
}

/// Saturating addition is associative and commutative, and adding in two steps is adding the
/// sum.
pub proof fn lemma_sat_add_assoc(a: nat, b: nat, c: nat)
    ensures
        sat_add(sat_add(a, b), c) == sat_add(a, sat_add(b, c)),
        sat_add(sat_add(a, b), c) == sat_add(a, b + c),
        sat_add(a, b) == sat_add(b, a),
{
}

/// A copy of a list of codes.
pub fn copy_codes(codes: &Vec<u8>) -> (r: Vec<u8>)
    ensures
        r@ == codes@,
{
    slice_to_vec(codes.as_slice())
}

/// What a decoded record carries, as far as the statistics go: the attribute type codes of each
/// attribute set in it.
pub enum MessageShape {
    /// A legacy table dump entry, with one attribute set.
    TableDump { attributes: Vec<u8> },
    /// The peer index of a table dump.
    PeerIndexTable,
    /// A RIB entry list, with one attribute set per entry.
    Rib { entries: Vec<Vec<u8>> },
    /// A change of a BGP session's state.
    StateChange,
    /// A BGP update, with one attribute set.
    Update { attributes: Vec<u8> },
    /// Any other BGP message: open, notification, keepalive.
    OtherBgp,
}

/// The attribute sets that a record contributes to the statistics.
pub open spec fn attribute_sets_spec(shape: MessageShape) -> Seq<Seq<u8>> {
    match shape {
        MessageShape::TableDump { attributes } => seq![attributes@],
        MessageShape::Rib { entries } => entries@.map_values(|e: Vec<u8>| e@),
        MessageShape::Update { attributes } => seq![attributes@],
        MessageShape::PeerIndexTable | MessageShape::StateChange | MessageShape::OtherBgp => seq![],
    }
}

/// The attribute sets of a record, in order.
pub fn attribute_sets(shape: MessageShape) -> (r: Vec<Vec<u8>>)
    ensures
        r@.len() == attribute_sets_spec(shape).len(),
        forall|j: int| 0 <= j < r@.len() ==> (#[trigger] r@[j])@ == attribute_sets_spec(shape)[j],
{
    match shape {
        MessageShape::TableDump { attributes } => vec![attributes],
        MessageShape::Rib { entries } => entries,
        MessageShape::Update { attributes } => vec![attributes],
        MessageShape::PeerIndexTable => Vec::new(),
        MessageShape::StateChange => Vec::new(),
        MessageShape::OtherBgp => Vec::new(),
    }
}

/// How often `code` occurs over all the sets.
pub open spec fn code_occurrences(sets: Seq<Seq<u8>>, code: u8) -> nat
    decreases sets.len(),
{
    if sets.len() == 0 {
        0
    } else {
        code_occurrences(sets.drop_last(), code) + sets.last().to_multiset().count(code)
    }
}

/// How many of the sets are, sorted, the group `group`.
pub open spec fn group_occurrences(sets: Seq<Seq<u8>>, group: Seq<u8>) -> nat
    decreases sets.len(),
{
    if sets.len() == 0 {
        0
    } else {
        group_occurrences(sets.drop_last(), group) + if is_group_of(group, sets.last()) {
            1nat
        } else {
            0nat
        }
    }
}

/// The count that `entries` holds for `group` over its first `i + 1` entries, where no group
/// has two entries.
proof fn lemma_count_prefix(entries: Seq<(Vec<u8>, u64)>, i: int, group: Seq<u8>)
    requires
        keys_unique(entries),
        0 <= i < entries.len(),
    ensures
        count_in(entries.subrange(0, i + 1), group) == if entries[i].0@ == group {
            entries[i].1 as nat
        } else {
            count_in(entries.subrange(0, i), group)
        },
        entries[i].0@ == group ==> count_in(entries.subrange(0, i), group) == 0,
{
    let longer = entries.subrange(0, i + 1);
    let shorter = entries.subrange(0, i);
    assert(keys_unique(longer));
    assert(keys_unique(shorter));
    if entries[i].0@ == group {
        lemma_count_at(longer, i);
        assert forall|j: int| 0 <= j < shorter.len() implies (#[trigger] shorter[j]).0@ != group by {
            assert(shorter[j] == entries[j]);
        }
    } else if exists|j: int| 0 <= j < shorter.len() && (#[trigger] shorter[j]).0@ == group {
        let j = choose|j: int| 0 <= j < shorter.len() && (#[trigger] shorter[j]).0@ == group;
        lemma_count_at(shorter, j);
        assert(longer[j] == shorter[j]);
        lemma_count_at(longer, j);
    } else {
        assert forall|j: int| 0 <= j < longer.len() implies (#[trigger] longer[j]).0@ != group by {
            if j < i {
                assert(longer[j] == shorter[j]);
            }
        }
    }
}

/// `merged` holds, for every group and every code, the saturating sum of the counts of `a` and
/// `b`.
pub open spec fn is_merge(a: AttributeCounts, b: AttributeCounts, merged: AttributeCounts) -> bool {
    &&& forall|g: Seq<u8>| #[trigger] merged.group_count(g) == sat_add(a.group_count(g), b.group_count(g))
    &&& forall|c: u8| #[trigger] merged.total(c) == sat_add(a.total(c), b.total(c))
}

/// `after` holds the counts of `before` with the attribute sets `sets` counted.
pub open spec fn sets_counted(before: AttributeCounts, after: AttributeCounts, sets: Seq<Seq<u8>>) -> bool {
    &&& forall|c: u8| #[trigger] after.total(c) == sat_add(before.total(c), code_occurrences(sets, c))
    &&& forall|g: Seq<u8>| #[trigger] after.group_count(g) == sat_add(
        before.group_count(g),
        group_occurrences(sets, g),
    )
}

proof fn lemma_occurrences_concat(s1: Seq<Seq<u8>>, s2: Seq<Seq<u8>>, c: u8, g: Seq<u8>)
    ensures
        code_occurrences(s1 + s2, c) == code_occurrences(s1, c) + code_occurrences(s2, c),
        group_occurrences(s1 + s2, g) == group_occurrences(s1, g) + group_occurrences(s2, g),
    decreases s2.len(),
{
    if s2.len() == 0 {
        assert(s1 + s2 =~= s1);
    } else {
        assert((s1 + s2).drop_last() =~= s1 + s2.drop_last());
        assert((s1 + s2).last() == s2.last());
        lemma_occurrences_concat(s1, s2.drop_last(), c, g);
    }
}

/// Counting the records of a stream one after another gives the counts of all their attribute
/// sets together.
pub proof fn lemma_counting_in_sequence(
    a: AttributeCounts,
    b: AttributeCounts,
    c: AttributeCounts,
    first: Seq<Seq<u8>>,
    then: Seq<Seq<u8>>,
)
    requires
        sets_counted(a, b, first),
        sets_counted(b, c, then),
    ensures
        sets_counted(a, c, first + then),
{
    assert forall|k: u8| #[trigger] c.total(k) == sat_add(a.total(k), code_occurrences(first + then, k)) by {
        lemma_occurrences_concat(first, then, k, seq![]);
        lemma_sat_add_assoc(a.total(k), code_occurrences(first, k), code_occurrences(then, k));
    }
    assert forall|g: Seq<u8>| #[trigger] c.group_count(g) == sat_add(
        a.group_count(g),
        group_occurrences(first + then, g),
    ) by {
        lemma_occurrences_concat(first, then, 0, g);
        lemma_sat_add_assoc(a.group_count(g), group_occurrences(first, g), group_occurrences(then, g));
    }
}

/// Merging the statistics of two sources, each counted from nothing, gives the counts of the
/// attribute sets of both sources together; a source that was never fetched adds no sets.
pub proof fn lemma_merge_counts_all_sources(
    empty: AttributeCounts,
    a: AttributeCounts,
    b: AttributeCounts,
    merged: AttributeCounts,
    sets_a: Seq<Seq<u8>>,
    sets_b: Seq<Seq<u8>>,
)
    requires
        forall|g: Seq<u8>| #[trigger] empty.group_count(g) == 0,
        forall|k: u8| #[trigger] empty.total(k) == 0,
        sets_counted(empty, a, sets_a),
        sets_counted(empty, b, sets_b),
        is_merge(a, b, merged),
    ensures
        sets_counted(empty, merged, sets_a + sets_b),
{
    assert forall|k: u8| #[trigger] merged.total(k) == sat_add(
        empty.total(k),
        code_occurrences(sets_a + sets_b, k),
    ) by {
        lemma_occurrences_concat(sets_a, sets_b, k, seq![]);
        assert(a.total(k) == sat_add(0, code_occurrences(sets_a, k)));
        assert(b.total(k) == sat_add(0, code_occurrences(sets_b, k)));
    }
    assert forall|g: Seq<u8>| #[trigger] merged.group_count(g) == sat_add(
        empty.group_count(g),
        group_occurrences(sets_a + sets_b, g),
    ) by {
        lemma_occurrences_concat(sets_a, sets_b, 0, g);
        assert(a.group_count(g) == sat_add(0, group_occurrences(sets_a, g)));
        assert(b.group_count(g) == sat_add(0, group_occurrences(sets_b, g)));
    }
}

/// Reducing three sources' statistics, each counted from nothing, gives the counts of all their
/// attribute sets together; a source that failed to fetch is one with no sets.
pub proof fn lemma_three_sources(
    empty: AttributeCounts,
    a: AttributeCounts,
    b: AttributeCounts,
    c: AttributeCounts,
    ab: AttributeCounts,
    abc: AttributeCounts,
    sets_a: Seq<Seq<u8>>,
    sets_b: Seq<Seq<u8>>,
    sets_c: Seq<Seq<u8>>,
)
    requires
        forall|g: Seq<u8>| #[trigger] empty.group_count(g) == 0,
        forall|k: u8| #[trigger] empty.total(k) == 0,
        sets_counted(empty, a, sets_a),
        sets_counted(empty, b, sets_b),
        sets_counted(empty, c, sets_c),
        is_merge(a, b, ab),
        is_merge(ab, c, abc),
    ensures
        sets_counted(empty, abc, sets_a + sets_b + sets_c),
{
    lemma_merge_counts_all_sources(empty, a, b, ab, sets_a, sets_b);
    lemma_merge_counts_all_sources(empty, ab, c, abc, sets_a + sets_b, sets_c);
}

/// `a` and `b` hold the same count for every group and every code.
pub open spec fn same_counts(a: AttributeCounts, b: AttributeCounts) -> bool {
    &&& forall|g: Seq<u8>| #[trigger] a.group_count(g) == b.group_count(g)
    &&& forall|c: u8| #[trigger] a.total(c) == b.total(c)
}

/// Merging is commutative: `a` with `b` gives the counts of `b` with `a`.
pub proof fn lemma_merge_commutative(
    a: AttributeCounts,
    b: AttributeCounts,
    ab: AttributeCounts,
    ba: AttributeCounts,
)
    requires
        is_merge(a, b, ab),
        is_merge(b, a, ba),
    ensures
        same_counts(ab, ba),
{
}

/// Merging is associative: `a` with `b`, then with `c`, gives the counts of `a` with the merge
/// of `b` and `c`. With commutativity, reducing the statistics of many streams in any order or
/// grouping gives the same counts.
pub proof fn lemma_merge_associative(
    a: AttributeCounts,
    b: AttributeCounts,
    c: AttributeCounts,
    ab: AttributeCounts,
    ab_c: AttributeCounts,
    bc: AttributeCounts,
    a_bc: AttributeCounts,
)
    requires
        is_merge(a, b, ab),
        is_merge(ab, c, ab_c),
        is_merge(b, c, bc),
        is_merge(a, bc, a_bc),
    ensures
        same_counts(ab_c, a_bc),
{
    assert forall|g: Seq<u8>| #[trigger] ab_c.group_count(g) == a_bc.group_count(g) by {
        lemma_sat_add_assoc(a.group_count(g), b.group_count(g), c.group_count(g));
    }
    assert forall|k: u8| #[trigger] ab_c.total(k) == a_bc.total(k) by {
        lemma_sat_add_assoc(a.total(k), b.total(k), c.total(k));
    }
}

/// Merging with empty statistics changes no count.
pub proof fn lemma_merge_identity(a: AttributeCounts, e: AttributeCounts, ae: AttributeCounts)
    requires
        forall|g: Seq<u8>| #[trigger] e.group_count(g) == 0,
        forall|c: u8| #[trigger] e.total(c) == 0,
        is_merge(a, e, ae),
    ensures
        same_counts(a, ae),
{
    assert forall|g: Seq<u8>| #[trigger] a.group_count(g) == ae.group_count(g) by {
        assert(e.group_count(g) == 0);
    }
    assert forall|k: u8| #[trigger] a.total(k) == ae.total(k) by {
        assert(e.total(k) == 0);
    }
}

#[verifier::external_type_specification]
#[verifier::external_body]
pub struct ExAttributes(Attributes);

/// The type codes of a decoded attribute list, in order.
pub uninterp spec fn codes_of(attributes: Attributes) -> Seq<u8>;

/// Relies on `Attributes::iter` and `AttributeValue::attr_type`: the type code of each
/// attribute, in order; the result depends on the attributes alone.
#[verifier::external_body]
fn attribute_codes(attributes: &Attributes) -> (r: Vec<u8>)
    ensures
        r@ == codes_of(*attributes),
{
    attributes.iter().map(|a| u8::from(a.attr_type())).collect()
}

#[verifier::external_type_specification]
#[verifier::external_body]
pub struct ExRibEntry(RibEntry);

/// The parts of a decoded record that the statistics read, still in the decoder's types.
pub enum RecordParts {
    TableDump(Attributes),
    PeerIndexTable,
    Rib(Vec<RibEntry>),
    StateChange,
    Update(Attributes),
    OtherBgp,
}

/// The parts of a decoded record that the statistics read.
pub uninterp spec fn parts_of(record: MrtRecord) -> RecordParts;

/// Relies on the variants of `bgpkit_parser`'s `MrtMessage` and of the messages inside it: tells
/// them apart, one arm each, moving out the attributes or the RIB entries; the result depends on
/// the record alone.
#[verifier::external_body]
fn record_parts(record: MrtRecord) -> (r: RecordParts)
    ensures
        r == parts_of(record),
{
    match record.message {
        MrtMessage::TableDumpMessage(m) => RecordParts::TableDump(m.attributes),
        MrtMessage::TableDumpV2Message(TableDumpV2Message::PeerIndexTable(_)) => RecordParts::PeerIndexTable,
        MrtMessage::TableDumpV2Message(TableDumpV2Message::RibAfi(r)) => RecordParts::Rib(r.rib_entries),
        MrtMessage::TableDumpV2Message(TableDumpV2Message::RibGeneric(r)) => RecordParts::Rib(r.rib_entries),
        MrtMessage::Bgp4Mp(Bgp4MpEnum::StateChange(_)) => RecordParts::StateChange,
        MrtMessage::Bgp4Mp(Bgp4MpEnum::Message(m)) => match m.bgp_message {
            BgpMessage::Update(u) => RecordParts::Update(u.attributes),
            BgpMessage::Open(_) | BgpMessage::Notification(_) | BgpMessage::KeepAlive => RecordParts::OtherBgp,
        },
    }
}

/// The attributes of a RIB entry.
pub uninterp spec fn entry_attributes_of(entry: RibEntry) -> Attributes;

/// Relies on the public field `RibEntry::attributes`.
#[verifier::external_body]
fn entry_attributes(entry: &RibEntry) -> (r: &Attributes)
    ensures
        *r == entry_attributes_of(*entry),
{
    &entry.attributes
}

/// The attribute codes of each RIB entry, in order.
fn rib_codes(entries: &Vec<RibEntry>) -> (r: Vec<Vec<u8>>)
    ensures
        r@.len() == entries@.len(),
        forall|j: int| 0 <= j < r@.len() ==> (#[trigger] r@[j])@ == codes_of(
            entry_attributes_of(entries@[j]),
        ),
{
    let mut r: Vec<Vec<u8>> = Vec::new();
    let mut i: usize = 0;
    while i < entries.len()
        invariant
            i <= entries@.len(),
            r@.len() == i,
            forall|j: int| 0 <= j < i ==> (#[trigger] r@[j])@ == codes_of(
                entry_attributes_of(entries@[j]),
            ),
        decreases entries@.len() - i,
    {
        r.push(attribute_codes(entry_attributes(&entries[i])));
        i = i + 1;
    }
    r
}

/// The attribute sets of a record's parts: one for a table dump entry and for a BGP update, one
/// per entry for a RIB entry list, none for anything else.
pub open spec fn parts_sets(parts: RecordParts) -> Seq<Seq<u8>> {
    match parts {
        RecordParts::TableDump(attributes) => seq![codes_of(attributes)],
        RecordParts::Rib(entries) => entries@.map_values(
            |e: RibEntry| codes_of(entry_attributes_of(e)),
        ),
        RecordParts::Update(attributes) => seq![codes_of(attributes)],
        RecordParts::PeerIndexTable | RecordParts::StateChange | RecordParts::OtherBgp => seq![],
    }
}

/// The attribute sets that a decoded record contributes to the statistics.
pub open spec fn record_sets(record: MrtRecord) -> Seq<Seq<u8>> {
    parts_sets(parts_of(record))
}

/// What a record contributes to the statistics: an attribute set for a table dump entry and for
/// a BGP update, one per entry for a RIB entry list, none for anything else.
pub fn record_shape(parts: RecordParts) -> (r: MessageShape)
    ensures
        parts matches RecordParts::PeerIndexTable ==> r == MessageShape::PeerIndexTable,
        parts matches RecordParts::StateChange ==> r == MessageShape::StateChange,
        parts matches RecordParts::OtherBgp ==> r == MessageShape::OtherBgp,
        parts matches RecordParts::TableDump(_) ==> r matches MessageShape::TableDump { .. },
        parts matches RecordParts::Update(_) ==> r matches MessageShape::Update { .. },
        parts matches RecordParts::Rib(_) ==> r matches MessageShape::Rib { .. },
        attribute_sets_spec(r) == parts_sets(parts),
{
    match parts {
        RecordParts::TableDump(attributes) => MessageShape::TableDump {
            attributes: attribute_codes(&attributes),
        },
        RecordParts::PeerIndexTable => MessageShape::PeerIndexTable,
        RecordParts::Rib(entries) => {
            let codes = rib_codes(&entries);
            let r = MessageShape::Rib { entries: codes };
            proof {
                assert(attribute_sets_spec(r) =~= parts_sets(RecordParts::Rib(entries)));
            }
            r
        },
        RecordParts::StateChange => MessageShape::StateChange,
        RecordParts::Update(attributes) => MessageShape::Update {
            attributes: attribute_codes(&attributes),
        },
        RecordParts::OtherBgp => MessageShape::OtherBgp,
    }
}

/// The attribute statistics of one or more streams.
pub struct AttributeCounts {
    groups: Vec<(Vec<u8>, u64)>,
    totals: Vec<u64>,
}

impl AttributeCounts {
    /// No group has two entries, and there is a total for every code.
    pub closed spec fn wf(&self) -> bool {
        &&& keys_unique(self.groups@)
        &&& self.totals@.len() == NUM_CODES
    }

    /// How many attribute sets were the group `group`, its codes in ascending order.
    pub closed spec fn group_count(&self, group: Seq<u8>) -> nat {
        count_in(self.groups@, group)
    }

    /// How many times the attribute type `code` was seen.
    pub closed spec fn total(&self, code: u8) -> nat {
        self.totals@[code as int] as nat
    }

    /// Statistics of nothing.
    pub fn new() -> (r: AttributeCounts)
        ensures
            r.wf(),
            forall|g: Seq<u8>| r.group_count(g) == 0,
            forall|c: u8| r.total(c) == 0,
    {
        let mut totals: Vec<u64> = Vec::new();
        while totals.len() < NUM_CODES
            invariant
                totals@.len() <= NUM_CODES,
                forall|i: int| 0 <= i < totals@.len() ==> totals@[i] == 0,
            decreases NUM_CODES - totals@.len(),
        {
            totals.push(0);
        }
        AttributeCounts { groups: Vec::new(), totals }
    }

    /// The count of the group `group`.
    pub fn count_of_group(&self, group: &Vec<u8>) -> (r: u64)
        requires
            self.wf(),
        ensures
            r == self.group_count(group@),
    {
        match self.find(group) {
            Some(i) => {
                proof {
                    lemma_count_at(self.groups@, i as int);
                }
                self.groups[i].1
            },
            None => 0,
        }
    }

    /// The total of the attribute type `code`.
    pub fn total_of(&self, code: u8) -> (r: u64)
        requires
            self.wf(),
        ensures
            r == self.total(code),
    {
        self.totals[code as usize]
    }

    /// The groups that were seen, with their counts.
    pub fn groups(&self) -> (r: Vec<(Vec<u8>, u64)>)
        requires
            self.wf(),
        ensures
            forall|i: int| 0 <= i < r@.len() ==> (#[trigger] r@[i]).1 == self.group_count(r@[i].0@),
            forall|g: Seq<u8>| self.group_count(g) > 0 ==> exists|i: int| 0 <= i < r@.len() && (#[trigger] r@[i]).0@ == g,
    {
        let mut r: Vec<(Vec<u8>, u64)> = Vec::new();
        let mut i: usize = 0;
        while i < self.groups.len()
            invariant
                keys_unique(self.groups@),
                i <= self.groups@.len(),
                r@.len() == i,
                forall|j: int| 0 <= j < i ==> (#[trigger] r@[j]).0@ == self.groups@[j].0@ && r@[j].1 == self.groups@[j].1,
            decreases self.groups@.len() - i,
        {
            let key = copy_codes(&self.groups[i].0);
            r.push((key, self.groups[i].1));
            i = i + 1;
        }
        proof {
            assert forall|j: int| 0 <= j < r@.len() implies (#[trigger] r@[j]).1 == self.group_count(r@[j].0@) by {
                lemma_count_at(self.groups@, j);
            }
            assert forall|g: Seq<u8>| self.group_count(g) > 0 implies exists|j: int| 0 <= j < r@.len() && (#[trigger] r@[j]).0@ == g by {
                let j = choose|j: int| 0 <= j < self.groups@.len() && (#[trigger] self.groups@[j]).0@ == g;
                assert(r@[j].0@ == g);
            }
        }
        r
    }

    /// The index of the entry of `group`, if there is one.
    fn find(&self, group: &Vec<u8>) -> (r: Option<usize>)
        requires
            self.wf(),
        ensures
            r matches Some(i) ==> i < self.groups@.len() && self.groups@[i as int].0@ == group@,
            r is None ==> forall|i: int| 0 <= i < self.groups@.len() ==> (#[trigger] self.groups@[i]).0@ != group@,
    {
        let mut i: usize = 0;
        while i < self.groups.len()
            invariant
                i <= self.groups@.len(),
                forall|j: int| 0 <= j < i ==> (#[trigger] self.groups@[j]).0@ != group@,
            decreases self.groups@.len() - i,
        {
            if codes_equal(&self.groups[i].0, group) {
                return Some(i);
            }
            i = i + 1;
        }
        None
    }

    /// Adds `n` to the count of `group`.
    fn add_group(&mut self, group: Vec<u8>, n: u64)
        requires
            old(self).wf(),
        ensures
            final(self).wf(),
            forall|g: Seq<u8>| #[trigger] final(self).group_count(g) == if g == group@ {
                sat_add(old(self).group_count(g), n as nat)
            } else {
                old(self).group_count(g)
            },
            forall|c: u8| #[trigger] final(self).total(c) == old(self).total(c),
            final(self).totals@ == old(self).totals@,
    {
        let ghost before = self.groups@;
        match self.find(&group) {
            Some(i) => {
                proof {
                    lemma_count_at(before, i as int);
                }
                let updated = sat_add_exec(self.groups[i].1, n);
                let mut entries: Vec<(Vec<u8>, u64)> = Vec::new();
                std::mem::swap(&mut self.groups, &mut entries);
                let key = copy_codes(&entries[i].0);
                entries.set(i, (key, updated));
                proof {
                    assert(entries@ == before.update(i as int, (entries@[i as int].0, updated)));
                    assert(keys_unique(entries@));
                    assert forall|g: Seq<u8>| count_in(entries@, g) == if g == group@ {
                        sat_add(count_in(before, g), n as nat)
                    } else {
                        count_in(before, g)
                    } by {
                        lemma_count_at(entries@, i as int);
                        if g != group@ {
                            if exists|j: int| 0 <= j < before.len() && (#[trigger] before[j]).0@ == g {
                                let j = choose|j: int| 0 <= j < before.len() && (#[trigger] before[j]).0@ == g;
                                lemma_count_at(before, j);
                                lemma_count_at(entries@, j);
                            } else {
                                assert forall|j: int| 0 <= j < entries@.len() implies (#[trigger] entries@[j]).0@ != g by {
                                    assert(before[j].0@ != g);
                                }
                            }
                        }
                    }
                }
                self.groups = entries;
            },
            None => {
                let mut entries: Vec<(Vec<u8>, u64)> = Vec::new();
                std::mem::swap(&mut self.groups, &mut entries);
                let ghost key = group@;
                entries.push((group, n));
                proof {
                    let last = before.len() as int;
                    assert(entries@[last].0@ == key);
                    assert(keys_unique(entries@)) by {
                        assert forall|a: int, b: int| 0 <= a < entries@.len() && 0 <= b < entries@.len() && (#[trigger] entries@[a]).0@ == (#[trigger] entries@[b]).0@ implies a == b by {
                            if a < last && b < last {
                                assert(before[a] == entries@[a] && before[b] == entries@[b]);
                            } else if a < last {
                                assert(before[a] == entries@[a]);
                            } else if b < last {
                                assert(before[b] == entries@[b]);
                            }
                        }
                    }
                    assert forall|g: Seq<u8>| count_in(entries@, g) == if g == key {
                        sat_add(count_in(before, g), n as nat)
                    } else {
                        count_in(before, g)
                    } by {
                        if g == key {
                            lemma_count_at(entries@, last);
                        } else if exists|j: int| 0 <= j < before.len() && (#[trigger] before[j]).0@ == g {
                            let j = choose|j: int| 0 <= j < before.len() && (#[trigger] before[j]).0@ == g;
                            lemma_count_at(before, j);
                            assert(entries@[j] == before[j]);
                            lemma_count_at(entries@, j);
                        } else {
                            assert forall|j: int| 0 <= j < entries@.len() implies (#[trigger] entries@[j]).0@ != g by {
                                if j < last {
                                    assert(entries@[j] == before[j]);
                                }
                            }
                        }
                    }
                }
                self.groups = entries;
            },
        }
    }

    /// Counts one attribute set: its codes, sorted, are one occurrence of their group, and each
    /// code is one occurrence of its type.
    pub fn add_to_count(&mut self, codes: Vec<u8>)
        requires
            old(self).wf(),
        ensures
            final(self).wf(),
            forall|c: u8| #[trigger] final(self).total(c) == sat_add(
                old(self).total(c),
                codes@.to_multiset().count(c),
            ),
            forall|g: Seq<u8>| #[trigger] final(self).group_count(g) == if is_group_of(g, codes@) {
                sat_add(old(self).group_count(g), 1)
            } else {
                old(self).group_count(g)
            },
    {
        let ghost original = codes@;
        let mut sorted = codes;
        sort_codes(&mut sorted);
        proof {
            let empty = sorted@.subrange(0, 0);
            empty.to_multiset_ensures();
            assert forall|c: u8| empty.to_multiset().count(c) == 0 by {
                if empty.to_multiset().count(c) > 0 {
                    assert(empty.contains(c));
                }
            }
        }
        let mut i: usize = 0;
        while i < sorted.len()
            invariant
                i <= sorted@.len(),
                self.wf(),
                self.groups@ == old(self).groups@,
                self.totals@.len() == NUM_CODES,
                keys_unique(self.groups@),
                forall|c: u8| #[trigger] self.total(c) == sat_add(
                    old(self).total(c),
                    sorted@.subrange(0, i as int).to_multiset().count(c),
                ),
            decreases sorted@.len() - i,
        {
            let code = sorted[i];
            let bumped = sat_add_exec(self.totals[code as usize], 1);
            let ghost totals = self.totals@;
            let ghost pre = *self;
            self.totals.set(code as usize, bumped);
            proof {
                let prefix = sorted@.subrange(0, i as int);
                assert(sorted@.subrange(0, i + 1) =~= prefix.push(code));
                prefix.to_multiset_ensures();
                assert(sorted@.subrange(0, i + 1).to_multiset() =~= prefix.to_multiset().insert(code));
                assert forall|c: u8| #[trigger] self.total(c) == sat_add(
                    old(self).total(c),
                    sorted@.subrange(0, i + 1).to_multiset().count(c),
                ) by {
                    assert(pre.total(c) == sat_add(old(self).total(c), prefix.to_multiset().count(c)));
                    if c != code {
                        assert(self.totals@[c as int] == totals[c as int]);
                        assert(prefix.to_multiset().insert(code).count(c) == prefix.to_multiset().count(c));
                    } else {
                        assert(prefix.to_multiset().insert(code).count(c) == prefix.to_multiset().count(c) + 1);
                        lemma_sat_add_assoc(old(self).total(c), prefix.to_multiset().count(c), 1);
                    }
                }
            }
            i = i + 1;
        }
        proof {
            assert(sorted@.subrange(0, sorted@.len() as int) =~= sorted@);
        }
        let ghost group = sorted@;
        self.add_group(sorted, 1);
        proof {
            assert forall|g: Seq<u8>| is_group_of(g, original) <==> g == group by {
                if is_group_of(g, original) {
                    lemma_sorted_unique(g, group);
                }
            }
        }
    }

    /// Counts the attribute sets that a record carries.
    pub fn count_record(&mut self, shape: MessageShape)
        requires
            old(self).wf(),
        ensures
            final(self).wf(),
            forall|c: u8| #[trigger] final(self).total(c) == sat_add(
                old(self).total(c),
                code_occurrences(attribute_sets_spec(shape), c),
            ),
            forall|g: Seq<u8>| #[trigger] final(self).group_count(g) == sat_add(
                old(self).group_count(g),
                group_occurrences(attribute_sets_spec(shape), g),
            ),
    {
        let ghost expected = attribute_sets_spec(shape);
        let sets = attribute_sets(shape);
        let mut i: usize = 0;
        while i < sets.len()
            invariant
                i <= sets@.len(),
                self.wf(),
                sets@.len() == expected.len(),
                forall|j: int| 0 <= j < sets@.len() ==> (#[trigger] sets@[j])@ == expected[j],
                forall|c: u8| #[trigger] self.total(c) == sat_add(
                    old(self).total(c),
                    code_occurrences(expected.subrange(0, i as int), c),
                ),
                forall|g: Seq<u8>| #[trigger] self.group_count(g) == sat_add(
                    old(self).group_count(g),
                    group_occurrences(expected.subrange(0, i as int), g),
                ),
            decreases sets@.len() - i,
        {
            let codes = copy_codes(&sets[i]);
            self.add_to_count(codes);
            proof {
                assert(expected.subrange(0, i + 1).drop_last() =~= expected.subrange(0, i as int));
                assert forall|c: u8| #[trigger] self.total(c) == sat_add(
                    old(self).total(c),
                    code_occurrences(expected.subrange(0, i + 1), c),
                ) by {
                    lemma_sat_add_assoc(
                        old(self).total(c),
                        code_occurrences(expected.subrange(0, i as int), c),
                        expected[i as int].to_multiset().count(c),
                    );
                }
                assert forall|g: Seq<u8>| #[trigger] self.group_count(g) == sat_add(
                    old(self).group_count(g),
                    group_occurrences(expected.subrange(0, i + 1), g),
                ) by {
                    lemma_sat_add_assoc(
                        old(self).group_count(g),
                        group_occurrences(expected.subrange(0, i as int), g),
                        if is_group_of(g, expected[i as int]) { 1nat } else { 0nat },
                    );
                }
            }
            i = i + 1;
        }
        proof {
            assert(expected.subrange(0, expected.len() as int) =~= expected);
        }
    }

    /// The statistics of `self` and `other` together: every count is the sum of the two,
    /// saturating.
    pub fn reduce(self, other: Self) -> (r: Self)
        requires
            self.wf(),
            other.wf(),
        ensures
            r.wf(),
            is_merge(self, other, r),
    {
        let mut r = self;
        let ghost start = r;
        let mut i: usize = 0;
        while i < other.groups.len()
            invariant
                keys_unique(other.groups@),
                other.totals@.len() == NUM_CODES,
                i <= other.groups@.len(),
                r.wf(),
                start.wf(),
                r.totals@ == start.totals@,
                forall|c: u8| #[trigger] r.total(c) == start.total(c),
                forall|g: Seq<u8>| #[trigger] r.group_count(g) == sat_add(
                    start.group_count(g),
                    count_in(other.groups@.subrange(0, i as int), g),
                ),
            decreases other.groups@.len() - i,
        {
            let key = copy_codes(&other.groups[i].0);
            let n = other.groups[i].1;
            r.add_group(key, n);
            proof {
                assert forall|g: Seq<u8>| #[trigger] r.group_count(g) == sat_add(
                    start.group_count(g),
                    count_in(other.groups@.subrange(0, i + 1), g),
                ) by {
                    lemma_count_prefix(other.groups@, i as int, g);
                }
            }
            i = i + 1;
        }
        proof {
            assert(other.groups@.subrange(0, other.groups@.len() as int) =~= other.groups@);
        }
        let ghost mid = r;
        let mut c: usize = 0;
        while c < NUM_CODES
            invariant
                other.totals@.len() == NUM_CODES,
                c <= NUM_CODES,
                r.wf(),
                start.wf(),
                r.groups@ == mid.groups@,
                forall|k: int| 0 <= k < c ==> #[trigger] r.totals@[k] as nat == sat_add(
                    start.totals@[k] as nat,
                    other.totals@[k] as nat,
                ),
                forall|k: int| c <= k < NUM_CODES ==> #[trigger] r.totals@[k] == start.totals@[k],
            decreases NUM_CODES - c,
        {
            let sum = sat_add_exec(r.totals[c], other.totals[c]);
            r.totals.set(c, sum);
            c = c + 1;
        }
        proof {
            assert forall|g: Seq<u8>| #[trigger] r.group_count(g) == sat_add(
                start.group_count(g),
                other.group_count(g),
            ) by {
                assert(mid.group_count(g) == sat_add(
                    start.group_count(g),
                    count_in(other.groups@.subrange(0, other.groups@.len() as int), g),
                ));
            }
            assert forall|k: u8| #[trigger] r.total(k) == sat_add(start.total(k), other.total(k)) by {
                assert(r.totals@[k as int] as nat == sat_add(start.totals@[k as int] as nat, other.totals@[k as int] as nat));
            }
        }
        r
    }

    /// Folds one decode attempt into the statistics: the attribute sets of a record are counted
    /// and `None` comes back; an error leaves the counts alone and comes back to be reported.
    pub fn tally(&mut self, attempt: Result<MrtRecord, RecordError>) -> (r: Option<RecordError>)
        requires
            old(self).wf(),
        ensures
            final(self).wf(),
            match attempt {
                Ok(record) => r is None && sets_counted(*old(self), *final(self), record_sets(record)),
                Err(e) => r == Some(e) && same_counts(*old(self), *final(self)),
            },
    {
        match attempt {
            Ok(record) => {
                let shape = record_shape(record_parts(record));
                self.count_record(shape);
                None
            },
            Err(e) => Some(e),
        }
    }
}

impl Default for AttributeCounts {
    fn default() -> (r: AttributeCounts)
        ensures
            r.wf(),
            forall|g: Seq<u8>| r.group_count(g) == 0,
            forall|c: u8| r.total(c) == 0,
    {
        AttributeCounts::new()
    }
}

} // verus!
