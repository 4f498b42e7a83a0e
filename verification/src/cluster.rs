//! Redis Cluster topology.
//!
//! A seed node answers `CLUSTER SLOTS` with the ranges of hash slots that each
//! primary owns. From them comes a table that maps every slot to an endpoint.

use crate::search::reply;
use crate::text;
use crate::worker::reply::endpoint_index;
use crate::worker::routing;
use crate::worker::routing::SLOT_COUNT;
use vstd::prelude::*;
use vstd::string::*;

verus! {

/// A contiguous range of hash slots and the address of its primary.
#[derive(Clone, Debug)]
pub struct SlotRange {
    /// The first slot.
    pub start: u16,
    /// The last slot.
    pub end: u16,
    /// The primary's address.
    pub address: String,
}

/// What the bytes that a seed node sent so far hold.
#[derive(Clone, Debug)]
pub enum SlotsReply {
    /// Not yet a whole reply.
    Incomplete,
    /// No reply, for the given reason.
    Malformed(String),
    /// An error, with its message.
    Refused(String),
    /// A reply that is no slot map.
    NotSlots,
    /// A slot map, by first slot.
    Ranges(Vec<SlotRange>),
}

/// A range, with its address as text.
pub struct RangeView {
    pub start: u16,
    pub end: u16,
    pub address: Seq<char>,
}

/// A reply, with its texts.
pub enum ReplyView {
    Incomplete,
    Malformed(Seq<char>),
    Refused(Seq<char>),
    NotSlots,
    Ranges(Seq<RangeView>),
}

impl View for SlotRange {
    type V = RangeView;

    open spec fn view(&self) -> RangeView {
        RangeView { start: self.start, end: self.end, address: self.address@ }
    }
}

impl View for SlotsReply {
    type V = ReplyView;

    open spec fn view(&self) -> ReplyView {
        match *self {
            SlotsReply::Incomplete => ReplyView::Incomplete,
            SlotsReply::Malformed(e) => ReplyView::Malformed(e@),
            SlotsReply::Refused(e) => ReplyView::Refused(e@),
            SlotsReply::NotSlots => ReplyView::NotSlots,
            SlotsReply::Ranges(v) => ReplyView::Ranges(v@.map_values(|r: SlotRange| r@)),
        }
    }
}

/// `resp_proto::Value`, a reply.
#[verifier::external_type_specification]
#[verifier::external_body]
pub struct ExValue(resp_proto::Value);

/// What bytes were parsed as.
pub enum Parsed {
    /// Not yet a whole reply.
    Incomplete,
    /// No reply, for the given reason.
    Malformed(String),
    /// An error, with its message.
    Error(Vec<u8>),
    /// Any other reply.
    Whole(resp_proto::Value),
}

/// What bytes were parsed as, with its texts.
pub enum ParsedView {
    Incomplete,
    Malformed(Seq<char>),
    Error(Seq<u8>),
    Whole(resp_proto::Value),
}

impl View for Parsed {
    type V = ParsedView;

    open spec fn view(&self) -> ParsedView {
        match *self {
            Parsed::Incomplete => ParsedView::Incomplete,
            Parsed::Malformed(e) => ParsedView::Malformed(e@),
            Parsed::Error(m) => ParsedView::Error(m@),
            Parsed::Whole(v) => ParsedView::Whole(v),
        }
    }
}

/// What `resp_proto::Value::parse` finds in bytes.
pub uninterp spec fn parsed(bytes: Seq<u8>) -> ParsedView;

/// `resp_proto::Value::parse`. What it finds depends on the bytes alone; it is
/// named, and nothing else is said of it.
#[verifier::external_body]
fn parse_reply(bytes: &[u8]) -> (r: Parsed)
    ensures
        r@ == parsed(bytes@),
{
    match resp_proto::Value::parse(bytes) {
        Err(resp_proto::ParseError::Incomplete) => Parsed::Incomplete,
        Err(e) => Parsed::Malformed(e.to_string()),
        Ok((resp_proto::Value::Error(m), _)) => Parsed::Error(m.to_vec()),
        Ok((v, _)) => Parsed::Whole(v),
    }
}

/// The slot map that `resp_proto::SlotMap::from_cluster_slots` reads a reply
/// as, where it is one.
pub uninterp spec fn slot_ranges(reply: resp_proto::Value) -> Option<Seq<RangeView>>;

/// Ranges as they are seen, where there are any.
pub open spec fn seen_ranges(ranges: Option<Vec<SlotRange>>) -> Option<Seq<RangeView>> {
    match ranges {
        Some(v) => Some(v@.map_values(|x: SlotRange| x@)),
        None => None,
    }
}

/// `resp_proto::SlotMap::from_cluster_slots`. What it reads depends on the
/// reply alone; it is named, and nothing else is said of it.
#[verifier::external_body]
fn read_slots(reply: &resp_proto::Value) -> (r: Option<Vec<SlotRange>>)
    ensures
        seen_ranges(r) == slot_ranges(*reply),
{
    resp_proto::SlotMap::from_cluster_slots(reply).map(|map| map.ranges().iter().map(|r| SlotRange {
        start: r.start, end: r.end, address: r.primary.address.clone(),
    }).collect())
}

/// What a parsed reply to `CLUSTER SLOTS` holds.
pub open spec fn slots_seen(parsed: ParsedView) -> ReplyView {
    match parsed {
        ParsedView::Incomplete => ReplyView::Incomplete,
        ParsedView::Malformed(e) => ReplyView::Malformed(e),
        ParsedView::Error(m) => ReplyView::Refused(reply::lossy(m)),
        ParsedView::Whole(v) => match slot_ranges(v) {
            Some(ranges) => ReplyView::Ranges(ranges),
            None => ReplyView::NotSlots,
        },
    }
}

/// What the bytes of a reply to `CLUSTER SLOTS` hold.
pub open spec fn slots_in(bytes: Seq<u8>) -> ReplyView {
    slots_seen(parsed(bytes))
}

/// What a parsed reply to `CLUSTER SLOTS` holds.
pub fn slots_of(parsed: Parsed) -> (r: SlotsReply)
    ensures
        r@ == slots_seen(parsed@),
{
    match parsed {
        Parsed::Incomplete => SlotsReply::Incomplete,
        Parsed::Malformed(e) => SlotsReply::Malformed(e),
        Parsed::Error(m) => SlotsReply::Refused(reply::lossy_text(&m)),
        Parsed::Whole(v) => match read_slots(&v) {
            Some(ranges) => SlotsReply::Ranges(ranges),
            None => SlotsReply::NotSlots,
        },
    }
}

/// What the bytes of a reply to `CLUSTER SLOTS` hold.
fn parse_slots(bytes: &[u8]) -> (r: SlotsReply)
    ensures
        r@ == slots_in(bytes@),
{
    slots_of(parse_reply(bytes))
}

/// Why a topology could not be discovered.
#[derive(Clone, Debug)]
pub enum ClusterError {
    /// There was nobody to ask.
    NoSeeds,
    /// The seed node could not be asked.
    Io(String),
    /// The seed node hung up.
    Closed,
    /// The reply is malformed.
    Malformed(String),
    /// The reply is an error.
    Refused(String),
    /// The reply is no slot map.
    NotSlots,
    /// The slot map is empty.
    Empty,
    /// A primary's address is no address.
    InvalidAddress { address: String, reason: String },
    /// A range names a slot that does not exist.
    SlotOutOfRange(u16),
    /// No range covers this slot.
    Gap(usize),
}

impl ClusterError {
    /// The error in words.
    pub open spec fn words(self) -> Seq<char> {
        match self {
            ClusterError::NoSeeds => "no seed nodes provided"@,
            ClusterError::Io(e) => e@,
            ClusterError::Closed => "connection closed before complete response"@,
            ClusterError::Malformed(e) => "failed to parse CLUSTER SLOTS response: "@ + e@,
            ClusterError::Refused(e) => "CLUSTER SLOTS returned error: "@ + e@,
            ClusterError::NotSlots => "failed to parse CLUSTER SLOTS response as slot map"@,
            ClusterError::Empty => "CLUSTER SLOTS returned empty slot map"@,
            ClusterError::InvalidAddress { address, reason } => "invalid primary address '"@
                + address@ + "': "@ + reason@,
            ClusterError::SlotOutOfRange(slot) => "CLUSTER SLOTS names slot "@ + text::decimal(
                slot as nat,
            ),
            ClusterError::Gap(slot) => "CLUSTER SLOTS does not cover slot "@ + text::decimal(
                slot as nat,
            ),
        }
    }

    /// The error in words.
    pub fn message(&self) -> (r: String)
        ensures
            r@ == self.words(),
    {
        match self {
            ClusterError::NoSeeds => String::from_str("no seed nodes provided"),
            ClusterError::Io(e) => String::from_str(e.as_str()),
            ClusterError::Closed => String::from_str("connection closed before complete response"),
            ClusterError::Malformed(e) => {
                let mut r = String::from_str("failed to parse CLUSTER SLOTS response: ");
                r.append(e.as_str());
                r
            },
            ClusterError::Refused(e) => {
                let mut r = String::from_str("CLUSTER SLOTS returned error: ");
                r.append(e.as_str());
                r
            },
            ClusterError::NotSlots => {
                String::from_str("failed to parse CLUSTER SLOTS response as slot map")
            },
            ClusterError::Empty => String::from_str("CLUSTER SLOTS returned empty slot map"),
            ClusterError::InvalidAddress { address, reason } => {
                let mut r = String::from_str("invalid primary address '");
                r.append(address.as_str());
                r.append("': ");
                r.append(reason.as_str());
                r
            },
            ClusterError::SlotOutOfRange(slot) => {
                let mut r = String::from_str("CLUSTER SLOTS names slot ");
                text::push_decimal(&mut r, *slot as u128);
                r
            },
            ClusterError::Gap(slot) => {
                let mut r = String::from_str("CLUSTER SLOTS does not cover slot ");
                text::push_decimal(&mut r, *slot as u128);
                r
            },
        }
    }
}

/// What to do with what a seed node sent so far.
#[derive(Clone, Debug)]
pub enum Received {
    /// Read on.
    More,
    /// Give the seed up.
    Failed(ClusterError),
    /// The reply is whole.
    Ranges(Vec<SlotRange>),
}

/// What to do with a reply.
pub fn judge(reply: SlotsReply) -> (r: Received)
    ensures
        match reply {
            SlotsReply::Incomplete => r is More,
            SlotsReply::Malformed(e) => r == Received::Failed(ClusterError::Malformed(e)),
            SlotsReply::Refused(e) => r == Received::Failed(ClusterError::Refused(e)),
            SlotsReply::NotSlots => r == Received::Failed(ClusterError::NotSlots),
            SlotsReply::Ranges(v) => if v@.len() == 0 {
                r == Received::Failed(ClusterError::Empty)
            } else {
                r == Received::Ranges(v)
            },
        },
{
    match reply {
        SlotsReply::Incomplete => Received::More,
        SlotsReply::Malformed(e) => Received::Failed(ClusterError::Malformed(e)),
        SlotsReply::Refused(e) => Received::Failed(ClusterError::Refused(e)),
        SlotsReply::NotSlots => Received::Failed(ClusterError::NotSlots),
        SlotsReply::Ranges(v) => {
            if v.len() == 0 {
                Received::Failed(ClusterError::Empty)
            } else {
                Received::Ranges(v)
            }
        },
    }
}

/// What to do with the bytes that a seed node sent so far, of which the last
/// read gave `n`.
pub fn received(bytes: &[u8], n: usize) -> (r: Received)
    ensures
        n == 0 ==> r == Received::Failed(ClusterError::Closed),
        n > 0 ==> match slots_in(bytes@) {
            ReplyView::Incomplete => r is More,
            ReplyView::Malformed(e) => r matches Received::Failed(ClusterError::Malformed(t))
                && t@ == e,
            ReplyView::Refused(e) => r matches Received::Failed(ClusterError::Refused(t)) && t@
                == e,
            ReplyView::NotSlots => r == Received::Failed(ClusterError::NotSlots),
            ReplyView::Ranges(v) => if v.len() == 0 {
                r == Received::Failed(ClusterError::Empty)
            } else {
                r matches Received::Ranges(w) && w@.map_values(|x: SlotRange| x@) == v
            },
        },
{
    if n == 0 {
        return Received::Failed(ClusterError::Closed);
    }
    judge(parse_slots(bytes))
}

/// The error of a discovery in which every seed failed: the last one's.
pub fn discovery_failure(mut failures: Vec<ClusterError>) -> (r: ClusterError)
    ensures
        r == if failures@.len() == 0 {
            ClusterError::NoSeeds
        } else {
            failures@.last()
        },
{
    match failures.pop() {
        Some(e) => e,
        None => ClusterError::NoSeeds,
    }
}

/// The first occurrence of each text, in order.
pub open spec fn distinct(texts: Seq<Seq<char>>) -> Seq<Seq<char>>
    decreases texts.len(),
{
    if texts.len() == 0 {
        Seq::empty()
    } else {
        let before = distinct(texts.drop_last());
        if before.contains(texts.last()) {
            before
        } else {
            before.push(texts.last())
        }
    }
}

/// The last of the first `k` ranges that covers a slot.
pub open spec fn covering(ranges: Seq<RangeView>, k: int, slot: int) -> Option<int>
    decreases k,
{
    if k <= 0 {
        None
    } else if ranges[k - 1].start <= slot <= ranges[k - 1].end {
        Some(k - 1)
    } else {
        covering(ranges, k - 1, slot)
    }
}

/// The endpoints and the owner of every slot.
#[derive(Clone, Debug)]
pub struct Topology {
    pub endpoints: Vec<String>,
    pub slot_table: Vec<u16>,
}

/// What an address was read as: its canonical form, or why it is none.
#[derive(Clone, Debug)]
pub enum Address {
    Valid(String),
    Invalid(String),
}

/// The canonical forms of the first `k` addresses.
pub open spec fn canonical(addresses: Seq<Address>, k: int) -> Seq<Seq<char>> {
    Seq::new(k as nat, |i: int| addresses[i]->Valid_0@)
}

/// The first range whose address is none.
pub open spec fn first_invalid(addresses: Seq<Address>, i: int) -> bool {
    &&& 0 <= i < addresses.len()
    &&& addresses[i] is Invalid
    &&& forall|j: int| 0 <= j < i ==> (#[trigger] addresses[j]) is Valid
}

/// A range that names a slot beyond the last.
pub open spec fn oversteps(range: SlotRange) -> bool {
    range.start <= range.end && range.end >= SLOT_COUNT
}

/// The views of a list of ranges.
pub open spec fn views(ranges: Seq<SlotRange>) -> Seq<RangeView> {
    ranges.map_values(|r: SlotRange| r@)
}

/// Whether this is the topology of the ranges: the endpoints are the primaries
/// in order of appearance, and every slot leads to the primary of the last
/// range that covers it.
pub open spec fn is_topology(
    t: Topology,
    ranges: Seq<SlotRange>,
    addresses: Seq<Address>,
) -> bool {
    let primaries = canonical(addresses, addresses.len() as int);
    &&& routing::texts(t.endpoints@) == distinct(primaries)
    &&& t.slot_table@.len() == SLOT_COUNT
    &&& forall|slot: int|
        0 <= slot < SLOT_COUNT ==> {
            &&& covering(views(ranges), ranges.len() as int, slot) is Some
            &&& #[trigger] t.slot_table@[slot] < t.endpoints@.len()
            &&& t.endpoints@[t.slot_table@[slot] as int]@ == primaries[covering(
                views(ranges),
                ranges.len() as int,
                slot,
            )->0]
        }
}

proof fn lemma_distinct_contains(texts: Seq<Seq<char>>, i: int)
    requires
        0 <= i < texts.len(),
    ensures
        distinct(texts).contains(texts[i]),
    decreases texts.len(),
{
    let before = distinct(texts.drop_last());
    if i == texts.len() - 1 {
        if !before.contains(texts.last()) {
            assert(before.push(texts.last())[before.len() as int] == texts.last());
        }
    } else {
        lemma_distinct_contains(texts.drop_last(), i);
        assert(texts.drop_last()[i] == texts[i]);
        let j = choose|j: int| 0 <= j < before.len() && before[j] == texts[i];
        assert(before.push(texts.last())[j] == texts[i]);
    }
}

proof fn lemma_distinct_short(texts: Seq<Seq<char>>)
    ensures
        distinct(texts).len() <= texts.len(),
        texts.len() > 0 ==> distinct(texts).len() > 0,
    decreases texts.len(),
{
    if texts.len() > 0 {
        lemma_distinct_short(texts.drop_last());
        lemma_distinct_contains(texts, 0);
    }
}

/// Endpoints are named once each, and every primary is among them.
pub proof fn endpoints_are_distinct(texts: Seq<Seq<char>>)
    ensures
        distinct(texts).no_duplicates(),
        forall|i: int| 0 <= i < texts.len() ==> distinct(texts).contains(#[trigger] texts[i]),
    decreases texts.len(),
{
    if texts.len() > 0 {
        endpoints_are_distinct(texts.drop_last());
    }
    assert forall|i: int| 0 <= i < texts.len() implies distinct(texts).contains(
        #[trigger] texts[i],
    ) by {
        lemma_distinct_contains(texts, i);
    }
}

/// The primaries of the ranges, each once, in order of appearance.
fn collect_endpoints(ranges: &Vec<SlotRange>, addresses: &Vec<Address>) -> (r: Result<
    Vec<String>,
    ClusterError,
>)
    requires
        ranges@.len() == addresses@.len(),
    ensures
        match r {
            Ok(v) => {
                &&& forall|i: int| 0 <= i < addresses@.len() ==> #[trigger] addresses@[i] is Valid
                &&& routing::texts(v@) == distinct(canonical(addresses@, addresses@.len() as int))
            },
            Err(e) => e matches ClusterError::InvalidAddress { address, reason } && exists|i: int|
                #[trigger] first_invalid(addresses@, i) && address@ == ranges@[i].address@
                    && reason@ == addresses@[i]->Invalid_0@,
        },
{
    let mut endpoints: Vec<String> = Vec::new();
    let mut i: usize = 0;
    assert(routing::texts(endpoints@) =~= distinct(canonical(addresses@, 0)));
    while i < ranges.len()
        invariant
            i <= ranges@.len(),
            ranges@.len() == addresses@.len(),
            forall|j: int| 0 <= j < i ==> #[trigger] addresses@[j] is Valid,
            routing::texts(endpoints@) == distinct(canonical(addresses@, i as int)),
        decreases ranges@.len() - i,
    {
        let text: &String = match &addresses[i] {
            Address::Valid(t) => t,
            Address::Invalid(e) => {
                assert(first_invalid(addresses@, i as int));
                return Err(
                    ClusterError::InvalidAddress {
                        address: String::from_str(ranges[i].address.as_str()),
                        reason: String::from_str(e.as_str()),
                    },
                );
            },
        };
        let ghost all = canonical(addresses@, i + 1);
        let ghost before = routing::texts(endpoints@);
        assert(all.drop_last() =~= canonical(addresses@, i as int));
        assert(all.last() == text@);
        let found = endpoint_index(&endpoints, text.as_str());
        proof {
            assert forall|j: int| 0 <= j < endpoints@.len() implies before[j]
                == #[trigger] endpoints@[j]@ by {}
            match found {
                Some(k) => {
                    assert(before[k as int] == text@);
                },
                None => {
                    if before.contains(text@) {
                        let j = choose|j: int| 0 <= j < before.len() && before[j] == text@;
                        assert(endpoints@[j]@ == text@);
                    }
                },
            }
        }
        if found.is_none() {
            endpoints.push(String::from_str(text.as_str()));
            assert(routing::texts(endpoints@) =~= before.push(text@));
        }
        i = i + 1;
    }
    Ok(endpoints)
}

/// The entries that the first `k` ranges write, with a mark on those that were
/// written.
spec fn written(
    table: Seq<u16>,
    covered: Seq<bool>,
    ranges: Seq<RangeView>,
    k: int,
    index: Seq<nat>,
) -> bool {
    &&& table.len() == SLOT_COUNT
    &&& covered.len() == SLOT_COUNT
    &&& forall|slot: int|
        #![trigger table[slot]]
        #![trigger covered[slot]]
        0 <= slot < SLOT_COUNT ==> {
            &&& covered[slot] == (covering(ranges, k, slot) is Some)
            &&& covered[slot] ==> table[slot] == index[covering(ranges, k, slot)->0]
        }
}

fn write_range(
    table: &mut Vec<u16>,
    covered: &mut Vec<bool>,
    ranges: &Vec<SlotRange>,
    i: usize,
    idx: u16,
    Ghost(index): Ghost<Seq<nat>>,
)
    requires
        i < ranges@.len(),
        !oversteps(ranges@[i as int]),
        index.len() == ranges@.len(),
        index[i as int] == idx,
        written(old(table)@, old(covered)@, views(ranges@), i as int, index),
    ensures
        written(final(table)@, final(covered)@, views(ranges@), i + 1, index),
{
    let start: usize = ranges[i].start as usize;
    let end: usize = ranges[i].end as usize;
    let ghost v = views(ranges@);
    assert(v[i as int] == ranges@[i as int]@);
    let mut slot: usize = start;
    while slot <= end
        invariant
            i < ranges@.len(),
            start == ranges@[i as int].start,
            end == ranges@[i as int].end,
            v == views(ranges@),
            v[i as int] == ranges@[i as int]@,
            start <= end ==> end < SLOT_COUNT,
            start <= slot,
            slot <= end + 1 || slot == start,
            index.len() == ranges@.len(),
            index[i as int] == idx,
            table@.len() == SLOT_COUNT,
            covered@.len() == SLOT_COUNT,
            forall|s: int|
                #![trigger table@[s]]
                #![trigger covered@[s]]
                0 <= s < SLOT_COUNT ==> if start <= s < slot {
                    covered@[s] && table@[s] == idx
                } else {
                    &&& covered@[s] == (covering(v, i as int, s) is Some)
                    &&& covered@[s] ==> table@[s] == index[covering(v, i as int, s)->0]
                },
        decreases end + 1 - slot,
    {
        table.set(slot, idx);
        covered.set(slot, true);
        slot = slot + 1;
    }
}

/// The table of the slots that the ranges name, and which slots they name.
fn fill_table(ranges: &Vec<SlotRange>, addresses: &Vec<Address>, endpoints: &Vec<String>) -> (r:
    Result<(Vec<u16>, Vec<bool>, Ghost<Seq<nat>>), ClusterError>)
    requires
        ranges@.len() == addresses@.len(),
        endpoints@.len() <= 0x1_0000,
        forall|i: int| 0 <= i < addresses@.len() ==> #[trigger] addresses@[i] is Valid,
        routing::texts(endpoints@) == distinct(canonical(addresses@, addresses@.len() as int)),
    ensures
        match r {
            Ok((table, covered, index)) => {
                &&& forall|i: int| 0 <= i < ranges@.len() ==> !oversteps(#[trigger] ranges@[i])
                &&& index@.len() == ranges@.len()
                &&& forall|i: int|
                    0 <= i < ranges@.len() ==> #[trigger] index@[i] < endpoints@.len()
                        && endpoints@[index@[i] as int]@ == addresses@[i]->Valid_0@
                &&& written(table@, covered@, views(ranges@), ranges@.len() as int, index@)
            },
            Err(e) => e matches ClusterError::SlotOutOfRange(slot) && exists|i: int|
                0 <= i < ranges@.len() && oversteps(#[trigger] ranges@[i]) && slot
                    == ranges@[i].end,
        },
{
    let mut table: Vec<u16> = vec![0; SLOT_COUNT];
    let mut covered: Vec<bool> = vec![false; SLOT_COUNT];
    let mut i: usize = 0;
    let ghost primaries = canonical(addresses@, addresses@.len() as int);
    let ghost index = Seq::new(
        ranges@.len(),
        |i: int| distinct(primaries).index_of(primaries[i]) as nat,
    );
    proof {
        assert forall|i: int| 0 <= i < ranges@.len() implies #[trigger] index[i] < endpoints@.len()
            && endpoints@[index[i] as int]@ == addresses@[i]->Valid_0@ by {
            lemma_distinct_contains(primaries, i);
            let d = distinct(primaries);
            let j = d.index_of(primaries[i]);
            assert(0 <= j < d.len() && d[j] == primaries[i]);
            assert(routing::texts(endpoints@)[j] == endpoints@[j]@);
        }
    }
    while i < ranges.len()
        invariant
            i <= ranges@.len(),
            ranges@.len() == addresses@.len(),
            endpoints@.len() <= 0x1_0000,
            forall|i: int| 0 <= i < addresses@.len() ==> #[trigger] addresses@[i] is Valid,
            primaries == canonical(addresses@, addresses@.len() as int),
            routing::texts(endpoints@) == distinct(primaries),
            index == Seq::new(
                ranges@.len(),
                |i: int| distinct(primaries).index_of(primaries[i]) as nat,
            ),
            forall|i: int|
                0 <= i < ranges@.len() ==> #[trigger] index[i] < endpoints@.len()
                    && endpoints@[index[i] as int]@ == addresses@[i]->Valid_0@,
            forall|j: int| 0 <= j < i ==> !oversteps(#[trigger] ranges@[j]),
            written(table@, covered@, views(ranges@), i as int, index),
        decreases ranges@.len() - i,
    {
        let end: u16 = ranges[i].end;
        if ranges[i].start <= end && end as usize >= SLOT_COUNT {
            assert(oversteps(ranges@[i as int]));
            return Err(ClusterError::SlotOutOfRange(end));
        }
        let idx: usize = match &addresses[i] {
            Address::Valid(t) => match endpoint_index(endpoints, t.as_str()) {
                Some(k) => {
                    proof {
                        let d = distinct(primaries);
                        let j = index[i as int] as int;
                        endpoints_are_distinct(primaries);
                        assert(d[j] == routing::texts(endpoints@)[j]);
                        assert(d[k as int] == routing::texts(endpoints@)[k as int]);
                        assert(d[k as int] == d[j]);
                    }
                    k
                },
                None => {
                    assert(endpoints@[index[i as int] as int]@ == t@);
                    0
                },
            },
            Address::Invalid(_) => 0,
        };
        write_range(&mut table, &mut covered, ranges, i, idx as u16, Ghost(index));
        i = i + 1;
    }
    Ok((table, covered, Ghost(index)))
}

/// Builds the topology of a slot map. `addresses` holds, for each range, what
/// its address was read as. Every slot must be covered: a gap would send its
/// keys to a node that does not own them. The table names no more primaries
/// than 16 bits can.
pub fn build_topology(ranges: &Vec<SlotRange>, addresses: &Vec<Address>) -> (r: Result<
    Topology,
    ClusterError,
>)
    requires
        ranges@.len() == addresses@.len(),
        (forall|i: int| 0 <= i < addresses@.len() ==> #[trigger] addresses@[i] is Valid)
            ==> distinct(canonical(addresses@, addresses@.len() as int)).len() <= 0x1_0000,
    ensures
        r == Err::<Topology, ClusterError>(ClusterError::Empty) <==> ranges@.len() == 0,
        match r {
            Ok(t) => {
                &&& is_topology(t, ranges@, addresses@)
                &&& forall|i: int| 0 <= i < addresses@.len() ==> #[trigger] addresses@[i] is Valid
                &&& forall|i: int| 0 <= i < ranges@.len() ==> !oversteps(#[trigger] ranges@[i])
            },
            Err(ClusterError::InvalidAddress { address, reason }) => exists|i: int|
                #[trigger] first_invalid(addresses@, i) && address@ == ranges@[i].address@
                    && reason@ == addresses@[i]->Invalid_0@,
            Err(ClusterError::SlotOutOfRange(slot)) => {
                &&& forall|i: int| 0 <= i < addresses@.len() ==> #[trigger] addresses@[i] is Valid
                &&& exists|i: int|
                    0 <= i < ranges@.len() && oversteps(#[trigger] ranges@[i]) && slot
                        == ranges@[i].end
            },
            Err(ClusterError::Gap(slot)) => {
                &&& forall|i: int| 0 <= i < addresses@.len() ==> #[trigger] addresses@[i] is Valid
                &&& forall|i: int| 0 <= i < ranges@.len() ==> !oversteps(#[trigger] ranges@[i])
                &&& slot < SLOT_COUNT
                &&& covering(views(ranges@), ranges@.len() as int, slot as int) is None
                &&& forall|s: int|
                    0 <= s < slot ==> #[trigger] covering(
                        views(ranges@),
                        ranges@.len() as int,
                        s,
                    ) is Some
            },
            Err(ClusterError::Empty) => true,
            Err(_) => false,
        },
{
    if ranges.len() == 0 {
        return Err(ClusterError::Empty);
    }
    let endpoints = match collect_endpoints(ranges, addresses) {
        Ok(v) => v,
        Err(e) => return Err(e),
    };
    proof {
        lemma_distinct_short(canonical(addresses@, addresses@.len() as int));
        assert(routing::texts(endpoints@).len() == endpoints@.len());
    }
    let (table, covered, index) = match fill_table(ranges, addresses, &endpoints) {
        Ok(t) => t,
        Err(e) => return Err(e),
    };
    let ghost primaries = canonical(addresses@, addresses@.len() as int);
    let mut slot: usize = 0;
    while slot < SLOT_COUNT
        invariant
            slot <= SLOT_COUNT,
            ranges@.len() > 0,
            written(table@, covered@, views(ranges@), ranges@.len() as int, index@),
            forall|i: int| 0 <= i < addresses@.len() ==> #[trigger] addresses@[i] is Valid,
            forall|i: int| 0 <= i < ranges@.len() ==> !oversteps(#[trigger] ranges@[i]),
            forall|s: int|
                0 <= s < slot ==> #[trigger] covering(
                    views(ranges@),
                    ranges@.len() as int,
                    s,
                ) is Some,
        decreases SLOT_COUNT - slot,
    {
        if !covered[slot] {
            return Err(ClusterError::Gap(slot));
        }
        slot = slot + 1;
    }
    proof {
        assert forall|s: int| 0 <= s < SLOT_COUNT implies {
            &&& covering(views(ranges@), ranges@.len() as int, s) is Some
            &&& #[trigger] table@[s] < endpoints@.len()
            &&& endpoints@[table@[s] as int]@ == primaries[covering(
                views(ranges@),
                ranges@.len() as int,
                s,
            )->0]
        } by {
            lemma_covering_bounds(views(ranges@), ranges@.len() as int, s);
            let c = covering(views(ranges@), ranges@.len() as int, s)->0;
            assert(index@[c] < endpoints@.len());
        }
    }
    Ok(Topology { endpoints, slot_table: table })
}

proof fn lemma_covering_bounds(ranges: Seq<RangeView>, k: int, slot: int)
    requires
        0 <= k <= ranges.len(),
    ensures
        covering(ranges, k, slot) matches Some(i) ==> {
            &&& 0 <= i < k
            &&& ranges[i].start <= slot <= ranges[i].end
            &&& forall|j: int|
                i < j < k ==> !((#[trigger] ranges[j]).start <= slot <= ranges[j].end)
        },
        covering(ranges, k, slot) is None ==> forall|j: int|
            0 <= j < k ==> !((#[trigger] ranges[j]).start <= slot <= ranges[j].end),
    decreases k,
{
    if k > 0 && !(ranges[k - 1].start <= slot <= ranges[k - 1].end) {
        lemma_covering_bounds(ranges, k - 1, slot);
    }
}

/// A slot that exactly one range covers leads to that range's primary.
pub proof fn slot_leads_to_its_primary(
    t: Topology,
    ranges: Seq<SlotRange>,
    addresses: Seq<Address>,
    i: int,
    slot: int,
)
    requires
        is_topology(t, ranges, addresses),
        ranges.len() == addresses.len(),
        0 <= i < ranges.len(),
        0 <= slot < SLOT_COUNT,
        ranges[i].start <= slot <= ranges[i].end,
        forall|j: int|
            0 <= j < ranges.len() && j != i ==> !((#[trigger] ranges[j]).start <= slot
                <= ranges[j].end),
    ensures
        t.slot_table@[slot] < t.endpoints@.len(),
        t.endpoints@[t.slot_table@[slot] as int]@ == addresses[i]->Valid_0@,
{
    let v = views(ranges);
    lemma_covering_bounds(v, ranges.len() as int, slot);
    let c = covering(v, ranges.len() as int, slot)->0;
    assert(t.slot_table@[slot] < t.endpoints@.len());
    assert(v[c] == ranges[c]@);
    assert(v[i] == ranges[i]@);
    if c != i {
        assert(!(ranges[c].start <= slot <= ranges[c].end));
    }
}

/// The endpoints are the primaries and no others: every primary's address is
/// among them, and each of them is some primary's.
pub proof fn endpoints_are_the_primaries(texts: Seq<Seq<char>>, t: Seq<char>)
    ensures
        distinct(texts).contains(t) <==> texts.contains(t),
    decreases texts.len(),
{
    if texts.len() > 0 {
        let before = texts.drop_last();
        let last = texts.last();
        endpoints_are_the_primaries(before, t);
        let d = distinct(before);
        if texts.contains(t) {
            let i = choose|i: int| 0 <= i < texts.len() && texts[i] == t;
            if i < before.len() {
                assert(before[i] == t);
                assert(d.contains(t));
            }
        }
        if before.contains(t) {
            let i = choose|i: int| 0 <= i < before.len() && before[i] == t;
            assert(texts[i] == t);
        }
        assert(texts[texts.len() - 1] == last);
        if !d.contains(last) {
            let all = d.push(last);
            assert(all[d.len() as int] == last);
            if d.contains(t) {
                let i = choose|i: int| 0 <= i < d.len() && d[i] == t;
                assert(all[i] == t);
            }
            if all.contains(t) {
                let i = choose|i: int| 0 <= i < all.len() && all[i] == t;
                if i < d.len() {
                    assert(d[i] == t);
                }
            }
        }
    } else {
        assert(!distinct(texts).contains(t));
    }
}

/// Endpoints come in the order in which their ranges appear: what comes later
/// adds to the end and changes nothing before it.
pub proof fn endpoints_keep_their_order(texts: Seq<Seq<char>>, k: int)
    requires
        0 <= k <= texts.len(),
    ensures
        distinct(texts.take(k)).len() <= distinct(texts).len(),
        distinct(texts).take(distinct(texts.take(k)).len() as int) == distinct(texts.take(k)),
    decreases texts.len(),
{
    if k < texts.len() {
        let before = texts.drop_last();
        endpoints_keep_their_order(before, k);
        assert(before.take(k) =~= texts.take(k));
        let d = distinct(before);
        let n = distinct(texts.take(k)).len() as int;
        assert(d.push(texts.last()).take(n) =~= d.take(n));
    } else {
        assert(texts.take(k) =~= texts);
        assert(distinct(texts).take(distinct(texts).len() as int) =~= distinct(texts));
    }
}

/// A slot belongs to the last range that covers it, and to none exactly when
/// none covers it.
pub proof fn the_last_covering_range_counts(ranges: Seq<RangeView>, slot: int, i: int)
    requires
        0 <= i < ranges.len(),
        ranges[i].start <= slot <= ranges[i].end,
        forall|j: int|
            i < j < ranges.len() ==> !((#[trigger] ranges[j]).start <= slot <= ranges[j].end),
    ensures
        covering(ranges, ranges.len() as int, slot) == Some(i),
{
    lemma_covering_last(ranges, ranges.len() as int, slot, i);
}

proof fn lemma_covering_last(ranges: Seq<RangeView>, k: int, slot: int, i: int)
    requires
        0 <= i < k <= ranges.len(),
        ranges[i].start <= slot <= ranges[i].end,
        forall|j: int| i < j < k ==> !((#[trigger] ranges[j]).start <= slot <= ranges[j].end),
    ensures
        covering(ranges, k, slot) == Some(i),
    decreases k,
{
    if i < k - 1 {
        assert(!(ranges[k - 1].start <= slot <= ranges[k - 1].end));
        lemma_covering_last(ranges, k - 1, slot, i);
    }
}

/// A slot without a range belongs to none.
pub proof fn an_uncovered_slot_has_no_range(ranges: Seq<RangeView>, slot: int)
    ensures
        covering(ranges, ranges.len() as int, slot) is None <==> forall|j: int|
            0 <= j < ranges.len() ==> !((#[trigger] ranges[j]).start <= slot <= ranges[j].end),
{
    lemma_covering_bounds(ranges, ranges.len() as int, slot);
}

/// A reply that was parsed whole is a slot map where it can be read as one; an
/// error reply is refused in its own words, and a reply that is not whole yet or
/// malformed stays so.
pub proof fn replies_are_told_apart(p: ParsedView)
    ensures
        slots_seen(p) is Incomplete <==> p is Incomplete,
        p matches ParsedView::Malformed(e) ==> slots_seen(p) == ReplyView::Malformed(e),
        p matches ParsedView::Error(m) ==> slots_seen(p) == ReplyView::Refused(reply::lossy(m)),
        p matches ParsedView::Whole(v) ==> (slots_seen(p) is Ranges <==> slot_ranges(v) is Some),
        p matches ParsedView::Whole(v) ==> (slots_seen(p) matches ReplyView::Ranges(r)
            ==> slot_ranges(v) == Some(r)),
        p matches ParsedView::Whole(v) ==> (slots_seen(p) is NotSlots <==> slot_ranges(v) is None),
{
}

/// A range oversteps exactly when it is not empty and ends beyond the last of the
/// 16384 slots.
pub proof fn ranges_end_with_the_last_slot(range: SlotRange)
    ensures
        oversteps(range) <==> range.start <= range.end && range.end > 16_383,
{
}

} // verus!
