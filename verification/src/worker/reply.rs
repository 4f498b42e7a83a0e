//! What a reply means: markers, hits, redirects and counters.

use crate::client::{Redirect, RedirectKind, RequestResult, RequestType};
use crate::text;
use crate::worker::routing;
use crate::worker::routing::SLOT_COUNT;
use vstd::prelude::*;
use vstd::string::*;

verus! {

/// Marker bit for backfill SET user data (highest bit).
pub const BACKFILL_MARKER: u64 = 0x8000_0000_0000_0000;

/// Marker bit for prefill SET user data (second-highest bit). The remaining
/// low bits carry the key id.
pub const PREFILL_MARKER: u64 = 0x4000_0000_0000_0000;

/// Marker bit for append-stream SET user data (third-highest bit).
pub const APPEND_MARKER: u64 = 0x2000_0000_0000_0000;

/// Mask recovering the key id from marked user data.
pub const USER_DATA_ID_MASK: u64 = 0x1fff_ffff_ffff_ffff;

/// What a SET was sent for.
#[derive(Clone, Copy, Debug, PartialEq, Eq, Structural)]
pub enum Purpose {
    Prefill,
    Backfill,
    Append,
}

/// The marker of a purpose.
pub open spec fn marker(p: Purpose) -> u64 {
    match p {
        Purpose::Prefill => PREFILL_MARKER,
        Purpose::Backfill => BACKFILL_MARKER,
        Purpose::Append => APPEND_MARKER,
    }
}

/// The user data of a SET that was sent for a purpose.
pub fn marked(key_id: usize, p: Purpose) -> (r: u64)
    ensures
        r == (key_id as u64) | marker(p),
{
    let m: u64 = match p {
        Purpose::Prefill => PREFILL_MARKER,
        Purpose::Backfill => BACKFILL_MARKER,
        Purpose::Append => APPEND_MARKER,
    };
    (key_id as u64) | m
}

/// The key id in user data.
pub fn unmarked(user_data: u64) -> (r: u64)
    ensures
        r == user_data & USER_DATA_ID_MASK,
{
    user_data & USER_DATA_ID_MASK
}

/// Marked user data carries its purpose, no other, and its key id.
pub proof fn marking_is_undone(key_id: u64, p: Purpose)
    requires
        key_id <= USER_DATA_ID_MASK,
    ensures
        (key_id | marker(p)) & USER_DATA_ID_MASK == key_id,
        ((key_id | marker(p)) & PREFILL_MARKER != 0) <==> p == Purpose::Prefill,
        ((key_id | marker(p)) & BACKFILL_MARKER != 0) <==> p == Purpose::Backfill,
        ((key_id | marker(p)) & APPEND_MARKER != 0) <==> p == Purpose::Append,
{
    let m = marker(p);
    assert((key_id | m) & 0x1fff_ffff_ffff_ffff == key_id && ((key_id | m)
        & 0x4000_0000_0000_0000 != 0 <==> m == 0x4000_0000_0000_0000u64) && ((key_id | m)
        & 0x8000_0000_0000_0000 != 0 <==> m == 0x8000_0000_0000_0000u64) && ((key_id | m)
        & 0x2000_0000_0000_0000 != 0 <==> m == 0x2000_0000_0000_0000u64)) by (bit_vector)
        requires
            key_id <= 0x1fff_ffff_ffff_ffffu64,
            m == 0x4000_0000_0000_0000u64 || m == 0x8000_0000_0000_0000u64 || m
                == 0x2000_0000_0000_0000u64,
    ;
}

/// What an operation was.
#[derive(Clone, Copy, Debug, PartialEq, Eq, Structural)]
pub enum OpKind {
    Get,
    /// A SET.
    Store,
    Del,
}

/// The header of a RESP reply; its value was drained, never materialized.
#[derive(Clone, Debug)]
pub struct RespMeta {
    pub kind: OpKind,
    pub success: bool,
    /// The length of the value of a hit.
    pub value_len: Option<u64>,
    pub user_data: u64,
    pub latency_ns: u64,
    /// The server's error message.
    pub error: Option<String>,
}

/// What the user data of an operation says: backfill, prefill and append
/// markers, and a key id where there is one.
pub open spec fn meaning(kind: OpKind, user_data: u64) -> (bool, bool, bool, Option<u64>) {
    match kind {
        OpKind::Get => (false, false, false, Some(user_data & USER_DATA_ID_MASK)),
        OpKind::Store => {
            let prefill = user_data & PREFILL_MARKER != 0;
            let append = user_data & APPEND_MARKER != 0;
            (
                user_data & BACKFILL_MARKER != 0,
                prefill,
                append,
                if prefill || append {
                    Some(user_data & USER_DATA_ID_MASK)
                } else {
                    None
                },
            )
        },
        OpKind::Del => (false, false, false, None),
    }
}

fn read_user_data(kind: OpKind, user_data: u64) -> (r: (bool, bool, bool, Option<u64>))
    ensures
        r == meaning(kind, user_data),
{
    match kind {
        OpKind::Get => (false, false, false, Some(unmarked(user_data))),
        OpKind::Store => {
            let prefill = user_data & PREFILL_MARKER != 0;
            let append = user_data & APPEND_MARKER != 0;
            let key: Option<u64> = if prefill || append {
                Some(unmarked(user_data))
            } else {
                None
            };
            (user_data & BACKFILL_MARKER != 0, prefill, append, key)
        },
        OpKind::Del => (false, false, false, None),
    }
}

/// The low bits of a number that a machine index holds.
pub open spec fn as_index(n: u64) -> usize {
    (n as int % (usize::MAX + 1)) as usize
}

fn index_of(n: u64) -> (r: usize)
    ensures
        r == as_index(n),
{
    let m: u128 = (usize::MAX as u128) + 1;
    ((n as u128) % m) as usize
}

/// The request type of an operation.
pub open spec fn type_of(kind: OpKind) -> RequestType {
    match kind {
        OpKind::Get => RequestType::Get,
        OpKind::Store => RequestType::Store,
        OpKind::Del => RequestType::Delete,
    }
}

/// Whether `r` is the result of an operation with the given success, hit and
/// user data.
pub open spec fn is_result(
    r: RequestResult,
    kind: OpKind,
    success: bool,
    hit: Option<bool>,
    user_data: u64,
    latency_ns: u64,
) -> bool {
    let (backfill, prefill, append, key) = meaning(kind, user_data);
    &&& r.id == 0
    &&& r.success == success
    &&& r.is_error_response == !success
    &&& r.latency_ns == latency_ns
    &&& r.ttfb_ns is None
    &&& r.request_type == type_of(kind)
    &&& r.hit == hit
    &&& r.key_id == match key {
        Some(k) => Some(as_index(k)),
        None => None,
    }
    &&& r.backfill == backfill
    &&& r.prefill == prefill
    &&& r.append == append
}

fn result(
    kind: OpKind,
    success: bool,
    hit: Option<bool>,
    user_data: u64,
    latency_ns: u64,
    redirect: Option<Redirect>,
) -> (r: RequestResult)
    ensures
        is_result(r, kind, success, hit, user_data, latency_ns),
        r.redirect == redirect,
{
    let (backfill, prefill, append, key) = read_user_data(kind, user_data);
    RequestResult {
        id: 0,
        success,
        is_error_response: !success,
        latency_ns,
        ttfb_ns: None,
        request_type: match kind {
            OpKind::Get => RequestType::Get,
            OpKind::Store => RequestType::Store,
            OpKind::Del => RequestType::Delete,
        },
        hit,
        key_id: match key {
            Some(k) => Some(index_of(k)),
            None => None,
        },
        backfill,
        prefill,
        append,
        redirect,
    }
}

/// Text after a prefix.
pub open spec fn after(t: Seq<char>, prefix: Seq<char>) -> Option<Seq<char>> {
    if t.len() >= prefix.len() && t.take(prefix.len() as int) == prefix {
        Some(t.skip(prefix.len() as int))
    } else {
        None
    }
}

/// The slot and address of a redirect: a number that a 16-bit integer holds, a
/// space, and the rest.
pub open spec fn slot_and_address(rest: Seq<char>) -> Option<(nat, Seq<char>)> {
    let i = text::first_index(rest, ' ') as int;
    if i < rest.len() {
        match text::number(rest.take(i), u16::MAX as nat) {
            Some(slot) => Some((slot, rest.skip(i + 1))),
            None => None,
        }
    } else {
        None
    }
}

/// The redirect that an error message carries: `MOVED` or `ASK`, a slot and an
/// address.
pub open spec fn redirect_in(msg: Seq<char>) -> Option<(RedirectKind, nat, Seq<char>)> {
    let (kind, rest) = match after(msg, "MOVED "@) {
        Some(rest) => (RedirectKind::Moved, Some(rest)),
        None => (RedirectKind::Ask, after(msg, "ASK "@)),
    };
    match rest {
        Some(rest) => match slot_and_address(rest) {
            Some((slot, address)) => Some((kind, slot, address)),
            None => None,
        },
        None => None,
    }
}

/// Whether `r` says what an error message does.
pub open spec fn is_redirect(r: Option<Redirect>, msg: Seq<char>) -> bool {
    match (r, redirect_in(msg)) {
        (None, None) => true,
        (Some(r), Some((kind, slot, address))) => r.kind == kind && r.slot == slot && r.address@
            == address,
        _ => false,
    }
}

fn strip(t: &Vec<char>, prefix: &str) -> (r: Option<Vec<char>>)
    ensures
        match r {
            Some(v) => after(t@, prefix@) == Some(v@),
            None => after(t@, prefix@) is None,
        },
{
    let n: usize = prefix.unicode_len();
    if t.len() < n {
        return None;
    }
    let front = text::part(t, 0, n);
    assert(front@ =~= t@.take(n as int));
    if text::same(&front, prefix) {
        let rest = text::part(t, n, t.len());
        assert(rest@ =~= t@.skip(n as int));
        Some(rest)
    } else {
        None
    }
}

/// Parse a Valkey/Redis error message for MOVED/ASK redirect.
pub fn parse_resp_redirect(msg: &str) -> (r: Option<Redirect>)
    ensures
        is_redirect(r, msg@),
{
    let t = text::chars_of(msg);
    let (kind, rest) = match strip(&t, "MOVED ") {
        Some(rest) => (RedirectKind::Moved, rest),
        None => match strip(&t, "ASK ") {
            Some(rest) => (RedirectKind::Ask, rest),
            None => {
                return None;
            },
        },
    };
    let i: usize = text::find(&rest, ' ');
    if i >= rest.len() {
        return None;
    }
    let number = text::part(&rest, 0, i);
    assert(number@ =~= rest@.take(i as int));
    let address = text::part(&rest, i + 1, rest.len());
    assert(address@ =~= rest@.skip(i + 1));
    match text::parse_number(&number, u16::MAX as u64) {
        Some(slot) => {
            let mut a = String::new();
            text::push_chars(&mut a, &address);
            assert(a@ =~= address@);
            Some(Redirect { kind, slot: slot as u16, address: a })
        },
        None => None,
    }
}

/// Map a RESP reply header to a request result: hit or miss of a successful
/// GET, the markers and key id in its user data, and the redirect in its error
/// message.
pub fn map_respmeta(meta: &RespMeta) -> (r: RequestResult)
    ensures
        is_result(
            r,
            meta.kind,
            meta.success,
            if meta.kind == OpKind::Get && meta.success {
                Some(meta.value_len is Some)
            } else {
                None
            },
            meta.user_data,
            meta.latency_ns,
        ),
        match meta.error {
            Some(e) => is_redirect(r.redirect, e@),
            None => r.redirect is None,
        },
{
    let hit: Option<bool> = if meta.kind == OpKind::Get && meta.success {
        Some(meta.value_len.is_some())
    } else {
        None
    };
    let redirect = match &meta.error {
        Some(e) => parse_resp_redirect(e.as_str()),
        None => None,
    };
    result(meta.kind, meta.success, hit, meta.user_data, meta.latency_ns, redirect)
}

/// A completed Memcache operation.
#[derive(Clone, Copy, Debug, PartialEq, Eq, Structural)]
pub enum MemcacheOp {
    /// Whether a value was found, unless the server answered with an error.
    Get { found: Option<bool>, user_data: u64, latency_ns: u64 },
    /// Whether the server stored the value.
    Store { ok: bool, user_data: u64, latency_ns: u64 },
    /// Whether the server answered without an error.
    Delete { ok: bool, latency_ns: u64 },
}

/// Map a completed Memcache operation to a request result.
pub fn map_memcache_op(op: MemcacheOp) -> (r: RequestResult)
    ensures
        match op {
            MemcacheOp::Get { found, user_data, latency_ns } => is_result(
                r,
                OpKind::Get,
                found is Some,
                found,
                user_data,
                latency_ns,
            ),
            MemcacheOp::Store { ok, user_data, latency_ns } => is_result(
                r,
                OpKind::Store,
                ok,
                None,
                user_data,
                latency_ns,
            ),
            MemcacheOp::Delete { ok, latency_ns } => is_result(
                r,
                OpKind::Del,
                ok,
                None,
                0,
                latency_ns,
            ),
        },
        r.redirect is None,
{
    match op {
        MemcacheOp::Get { found, user_data, latency_ns } => result(
            OpKind::Get,
            found.is_some(),
            found,
            user_data,
            latency_ns,
            None,
        ),
        MemcacheOp::Store { ok, user_data, latency_ns } => result(
            OpKind::Store,
            ok,
            None,
            user_data,
            latency_ns,
            None,
        ),
        MemcacheOp::Delete { ok, latency_ns } => result(
            OpKind::Del,
            ok,
            None,
            0,
            latency_ns,
            None,
        ),
    }
}

/// What became of a redirect.
#[derive(Clone, Copy, Debug, PartialEq, Eq, Structural)]
pub enum Redirected {
    /// There was nothing to change.
    Ignored,
    /// The slot is this endpoint's from now on; `added` when the endpoint was
    /// not known and is to be connected to.
    Moved { endpoint: usize, added: bool },
}

/// Handle a parsed redirect: MOVED makes its slot the named endpoint's in the
/// slot table, where there is one. An endpoint that is not known yet is added.
/// `address` is the address that the redirect names, in the form in which
/// endpoints are listed, where it names one. ASK changes nothing, as the
/// migration is transient.
pub fn apply_redirect(
    table: &mut Option<Vec<u16>>,
    endpoints: &mut Vec<String>,
    kind: RedirectKind,
    slot: u16,
    address: Option<&str>,
) -> (r: Redirected)
    requires
        *old(table) matches Some(t) ==> t@.len() == SLOT_COUNT,
        kind == RedirectKind::Moved && address is Some && *old(table) is Some ==> slot < SLOT_COUNT,
        old(endpoints)@.len() <= u16::MAX,
    ensures
        ({
            let applies = kind == RedirectKind::Moved && address is Some && *old(table) is Some;
            let known = exists|j: int|
                0 <= j < old(endpoints)@.len() && (#[trigger] old(endpoints)@[j])@ == address->0@;
            &&& !applies ==> r is Ignored && *final(table) == *old(table) && *final(endpoints)
                == *old(endpoints)
            &&& applies ==> {
                &&& r matches Redirected::Moved { endpoint, added }
                &&& added == !known
                &&& endpoint < final(endpoints)@.len()
                &&& final(endpoints)@[endpoint as int]@ == address->0@
                &&& added ==> routing::texts(final(endpoints)@) == routing::texts(
                    old(endpoints)@,
                ).push(address->0@)
                &&& !added ==> *final(endpoints) == *old(endpoints)
                &&& *final(table) is Some
                &&& (*final(table))->0@ == (*old(table))->0@.update(slot as int, endpoint as u16)
                &&& endpoint <= u16::MAX
            }
        }),
        routing::names_endpoints(*old(table), old(endpoints)@.len()) ==> routing::names_endpoints(
            *final(table),
            final(endpoints)@.len(),
        ),
{
    if kind != RedirectKind::Moved {
        return Redirected::Ignored;
    }
    let address: &str = match address {
        Some(a) => a,
        None => return Redirected::Ignored,
    };
    match table {
        None => Redirected::Ignored,
        Some(t) => {
            let (endpoint, added): (usize, bool) = match endpoint_index(endpoints, address) {
                Some(e) => (e, false),
                None => {
                    let ghost before = endpoints@;
                    endpoints.push(String::from_str(address));
                    assert(routing::texts(endpoints@) =~= routing::texts(before).push(address@));
                    (endpoints.len() - 1, true)
                },
            };
            t.set(slot as usize, endpoint as u16);
            Redirected::Moved { endpoint, added }
        },
    }
}

/// A MOVED redirect changes the owner of the keys in its own slot and of no
/// others: from then on those lead to the named endpoint.
pub proof fn redirect_moves_one_slot(
    table: Seq<u16>,
    slot: int,
    endpoint: u16,
    servers: Seq<Seq<char>>,
    num_endpoints: nat,
    key: Seq<u8>,
)
    requires
        table.len() == SLOT_COUNT,
        0 <= slot < SLOT_COUNT,
        routing::key_slot(key) < SLOT_COUNT,
    ensures
        routing::owner(Some(table.update(slot, endpoint)), servers, num_endpoints, key)
            == if routing::key_slot(key) == slot {
            endpoint as nat
        } else {
            routing::owner(Some(table), servers, num_endpoints, key)
        },
{
}

/// The index of an address among the endpoints.
pub fn endpoint_index(endpoints: &Vec<String>, address: &str) -> (r: Option<usize>)
    ensures
        match r {
            Some(i) => i < endpoints@.len() && endpoints@[i as int]@ == address@ && forall|j: int|
                0 <= j < i ==> (#[trigger] endpoints@[j])@ != address@,
            None => forall|j: int|
                0 <= j < endpoints@.len() ==> (#[trigger] endpoints@[j])@ != address@,
        },
{
    let a = text::chars_of(address);
    let mut i: usize = 0;
    while i < endpoints.len()
        invariant
            i <= endpoints@.len(),
            a@ == address@,
            forall|j: int| 0 <= j < i ==> (#[trigger] endpoints@[j])@ != address@,
        decreases endpoints@.len() - i,
    {
        if text::same(&a, endpoints[i].as_str()) {
            return Some(i);
        }
        i = i + 1;
    }
    None
}

/// What a request result adds to the counters.
#[derive(Clone, Copy, Debug, PartialEq, Eq, Structural)]
pub struct CounterDeltas {
    pub responses: u64,
    pub errors: u64,
    pub hits: u64,
    pub misses: u64,
    pub gets: u64,
    pub sets: u64,
    pub deletes: u64,
    /// MOVED and ASK redirects.
    pub redirects: u64,
}

/// One when a condition holds.
pub open spec fn one_if(b: bool) -> u64 {
    if b {
        1
    } else {
        0
    }
}

fn count_if(b: bool) -> (r: u64)
    ensures
        r == one_if(b),
{
    if b {
        1
    } else {
        0
    }
}

/// What a request result adds to the redirect count: one for a redirect, MOVED
/// or ASK, whatever becomes of it.
pub fn redirect_count(result: &RequestResult) -> (r: u64)
    ensures
        r == one_if(result.redirect is Some),
{
    count_if(result.redirect.is_some())
}

/// Counter metrics for a completed request result. Redirects are counted on
/// their own, not as errors.
pub fn record_counters(result: &RequestResult) -> (r: CounterDeltas)
    ensures
        r == (CounterDeltas {
            responses: 1,
            errors: one_if(result.redirect is None && result.is_error_response),
            hits: one_if(result.hit == Some(true)),
            misses: one_if(result.hit == Some(false)),
            gets: one_if(result.request_type == RequestType::Get),
            sets: one_if(result.request_type == RequestType::Store),
            deletes: one_if(result.request_type == RequestType::Delete),
            redirects: one_if(result.redirect is Some),
        }),
{
    let hit = match result.hit {
        Some(h) => h,
        None => false,
    };
    let miss = match result.hit {
        Some(h) => !h,
        None => false,
    };
    CounterDeltas {
        responses: 1,
        errors: count_if(result.redirect.is_none() && result.is_error_response),
        hits: count_if(hit),
        misses: count_if(miss),
        gets: count_if(result.request_type == RequestType::Get),
        sets: count_if(result.request_type == RequestType::Store),
        deletes: count_if(result.request_type == RequestType::Delete),
        redirects: redirect_count(result),
    }
}

/// Counter metrics for a completed ping, which counts as a GET.
pub fn ping_counters(success: bool) -> (r: CounterDeltas)
    ensures
        r == (CounterDeltas {
            responses: 1,
            errors: one_if(!success),
            hits: 0,
            misses: 0,
            gets: 1,
            sets: 0,
            deletes: 0,
            redirects: 0,
        }),
{
    CounterDeltas {
        responses: 1,
        errors: count_if(!success),
        hits: 0,
        misses: 0,
        gets: 1,
        sets: 0,
        deletes: 0,
        redirects: 0,
    }
}

/// A SET that was sent for a purpose is read back with that purpose and no
/// other, and with its key id where that is needed; a GET is read back with its
/// key id, and a DELETE with nothing.
pub proof fn purposes_are_read_back(key_id: u64, p: Purpose)
    requires
        key_id <= USER_DATA_ID_MASK,
    ensures
        meaning(OpKind::Store, key_id | marker(p)) == (
            p == Purpose::Backfill,
            p == Purpose::Prefill,
            p == Purpose::Append,
            if p == Purpose::Backfill {
                None
            } else {
                Some(key_id)
            },
        ),
        meaning(OpKind::Get, key_id) == (false, false, false, Some(key_id)),
        meaning(OpKind::Del, key_id) == (false, false, false, None::<u64>),
        meaning(OpKind::Store, 0) == (false, false, false, None::<u64>),
{
    marking_is_undone(key_id, p);
    assert(key_id & 0x1fff_ffff_ffff_ffff == key_id) by (bit_vector)
        requires
            key_id <= 0x1fff_ffff_ffff_ffffu64,
    ;
    assert(0u64 & 0x4000_0000_0000_0000 == 0 && 0u64 & 0x8000_0000_0000_0000 == 0 && 0u64
        & 0x2000_0000_0000_0000 == 0) by (bit_vector);
}

/// An index is the number itself where a machine index can hold it.
pub proof fn small_numbers_are_their_index(n: u64)
    requires
        n <= usize::MAX,
    ensures
        as_index(n) == n,
{
    vstd::arithmetic::div_mod::lemma_small_mod(n as nat, (usize::MAX + 1) as nat);
}

/// A redirect message is read back: the kind by its first word, the slot by the
/// number after it, and all that follows the next space as the address.
pub proof fn redirects_are_read_back(slot: nat, address: Seq<char>)
    requires
        slot <= u16::MAX,
    ensures
        redirect_in("MOVED "@ + text::decimal(slot) + seq![' '] + address) == Some(
            (RedirectKind::Moved, slot, address),
        ),
        redirect_in("ASK "@ + text::decimal(slot) + seq![' '] + address) == Some(
            (RedirectKind::Ask, slot, address),
        ),
{
    reveal_strlit("MOVED ");
    reveal_strlit("ASK ");
    let d = text::decimal(slot);
    let rest = d + seq![' '] + address;
    let moved = "MOVED "@ + text::decimal(slot) + seq![' '] + address;
    let ask = "ASK "@ + text::decimal(slot) + seq![' '] + address;
    text::lemma_decimal_reads_back(slot);
    assert(moved.take(6) =~= "MOVED "@);
    assert(moved.skip(6) =~= rest);
    assert(ask[0] == 'A' && moved[0] == 'M');
    assert(ask.take(6)[0] == 'A');
    assert(after(ask, "MOVED "@) is None);
    assert(ask.take(4) =~= "ASK "@);
    assert(ask.skip(4) =~= rest);
    assert forall|i: int| 0 <= i < d.len() implies #[trigger] rest[i] != ' ' by {
        assert(text::is_digit(d[i]));
    }
    text::the_first_is_found(rest, ' ', d.len() as int);
    assert(rest.take(d.len() as int) =~= d);
    assert(rest.skip(d.len() as int + 1) =~= address);
    assert(text::is_digit(d[0]));
    assert(text::without_plus(d) == d);
}

/// A message that starts with neither word is no redirect.
pub proof fn other_messages_are_no_redirects(msg: Seq<char>)
    requires
        msg.len() == 0 || (msg[0] != 'M' && msg[0] != 'A'),
    ensures
        redirect_in(msg) is None,
{
    reveal_strlit("MOVED ");
    reveal_strlit("ASK ");
    if msg.len() >= 6 {
        assert(msg.take(6)[0] == msg[0]);
    }
    if msg.len() >= 4 {
        assert(msg.take(4)[0] == msg[0]);
    }
}

/// The result of an operation has the operation's type, is an error exactly when
/// it did not succeed, and says whether a prefill, a backfill or an append was
/// answered by the marker that its request carried.
pub proof fn results_say_what_was_answered(
    r: RequestResult,
    kind: OpKind,
    success: bool,
    hit: Option<bool>,
    key_id: u64,
    p: Purpose,
    latency_ns: u64,
)
    requires
        key_id <= USER_DATA_ID_MASK,
        key_id <= usize::MAX,
        is_result(
            r,
            kind,
            success,
            hit,
            if kind == OpKind::Store {
                key_id | marker(p)
            } else {
                key_id
            },
            latency_ns,
        ),
    ensures
        r.success == success && r.is_error_response == !success && r.hit == hit,
        r.latency_ns == latency_ns,
        kind == OpKind::Get ==> r.request_type == RequestType::Get && r.key_id == Some(
            key_id as usize,
        ) && !r.prefill && !r.backfill && !r.append,
        kind == OpKind::Del ==> r.request_type == RequestType::Delete && r.key_id is None
            && !r.prefill && !r.backfill && !r.append,
        kind == OpKind::Store ==> {
            &&& r.request_type == RequestType::Store
            &&& r.prefill == (p == Purpose::Prefill)
            &&& r.backfill == (p == Purpose::Backfill)
            &&& r.append == (p == Purpose::Append)
            &&& r.key_id == if p == Purpose::Backfill {
                None
            } else {
                Some(key_id as usize)
            }
        },
{
    purposes_are_read_back(key_id, p);
    small_numbers_are_their_index(key_id);
}

} // verus!
