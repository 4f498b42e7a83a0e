//! Which endpoint owns a key.

use crate::config::KeyFormat;
use crate::worker::keys;
use crate::worker::queues::PrefillQueues;
use vstd::prelude::*;
use vstd::string::*;

verus! {

/// The number of hash slots of a cluster.
pub const SLOT_COUNT: usize = 16_384;

/// The cluster hash slot of a key: what `resp_proto::hash_slot` computes.
pub uninterp spec fn key_slot(key: Seq<u8>) -> u16;

/// `resp_proto::hash_slot` maps a key to one of the hash slots; the slot
/// depends on the bytes of the key alone.
pub assume_specification[ resp_proto::hash_slot ](key: &[u8]) -> (r: u16)
    ensures
        r == key_slot(key@),
        r < SLOT_COUNT,
;

/// A `ketama` consistent hash ring.
#[verifier::external_type_specification]
#[verifier::external_body]
pub struct ExRing(ketama::Ring);

/// The server identities that a ring was built from, in order.
pub uninterp spec fn ring_servers(ring: ketama::Ring) -> Seq<Seq<char>>;

/// The server, by index, that a ring over these identities maps a key to.
pub uninterp spec fn ring_shard(servers: Seq<Seq<char>>, key: Seq<u8>) -> nat;

/// The texts of a list of strings.
pub open spec fn texts(v: Seq<String>) -> Seq<Seq<char>> {
    v.map_values(|s: String| s@)
}

/// `ketama::Ring::build` makes a ring of equally weighted servers. It has no
/// ring for no server, nor for more than a 16-bit index counts.
#[verifier::external_body]
pub(crate) fn ring_of(servers: &Vec<String>) -> (r: ketama::Ring)
    requires
        1 <= servers@.len() <= u16::MAX,
    ensures
        ring_servers(r) == texts(servers@),
{
    ketama::Ring::build(&servers.iter().map(|s| s.as_str()).collect::<Vec<_>>())
}

/// `ketama::Ring::route` maps a key to the index of one of the ring's
/// servers, the first where there is only one; the index depends on the
/// servers and the bytes of the key alone.
#[verifier::external_body]
pub(crate) fn ring_route(ring: &ketama::Ring, key: &[u8]) -> (r: usize)
    ensures
        r == ring_shard(ring_servers(*ring), key@),
        ring_servers(*ring).len() > 0 ==> r < ring_servers(*ring).len(),
{
    ring.route(key)
}

/// The identity of the one server of a ring that is never consulted.
pub open spec fn placeholder() -> Seq<Seq<char>> {
    seq!["_"@]
}

/// The servers of the ring for a list of endpoints: the placeholder when
/// there are none.
pub open spec fn ring_members(endpoints: Seq<Seq<char>>) -> Seq<Seq<char>> {
    if endpoints.len() == 0 {
        placeholder()
    } else {
        endpoints
    }
}

/// Build the ketama ring used for non-cluster routing.
pub fn build_ring(endpoints: &Vec<String>) -> (r: ketama::Ring)
    requires
        endpoints@.len() <= u16::MAX,
    ensures
        ring_servers(r) == ring_members(texts(endpoints@)),
{
    if endpoints.len() == 0 {
        let mut one: Vec<String> = Vec::new();
        one.push(String::from_str("_"));
        assert(texts(one@) =~= placeholder());
        ring_of(&one)
    } else {
        ring_of(endpoints)
    }
}

/// The endpoint that owns a key: by the slot table where there is one, else
/// the only endpoint, else by the ring.
pub open spec fn owner(
    table: Option<Seq<u16>>,
    servers: Seq<Seq<char>>,
    num_endpoints: nat,
    key: Seq<u8>,
) -> nat {
    match table {
        Some(t) => t[key_slot(key) as int] as nat,
        None => if num_endpoints <= 1 {
            0
        } else {
            ring_shard(servers, key)
        },
    }
}

/// The entries of a slot table, where there is one.
pub open spec fn entries(table: Option<Vec<u16>>) -> Option<Seq<u16>> {
    match table {
        Some(t) => Some(t@),
        None => None,
    }
}

/// Whether a slot table covers every slot.
pub open spec fn covers_slots(table: Option<Vec<u16>>) -> bool {
    table matches Some(t) ==> t@.len() >= SLOT_COUNT
}

/// Whether a slot table names only endpoints that there are.
pub open spec fn names_endpoints(table: Option<Vec<u16>>, num_endpoints: nat) -> bool {
    table matches Some(t) ==> forall|i: int|
        0 <= i < t@.len() ==> #[trigger] t@[i] < num_endpoints
}

/// Route a key using the supplied slot table / ring directly.
pub fn route_partition(
    slot_table: &Option<Vec<u16>>,
    ring: &ketama::Ring,
    num_endpoints: usize,
    key: &Vec<u8>,
) -> (r: usize)
    requires
        covers_slots(*slot_table),
    ensures
        r == owner(
            entries(*slot_table),
            ring_servers(*ring),
            num_endpoints as nat,
            key@,
        ),
        names_endpoints(*slot_table, num_endpoints as nat) && num_endpoints > 0
            && (slot_table is None ==> num_endpoints <= 1 || ring_servers(*ring).len()
            == num_endpoints) ==> r < num_endpoints,
        *slot_table matches Some(t) ==> r == t@[key_slot(key@) as int],
        *slot_table is None && num_endpoints >= 2 ==> r == ring_shard(ring_servers(*ring), key@),
        *slot_table is None && num_endpoints < 2 ==> r == 0,
{
    if let Some(table) = slot_table {
        let slot: u16 = resp_proto::hash_slot(key.as_slice());
        table[slot as usize] as usize
    } else if num_endpoints <= 1 {
        0
    } else {
        ring_route(ring, key.as_slice())
    }
}

/// The endpoint that owns key `id` of a keyspace.
pub open spec fn owner_of(
    table: Option<Seq<u16>>,
    endpoints: Seq<Seq<char>>,
    id: nat,
    len: nat,
    format: KeyFormat,
) -> nat {
    let n = if endpoints.len() == 0 {
        1
    } else {
        endpoints.len()
    };
    owner(table, ring_members(endpoints), n, keys::key_bytes(id, len, format))
}

/// Without a slot table, a key of two or more endpoints belongs to the shard
/// that the ring over exactly those endpoints gives it, and with a single
/// endpoint every key belongs to that one.
pub proof fn without_a_table_the_ring_decides(
    endpoints: Seq<Seq<char>>,
    key: Seq<u8>,
    id: nat,
    len: nat,
    format: KeyFormat,
)
    ensures
        endpoints.len() >= 2 ==> owner(None, endpoints, endpoints.len(), key) == ring_shard(
            endpoints,
            key,
        ),
        endpoints.len() >= 2 ==> owner_of(None, endpoints, id, len, format) == ring_shard(
            endpoints,
            keys::key_bytes(id, len, format),
        ),
        endpoints.len() <= 1 ==> owner(None, endpoints, endpoints.len(), key) == 0 && owner_of(
            None,
            endpoints,
            id,
            len,
            format,
        ) == 0,
{
}

/// With a slot table, a key belongs to the endpoint that the table names for
/// the slot of the key, however many endpoints there are: two keys of one slot
/// belong together, and the ring has no say.
pub proof fn a_table_decides_by_slot(
    table: Seq<u16>,
    endpoints: Seq<Seq<char>>,
    others: Seq<Seq<char>>,
    a: Seq<u8>,
    b: Seq<u8>,
)
    ensures
        owner(Some(table), endpoints, endpoints.len(), a) == table[key_slot(a) as int],
        key_slot(a) == key_slot(b) ==> owner(Some(table), endpoints, endpoints.len(), a) == owner(
            Some(table),
            others,
            others.len(),
            b,
        ),
{
}

/// The rule that fills the queues is the rule that routes: a key id stands in
/// the queue of the endpoint that a lookup of its key leads to.
pub proof fn queues_follow_the_routes(
    routes: Routes<'_>,
    endpoints: Seq<Seq<char>>,
    start: nat,
    count: nat,
    id: usize,
)
    requires
        start + count <= usize::MAX,
        start <= id < start + count,
        endpoints.len() >= 1,
        routes.num_endpoints == endpoints.len(),
        ring_servers(*routes.ring) == endpoints,
    ensures
        forall|ep: int|
            #![trigger owned(
                routing_rule(
                    entries(*routes.slot_table),
                    endpoints,
                    routes.key_len as nat,
                    routes.format,
                ),
                start,
                count,
                ep,
            )]
            owned(
                routing_rule(
                    entries(*routes.slot_table),
                    endpoints,
                    routes.key_len as nat,
                    routes.format,
                ),
                start,
                count,
                ep,
            ).contains(id) <==> ep == match *routes.slot_table {
                Some(t) => t@[key_slot(
                    keys::key_bytes(id as nat, routes.key_len as nat, routes.format),
                ) as int] as int,
                None => if endpoints.len() == 1 {
                    0
                } else {
                    ring_shard(
                        endpoints,
                        keys::key_bytes(id as nat, routes.key_len as nat, routes.format),
                    ) as int
                },
            },
{
    let rule = routing_rule(
        entries(*routes.slot_table),
        endpoints,
        routes.key_len as nat,
        routes.format,
    );
    assert forall|ep: int| #![trigger owned(rule, start, count, ep)]
        owned(rule, start, count, ep).contains(id) <==> rule(id as nat) == ep by {
        owned_by_exactly_one(rule, start, count, id, ep);
    }
}

/// Everything that routes a key.
pub struct Routes<'a> {
    pub slot_table: &'a Option<Vec<u16>>,
    pub ring: &'a ketama::Ring,
    pub num_endpoints: usize,
    pub key_len: usize,
    pub format: KeyFormat,
}

impl<'a> Routes<'a> {
    /// The routes lead to endpoints that there are.
    pub open spec fn wf(self) -> bool {
        &&& self.num_endpoints > 0
        &&& covers_slots(*self.slot_table)
        &&& names_endpoints(*self.slot_table, self.num_endpoints as nat)
        &&& *self.slot_table is None && self.num_endpoints > 1 ==> ring_servers(*self.ring).len()
            == self.num_endpoints
    }

    /// The endpoint that owns a key id.
    pub open spec fn leads_to(self, id: usize) -> nat {
        owner(
            entries(*self.slot_table),
            ring_servers(*self.ring),
            self.num_endpoints as nat,
            keys::key_bytes(id as nat, self.key_len as nat, self.format),
        )
    }

    /// The endpoint that owns a key id.
    pub fn route_id(&self, id: usize) -> (r: usize)
        requires
            self.wf(),
        ensures
            r == self.leads_to(id),
            r < self.num_endpoints,
            *self.slot_table matches Some(t) ==> r == t@[key_slot(
                keys::key_bytes(id as nat, self.key_len as nat, self.format),
            ) as int],
            *self.slot_table is None && self.num_endpoints >= 2 ==> r == ring_shard(
                ring_servers(*self.ring),
                keys::key_bytes(id as nat, self.key_len as nat, self.format),
            ),
            *self.slot_table is None && self.num_endpoints == 1 ==> r == 0,
    {
        let key = keys::render_key(id, self.key_len, self.format);
        route_partition(self.slot_table, self.ring, self.num_endpoints, &key)
    }
}

/// The ids from `start` on, `count` of them, that a rule sends to endpoint
/// `ep`, in order.
pub open spec fn owned(
    rule: spec_fn(nat) -> nat,
    start: nat,
    count: nat,
    ep: int,
) -> Seq<usize>
    decreases count,
{
    if count == 0 {
        Seq::empty()
    } else {
        let before = owned(rule, start, (count - 1) as nat, ep);
        let id = (start + count - 1) as nat;
        if rule(id) == ep {
            before.push(id as usize)
        } else {
            before
        }
    }
}

/// Every id goes to the queue of its owner and to no other.
pub proof fn owned_by_exactly_one(rule: spec_fn(nat) -> nat, start: nat, count: nat, id: usize, ep: int)
    requires
        start + count <= usize::MAX,
    ensures
        owned(rule, start, count, ep).contains(id) <==> start <= id < start + count && rule(
            id as nat,
        ) == ep,
    decreases count,
{
    if count > 0 {
        let c = (count - 1) as nat;
        owned_by_exactly_one(rule, start, c, id, ep);
        let before = owned(rule, start, c, ep);
        let last = (start + c) as nat;
        let all = owned(rule, start, count, ep);
        if rule(last) == ep {
            assert(all == before.push(last as usize));
            if all.contains(id) {
                let i = choose|i: int| 0 <= i < all.len() && all[i] == id;
                if i < before.len() {
                    assert(before[i] == id);
                }
            }
            if before.contains(id) {
                let i = choose|i: int| 0 <= i < before.len() && before[i] == id;
                assert(all[i] == id);
            }
            assert(all[before.len() as int] == last as usize);
        }
    } else {
        assert(owned(rule, start, count, ep).len() == 0);
    }
}

/// The ids of a queue come in increasing order, so none comes twice.
pub proof fn owned_is_increasing(rule: spec_fn(nat) -> nat, start: nat, count: nat, ep: int, i: int, j: int)
    requires
        start + count <= usize::MAX,
        0 <= i < j < owned(rule, start, count, ep).len(),
    ensures
        owned(rule, start, count, ep)[i] < owned(rule, start, count, ep)[j],
    decreases count,
{
    if count > 0 {
        let c = (count - 1) as nat;
        let before = owned(rule, start, c, ep);
        let last = (start + c) as nat;
        if rule(last) == ep {
            if j < before.len() {
                owned_is_increasing(rule, start, c, ep, i, j);
            } else {
                assert(before.contains(before[i]));
                owned_by_exactly_one(rule, start, c, before[i], ep);
            }
        } else {
            owned_is_increasing(rule, start, c, ep, i, j);
        }
    }
}

/// The rule that routes the ids of a keyspace.
pub open spec fn routing_rule(
    table: Option<Seq<u16>>,
    endpoints: Seq<Seq<char>>,
    len: nat,
    format: KeyFormat,
) -> spec_fn(nat) -> nat {
    |id: nat| owner_of(table, endpoints, id, len, format)
}

/// Whether a slot table routes to the queues of a list of endpoints.
pub open spec fn table_fits(table: Option<Vec<u16>>, num_endpoints: nat) -> bool {
    &&& covers_slots(table)
    &&& names_endpoints(
        table,
        if num_endpoints == 0 {
            1
        } else {
            num_endpoints
        },
    )
}

/// Appends the ids from `start` on, `count` of them, each to the queue of the
/// endpoint that owns it.
pub fn enqueue_append_batch(
    queues: &mut PrefillQueues,
    start: usize,
    count: usize,
    key_len: usize,
    format: KeyFormat,
    endpoints: &Vec<String>,
    slot_table: &Option<Vec<u16>>,
)
    requires
        start + count <= usize::MAX,
        endpoints@.len() <= u16::MAX,
        table_fits(*slot_table, endpoints@.len()),
        old(queues)@.len() >= endpoints@.len(),
        old(queues)@.len() >= 1,
    ensures
        final(queues)@ == Seq::new(
            old(queues)@.len(),
            |ep: int|
                old(queues)@[ep] + owned(
                    routing_rule(
                        entries(*slot_table),
                        texts(endpoints@),
                        key_len as nat,
                        format,
                    ),
                    start as nat,
                    count as nat,
                    ep,
                ),
        ),
{
    let n: usize = if endpoints.len() == 0 {
        1
    } else {
        endpoints.len()
    };
    let ring = build_ring(endpoints);
    let routes = Routes { slot_table, ring: &ring, num_endpoints: n, key_len, format };
    let ghost rule = routing_rule(
        entries(*slot_table),
        texts(endpoints@),
        key_len as nat,
        format,
    );
    let ghost before = queues@;
    let mut i: usize = 0;
    assert(before =~= Seq::new(
        before.len(),
        |ep: int| before[ep] + owned(rule, start as nat, 0, ep),
    ));
    while i < count
        invariant
            i <= count,
            start + count <= usize::MAX,
            before.len() >= n,
            routes.wf(),
            routes.num_endpoints == n,
            forall|id: usize| #[trigger] routes.leads_to(id) == rule(id as nat),
            queues@ == Seq::new(
                before.len(),
                |ep: int| before[ep] + owned(rule, start as nat, i as nat, ep),
            ),
        decreases count - i,
    {
        let id: usize = start + i;
        let ep: usize = routes.route_id(id);
        assert(ep == rule(id as nat));
        queues.push_back(ep, id);
        i = i + 1;
        assert(queues@ =~= Seq::new(
            before.len(),
            |ep: int| before[ep] + owned(rule, start as nat, i as nat, ep),
        ));
    }
}

/// Build the shared per-endpoint prefill queues for the full keyspace.
///
/// Each key id `0..key_count` is routed to its owning endpoint (slot table in
/// cluster mode, ketama ring otherwise) and pushed to that endpoint's queue.
pub fn build_prefill_queues(
    key_count: usize,
    key_len: usize,
    format: KeyFormat,
    endpoints: &Vec<String>,
    slot_table: &Option<Vec<u16>>,
) -> (r: PrefillQueues)
    requires
        endpoints@.len() <= u16::MAX,
        table_fits(*slot_table, endpoints@.len()),
    ensures
        r@ == Seq::new(
            if endpoints@.len() == 0 {
                1
            } else {
                endpoints@.len()
            },
            |ep: int|
                owned(
                    routing_rule(
                        entries(*slot_table),
                        texts(endpoints@),
                        key_len as nat,
                        format,
                    ),
                    0,
                    key_count as nat,
                    ep,
                ),
        ),
{
    let mut queues = PrefillQueues::new(endpoints.len());
    enqueue_append_batch(&mut queues, 0, key_count, key_len, format, endpoints, slot_table);
    proof {
        let rule = routing_rule(
            entries(*slot_table),
            texts(endpoints@),
            key_len as nat,
            format,
        );
        assert(queues@ =~= Seq::new(
            queues@.len(),
            |ep: int| owned(rule, 0, key_count as nat, ep),
        ));
    }
    queues
}

/// Ids as 32-bit integers, which is how key lists hold them.
pub open spec fn narrowed(ids: Seq<usize>) -> Seq<u32> {
    ids.map_values(|id: usize| ((id as u64) % 0x1_0000_0000u64) as u32)
}

/// Partition the full keyspace into per-endpoint key-id lists for steady-state
/// key selection. `result[ep]` holds every key-id that endpoint `ep` owns.
///
/// Returns an empty vector for the single-endpoint case; callers fall back to
/// a plain random key-id over the whole keyspace (no routing needed). Routing
/// is the same as for the prefill queues.
pub fn build_endpoint_keys(
    key_count: usize,
    key_len: usize,
    format: KeyFormat,
    endpoints: &Vec<String>,
    slot_table: &Option<Vec<u16>>,
) -> (r: Vec<Vec<u32>>)
    requires
        endpoints@.len() <= u16::MAX,
        table_fits(*slot_table, endpoints@.len()),
    ensures
        endpoints@.len() <= 1 ==> r@.len() == 0,
        endpoints@.len() > 1 ==> {
            &&& r@.len() == endpoints@.len()
            &&& forall|ep: int|
                0 <= ep < r@.len() ==> (#[trigger] r@[ep])@ == narrowed(
                    owned(
                        routing_rule(
                            entries(*slot_table),
                            texts(endpoints@),
                            key_len as nat,
                            format,
                        ),
                        0,
                        key_count as nat,
                        ep,
                    ),
                )
        },
{
    let n: usize = endpoints.len();
    let mut buckets: Vec<Vec<u32>> = Vec::new();
    if n <= 1 {
        return buckets;
    }
    let ring = build_ring(endpoints);
    let routes = Routes { slot_table, ring: &ring, num_endpoints: n, key_len, format };
    let ghost rule = routing_rule(
        entries(*slot_table),
        texts(endpoints@),
        key_len as nat,
        format,
    );
    let mut b: usize = 0;
    while b < n
        invariant
            b <= n,
            buckets@.len() == b,
            forall|ep: int| 0 <= ep < b ==> (#[trigger] buckets@[ep])@ == Seq::<u32>::empty(),
        decreases n - b,
    {
        buckets.push(Vec::new());
        b = b + 1;
    }
    assert forall|ep: int| 0 <= ep < n implies (#[trigger] buckets@[ep])@ == narrowed(
        owned(rule, 0, 0, ep),
    ) by {
        assert(buckets@[ep]@ =~= narrowed(owned(rule, 0, 0, ep)));
    }
    let mut i: usize = 0;
    while i < key_count
        invariant
            i <= key_count,
            buckets@.len() == n,
            routes.wf(),
            routes.num_endpoints == n,
            forall|id: usize| #[trigger] routes.leads_to(id) == rule(id as nat),
            forall|ep: int|
                0 <= ep < n ==> (#[trigger] buckets@[ep])@ == narrowed(
                    owned(rule, 0, i as nat, ep),
                ),
        decreases key_count - i,
    {
        let ep: usize = routes.route_id(i);
        assert(ep == rule(i as nat));
        let ghost before = buckets@;
        buckets[ep].push(((i as u64) % 0x1_0000_0000) as u32);
        assert forall|e: int| 0 <= e < n implies (#[trigger] buckets@[e])@ == narrowed(
            owned(rule, 0, (i + 1) as nat, e),
        ) by {
            assert(before[e]@ == narrowed(owned(rule, 0, i as nat, e)));
            if e == ep {
                assert(buckets@[e]@ =~= narrowed(owned(rule, 0, (i + 1) as nat, e)));
            }
        }
        i = i + 1;
    }
    buckets
}

/// Takes the first key of endpoint `ep`'s queue that still leads there,
/// handing each one before it to the queue of its new owner; with a single
/// endpoint every key leads there.
pub open spec fn taken(queues: Seq<Seq<usize>>, routes: Routes<'_>, ep: int) -> (
    Seq<Seq<usize>>,
    Option<usize>,
)
    decreases queues[ep].len(),
{
    let q = queues[ep];
    if !(0 <= ep < queues.len()) || q.len() == 0 {
        (queues, None)
    } else {
        let key = q[0];
        let rest = queues.update(ep, q.skip(1));
        let to = routes.leads_to(key) as int;
        if routes.num_endpoints > 1 && to != ep && to < queues.len() {
            taken(rest.update(to, rest[to].push(key)), routes, ep)
        } else {
            (rest, Some(key))
        }
    }
}

/// Takes the first key of endpoint `ep`'s queue that still leads there. Keys
/// were partitioned to their owners, so only a change of the slot table can
/// have left one that leads elsewhere: it is handed to its new owner's queue.
pub fn take_owned(queues: &mut PrefillQueues, routes: &Routes<'_>, ep: usize) -> (r: Option<usize>)
    requires
        routes.wf(),
        ep < routes.num_endpoints,
        old(queues)@.len() >= routes.num_endpoints,
    ensures
        (final(queues)@, r) == taken(old(queues)@, *routes, ep as int),
        final(queues)@.len() == old(queues)@.len(),
        r matches Some(key) ==> routes.num_endpoints > 1 ==> routes.leads_to(key) == ep,
{
    loop
        invariant
            routes.wf(),
            ep < routes.num_endpoints,
            queues@.len() >= routes.num_endpoints,
            queues@.len() == old(queues)@.len(),
            taken(queues@, *routes, ep as int) == taken(old(queues)@, *routes, ep as int),
        decreases queues@[ep as int].len(),
    {
        match queues.pop_front(ep) {
            None => {
                return None;
            },
            Some(key) => {
                if routes.num_endpoints > 1 {
                    let to: usize = routes.route_id(key);
                    if to != ep {
                        queues.push_back(to, key);
                        continue ;
                    }
                }
                return Some(key);
            },
        }
    }
}

/// Taking a key loses none: every key is queued as often as before, but for
/// the one taken, which is queued once less.
pub proof fn taking_loses_no_key(
    queues: Seq<Seq<usize>>,
    routes: Routes<'_>,
    ep: int,
    key: usize,
)
    requires
        0 <= ep < queues.len(),
        forall|id: usize| #[trigger] routes.leads_to(id) < queues.len(),
    ensures
        ({
            let (after, got) = taken(queues, routes, ep);
            crate::worker::queues::queued(queues, key) == crate::worker::queues::queued(after, key)
                + if got == Some(key) {
                1nat
            } else {
                0
            }
        }),
        taken(queues, routes, ep).0.len() == queues.len(),
    decreases queues[ep].len(),
{
    let q = queues[ep];
    if q.len() > 0 {
        let first = q[0];
        let rest = queues.update(ep, q.skip(1));
        let to = routes.leads_to(first) as int;
        crate::worker::queues::queued_after_update(queues, ep, q.skip(1), key);
        assert(seq![first] + q.skip(1) =~= q);
        broadcast use vstd::seq_lib::group_to_multiset_ensures;

        vstd::seq_lib::lemma_multiset_commutative(seq![first], q.skip(1));
        assert(seq![first] =~= Seq::<usize>::empty().push(first));
        if routes.num_endpoints > 1 && to != ep {
            crate::worker::queues::pushing_queues_once(rest, to, first, key);
            taking_loses_no_key(rest.update(to, rest[to].push(first)), routes, ep, key);
        }
    }
}

/// Each of a list of keys at the back of the queue of its owner, in order.
pub open spec fn handed_back(
    queues: Seq<Seq<usize>>,
    routes: Routes<'_>,
    keys: Seq<usize>,
) -> Seq<Seq<usize>>
    decreases keys.len(),
{
    if keys.len() == 0 {
        queues
    } else {
        let to = routes.leads_to(keys[0]) as int;
        handed_back(queues.update(to, queues[to].push(keys[0])), routes, keys.skip(1))
    }
}

/// Hands keys that were in flight on a lost connection back to the queues,
/// routing each against the current slot table: an endpoint that no longer
/// owns a key would never drain it.
pub fn requeue_drained(
    queues: &mut PrefillQueues,
    routes: &Routes<'_>,
    drained: &mut std::collections::VecDeque<usize>,
)
    requires
        routes.wf(),
        old(queues)@.len() >= routes.num_endpoints,
    ensures
        final(queues)@ == handed_back(old(queues)@, *routes, old(drained)@),
        final(queues)@.len() == old(queues)@.len(),
        final(drained)@ == Seq::<usize>::empty(),
{
    loop
        invariant
            routes.wf(),
            queues@.len() >= routes.num_endpoints,
            queues@.len() == old(queues)@.len(),
            handed_back(queues@, *routes, drained@) == handed_back(
                old(queues)@,
                *routes,
                old(drained)@,
            ),
        decreases drained@.len(),
    {
        let ghost before = drained@;
        match drained.pop_front() {
            None => {
                assert(drained@ =~= Seq::<usize>::empty());
                return;
            },
            Some(key) => {
                assert(drained@ =~= before.skip(1));
                let to: usize = routes.route_id(key);
                queues.push_back(to, key);
            },
        }
    }
}

/// Handing keys back loses none and adds no other.
pub proof fn handing_back_loses_no_key(
    queues: Seq<Seq<usize>>,
    routes: Routes<'_>,
    keys: Seq<usize>,
    key: usize,
)
    requires
        forall|id: usize| #[trigger] routes.leads_to(id) < queues.len(),
    ensures
        crate::worker::queues::queued(handed_back(queues, routes, keys), key)
            == crate::worker::queues::queued(queues, key) + keys.to_multiset().count(key),
    decreases keys.len(),
{
    broadcast use vstd::seq_lib::group_to_multiset_ensures;

    if keys.len() > 0 {
        let first = keys[0];
        let to = routes.leads_to(first) as int;
        crate::worker::queues::pushing_queues_once(queues, to, first, key);
        handing_back_loses_no_key(
            queues.update(to, queues[to].push(first)),
            routes,
            keys.skip(1),
            key,
        );
        assert(seq![first] + keys.skip(1) =~= keys);
        vstd::seq_lib::lemma_multiset_commutative(seq![first], keys.skip(1));
        assert(seq![first] =~= Seq::<usize>::empty().push(first));
    }
}

/// Upper bound on random-key draws when searching for one that routes to an
/// endpoint: 64 draws per endpoint, and no fewer than 64.
pub fn max_routing_attempts(num_endpoints: usize) -> (r: usize)
    ensures
        r == if num_endpoints * 64 > usize::MAX {
            usize::MAX as int
        } else if num_endpoints == 0 {
            64
        } else {
            num_endpoints * 64
        },
        r >= 64,
{
    match num_endpoints.checked_mul(64) {
        Some(n) => if n < 64 {
            64
        } else {
            n
        },
        None => usize::MAX,
    }
}

/// Taking finds the first key of an endpoint's queue that leads there: every key
/// before it led elsewhere, and none is found only where none leads there. A
/// single endpoint takes the first key there is.
pub proof fn the_first_owned_key_is_taken(
    queues: Seq<Seq<usize>>,
    routes: Routes<'_>,
    ep: int,
    k: int,
)
    requires
        0 <= ep < queues.len(),
        forall|id: usize| #[trigger] routes.leads_to(id) < queues.len(),
        0 <= k <= queues[ep].len(),
        routes.num_endpoints > 1 ==> forall|i: int|
            0 <= i < k ==> routes.leads_to(#[trigger] queues[ep][i]) != ep,
        routes.num_endpoints <= 1 ==> k == 0,
        k < queues[ep].len() && routes.num_endpoints > 1 ==> routes.leads_to(queues[ep][k]) == ep,
    ensures
        taken(queues, routes, ep).1 == if k < queues[ep].len() {
            Some(queues[ep][k])
        } else {
            None
        },
        taken(queues, routes, ep).0[ep] == if k < queues[ep].len() {
            queues[ep].skip(k + 1)
        } else {
            Seq::empty()
        },
    decreases queues[ep].len(),
{
    let q = queues[ep];
    if q.len() > 0 {
        let first = q[0];
        let rest = queues.update(ep, q.skip(1));
        let to = routes.leads_to(first) as int;
        if k > 0 {
            assert(to != ep);
            let next = rest.update(to, rest[to].push(first));
            assert(next[ep] == q.skip(1));
            assert forall|i: int| 0 <= i < k - 1 implies routes.leads_to(
                #[trigger] next[ep][i],
            ) != ep by {
                assert(next[ep][i] == q[i + 1]);
            }
            the_first_owned_key_is_taken(next, routes, ep, k - 1);
            if k < q.len() {
                assert(next[ep][k - 1] == q[k]);
                assert(next[ep].skip(k) =~= q.skip(k + 1));
            }
        }
    } else {
        assert(queues[ep] =~= Seq::<usize>::empty());
    }
}

/// The ids of a list that lead to endpoint `ep`, in order.
pub open spec fn leading_to(keys: Seq<usize>, routes: Routes<'_>, ep: int) -> Seq<usize>
    decreases keys.len(),
{
    if keys.len() == 0 {
        Seq::empty()
    } else {
        let rest = leading_to(keys.skip(1), routes, ep);
        if routes.leads_to(keys[0]) == ep {
            seq![keys[0]] + rest
        } else {
            rest
        }
    }
}

/// Keys that are handed back join the end of the queue of the endpoint that they
/// lead to, in the order in which they come; no other queue changes.
pub proof fn keys_are_handed_back_to_their_owners(
    queues: Seq<Seq<usize>>,
    routes: Routes<'_>,
    keys: Seq<usize>,
    ep: int,
)
    requires
        forall|id: usize| #[trigger] routes.leads_to(id) < queues.len(),
        0 <= ep < queues.len(),
    ensures
        handed_back(queues, routes, keys)[ep] == queues[ep] + leading_to(keys, routes, ep),
        handed_back(queues, routes, keys).len() == queues.len(),
    decreases keys.len(),
{
    if keys.len() > 0 {
        let to = routes.leads_to(keys[0]) as int;
        let next = queues.update(to, queues[to].push(keys[0]));
        keys_are_handed_back_to_their_owners(next, routes, keys.skip(1), ep);
        let rest = leading_to(keys.skip(1), routes, ep);
        if to == ep {
            assert(queues[ep].push(keys[0]) + rest =~= queues[ep] + (seq![keys[0]] + rest));
        }
    } else {
        assert(queues[ep] + Seq::<usize>::empty() =~= queues[ep]);
    }
}

/// Ids that 32 bits can hold stand in the key lists as they are, in order.
pub proof fn key_lists_hold_their_ids(ids: Seq<usize>, i: int)
    requires
        0 <= i < ids.len(),
        ids[i] < 0x1_0000_0000,
    ensures
        narrowed(ids).len() == ids.len(),
        narrowed(ids)[i] == ids[i],
{
}

/// The ring is over the endpoints themselves, in their order, where there are
/// any.
pub proof fn the_ring_is_over_the_endpoints(endpoints: Seq<Seq<char>>)
    ensures
        endpoints.len() > 0 ==> ring_members(endpoints) == endpoints,
        endpoints.len() == 0 ==> ring_members(endpoints).len() == 1,
{
}

} // verus!
