//! The table of rooms: eviction of what nobody uses any more, and the shards
//! that the rooms are spread over.
use vstd::prelude::*;

use crate::clock::{Duration, Instant};
use crate::net::IpAddr;
use crate::room::{RoomEntry, RoomView};
use crate::table::Table;

verus! {

/// The contents of each room.
pub open spec fn room_views(m: Map<Seq<char>, RoomEntry>) -> Map<Seq<char>, RoomView> {
    m.map_values(|e: RoomEntry| e@)
}

/// A room without clients into which nobody was admitted for `reg_ttl`.
pub open spec fn evictable(r: RoomView, now: Instant, reg_ttl: Duration) -> bool {
    r.clients == Map::<crate::net::SocketAddr, crate::room::UdpClient>::empty()
        && crate::clock::elapsed(now, r.t) > reg_ttl.nanos
}

/// The rooms without stale clients and expired registrations, and without the
/// rooms that can then be evicted.
pub open spec fn swept_rooms(
    m: Map<Seq<char>, RoomView>,
    now: Instant,
    reg_ttl: Duration,
) -> Map<Seq<char>, RoomView> {
    Map::new(
        |r: Seq<char>|
            m.contains_key(r) && !evictable(crate::room::swept(m[r], now, reg_ttl), now, reg_ttl),
        |r: Seq<char>| crate::room::swept(m[r], now, reg_ttl),
    )
}

/// The links between an IP and a room that end with the stale clients.
pub open spec fn ended_links(
    m: Map<Seq<char>, RoomView>,
    now: Instant,
    reg_ttl: Duration,
) -> Set<(IpAddr, Seq<char>)> {
    Set::new(
        |l: (IpAddr, Seq<char>)|
            m.contains_key(l.1) && crate::room::unlinked_ips(
                m[l.1].clients,
                now,
                reg_ttl,
            ).contains(l.0),
    )
}

/// A list of links as a set.
pub open spec fn links_of(s: Seq<(IpAddr, String)>) -> Set<(IpAddr, Seq<char>)> {
    Set::new(|l: (IpAddr, Seq<char>)| has_link(s, l))
}

/// The list holds the link.
pub open spec fn has_link(s: Seq<(IpAddr, String)>, l: (IpAddr, Seq<char>)) -> bool {
    exists|i: int| 0 <= i < s.len() && (#[trigger] s[i]).0 == l.0 && s[i].1@ == l.1
}

proof fn lemma_links_add(a: Seq<(IpAddr, String)>, b: Seq<(IpAddr, String)>)
    ensures
        links_of(a + b) == links_of(a).union(links_of(b)),
{
    assert forall|l: (IpAddr, Seq<char>)|
        links_of(a + b).contains(l) == links_of(a).union(links_of(b)).contains(l) by {
        if has_link(a, l) {
            let i = choose|i: int| 0 <= i < a.len() && (#[trigger] a[i]).0 == l.0 && a[i].1@ == l.1;
            assert((a + b)[i].0 == l.0);
        }
        if has_link(b, l) {
            let i = choose|i: int| 0 <= i < b.len() && (#[trigger] b[i]).0 == l.0 && b[i].1@ == l.1;
            assert((a + b)[a.len() + i].0 == l.0);
        }
        if has_link(a + b, l) {
            let i = choose|i: int|
                0 <= i < (a + b).len() && (#[trigger] (a + b)[i]).0 == l.0 && (a + b)[i].1@ == l.1;
            if i < a.len() {
                assert(a[i].0 == l.0);
            } else {
                assert(b[i - a.len()].0 == l.0);
            }
        }
    }
    assert(links_of(a + b) =~= links_of(a).union(links_of(b)));
}

/// Each key of the table leads to a well-formed room.
pub open spec fn rooms_wf(t: Table<String, RoomEntry>) -> bool {
    t.wf() && forall|i: int| 0 <= i < t.entries@.len() ==> (#[trigger] t.entries@[i]).1.wf()
}

/// The links that end in the first `i` rooms of a list.
spec fn ended_before(
    es: Seq<(String, RoomEntry)>,
    i: int,
    now: Instant,
    reg_ttl: Duration,
) -> Set<(IpAddr, Seq<char>)> {
    Set::new(|l: (IpAddr, Seq<char>)| ends_before(es, i, l, now, reg_ttl))
}

spec fn ends_before(
    es: Seq<(String, RoomEntry)>,
    i: int,
    l: (IpAddr, Seq<char>),
    now: Instant,
    reg_ttl: Duration,
) -> bool {
    exists|j: int|
        0 <= j < i && (#[trigger] es[j]).0@ == l.1 && crate::room::unlinked_ips(
            es[j].1@.clients,
            now,
            reg_ttl,
        ).contains(l.0)
}

proof fn lemma_ended_step(
    es: Seq<(String, RoomEntry)>,
    i: int,
    un: Seq<(IpAddr, String)>,
    now: Instant,
    reg_ttl: Duration,
)
    requires
        0 <= i < es.len(),
        forall|j: int| 0 <= j < un.len() ==> (#[trigger] un[j]).1@ == es[i].0@,
        crate::room::unlinked_ips(es[i].1@.clients, now, reg_ttl) == crate::room::ips_of(
            un,
        ).to_set(),
    ensures
        ended_before(es, i + 1, now, reg_ttl) == ended_before(es, i, now, reg_ttl).union(
            links_of(un),
        ),
{
    let ips = crate::room::ips_of(un);
    assert forall|l: (IpAddr, Seq<char>)|
        ended_before(es, i + 1, now, reg_ttl).contains(l) == ended_before(
            es,
            i,
            now,
            reg_ttl,
        ).union(links_of(un)).contains(l) by {
        if ends_before(es, i + 1, l, now, reg_ttl) {
            let j = choose|j: int|
                0 <= j < i + 1 && (#[trigger] es[j]).0@ == l.1 && crate::room::unlinked_ips(
                    es[j].1@.clients,
                    now,
                    reg_ttl,
                ).contains(l.0);
            if j == i {
                let q = ips.index_of(l.0);
                assert(ips[q] == l.0);
                assert(un[q].0 == l.0);
                assert(has_link(un, l));
            } else {
                assert(es[j].0@ == l.1);
                assert(ends_before(es, i, l, now, reg_ttl));
            }
        }
        if ends_before(es, i, l, now, reg_ttl) {
            let j = choose|j: int|
                0 <= j < i && (#[trigger] es[j]).0@ == l.1 && crate::room::unlinked_ips(
                    es[j].1@.clients,
                    now,
                    reg_ttl,
                ).contains(l.0);
            assert(es[j].0@ == l.1);
        }
        if has_link(un, l) {
            let q = choose|q: int|
                0 <= q < un.len() && (#[trigger] un[q]).0 == l.0 && un[q].1@ == l.1;
            assert(ips[q] == l.0);
            assert(ips.to_set().contains(l.0));
            assert(es[i].0@ == l.1);
        }
    }
    assert(ended_before(es, i + 1, now, reg_ttl) =~= ended_before(es, i, now, reg_ttl).union(
        links_of(un),
    ));
}

proof fn lemma_ended_all(es: Seq<(String, RoomEntry)>, now: Instant, reg_ttl: Duration)
    requires
        crate::table::keys_of(es).no_duplicates(),
    ensures
        ended_before(es, es.len() as int, now, reg_ttl) == ended_links(
            room_views(crate::table::map_of(es)),
            now,
            reg_ttl,
        ),
{
    let m = room_views(crate::table::map_of(es));
    assert forall|l: (IpAddr, Seq<char>)|
        ended_before(es, es.len() as int, now, reg_ttl).contains(l) == ended_links(
            m,
            now,
            reg_ttl,
        ).contains(l) by {
        if ends_before(es, es.len() as int, l, now, reg_ttl) {
            let j = choose|j: int|
                0 <= j < es.len() && (#[trigger] es[j]).0@ == l.1 && crate::room::unlinked_ips(
                    es[j].1@.clients,
                    now,
                    reg_ttl,
                ).contains(l.0);
            crate::table::lemma_entry(es, j);
        }
        if ended_links(m, now, reg_ttl).contains(l) {
            let j = crate::table::keys_of(es).index_of(l.1);
            assert(crate::table::keys_of(es)[j] == l.1);
            crate::table::lemma_entry(es, j);
            assert(es[j].0@ == l.1);
        }
    }
    assert(ended_before(es, es.len() as int, now, reg_ttl) =~= ended_links(m, now, reg_ttl));
}

/// Sweeps every room and evicts those that are left unused. Returns how many
/// were evicted, and the links that ended.
pub fn evict_stale_rooms(
    rooms: &mut Table<String, RoomEntry>,
    now: Instant,
    reg_ttl: Duration,
) -> (r: (usize, Vec<(IpAddr, String)>))
    requires
        rooms_wf(*old(rooms)),
    ensures
        rooms_wf(*final(rooms)),
        room_views(final(rooms)@) == swept_rooms(room_views(old(rooms)@), now, reg_ttl),
        links_of(r.1@) == ended_links(room_views(old(rooms)@), now, reg_ttl),
        r.0 + final(rooms)@.dom().len() == old(rooms)@.dom().len(),
{
    let ghost es = rooms.entries@;
    let ghost ks = crate::table::keys_of(es);
    let mut unlinked_all: Vec<(IpAddr, String)> = Vec::new();
    let mut to_remove: Vec<String> = Vec::new();
    let mut i: usize = 0;
    assert(links_of(unlinked_all@) =~= ended_before(es, 0, now, reg_ttl));
    while i < rooms.entries.len()
        invariant
            rooms_wf(*rooms),
            i <= es.len(),
            rooms.entries@.len() == es.len(),
            ks == crate::table::keys_of(es),
            crate::table::keys_of(rooms.entries@) =~= ks,
            ks.no_duplicates(),
            forall|j: int| i <= j < es.len() ==> rooms.entries@[j] == #[trigger] es[j],
            forall|j: int|
                0 <= j < i ==> (#[trigger] rooms.entries@[j]).1@ == crate::room::swept(
                    es[j].1@,
                    now,
                    reg_ttl,
                ),
            links_of(unlinked_all@) == ended_before(es, i as int, now, reg_ttl),
            crate::room::views_of(to_remove@).no_duplicates(),
            forall|j: int|
                0 <= j < i && evictable((#[trigger] rooms.entries@[j]).1@, now, reg_ttl)
                    ==> crate::room::views_of(to_remove@).contains(ks[j]),
            forall|q: int|
                0 <= q < to_remove@.len() ==> evicted_before(
                    rooms.entries@,
                    i as int,
                    (#[trigger] to_remove@[q])@,
                    now,
                    reg_ttl,
                ),
        decreases es.len() - i,
    {
        let name = rooms.entries[i].0.clone();
        let ghost es0 = rooms.entries@;
        assert(es0[i as int] == es[i as int]);
        assert(es0[i as int].1.wf());
        let mut un = rooms.entries[i].1.remove_stale_clients(&name, now, reg_ttl);
        assert(rooms.entries@ =~= es0.update(i as int, (es0[i as int].0, rooms.entries@[i as int].1)));
        proof {
            lemma_ended_step(es, i as int, un@, now, reg_ttl);
            lemma_links_add(unlinked_all@, un@);
            assert(crate::table::keys_of(rooms.entries@) =~= ks);
        }
        unlinked_all.append(&mut un);
        let ghost rm0 = to_remove@;
        let empty = rooms.entries[i].1.udp_clients.is_empty();
        let stale = now.duration_since(rooms.entries[i].1.t).nanos > reg_ttl.nanos;
        if empty && stale {
            to_remove.push(name);
        }
        proof {
            let cur = rooms.entries@;
            assert forall|q: int| 0 <= q < to_remove@.len() implies evicted_before(
                cur,
                i + 1,
                (#[trigger] to_remove@[q])@,
                now,
                reg_ttl,
            ) by {
                if q < rm0.len() {
                    assert(evicted_before(es0, i as int, rm0[q]@, now, reg_ttl));
                    let j = choose|j: int|
                        0 <= j < i && (#[trigger] es0[j]).0@ == rm0[q]@ && evictable(
                            es0[j].1@,
                            now,
                            reg_ttl,
                        );
                    assert(cur[j] == es0[j]);
                } else {
                    assert(cur[i as int].0@ == to_remove@[q]@);
                }
            }
            if empty && stale {
                let v0 = crate::room::views_of(rm0);
                let v1 = crate::room::views_of(to_remove@);
                assert(v1 =~= v0.push(ks[i as int]));
                assert(v1[rm0.len() as int] == ks[i as int]);
                assert(!v0.contains(ks[i as int])) by {
                    if v0.contains(ks[i as int]) {
                        let q = v0.index_of(ks[i as int]);
                        assert(rm0[q]@ == ks[i as int]);
                        assert(evicted_before(es0, i as int, rm0[q]@, now, reg_ttl));
                        let j = choose|j: int|
                            0 <= j < i && (#[trigger] es0[j]).0@ == rm0[q]@ && evictable(
                                es0[j].1@,
                                now,
                                reg_ttl,
                            );
                        assert(crate::table::keys_of(es0)[j] == ks[j]);
                    }
                }
                assert forall|x: Seq<char>| v0.contains(x) implies v1.contains(x) by {
                    let q = v0.index_of(x);
                    assert(v1[q] == x);
                }
            }
        }
        i = i + 1;
    }
    let ghost mid = rooms.entries@;
    let ghost midm = rooms@;
    proof {
        lemma_ended_all(es, now, reg_ttl);
    }
    let mut j: usize = 0;
    proof {
        crate::table::lemma_size(es);
        crate::table::lemma_size(mid);
    }
    while j < to_remove.len()
        invariant
            rooms_wf(*rooms),
            j <= to_remove@.len(),
            midm == crate::table::map_of(mid),
            crate::table::keys_of(mid).no_duplicates(),
            rooms@ == midm.remove_keys(crate::room::views_of(to_remove@.take(j as int)).to_set()),
            midm.dom().finite(),
            rooms@.dom().finite(),
            rooms@.dom().len() + j == midm.dom().len(),
            crate::room::views_of(to_remove@).no_duplicates(),
            forall|q: int|
                0 <= q < to_remove@.len() ==> evicted_before(
                    mid,
                    mid.len() as int,
                    (#[trigger] to_remove@[q])@,
                    now,
                    reg_ttl,
                ),
        decreases to_remove@.len() - j,
    {
        let ghost done = crate::room::views_of(to_remove@.take(j as int));
        let ghost x = to_remove@[j as int]@;
        let ghost t0 = *rooms;
        proof {
            assert(evicted_before(mid, mid.len() as int, to_remove@[j as int]@, now, reg_ttl));
            let k = choose|k: int|
                0 <= k < mid.len() && (#[trigger] mid[k]).0@ == x && evictable(
                    mid[k].1@,
                    now,
                    reg_ttl,
                );
            crate::table::lemma_entry(mid, k);
            assert(!done.contains(x)) by {
                if done.contains(x) {
                    let q = done.index_of(x);
                    assert(crate::room::views_of(to_remove@)[q] == crate::room::views_of(
                        to_remove@,
                    )[j as int]);
                }
            }
            assert(rooms@.contains_key(x));
        }
        rooms.remove(&to_remove[j]);
        proof {
            lemma_rooms_wf_after_remove(t0, *rooms, x);
            assert(crate::room::views_of(to_remove@.take(j + 1)) =~= done.push(x));
            done.lemma_push_to_set_commute(x);
            assert(rooms@ =~= midm.remove_keys(
                crate::room::views_of(to_remove@.take(j + 1)).to_set(),
            ));
            assert(rooms@.dom() =~= t0@.dom().remove(x));
        }
        j = j + 1;
    }
    proof {
        assert(to_remove@.take(j as int) =~= to_remove@);
        let m = room_views(crate::table::map_of(es));
        let gone = crate::room::views_of(to_remove@).to_set();
        assert forall|k: Seq<char>| midm.contains_key(k) implies crate::table::map_of(
            es,
        ).contains_key(k) && midm[k]@ == crate::room::swept(m[k], now, reg_ttl) && (gone.contains(
            k,
        ) <==> evictable(midm[k]@, now, reg_ttl)) by {
            let q = crate::table::keys_of(mid).index_of(k);
            assert(crate::table::keys_of(mid)[q] == k);
            crate::table::lemma_entry(mid, q);
            crate::table::lemma_entry(es, q);
            assert(ks[q] == k);
            assert(es[q].0@ == k);
            if gone.contains(k) {
                let p = crate::room::views_of(to_remove@).index_of(k);
                assert(to_remove@[p]@ == k);
                assert(evicted_before(mid, mid.len() as int, to_remove@[p]@, now, reg_ttl));
                let w = choose|w: int|
                    0 <= w < mid.len() && (#[trigger] mid[w]).0@ == k && evictable(
                        mid[w].1@,
                        now,
                        reg_ttl,
                    );
                assert(crate::table::keys_of(mid)[w] == k);
            }
        }
        assert forall|k: Seq<char>| m.contains_key(k) implies midm.contains_key(k) by {
            let q = ks.index_of(k);
            assert(ks[q] == k);
            assert(crate::table::keys_of(mid)[q] == k);
        }
        assert(room_views(rooms@) =~= swept_rooms(m, now, reg_ttl));
    }
    (to_remove.len(), unlinked_all)
}

/// One of the first `i` rooms of a list has the name `k` and can be evicted.
spec fn evicted_before(
    es: Seq<(String, RoomEntry)>,
    i: int,
    k: Seq<char>,
    now: Instant,
    reg_ttl: Duration,
) -> bool {
    exists|j: int| 0 <= j < i && (#[trigger] es[j]).0@ == k && evictable(es[j].1@, now, reg_ttl)
}

proof fn lemma_rooms_wf_after_remove(
    before: Table<String, RoomEntry>,
    after: Table<String, RoomEntry>,
    k: Seq<char>,
)
    requires
        rooms_wf(before),
        after.wf(),
        after@ == before@.remove(k),
    ensures
        rooms_wf(after),
{
    assert forall|i: int| 0 <= i < after.entries@.len() implies (#[trigger] after.entries@[i]).1.wf() by {
        crate::table::lemma_entry(after.entries@, i);
        let x = after.entries@[i].0@;
        assert(before@.contains_key(x));
        let q = crate::table::keys_of(before.entries@).index_of(x);
        assert(crate::table::keys_of(before.entries@)[q] == x);
        crate::table::lemma_entry(before.entries@, q);
        assert(before.entries@[q].1.wf());
    }
}

/// The shard of a room.
pub open spec fn shard_of(room: Seq<char>) -> usize {
    crate::room::spec_shard_idx(room, crate::room::NUM_SHARDS)
}

/// [`swept_rooms`], for the rooms of some shards only.
pub open spec fn swept_in(
    m: Map<Seq<char>, RoomView>,
    shards: Set<usize>,
    now: Instant,
    reg_ttl: Duration,
) -> Map<Seq<char>, RoomView> {
    Map::new(
        |r: Seq<char>|
            m.contains_key(r) && (shards.contains(shard_of(r)) ==> !evictable(
                crate::room::swept(m[r], now, reg_ttl),
                now,
                reg_ttl,
            )),
        |r: Seq<char>|
            if shards.contains(shard_of(r)) {
                crate::room::swept(m[r], now, reg_ttl)
            } else {
                m[r]
            },
    )
}

/// [`ended_links`], for the rooms of some shards only.
pub open spec fn ended_in(
    m: Map<Seq<char>, RoomView>,
    shards: Set<usize>,
    now: Instant,
    reg_ttl: Duration,
) -> Set<(IpAddr, Seq<char>)> {
    ended_links(m, now, reg_ttl).filter(
        |l: (IpAddr, Seq<char>)| shards.contains(shard_of(l.1)),
    )
}

/// All rooms, spread over shards by the hash of their name.
pub struct RoomTable {
    pub shards: Vec<Table<String, RoomEntry>>,
}

impl View for RoomTable {
    type V = Map<Seq<char>, RoomView>;

    open spec fn view(&self) -> Map<Seq<char>, RoomView> {
        Map::new(
            |r: Seq<char>| self.shards@[shard_of(r) as int]@.contains_key(r),
            |r: Seq<char>| self.shards@[shard_of(r) as int]@[r]@,
        )
    }
}

impl RoomTable {
    /// Every room is well formed and lies in its shard.
    pub open spec fn wf(&self) -> bool {
        &&& self.shards@.len() == crate::room::NUM_SHARDS
        &&& forall|i: int| 0 <= i < self.shards@.len() ==> rooms_wf(#[trigger] self.shards@[i])
        &&& forall|i: int, r: Seq<char>|
            0 <= i < self.shards@.len() && #[trigger] self.shards@[i]@.contains_key(r) ==> shard_of(
                r,
            ) == i
    }

    proof fn lemma_entry_wf(&self, r: Seq<char>)
        requires
            self.wf(),
            self@.contains_key(r),
        ensures
            self.shards@[shard_of(r) as int]@[r].wf(),
    {
        let t = self.shards@[shard_of(r) as int];
        assert(shard_of(r) < crate::room::NUM_SHARDS);
        assert(rooms_wf(t));
        let q = crate::table::keys_of(t.entries@).index_of(r);
        assert(crate::table::keys_of(t.entries@)[q] == r);
        crate::table::lemma_entry(t.entries@, q);
        assert(t.entries@[q].1.wf());
    }

    /// Finitely many rooms lie in the first `k` shards.
    proof fn lemma_finite_upto(&self, k: int)
        requires
            self.wf(),
            0 <= k <= self.shards@.len(),
        ensures
            self@.dom().filter(|r: Seq<char>| shard_of(r) < k).finite(),
        decreases k,
    {
        let f = |r: Seq<char>| shard_of(r) < k;
        if k == 0 {
            assert(self@.dom().filter(f) =~= Set::empty());
        } else {
            self.lemma_finite_upto(k - 1);
            let g = |r: Seq<char>| shard_of(r) < k - 1;
            let last = self.shards@[k - 1]@.dom();
            assert(rooms_wf(self.shards@[k - 1]));
            crate::table::lemma_size(self.shards@[k - 1].entries@);
            assert(self@.dom().filter(f) =~= self@.dom().filter(g).union(last));
        }
    }

    /// There are finitely many rooms.
    pub proof fn lemma_finite(&self)
        requires
            self.wf(),
        ensures
            self@.dom().finite(),
    {
        self.lemma_finite_upto(crate::room::NUM_SHARDS as int);
        assert(self@.dom().filter(|r: Seq<char>| shard_of(r) < crate::room::NUM_SHARDS)
            =~= self@.dom());
    }

    pub fn new() -> (t: Self)
        ensures
            t.wf(),
            t@ == Map::<Seq<char>, RoomView>::empty(),
    {
        let mut shards: Vec<Table<String, RoomEntry>> = Vec::new();
        let mut i: usize = 0;
        while i < crate::room::NUM_SHARDS
            invariant
                i <= crate::room::NUM_SHARDS,
                shards@.len() == i,
                forall|j: int|
                    0 <= j < i ==> rooms_wf(#[trigger] shards@[j]) && shards@[j]@ == Map::<
                        Seq<char>,
                        RoomEntry,
                    >::empty(),
            decreases crate::room::NUM_SHARDS - i,
        {
            let t: Table<String, RoomEntry> = Table::new();
            proof {
                crate::table::lemma_size(t.entries@);
                assert(t@.dom() =~= Set::empty());
            }
            shards.push(t);
            i = i + 1;
        }
        let t = RoomTable { shards };
        assert(t@ =~= Map::<Seq<char>, RoomView>::empty());
        t
    }

    /// The room of that name.
    pub fn get(&self, room: &str) -> (r: Option<&RoomEntry>)
        requires
            self.wf(),
        ensures
            match r {
                Some(e) => self@.contains_key(room@) && e@ == self@[room@] && e.wf(),
                None => !self@.contains_key(room@),
            },
    {
        let i: usize = crate::room::shard_idx(room, crate::room::NUM_SHARDS);
        assert(rooms_wf(self.shards@[i as int]));
        let r = self.shards[i].get(&room.to_owned());
        proof {
            if r is Some {
                self.lemma_entry_wf(room@);
            }
        }
        r
    }

    /// Takes a room out of the table.
    pub fn take(&mut self, room: &str) -> (r: Option<RoomEntry>)
        requires
            old(self).wf(),
        ensures
            final(self).wf(),
            final(self)@ == old(self)@.remove(room@),
            match r {
                Some(e) => old(self)@.contains_key(room@) && e@ == old(self)@[room@] && e.wf(),
                None => !old(self)@.contains_key(room@),
            },
    {
        let i: usize = crate::room::shard_idx(room, crate::room::NUM_SHARDS);
        let ghost before = *self;
        assert(rooms_wf(self.shards@[i as int]));
        let r = self.shards[i].remove(&room.to_owned());
        proof {
            assert(self.shards@ =~= before.shards@.update(i as int, self.shards@[i as int]));
            lemma_rooms_wf_after_remove(before.shards@[i as int], self.shards@[i as int], room@);
            if r is Some {
                before.lemma_entry_wf(room@);
            }
            assert(self@ =~= before@.remove(room@));
        }
        r
    }

    /// Puts a room into the table, in place of one of the same name.
    pub fn put(&mut self, room: &str, e: RoomEntry)
        requires
            old(self).wf(),
            e.wf(),
        ensures
            final(self).wf(),
            final(self)@ == old(self)@.insert(room@, e@),
    {
        let i: usize = crate::room::shard_idx(room, crate::room::NUM_SHARDS);
        let ghost before = *self;
        assert(rooms_wf(self.shards@[i as int]));
        self.shards[i].insert(room.to_owned(), e);
        proof {
            assert(self.shards@ =~= before.shards@.update(i as int, self.shards@[i as int]));
            let a = before.shards@[i as int];
            let b = self.shards@[i as int];
            assert forall|q: int| 0 <= q < b.entries@.len() implies (#[trigger] b.entries@[q]).1.wf() by {
                crate::table::lemma_entry(b.entries@, q);
                let x = b.entries@[q].0@;
                if x != room@ {
                    assert(a@.contains_key(x));
                    let w = crate::table::keys_of(a.entries@).index_of(x);
                    assert(crate::table::keys_of(a.entries@)[w] == x);
                    crate::table::lemma_entry(a.entries@, w);
                    assert(a.entries@[w].1.wf());
                }
            }
            assert(rooms_wf(b));
            assert(self@ =~= before@.insert(room@, e@));
        }
    }

    /// Sweeps the rooms of one shard.
    pub fn evict_shard(&mut self, i: usize, now: Instant, reg_ttl: Duration) -> (r: (
        usize,
        Vec<(IpAddr, String)>,
    ))
        requires
            old(self).wf(),
            i < crate::room::NUM_SHARDS,
        ensures
            final(self).wf(),
            final(self)@ == swept_in(old(self)@, set![i], now, reg_ttl),
            links_of(r.1@) == ended_in(old(self)@, set![i], now, reg_ttl),
            r.0 + final(self)@.dom().len() == old(self)@.dom().len(),
    {
        let ghost before = *self;
        assert(rooms_wf(self.shards@[i as int]));
        let r = evict_stale_rooms(&mut self.shards[i], now, reg_ttl);
        proof {
            let a = before.shards@[i as int];
            let b = self.shards@[i as int];
            assert(self.shards@ =~= before.shards@.update(i as int, b));
            let va = room_views(a@);
            let vb = room_views(b@);
            assert forall|x: Seq<char>| #[trigger] b@.contains_key(x) implies shard_of(x) == i by {
                assert(vb.contains_key(x));
                assert(va.contains_key(x));
                assert(a@.contains_key(x));
            }
            assert(self.wf());
            assert forall|x: Seq<char>| #[trigger]
                self@.contains_key(x) == swept_in(before@, set![i], now, reg_ttl).contains_key(
                    x,
                ) by {
                if shard_of(x) == i {
                    assert(vb.contains_key(x) == b@.contains_key(x));
                    assert(va.contains_key(x) == a@.contains_key(x));
                }
            }
            assert forall|x: Seq<char>| #[trigger] self@.contains_key(x) implies self@[x]
                == swept_in(before@, set![i], now, reg_ttl)[x] by {
                if shard_of(x) == i {
                    assert(vb.contains_key(x));
                    assert(vb[x] == self@[x]);
                    assert(va[x] == before@[x]);
                }
            }
            assert(self@ =~= swept_in(before@, set![i], now, reg_ttl));
            let e1 = ended_links(va, now, reg_ttl);
            let e2 = ended_in(before@, set![i], now, reg_ttl);
            assert forall|l: (IpAddr, Seq<char>)| e1.contains(l) == e2.contains(l) by {
                if va.contains_key(l.1) {
                    assert(a@.contains_key(l.1));
                    assert(shard_of(l.1) == i);
                    assert(va[l.1] == before@[l.1]);
                }
            }
            assert(e1 =~= e2);
            before.lemma_finite();
            crate::table::lemma_size(a.entries@);
            crate::table::lemma_size(b.entries@);
            let rest = before@.dom().difference(a@.dom());
            assert(a@.dom().subset_of(before@.dom()));
            assert(before@.dom() =~= rest.union(a@.dom()));
            assert(self@.dom() =~= rest.union(b@.dom()));
            vstd::set_lib::lemma_set_disjoint_lens(rest, a@.dom());
            vstd::set_lib::lemma_set_disjoint_lens(rest, b@.dom());
        }
        r
    }

    /// Sweeps all rooms. Returns how many were evicted, and the links that
    /// ended.
    pub fn evict_all(&mut self, now: Instant, reg_ttl: Duration) -> (r: (
        usize,
        Vec<(IpAddr, String)>,
    ))
        requires
            old(self).wf(),
        ensures
            final(self).wf(),
            final(self)@ == swept_rooms(old(self)@, now, reg_ttl),
            links_of(r.1@) == ended_links(old(self)@, now, reg_ttl),
            r.0 == (old(self)@.dom().len() - final(self)@.dom().len()) % (usize::MAX + 1),
            final(self)@.dom().len() <= old(self)@.dom().len(),
    {
        let ghost m = self@;
        let mut total: usize = 0;
        let mut links: Vec<(IpAddr, String)> = Vec::new();
        let mut i: usize = 0;
        let ghost mut evicted: int = 0;
        let ghost mut done: Set<usize> = Set::empty();
        proof {
            assert(self@ =~= swept_in(m, done, now, reg_ttl));
            assert(links_of(links@) =~= ended_in(m, done, now, reg_ttl));
        }
        while i < crate::room::NUM_SHARDS
            invariant
                self.wf(),
                i <= crate::room::NUM_SHARDS,
                forall|k: usize| #[trigger] done.contains(k) <==> k < i,
                self@ == swept_in(m, done, now, reg_ttl),
                links_of(links@) == ended_in(m, done, now, reg_ttl),
                evicted + self@.dom().len() == m.dom().len(),
                evicted >= 0,
                total == evicted % (usize::MAX + 1),
            decreases crate::room::NUM_SHARDS - i,
        {
            let ghost v0 = self@;
            let (n, mut un) = self.evict_shard(i, now, reg_ttl);
            proof {
                lemma_links_add(links@, un@);
                let next = done.insert(i);
                assert(swept_in(v0, set![i], now, reg_ttl) =~= swept_in(m, next, now, reg_ttl));
                assert(ended_in(v0, set![i], now, reg_ttl).union(ended_in(m, done, now, reg_ttl))
                    =~= ended_in(m, next, now, reg_ttl));
                done = next;
                let size = usize::MAX + 1;
                vstd::arithmetic::div_mod::lemma_add_mod_noop(evicted, n as int, size);
                vstd::arithmetic::div_mod::lemma_small_mod(n as nat, size as nat);
                evicted = evicted + n;
            }
            links.append(&mut un);
            total = total.wrapping_add(n);
            i = i + 1;
        }
        proof {
            assert(swept_in(m, done, now, reg_ttl) =~= swept_rooms(m, now, reg_ttl));
            assert(ended_in(m, done, now, reg_ttl) =~= ended_links(m, now, reg_ttl));
        }
        (total, links)
    }
}

} // verus!
