//! Registrations that wait for their cookie in rooms that do not exist yet.
use vstd::prelude::*;

use crate::clock::{Duration, Instant};
use crate::net::{IpAddr, SocketAddr};
use crate::room::{ip_key, PendingReg, PENDING_REG_TTL_MS};
use crate::table::{Key, Table};

verus! {

/// A room and a source that registers for it.
pub struct PendingKey {
    pub room: String,
    pub src: SocketAddr,
}

impl View for PendingKey {
    type V = (Seq<char>, SocketAddr);

    open spec fn view(&self) -> (Seq<char>, SocketAddr) {
        (self.room@, self.src)
    }
}

impl Key for PendingKey {
    fn same(&self, other: &Self) -> (b: bool) {
        self.src == other.src && self.room == other.room
    }

    fn copy(&self) -> (k: Self) {
        PendingKey { room: self.room.clone(), src: self.src }
    }
}

/// Number of registrations in `s` whose source belongs to `ip`.
pub open spec fn count_pending(s: Set<(Seq<char>, SocketAddr)>, ip: IpAddr) -> nat {
    s.filter(|k: (Seq<char>, SocketAddr)| crate::room::spec_ip_key(k.1) == ip).len()
}

/// Adding a registration counts once, for the IP of its source.
pub proof fn lemma_count_pending_insert(
    s: Set<(Seq<char>, SocketAddr)>,
    k: (Seq<char>, SocketAddr),
)
    requires
        s.finite(),
        !s.contains(k),
    ensures
        forall|ip: IpAddr| #[trigger]
            count_pending(s.insert(k), ip) == count_pending(s, ip) + (if crate::room::spec_ip_key(
                k.1,
            ) == ip {
                1nat
            } else {
                0nat
            }),
{
    assert forall|ip: IpAddr| #[trigger]
        count_pending(s.insert(k), ip) == count_pending(s, ip) + (if crate::room::spec_ip_key(k.1)
            == ip {
            1nat
        } else {
            0nat
        }) by {
        let f = |x: (Seq<char>, SocketAddr)| crate::room::spec_ip_key(x.1) == ip;
        s.lemma_len_filter(f);
        if crate::room::spec_ip_key(k.1) == ip {
            assert(s.insert(k).filter(f) =~= s.filter(f).insert(k));
        } else {
            assert(s.insert(k).filter(f) =~= s.filter(f));
        }
    }
}

/// Removing a registration takes one off, for the IP of its source.
pub proof fn lemma_count_pending_remove(
    s: Set<(Seq<char>, SocketAddr)>,
    k: (Seq<char>, SocketAddr),
)
    requires
        s.finite(),
        s.contains(k),
    ensures
        forall|ip: IpAddr| #[trigger]
            count_pending(s.remove(k), ip) == count_pending(s, ip) - (if crate::room::spec_ip_key(
                k.1,
            ) == ip {
                1int
            } else {
                0int
            }),
{
    lemma_count_pending_insert(s.remove(k), k);
    assert(s.remove(k).insert(k) =~= s);
    assert forall|ip: IpAddr| #[trigger]
        count_pending(s.remove(k), ip) == count_pending(s, ip) - (if crate::room::spec_ip_key(k.1)
            == ip {
            1int
        } else {
            0int
        }) by {
        assert(count_pending(s.remove(k).insert(k), ip) == count_pending(s, ip));
    }
}

/// The registrations that have not expired.
pub open spec fn live(m: Map<(Seq<char>, SocketAddr), PendingReg>, now: Instant) -> Map<
    (Seq<char>, SocketAddr),
    PendingReg,
> {
    Map::new(
        |k: (Seq<char>, SocketAddr)| m.contains_key(k) && !crate::room::is_expired(m[k], now),
        |k: (Seq<char>, SocketAddr)| m[k],
    )
}

/// The store of waiting registrations, with the number of them that each IP
/// has, and of all of them.
pub struct PendingStore {
    pub entries: Table<PendingKey, PendingReg>,
    pub by_ip: Table<IpAddr, usize>,
    pub total: usize,
}

impl View for PendingStore {
    type V = Map<(Seq<char>, SocketAddr), PendingReg>;

    open spec fn view(&self) -> Map<(Seq<char>, SocketAddr), PendingReg> {
        self.entries@
    }
}

impl PendingStore {
    /// The counters agree with the entries.
    pub open spec fn wf(&self) -> bool {
        &&& self.entries.wf()
        &&& self.by_ip.wf()
        &&& self@.dom().finite()
        &&& self.total == self@.dom().len()
        &&& forall|ip: IpAddr| #[trigger]
            self.by_ip@.contains_key(ip) <==> count_pending(self@.dom(), ip) > 0
        &&& forall|ip: IpAddr| #[trigger]
            self.by_ip@.contains_key(ip) ==> self.by_ip@[ip] == count_pending(self@.dom(), ip)
    }

    pub fn new() -> (s: Self)
        ensures
            s.wf(),
            s@ == Map::<(Seq<char>, SocketAddr), PendingReg>::empty(),
    {
        let s = PendingStore { entries: Table::new(), by_ip: Table::new(), total: 0 };
        proof {
            let d = s@.dom();
            assert(d =~= Set::empty());
            assert forall|ip: IpAddr| count_pending(d, ip) == 0 by {
                assert(d.filter(
                    |k: (Seq<char>, SocketAddr)| crate::room::spec_ip_key(k.1) == ip,
                ) =~= Set::empty());
            }
        }
        s
    }

    pub fn get_pending_reg(&self, room: &str, src: SocketAddr) -> (r: Option<PendingReg>)
        requires
            self.wf(),
        ensures
            r == (if self@.contains_key((room@, src)) {
                Some(self@[(room@, src)])
            } else {
                None
            }),
    {
        let k = PendingKey { room: room.to_owned(), src };
        match self.entries.get(&k) {
            Some(p) => Some(*p),
            None => None,
        }
    }

    /// Stores a registration, in place of one of the same room and source.
    /// A new one is refused when the store holds `max_global`.
    pub fn store_pending_reg(
        &mut self,
        room: &str,
        src: SocketAddr,
        p: PendingReg,
        max_global: usize,
    ) -> (stored: bool)
        requires
            old(self).wf(),
        ensures
            final(self).wf(),
            stored == (old(self)@.contains_key((room@, src)) || old(self)@.dom().len()
                < max_global),
            final(self)@ == (if stored {
                old(self)@.insert((room@, src), p)
            } else {
                old(self)@
            }),
    {
        let k = PendingKey { room: room.to_owned(), src };
        let ghost d = self@.dom();
        let known = self.entries.contains_key(&k);
        if !known && self.total >= max_global {
            return false;
        }
        self.entries.insert(k, p);
        assert(self@.dom() =~= d.insert((room@, src)));
        if !known {
            self.total = self.total + 1;
            self.add_pending_ip(src, Ghost((room@, src)), Ghost(d));
        } else {
            assert(d.insert((room@, src)) =~= d);
        }
        true
    }

    /// Drops a registration.
    pub fn delete_pending_reg(&mut self, room: &str, src: SocketAddr)
        requires
            old(self).wf(),
        ensures
            final(self).wf(),
            final(self)@ == old(self)@.remove((room@, src)),
    {
        let k = PendingKey { room: room.to_owned(), src };
        self.delete(&k);
    }

    fn delete(&mut self, k: &PendingKey)
        requires
            old(self).wf(),
        ensures
            final(self).wf(),
            final(self)@ == old(self)@.remove(k@),
    {
        let ghost d = self@.dom();
        let removed = self.entries.remove(k);
        assert(self@.dom() =~= d.remove(k@));
        if removed.is_some() {
            self.total = self.total - 1;
            self.remove_pending_ip(k.src, Ghost(k@), Ghost(d));
        } else {
            assert(d.remove(k@) =~= d);
        }
    }

    /// Counts one registration more for the IP of `src`.
    fn add_pending_ip(
        &mut self,
        src: SocketAddr,
        Ghost(k): Ghost<(Seq<char>, SocketAddr)>,
        Ghost(d): Ghost<Set<(Seq<char>, SocketAddr)>>,
    )
        requires
            old(self).entries.wf(),
            old(self).by_ip.wf(),
            d.finite(),
            !d.contains(k),
            k.1 == src,
            old(self)@.dom() == d.insert(k),
            old(self).total == d.len() + 1,
            forall|ip: IpAddr| #[trigger]
                old(self).by_ip@.contains_key(ip) <==> count_pending(d, ip) > 0,
            forall|ip: IpAddr| #[trigger]
                old(self).by_ip@.contains_key(ip) ==> old(self).by_ip@[ip] == count_pending(d, ip),
        ensures
            final(self).wf(),
            final(self)@ == old(self)@,
    {
        let ip = ip_key(src);
        let n: usize = match self.by_ip.get(&ip) {
            Some(c) => *c,
            None => 0,
        };
        proof {
            lemma_count_pending_insert(d, k);
            d.lemma_len_filter(
                |x: (Seq<char>, SocketAddr)| crate::room::spec_ip_key(x.1) == ip,
            );
            assert(n == count_pending(d, ip));
        }
        self.by_ip.insert(ip, n + 1);
        assert forall|i: IpAddr| #[trigger] self.by_ip@.contains_key(i) <==> count_pending(
            self@.dom(),
            i,
        ) > 0 by {
            assert(count_pending(d.insert(k), i) == count_pending(d, i) + (if ip == i {
                1nat
            } else {
                0nat
            }));
        }
    }

    /// Counts one registration less for the IP of `src`, dropping the counter
    /// at zero.
    fn remove_pending_ip(
        &mut self,
        src: SocketAddr,
        Ghost(k): Ghost<(Seq<char>, SocketAddr)>,
        Ghost(d): Ghost<Set<(Seq<char>, SocketAddr)>>,
    )
        requires
            old(self).entries.wf(),
            old(self).by_ip.wf(),
            d.finite(),
            d.contains(k),
            k.1 == src,
            old(self)@.dom() == d.remove(k),
            old(self).total == d.len() - 1,
            forall|ip: IpAddr| #[trigger]
                old(self).by_ip@.contains_key(ip) <==> count_pending(d, ip) > 0,
            forall|ip: IpAddr| #[trigger]
                old(self).by_ip@.contains_key(ip) ==> old(self).by_ip@[ip] == count_pending(d, ip),
        ensures
            final(self).wf(),
            final(self)@ == old(self)@,
    {
        let ip = ip_key(src);
        let n: usize = match self.by_ip.get(&ip) {
            Some(c) => *c,
            None => 0,
        };
        proof {
            lemma_count_pending_remove(d, k);
            assert(n == count_pending(d, ip));
            assert(count_pending(d.remove(k), ip) == n - 1);
        }
        if n == 1 {
            self.by_ip.remove(&ip);
        } else {
            self.by_ip.insert(ip, n - 1);
        }
        assert forall|i: IpAddr| #[trigger] self.by_ip@.contains_key(i) <==> count_pending(
            self@.dom(),
            i,
        ) > 0 by {
            assert(count_pending(d.remove(k), i) == count_pending(d, i) - (if ip == i {
                1int
            } else {
                0int
            }));
        }
    }

    /// Number of registrations that wait for an IP.
    pub fn pending_count_for_ip(&self, ip: IpAddr) -> (n: usize)
        requires
            self.wf(),
        ensures
            n == count_pending(self@.dom(), ip),
    {
        match self.by_ip.get(&ip) {
            Some(c) => *c,
            None => 0,
        }
    }

    /// Drops the registrations that have waited too long.
    pub fn remove_stale_pending_regs(&mut self, now: Instant)
        requires
            old(self).wf(),
        ensures
            final(self).wf(),
            final(self)@ == live(old(self)@, now),
    {
        let ttl = Duration::from_millis(PENDING_REG_TTL_MS);
        let ghost m = self@;
        let ghost es = self.entries.entries@;
        let mut stale: Vec<PendingKey> = Vec::new();
        let mut i: usize = 0;
        while i < self.entries.entries.len()
            invariant
                self.wf(),
                m == self@,
                es == self.entries.entries@,
                i <= es.len(),
                ttl == crate::clock::spec_from_millis(PENDING_REG_TTL_MS as nat),
                forall|j: int|
                    0 <= j < i && crate::room::is_expired((#[trigger] es[j]).1, now)
                        ==> key_in(stale@, es[j].0@),
                forall|j: int|
                    0 <= j < stale@.len() ==> m.contains_key((#[trigger] stale@[j])@)
                        && crate::room::is_expired(m[stale@[j]@], now),
            decreases es.len() - i,
        {
            proof {
                crate::table::lemma_entry(es, i as int);
            }
            let ghost s0 = stale@;
            if now.duration_since(self.entries.entries[i].1.created_at).nanos > ttl.nanos {
                stale.push(self.entries.entries[i].0.copy());
                proof {
                    assert(stale@[s0.len() as int]@ == es[i as int].0@);
                    assert forall|k: (Seq<char>, SocketAddr)| key_in(s0, k) implies key_in(
                        stale@,
                        k,
                    ) by {
                        let q = choose|q: int| 0 <= q < s0.len() && (#[trigger] s0[q])@ == k;
                        assert(stale@[q]@ == k);
                    }
                }
            }
            i = i + 1;
        }
        let mut j: usize = 0;
        while j < stale.len()
            invariant
                self.wf(),
                j <= stale@.len(),
                forall|q: int|
                    0 <= q < stale@.len() ==> m.contains_key((#[trigger] stale@[q])@)
                        && crate::room::is_expired(m[stale@[q]@], now),
                forall|k: (Seq<char>, SocketAddr)| #[trigger]
                    self@.contains_key(k) ==> m.contains_key(k) && self@[k] == m[k] && !key_in(
                        stale@.take(j as int),
                        k,
                    ),
                forall|k: (Seq<char>, SocketAddr)| #[trigger]
                    m.contains_key(k) && !crate::room::is_expired(m[k], now)
                        ==> self@.contains_key(k),
            decreases stale@.len() - j,
        {
            self.delete(&stale[j]);
            assert forall|x: (Seq<char>, SocketAddr)| #[trigger] self@.contains_key(x) implies !key_in(
                stale@.take(j + 1),
                x,
            ) by {
                if key_in(stale@.take(j + 1), x) {
                    let q = choose|q: int|
                        0 <= q < j + 1 && (#[trigger] stale@.take(j + 1)[q])@ == x;
                    if q < j {
                        assert(stale@.take(j as int)[q]@ == x);
                    }
                }
            }
            j = j + 1;
        }
        proof {
            assert(stale@.take(j as int) =~= stale@);
            assert forall|k: (Seq<char>, SocketAddr)|
                m.contains_key(k) && crate::room::is_expired(m[k], now) implies key_in(
                stale@,
                k,
            ) by {
                let q = crate::table::keys_of(es).index_of(k);
                assert(crate::table::keys_of(es)[q] == k);
                crate::table::lemma_entry(es, q);
                assert(es[q].0@ == k);
            }
            assert(self@ =~= live(m, now));
        }
    }
}

/// The list holds the key.
spec fn key_in(s: Seq<PendingKey>, k: (Seq<char>, SocketAddr)) -> bool {
    exists|q: int| 0 <= q < s.len() && (#[trigger] s[q])@ == k
}

} // verus!
