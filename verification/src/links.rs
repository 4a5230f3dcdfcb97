//! Which rooms each IP takes part in.
use vstd::prelude::*;

use crate::net::IpAddr;
use crate::table::Table;

verus! {

/// The rooms that an IP is linked to.
pub open spec fn rooms_of_ip(links: Set<(IpAddr, Seq<char>)>, ip: IpAddr) -> Set<Seq<char>> {
    Set::new(|r: Seq<char>| links.contains((ip, r)))
}

/// Links between IPs and rooms, by IP.
pub struct Links {
    pub by_ip: Table<IpAddr, Table<String, ()>>,
}

impl View for Links {
    type V = Set<(IpAddr, Seq<char>)>;

    open spec fn view(&self) -> Set<(IpAddr, Seq<char>)> {
        Set::new(
            |l: (IpAddr, Seq<char>)|
                self.by_ip@.contains_key(l.0) && self.by_ip@[l.0]@.contains_key(l.1),
        )
    }
}

impl Links {
    /// Each IP that is kept has a room.
    pub open spec fn wf(&self) -> bool {
        &&& self.by_ip.wf()
        &&& forall|ip: IpAddr| #[trigger]
            self.by_ip@.contains_key(ip) ==> self.by_ip@[ip].wf() && self.by_ip@[ip]@ != Map::<
                Seq<char>,
                (),
            >::empty()
    }

    pub fn new() -> (l: Self)
        ensures
            l.wf(),
            l@ == Set::<(IpAddr, Seq<char>)>::empty(),
    {
        let l = Links { by_ip: Table::new() };
        assert(l@ =~= Set::<(IpAddr, Seq<char>)>::empty());
        l
    }

    /// Links an IP to a room.
    pub fn add_ip_room(&mut self, ip: IpAddr, room: &str)
        requires
            old(self).wf(),
        ensures
            final(self).wf(),
            final(self)@ == old(self)@.insert((ip, room@)),
    {
        let ghost before = *self;
        let mut set = match self.by_ip.remove(&ip) {
            Some(s) => s,
            None => Table::new(),
        };
        set.insert(room.to_owned(), ());
        proof {
            assert(set@.contains_key(room@));
        }
        self.by_ip.insert(ip, set);
        assert(self@ =~= before@.insert((ip, room@)));
    }

    /// Ends the link between an IP and a room.
    pub fn remove_ip_room(&mut self, ip: IpAddr, room: &str)
        requires
            old(self).wf(),
        ensures
            final(self).wf(),
            final(self)@ == old(self)@.remove((ip, room@)),
    {
        let ghost before = *self;
        match self.by_ip.remove(&ip) {
            Some(s) => {
                let mut set = s;
                set.remove(&room.to_owned());
                if !set.is_empty() {
                    self.by_ip.insert(ip, set);
                } else {
                    assert forall|r: Seq<char>| before@.contains((ip, r)) implies r == room@ by {
                        if r != room@ {
                            assert(before.by_ip@[ip]@.contains_key(r));
                            assert(set@.contains_key(r));
                        }
                    }
                }
            },
            None => {},
        }
        assert(self@ =~= before@.remove((ip, room@)));
    }

    /// Ends a list of links.
    pub fn remove_all(&mut self, list: &Vec<(IpAddr, String)>)
        requires
            old(self).wf(),
        ensures
            final(self).wf(),
            final(self)@ == old(self)@.difference(crate::rooms::links_of(list@)),
    {
        let ghost before = self@;
        let mut i: usize = 0;
        assert(self@ =~= before.difference(crate::rooms::links_of(list@.take(0))));
        while i < list.len()
            invariant
                self.wf(),
                i <= list@.len(),
                self@ == before.difference(crate::rooms::links_of(list@.take(i as int))),
            decreases list@.len() - i,
        {
            self.remove_ip_room(list[i].0, list[i].1.as_str());
            proof {
                let t0 = list@.take(i as int);
                let t1 = list@.take(i + 1);
                let x = (list@[i as int].0, list@[i as int].1@);
                assert forall|l: (IpAddr, Seq<char>)|
                    crate::rooms::has_link(t1, l) == (crate::rooms::has_link(t0, l) || l == x) by {
                    if crate::rooms::has_link(t0, l) {
                        let q = choose|q: int|
                            0 <= q < t0.len() && (#[trigger] t0[q]).0 == l.0 && t0[q].1@ == l.1;
                        assert(t1[q] == t0[q]);
                    }
                    if l == x {
                        assert(t1[i as int].0 == l.0);
                    }
                    if crate::rooms::has_link(t1, l) {
                        let q = choose|q: int|
                            0 <= q < t1.len() && (#[trigger] t1[q]).0 == l.0 && t1[q].1@ == l.1;
                        if q < i {
                            assert(t0[q] == t1[q]);
                        }
                    }
                }
                assert(self@ =~= before.difference(crate::rooms::links_of(t1)));
            }
            i = i + 1;
        }
        assert(list@.take(i as int) =~= list@);
    }

    /// Number of rooms that an IP is linked to.
    pub fn count_ip_rooms(&self, ip: IpAddr) -> (n: usize)
        requires
            self.wf(),
        ensures
            rooms_of_ip(self@, ip).finite(),
            n == rooms_of_ip(self@, ip).len(),
    {
        match self.by_ip.get(&ip) {
            Some(s) => {
                assert(rooms_of_ip(self@, ip) =~= s@.dom());
                s.len()
            },
            None => {
                assert(rooms_of_ip(self@, ip) =~= Set::empty());
                0
            },
        }
    }
}

} // verus!
