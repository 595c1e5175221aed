//! The administration view: the active connections and the banned addresses.
use vstd::prelude::*;

use crate::rate_limit::{banned_report, BannedIpInfo, ConnectionHistory};
use crate::sessions::string_views;
use crate::text::append_str;

verus! {

/// An authenticated connection: its identifier and the client's address.
#[derive(Debug, PartialEq, Eq)]
pub struct ActiveConnInfo {
    pub id: String,
    pub addr: String,
}

/// The (identifier, address) pairs of a sequence of connections.
pub open spec fn conn_views(v: Seq<ActiveConnInfo>) -> Seq<(Seq<char>, Seq<char>)> {
    v.map_values(|c: ActiveConnInfo| (c.id@, c.addr@))
}

/// No identifier occurs twice.
pub open spec fn unique_ids(v: Seq<(Seq<char>, Seq<char>)>) -> bool {
    forall|i: int, j: int| 0 <= i < j < v.len() ==> v[i].0 != v[j].0
}

/// The connections after `id` was added with address `addr` (an identifier already present
/// gets the new address in its place).
pub open spec fn conns_insert(v: Seq<(Seq<char>, Seq<char>)>, id: Seq<char>, addr: Seq<char>) -> Seq<
    (Seq<char>, Seq<char>),
> {
    if has_conn(v, id) {
        v.update(conn_index(v, id), (id, addr))
    } else {
        v.push((id, addr))
    }
}

/// Some connection has identifier `id`.
pub open spec fn has_conn(v: Seq<(Seq<char>, Seq<char>)>, id: Seq<char>) -> bool {
    exists|i: int| 0 <= i < v.len() && v[i].0 == id
}

/// The position of the connection with identifier `id` (meaningful when `has_conn`).
pub open spec fn conn_index(v: Seq<(Seq<char>, Seq<char>)>, id: Seq<char>) -> int {
    choose|i: int| 0 <= i < v.len() && v[i].0 == id
}

/// The connections after `id` was removed.
pub open spec fn conns_remove(v: Seq<(Seq<char>, Seq<char>)>, id: Seq<char>) -> Seq<(Seq<char>, Seq<char>)>
    decreases v.len(),
{
    if v.len() == 0 {
        v
    } else {
        let prev = conns_remove(v.drop_last(), id);
        if v.last().0 == id {
            prev
        } else {
            prev.push(v.last())
        }
    }
}

/// The authenticated connections, in the order in which they authenticated.
pub struct ActiveConnections {
    conns: Vec<ActiveConnInfo>,
}

impl View for ActiveConnections {
    type V = Seq<(Seq<char>, Seq<char>)>;

    closed spec fn view(&self) -> Seq<(Seq<char>, Seq<char>)> {
        conn_views(self.conns@)
    }
}

impl ActiveConnections {
    #[verifier::type_invariant]
    closed spec fn wf(self) -> bool {
        unique_ids(conn_views(self.conns@))
    }

    /// No connections.
    pub fn new() -> (c: Self)
        ensures
            c@.len() == 0,
            unique_ids(c@),
    {
        let c = ActiveConnections { conns: Vec::new() };
        assert(c@ =~= Seq::<(Seq<char>, Seq<char>)>::empty());
        c
    }

    /// Adds connection `id` with address `addr`.
    pub fn insert(&mut self, id: String, addr: String)
        ensures
            final(self)@ == conns_insert(old(self)@, id@, addr@),
            unique_ids(final(self)@),
    {
        proof { use_type_invariant(&*self); }
        let mut conns: Vec<ActiveConnInfo> = Vec::new();
        std::mem::swap(&mut conns, &mut self.conns);
        let ghost v = conn_views(conns@);
        let mut i: usize = 0;
        while i < conns.len()
            invariant
                i <= conns@.len(),
                v == conn_views(conns@),
                v == old(self)@,
                unique_ids(v),
                forall|k: int| 0 <= k < i ==> v[k].0 != id@,
            decreases conns.len() - i,
        {
            assert(v[i as int] == (conns@[i as int].id@, conns@[i as int].addr@));
            if conns[i].id == id {
                proof {
                    assert(has_conn(v, id@));
                    let j = conn_index(v, id@);
                    if j < i {
                        assert(v[j].0 != id@);
                    } else if j > i {
                        assert(v[i as int].0 != v[j].0);
                    }
                    let g = v.update(i as int, (id@, addr@));
                    assert forall|a: int, b: int| 0 <= a < b < g.len() implies g[a].0 != g[b].0 by {
                        assert(g[a].0 == v[a].0);
                        assert(g[b].0 == v[b].0);
                    }
                }
                conns.set(i, ActiveConnInfo { id, addr });
                assert(conn_views(conns@) =~= v.update(i as int, (id@, addr@)));
                self.conns = conns;
                return;
            }
            i = i + 1;
        }
        proof {
            let g = v.push((id@, addr@));
            assert forall|a: int, b: int| 0 <= a < b < g.len() implies g[a].0 != g[b].0 by {
                assert(g[a].0 == v[a].0);
                if b < v.len() {
                    assert(g[b].0 == v[b].0);
                }
            }
        }
        let ghost id_v = id@;
        let ghost addr_v = addr@;
        conns.push(ActiveConnInfo { id, addr });
        assert(conn_views(conns@) =~= v.push((id_v, addr_v)));
        self.conns = conns;
    }

    /// Removes connection `id`, if present.
    pub fn remove(&mut self, id: &String)
        ensures
            final(self)@ == conns_remove(old(self)@, id@),
            unique_ids(final(self)@),
    {
        proof { use_type_invariant(&*self); }
        let mut conns: Vec<ActiveConnInfo> = Vec::new();
        std::mem::swap(&mut conns, &mut self.conns);
        let ghost v = conn_views(conns@);
        let mut kept: Vec<ActiveConnInfo> = Vec::new();
        let mut i: usize = 0;
        let n = conns.len();
        assert(v.len() == n);
        let mut rest = conns;
        proof {
            assert(v.take(0) =~= Seq::<(Seq<char>, Seq<char>)>::empty());
            assert(conn_views(kept@) =~= conns_remove(v.take(0), id@));
        }
        while rest.len() > 0
            invariant
                i + rest@.len() == v.len(),
                v.len() == n,
                conn_views(rest@) == v.subrange(i as int, v.len() as int),
                conn_views(kept@) == conns_remove(v.take(i as int), id@),
                unique_ids(v),
            decreases rest.len(),
        {
            let ghost r0 = rest@;
            let c = rest.remove(0);
            proof {
                assert(c == r0[0]);
                assert(conn_views(r0)[0] == v[i as int]);
                assert(v.take(i + 1).drop_last() =~= v.take(i as int));
                assert(v[i as int] == (c.id@, c.addr@));
                assert(v.take(i + 1).last() == v[i as int]);
            }
            let ghost before = kept@;
            if c.id != *id {
                kept.push(c);
                assert(conn_views(kept@) =~= conn_views(before).push(v[i as int]));
            }
            proof {
                assert(rest@ =~= r0.subrange(1, r0.len() as int));
                assert(conn_views(rest@) =~= conn_views(r0).subrange(1, r0.len() as int));
            }
            i = i + 1;
            assert(conn_views(rest@) =~= v.subrange(i as int, v.len() as int));
        }
        assert(v.take(v.len() as int) =~= v);
        proof { lemma_remove_keeps_unique(v, id@); }
        self.conns = kept;
    }

    /// The connections, in order.
    pub fn list(&self) -> (v: Vec<ActiveConnInfo>)
        ensures
            conn_views(v@) == self@,
            unique_ids(self@),
    {
        proof { use_type_invariant(self); }
        let mut v: Vec<ActiveConnInfo> = Vec::new();
        let mut i: usize = 0;
        while i < self.conns.len()
            invariant
                i <= self.conns@.len(),
                conn_views(v@) == conn_views(self.conns@).take(i as int),
            decreases self.conns.len() - i,
        {
            let c = &self.conns[i];
            let ghost before = v@;
            let id = c.id.clone();
            let addr = c.addr.clone();
            v.push(ActiveConnInfo { id, addr });
            proof {
                assert(conn_views(v@) =~= conn_views(before).push((c.id@, c.addr@)));
                assert(conn_views(self.conns@)[i as int] == (c.id@, c.addr@));
                assert(conn_views(self.conns@).take(i + 1) =~= conn_views(self.conns@).take(
                    i as int,
                ).push((c.id@, c.addr@)));
            }
            i = i + 1;
        }
        assert(conn_views(self.conns@).take(self.conns@.len() as int) =~= conn_views(self.conns@));
        v
    }
}

proof fn lemma_remove_keeps_unique(v: Seq<(Seq<char>, Seq<char>)>, id: Seq<char>)
    requires
        unique_ids(v),
    ensures
        unique_ids(conns_remove(v, id)),
        forall|k: int| 0 <= k < conns_remove(v, id).len() ==> exists|j: int|
            0 <= j < v.len() && v[j] == #[trigger] conns_remove(v, id)[k],
    decreases v.len(),
{
    if v.len() > 0 {
        let p = v.drop_last();
        assert(unique_ids(p)) by {
            assert forall|a: int, b: int| 0 <= a < b < p.len() implies p[a].0 != p[b].0 by {
                assert(p[a] == v[a]);
                assert(p[b] == v[b]);
            }
        }
        lemma_remove_keeps_unique(p, id);
        let r = conns_remove(v, id);
        let rp = conns_remove(p, id);
        assert forall|k: int| 0 <= k < r.len() implies exists|j: int|
            0 <= j < v.len() && v[j] == #[trigger] r[k] by {
            if k < rp.len() {
                let j = choose|j: int| 0 <= j < p.len() && p[j] == rp[k];
                assert(v[j] == p[j]);
            } else {
                assert(v[v.len() - 1] == r[k]);
            }
        }
        if v.last().0 != id {
            assert forall|a: int, b: int| 0 <= a < b < r.len() implies r[a].0 != r[b].0 by {
                if b == r.len() - 1 {
                    let j = choose|j: int| 0 <= j < p.len() && p[j] == rp[a];
                    assert(v[j] == p[j]);
                    assert(v[j].0 != v[v.len() - 1].0);
                } else {
                    assert(r[a] == rp[a]);
                    assert(r[b] == rp[b]);
                }
            }
        }
    }
}

/// What the administration panel shows.
pub struct AdminStatus {
    pub connections: Vec<ActiveConnInfo>,
    pub banned_ips: Vec<BannedIpInfo>,
}

/// The administration status at time `now`: the active connections and the addresses banned
/// at `now` with the seconds left. The access password is not part of it.
pub fn get_admin_status(conns: &ActiveConnections, history: &ConnectionHistory, now: u64) -> (s:
    AdminStatus)
    ensures
        conn_views(s.connections@) == conns@,
        s.banned_ips@.map_values(|b: BannedIpInfo| (b.ip@, b.expires_in_secs)) == banned_report(history@, now),
{
    AdminStatus { connections: conns.list(), banned_ips: history.banned_ips(now) }
}

/// The report of a `save`: that nothing was found, or how many sessions were saved and which.
pub open spec fn save_report_text(names: Seq<Seq<char>>) -> Seq<char> {
    if names.len() == 0 {
        "No active tmux sessions found to save."@
    } else {
        "Successfully saved "@ + crate::text::decimal_digits(names.len()) + " session(s): "@ + join_names(
            names,
        )
    }
}

/// The names separated by `", "`.
pub open spec fn join_names(names: Seq<Seq<char>>) -> Seq<char>
    decreases names.len(),
{
    if names.len() == 0 {
        Seq::empty()
    } else if names.len() == 1 {
        names[0]
    } else {
        join_names(names.drop_last()) + ", "@ + names.last()
    }
}

/// The report of a `save` (see `save_report_text`).
pub fn save_report(names: &Vec<String>) -> (s: String)
    ensures
        s@ == save_report_text(string_views(names@)),
{
    if names.len() == 0 {
        return "No active tmux sessions found to save.".to_owned();
    }
    let mut joined = String::new();
    let mut i: usize = 0;
    while i < names.len()
        invariant
            i <= names@.len(),
            joined@ == join_names(string_views(names@).take(i as int)),
        decreases names.len() - i,
    {
        proof {
            assert(string_views(names@).take(i + 1).drop_last() =~= string_views(names@).take(i as int));
        }
        if i > 0 {
            append_str(&mut joined, ", ");
        }
        append_str(&mut joined, names[i].as_str());
        proof {
            if i == 0 {
                assert(joined@ =~= string_views(names@).take(1)[0]);
            }
        }
        i = i + 1;
    }
    assert(string_views(names@).take(names@.len() as int) =~= string_views(names@));
    let mut digits: Vec<char> = Vec::new();
    crate::text::push_decimal(&mut digits, names.len() as u64);
    let mut s = "Successfully saved ".to_owned();
    let d = crate::text::string_from_chars(&digits);
    append_str(&mut s, d.as_str());
    append_str(&mut s, " session(s): ");
    append_str(&mut s, joined.as_str());
    s
}

} // verus!

verus! {

/// An added connection is listed with the address it was added with.
pub proof fn law_insert_lists(v: Seq<(Seq<char>, Seq<char>)>, id: Seq<char>, addr: Seq<char>)
    ensures
        conns_insert(v, id, addr).contains((id, addr)),
{
    let r = conns_insert(v, id, addr);
    if has_conn(v, id) {
        let i = conn_index(v, id);
        assert(r[i] == (id, addr));
    } else {
        assert(r[v.len() as int] == (id, addr));
    }
}

/// A removed connection is no longer listed, and every other one stays.
pub proof fn law_remove_unlists(v: Seq<(Seq<char>, Seq<char>)>, id: Seq<char>, other: (Seq<char>, Seq<char>))
    ensures
        forall|k: int| 0 <= k < conns_remove(v, id).len() ==> (#[trigger] conns_remove(v, id)[k]).0 != id,
        (v.contains(other) && other.0 != id) ==> conns_remove(v, id).contains(other),
    decreases v.len(),
{
    if v.len() > 0 {
        let p = v.drop_last();
        law_remove_unlists(p, id, other);
        let r = conns_remove(v, id);
        let rp = conns_remove(p, id);
        assert forall|k: int| 0 <= k < r.len() implies (#[trigger] r[k]).0 != id by {
            if k < rp.len() {
                assert(r[k] == rp[k]);
            }
        }
        if v.contains(other) && other.0 != id {
            let j = choose|j: int| 0 <= j < v.len() && v[j] == other;
            if j < p.len() {
                assert(p[j] == other);
                assert(p.contains(other));
                let k = choose|k: int| 0 <= k < rp.len() && rp[k] == other;
                assert(r[k] == other);
            } else {
                assert(r[r.len() - 1] == other);
            }
        }
    }
}

} // verus!
