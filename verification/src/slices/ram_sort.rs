//! Address-sorted memory streams for the offline memory argument.
//!
//! A run of memory visits `(addr, ts, val, kind)` is checked by comparing two
//! arrangements of the same rows: the *event side* (one init row per touched
//! address, the events in time order, one final row per touched address) and
//! the *sorted stream* (per touched address, ascending: its init row, its
//! events in time order, its final row). The final row of an address carries
//! the value of its last write (0 when it is never written).

use vstd::prelude::*;
use vstd::std_specs::btree::{spec_btree_keys_iter, increasing_seq};
use vstd::laws_cmp::obeys_cmp;
use vstd::std_specs::cmp::OrdSpec;
use vstd::std_specs::iter::IteratorSpec;
use std::collections::{BTreeSet, HashMap};

verus! {

/// Address whose final value is exposed as the public output.
pub const FINAL_ADDR: u64 = 42;
/// Row kinds: initial value, read, write, final value.
pub const K_INIT: u64 = 0;
pub const K_READ: u64 = 1;
pub const K_WRITE: u64 = 2;
pub const K_FINAL: u64 = 3;

/// One memory visit row.
#[derive(Clone, Copy, Debug, PartialEq, Eq, Structural)]
pub struct Visit {
    pub addr: u64,
    pub ts: u64,
    pub val: u64,
    pub kind: u64,
}

/// The visits of `events` at address `a`, in order.
pub open spec fn events_at(events: Seq<Visit>, a: u64) -> Seq<Visit>
    decreases events.len(),
{
    if events.len() == 0 {
        seq![]
    } else {
        let rest = events_at(events.drop_last(), a);
        if events.last().addr == a {
            rest.push(events.last())
        } else {
            rest
        }
    }
}

/// Value of the last write to `a` in `events`; 0 when there is none.
pub open spec fn last_write(events: Seq<Visit>, a: u64) -> u64
    decreases events.len(),
{
    if events.len() == 0 {
        0
    } else if events.last().addr == a && events.last().kind == K_WRITE {
        events.last().val
    } else {
        last_write(events.drop_last(), a)
    }
}

/// Some visit of `events` is at address `a`.
pub open spec fn touches(events: Seq<Visit>, a: u64) -> bool {
    exists|k: int| 0 <= k < events.len() && #[trigger] events[k].addr == a
}

/// `addrs` lists the addresses `events` touches, strictly ascending.
pub open spec fn is_address_list(addrs: Seq<u64>, events: Seq<Visit>) -> bool {
    &&& forall|i: int, j: int| 0 <= i < j < addrs.len() ==> addrs[i] < addrs[j]
    &&& forall|a: u64| addrs.contains(a) <==> touches(events, a)
}

pub open spec fn init_row(a: u64) -> Visit {
    Visit { addr: a, ts: 0, val: 0, kind: K_INIT }
}

pub open spec fn final_row(events: Seq<Visit>, a: u64, fts: u64) -> Visit {
    Visit { addr: a, ts: fts, val: last_write(events, a), kind: K_FINAL }
}

/// Init rows of `addrs`, except for the address `pad` (which gets none).
pub open spec fn init_rows(addrs: Seq<u64>, pad: Option<u64>) -> Seq<Visit>
    decreases addrs.len(),
{
    if addrs.len() == 0 {
        seq![]
    } else {
        let rest = init_rows(addrs.drop_last(), pad);
        if pad == Some(addrs.last()) {
            rest
        } else {
            rest.push(init_row(addrs.last()))
        }
    }
}

/// Final rows of `addrs`, each at timestamp `fts`.
pub open spec fn final_rows(events: Seq<Visit>, addrs: Seq<u64>, fts: u64) -> Seq<Visit> {
    addrs.map_values(|a: u64| final_row(events, a, fts))
}

/// The rows of one address in the sorted stream.
pub open spec fn group(events: Seq<Visit>, a: u64, pad: Option<u64>, fts: u64) -> Seq<Visit> {
    let head = if pad == Some(a) {
        seq![]
    } else {
        seq![init_row(a)]
    };
    head + events_at(events, a) + seq![final_row(events, a, fts)]
}

/// The sorted stream: the groups of `addrs`, in the order of `addrs`.
pub open spec fn sorted_stream(events: Seq<Visit>, addrs: Seq<u64>, pad: Option<u64>, fts: u64) -> Seq<
    Visit,
>
    decreases addrs.len(),
{
    if addrs.len() == 0 {
        seq![]
    } else {
        sorted_stream(events, addrs.drop_last(), pad, fts) + group(events, addrs.last(), pad, fts)
    }
}

/// The event side: init rows, the events, final rows.
pub open spec fn event_side(events: Seq<Visit>, addrs: Seq<u64>, pad: Option<u64>, fts: u64) -> Seq<
    Visit,
> {
    init_rows(addrs, pad) + events + final_rows(events, addrs, fts)
}

/// Two strictly ascending lists with the same elements are equal.
pub proof fn lemma_ascending_unique(a: Seq<u64>, b: Seq<u64>)
    requires
        forall|i: int, j: int| 0 <= i < j < a.len() ==> a[i] < a[j],
        forall|i: int, j: int| 0 <= i < j < b.len() ==> b[i] < b[j],
        forall|x: u64| a.contains(x) <==> b.contains(x),
    ensures
        a == b,
    decreases a.len(),
{
    if a.len() == 0 {
        if b.len() > 0 {
            assert(b.contains(b[0]));
        }
        assert(a =~= b);
    } else if b.len() == 0 {
        assert(a.contains(a[0]));
    } else {
        let x = a.last();
        let y = b.last();
        assert(a.contains(x));
        assert(b.contains(y));
        let k = choose|k: int| 0 <= k < a.len() && a[k] == y;
        let l = choose|l: int| 0 <= l < b.len() && b[l] == x;
        assert(y <= x) by {
            if k < a.len() - 1 {
                assert(a[k] < a[a.len() - 1]);
            }
        }
        assert(x <= y) by {
            if l < b.len() - 1 {
                assert(b[l] < b[b.len() - 1]);
            }
        }
        let a2 = a.drop_last();
        let b2 = b.drop_last();
        assert forall|z: u64| a2.contains(z) implies b2.contains(z) by {
            let p = choose|p: int| 0 <= p < a2.len() && a2[p] == z;
            assert(a[p] < x);
            assert(b.contains(z));
            let q = choose|q: int| 0 <= q < b.len() && b[q] == z;
            assert(q != b.len() - 1);
            assert(b2[q] == z);
        }
        assert forall|z: u64| b2.contains(z) implies a2.contains(z) by {
            let p = choose|p: int| 0 <= p < b2.len() && b2[p] == z;
            assert(b[p] < y);
            assert(a.contains(z));
            let q = choose|q: int| 0 <= q < a.len() && a[q] == z;
            assert(q != a.len() - 1);
            assert(a2[q] == z);
        }
        lemma_ascending_unique(a2, b2);
        assert(a =~= a2.push(x));
        assert(b =~= b2.push(y));
    }
}

/// The address list of `events` (the one list `is_address_list` admits).
pub open spec fn addresses(events: Seq<Visit>) -> Seq<u64> {
    choose|a: Seq<u64>| is_address_list(a, events)
}

/// Any address list of `events` is `addresses(events)`.
pub proof fn lemma_addresses(a: Seq<u64>, events: Seq<Visit>)
    requires
        is_address_list(a, events),
    ensures
        addresses(events) == a,
{
    let b = addresses(events);
    assert(is_address_list(b, events));
    lemma_ascending_unique(a, b);
}

/// Number of entries of the ascending list `a` below `x`.
pub open spec fn count_below(a: Seq<u64>, x: u64) -> nat
    decreases a.len(),
{
    if a.len() == 0 {
        0
    } else if a[0] < x {
        1 + count_below(a.drop_first(), x)
    } else {
        0
    }
}

proof fn lemma_count_below(a: Seq<u64>, x: u64)
    requires
        forall|i: int, j: int| 0 <= i < j < a.len() ==> a[i] < a[j],
    ensures
        count_below(a, x) <= a.len(),
        forall|i: int| 0 <= i < count_below(a, x) ==> a[i] < x,
        forall|i: int| count_below(a, x) <= i < a.len() ==> a[i] >= x,
    decreases a.len(),
{
    if a.len() > 0 && a[0] < x {
        let b = a.drop_first();
        lemma_count_below(b, x);
        assert forall|i: int| 0 <= i < count_below(a, x) implies a[i] < x by {
            if i > 0 {
                assert(a[i] == b[i - 1]);
            }
        }
        assert forall|i: int| count_below(a, x) <= i < a.len() implies a[i] >= x by {
            assert(a[i] == b[i - 1]);
        }
    } else if a.len() > 0 {
        assert forall|i: int| 0 <= i < a.len() implies a[i] >= x by {
            if i > 0 {
                assert(a[0] < a[i]);
            }
        }
    }
}

/// Every run has an address list, so `addresses` names one.
pub proof fn lemma_addresses_exist(events: Seq<Visit>)
    ensures
        is_address_list(addresses(events), events),
    decreases events.len(),
{
    if events.len() == 0 {
        let a = Seq::<u64>::empty();
        assert forall|x: u64| a.contains(x) <==> touches(events, x) by {}
        assert(is_address_list(a, events));
    } else {
        let e2 = events.drop_last();
        lemma_addresses_exist(e2);
        let a2 = addresses(e2);
        let x = events.last().addr;
        assert(events[events.len() - 1].addr == x);
        let a = if a2.contains(x) {
            a2
        } else {
            lemma_count_below(a2, x);
            let p = count_below(a2, x) as int;
            a2.insert(p, x)
        };
        assert forall|i: int, j: int| 0 <= i < j < a.len() implies a[i] < a[j] by {
            if !a2.contains(x) {
                let p = count_below(a2, x) as int;
                if j < p {
                } else if j == p {
                } else if i < p {
                    assert(a[j] == a2[j - 1]);
                } else if i == p {
                    assert(a[j] == a2[j - 1]);
                    assert(a2[j - 1] >= x);
                    assert(a2[j - 1] != x);
                } else {
                    assert(a[j] == a2[j - 1] && a[i] == a2[i - 1]);
                }
            }
        }
        assert forall|y: u64| a.contains(y) <==> touches(events, y) by {
            if touches(events, y) {
                let k = choose|k: int| 0 <= k < events.len() && #[trigger] events[k].addr == y;
                if k < events.len() - 1 {
                    assert(e2[k].addr == y);
                    assert(a2.contains(y));
                    let q = choose|q: int| 0 <= q < a2.len() && a2[q] == y;
                    if !a2.contains(x) {
                        let p = count_below(a2, x) as int;
                        if q < p {
                            assert(a[q] == y);
                        } else {
                            assert(a[q + 1] == y);
                        }
                    }
                } else {
                    if !a2.contains(x) {
                        assert(a[count_below(a2, x) as int] == x);
                    }
                }
            }
            if a.contains(y) {
                let q = choose|q: int| 0 <= q < a.len() && a[q] == y;
                if y == x {
                    assert(events[events.len() - 1].addr == y);
                } else {
                    if a2.contains(x) {
                        assert(a2.contains(y));
                    } else {
                        let p = count_below(a2, x) as int;
                        if q < p {
                            assert(a2[q] == y);
                        } else {
                            assert(a2[q - 1] == y);
                        }
                    }
                    assert(a2.contains(y));
                    assert(touches(e2, y));
                    let k = choose|k: int| 0 <= k < e2.len() && #[trigger] e2[k].addr == y;
                    assert(e2[k] == events[k]);
                    assert(events[k].addr == y);
                }
            }
        }
        assert(is_address_list(a, events));
        lemma_addresses(a, events);
    }
}

/// An ordered set yields its keys in strictly ascending order.
proof fn lemma_keys_ascending(set: &BTreeSet<u64>)
    ensures
        forall|x: int, y: int|
            0 <= x < y < spec_btree_keys_iter(set).remaining().len() ==> *spec_btree_keys_iter(
                set,
            ).remaining()[x] < *spec_btree_keys_iter(set).remaining()[y],
{
    broadcast use vstd::std_specs::btree::group_btree_axioms;

    let rem = spec_btree_keys_iter(set).remaining();
    assert(increasing_seq(rem));
    assert(obeys_cmp::<&u64>());
    assert forall|x: int, y: int| 0 <= x < y < rem.len() implies *rem[x] < *rem[y] by {
        assert(OrdSpec::cmp_spec(&rem[x], &rem[y]) is Less);
    }
}

/// The touched addresses of `events`, strictly ascending, read off an ordered set.
pub fn address_list(events: &[Visit]) -> (addrs: Vec<u64>)
    ensures
        is_address_list(addrs@, events@),
        addrs@ == addresses(events@),
{
    broadcast use vstd::std_specs::btree::group_btree_axioms;

    let mut set: BTreeSet<u64> = BTreeSet::new();
    let mut i: usize = 0;
    while i < events.len()
        invariant
            i <= events@.len(),
            forall|a: u64| set@.contains(a) <==> touches(events@.take(i as int), a),
        decreases events.len() - i,
    {
        set.insert(events[i].addr);
        proof {
            let ev = events@.take(i + 1);
            assert forall|b: u64| set@.contains(b) <==> touches(ev, b) by {
                if touches(ev, b) {
                    let k = choose|k: int| 0 <= k < ev.len() && #[trigger] ev[k].addr == b;
                    if k < i {
                        assert(events@.take(i as int)[k].addr == b);
                    }
                }
                if touches(events@.take(i as int), b) {
                    let k = choose|k: int| 0 <= k < i && #[trigger] events@.take(i as int)[k].addr == b;
                    assert(ev[k].addr == b);
                }
                if b == events@[i as int].addr {
                    assert(ev[i as int].addr == b);
                }
            }
        }
        i = i + 1;
    }
    assert(events@.take(i as int) =~= events@);
    let mut addrs: Vec<u64> = Vec::new();
    for a in it: set.iter()
        invariant
            addrs@ == it.seq().take(it.index() as int).map_values(|r: &u64| *r),
    {
        addrs.push(*a);
        assert(addrs@ =~= it.seq().take(it.index() + 1).map_values(|r: &u64| *r));
    }
    let ghost rem = spec_btree_keys_iter(&set).remaining();
    assert(addrs@ =~= rem.map_values(|r: &u64| *r));
    proof {
        lemma_keys_ascending(&set);
        assert forall|x: int, y: int| 0 <= x < y < addrs@.len() implies addrs@[x] < addrs@[y] by {
            assert(*rem[x] < *rem[y]);
        }
        assert(rem.unref().to_set() == set@);
        assert forall|a: u64| addrs@.contains(a) <==> touches(events@, a) by {
            if addrs@.contains(a) {
                let q = choose|q: int| 0 <= q < addrs@.len() && addrs@[q] == a;
                assert(rem.unref()[q] == a);
                assert(rem.unref().to_set().contains(a));
            }
            if touches(events@, a) {
                assert(set@.contains(a));
                assert(rem.unref().contains(a));
                let q = choose|q: int| 0 <= q < rem.unref().len() && rem.unref()[q] == a;
                assert(addrs@[q] == a);
            }
        }
        lemma_addresses(addrs@, events@);
    }
    addrs
}

/// `m` maps every written address of `events` to its last written value
/// (an address never written is absent, and reads as 0).
pub open spec fn latest_ok(m: Map<u64, u64>, events: Seq<Visit>) -> bool {
    forall|a: u64|
        #[trigger] last_write(events, a) == (if m.contains_key(a) {
            m[a]
        } else {
            0
        })
}

/// The value `m` gives `a`, 0 when it has none.
fn latest_get(m: &HashMap<u64, u64>, a: u64) -> (v: u64)
    ensures
        v == (if m@.contains_key(a) {
            m@[a]
        } else {
            0
        }),
{
    broadcast use vstd::std_specs::hash::group_hash_axioms;

    match m.get(&a) {
        Some(v) => *v,
        None => 0,
    }
}

/// Record the visit `e` appended to `events` in the latest-write map.
fn latest_record(m: &mut HashMap<u64, u64>, e: Visit, Ghost(events): Ghost<Seq<Visit>>)
    requires
        latest_ok(old(m)@, events),
    ensures
        latest_ok(final(m)@, events.push(e)),
{
    broadcast use vstd::std_specs::hash::group_hash_axioms;

    let ghost m0 = m@;
    if e.kind == K_WRITE {
        m.insert(e.addr, e.val);
    }
    let ghost evs = events.push(e);
    assert(evs.drop_last() =~= events);
    assert(evs.last() == e);
    assert forall|a: u64| #[trigger] last_write(evs, a) == (if m@.contains_key(a) {
        m@[a]
    } else {
        0
    }) by {
        assert(last_write(events, a) == (if m0.contains_key(a) {
            m0[a]
        } else {
            0
        }));
    }
}

/// The last written value of every written address of `events`.
pub fn latest_writes(events: &[Visit]) -> (m: HashMap<u64, u64>)
    ensures
        latest_ok(m@, events@),
{
    let mut m: HashMap<u64, u64> = HashMap::new();
    let mut i: usize = 0;
    while i < events.len()
        invariant
            i <= events@.len(),
            latest_ok(m@, events@.take(i as int)),
        decreases events.len() - i,
    {
        latest_record(&mut m, events[i], Ghost(events@.take(i as int)));
        assert(events@.take(i as int).push(events@[i as int]) =~= events@.take(i + 1));
        i = i + 1;
    }
    assert(events@.take(i as int) =~= events@);
    m
}

/// Exec form of `last_write`.
pub fn latest_write(events: &[Visit], a: u64) -> (v: u64)
    ensures
        v == last_write(events@, a),
{
    let m = latest_writes(events);
    latest_get(&m, a)
}

/// Append the visits of `events` at address `a` to `out`.
fn push_events_at(out: &mut Vec<Visit>, events: &[Visit], a: u64)
    ensures
        final(out)@ == old(out)@ + events_at(events@, a),
{
    let mut i: usize = 0;
    while i < events.len()
        invariant
            i <= events@.len(),
            out@ == old(out)@ + events_at(events@.take(i as int), a),
        decreases events.len() - i,
    {
        assert(events@.take(i + 1).drop_last() =~= events@.take(i as int));
        if events[i].addr == a {
            out.push(events[i]);
        }
        i = i + 1;
    }
    assert(events@.take(i as int) =~= events@);
}

/// The sorted stream of `events` over the address list `addrs`: for each
/// address its init row (none for `pad`), its visits in order and its final
/// row at timestamp `fts`.
pub fn sort_visits(events: &[Visit], addrs: &[u64], pad: Option<u64>, fts: u64) -> (s: Vec<Visit>)
    ensures
        s@ == sorted_stream(events@, addrs@, pad, fts),
{
    let latest = latest_writes(events);
    let mut s: Vec<Visit> = Vec::new();
    let mut i: usize = 0;
    while i < addrs.len()
        invariant
            i <= addrs@.len(),
            latest_ok(latest@, events@),
            s@ == sorted_stream(events@, addrs@.take(i as int), pad, fts),
        decreases addrs.len() - i,
    {
        let a = addrs[i];
        let ghost before = s@;
        let skip = match pad {
            Some(p) => p == a,
            None => false,
        };
        if !skip {
            s.push(Visit { addr: a, ts: 0, val: 0, kind: K_INIT });
        }
        push_events_at(&mut s, events, a);
        let fv = latest_get(&latest, a);
        assert(fv == last_write(events@, a));
        s.push(Visit { addr: a, ts: fts, val: fv, kind: K_FINAL });
        proof {
            let t = addrs@.take(i + 1);
            assert(t.drop_last() =~= addrs@.take(i as int));
            assert(t.last() == a);
            assert(s@ =~= before + group(events@, a, pad, fts));
        }
        i = i + 1;
    }
    assert(addrs@.take(i as int) =~= addrs@);
    s
}

/// The event side of `events` over the address list `addrs`.
pub fn visit_side(events: &[Visit], addrs: &[u64], pad: Option<u64>, fts: u64) -> (s: Vec<Visit>)
    ensures
        s@ == event_side(events@, addrs@, pad, fts),
{
    let mut s: Vec<Visit> = Vec::new();
    let mut i: usize = 0;
    while i < addrs.len()
        invariant
            i <= addrs@.len(),
            s@ == init_rows(addrs@.take(i as int), pad),
        decreases addrs.len() - i,
    {
        let a = addrs[i];
        let skip = match pad {
            Some(p) => p == a,
            None => false,
        };
        assert(addrs@.take(i + 1).drop_last() =~= addrs@.take(i as int));
        if !skip {
            s.push(Visit { addr: a, ts: 0, val: 0, kind: K_INIT });
        }
        i = i + 1;
    }
    assert(addrs@.take(i as int) =~= addrs@);
    let ghost inits = s@;
    let mut j: usize = 0;
    while j < events.len()
        invariant
            j <= events@.len(),
            s@ == inits + events@.take(j as int),
        decreases events.len() - j,
    {
        s.push(events[j]);
        assert(events@.take(j + 1) =~= events@.take(j as int).push(events@[j as int]));
        j = j + 1;
    }
    assert(events@.take(j as int) =~= events@);
    let ghost mid = s@;
    let latest = latest_writes(events);
    let mut k: usize = 0;
    while k < addrs.len()
        invariant
            k <= addrs@.len(),
            latest_ok(latest@, events@),
            s@ == mid + final_rows(events@, addrs@.take(k as int), fts),
        decreases addrs.len() - k,
    {
        let a = addrs[k];
        let fv = latest_get(&latest, a);
        assert(fv == last_write(events@, a));
        s.push(Visit { addr: a, ts: fts, val: fv, kind: K_FINAL });
        assert(final_rows(events@, addrs@.take(k + 1), fts) =~= final_rows(
            events@,
            addrs@.take(k as int),
            fts,
        ).push(final_row(events@, a, fts)));
        k = k + 1;
    }
    assert(addrs@.take(k as int) =~= addrs@);
    s
}

// ---------------------------------------------------------------------------
// Test-case generator
// ---------------------------------------------------------------------------

/// A generated memory run with its two arrangements.
pub struct RamSortCase {
    pub k_bits: usize,
    pub t: usize,
    pub events: Vec<Visit>,
    pub sorted: Vec<Visit>,
    pub events_side: Vec<Visit>,
    pub final_val: u64,
}

/// 64-bit linear congruential generator (Knuth's MMIX constants).
struct Lcg(u64);

pub open spec fn lcg_next(s: u64) -> u64 {
    s.wrapping_mul(6364136223846793005).wrapping_add(1442695040888963407)
}

/// The number a draw returns when it moves the state to `s`.
pub open spec fn lcg_out(s: u64) -> u64 {
    s >> 33
}

impl Lcg {
    fn next(&mut self) -> (r: u64)
        ensures
            final(self).0 == lcg_next(old(self).0),
            r == lcg_out(final(self).0),
    {
        self.0 = self.0.wrapping_mul(6364136223846793005).wrapping_add(1442695040888963407);
        self.0 >> 33
    }
}

/// Smallest power of two that is at least `t` (searching upwards from `p`).
pub open spec fn pow2_ceil(t: nat, p: nat) -> nat
    decreases t - p,
{
    if p >= t || p == 0 {
        p
    } else if 2 * p >= t {
        2 * p
    } else {
        pow2_ceil(t, 2 * p)
    }
}

/// The generator state after seeding with `seed`.
pub open spec fn seed_state(seed: u64) -> u64 {
    seed ^ 0x9e3779b97f4a7c15
}

/// The first `i` generated events and the generator state after them.
/// Each event draws an address (masked by `mask`, capped at `cap`), a
/// read/write coin and, for a write, a 20-bit value; a read returns the
/// latest value written to its address (0 when none). Timestamps count from 1.
pub open spec fn gen_events(mask: u64, cap: u64, s0: u64, i: nat) -> (Seq<Visit>, u64)
    decreases i,
{
    if i == 0 {
        (seq![], s0)
    } else {
        let prev = gen_events(mask, cap, s0, (i - 1) as nat);
        let ev = prev.0;
        let s1 = lcg_next(prev.1);
        let r = lcg_out(s1) & mask;
        let addr = if r < cap {
            r
        } else {
            cap
        };
        let s2 = lcg_next(s1);
        let is_write = lcg_out(s2) & 1 == 1;
        let s3 = if is_write {
            lcg_next(s2)
        } else {
            s2
        };
        let val = if is_write {
            lcg_out(s3) & 0x000f_ffff
        } else {
            last_write(ev, addr)
        };
        let kind = if is_write {
            K_WRITE
        } else {
            K_READ
        };
        (ev.push(Visit { addr, ts: i as u64, val, kind }), s3)
    }
}

/// Address mask of a run of `t` events: one below the next power of two.
fn addr_mask(t: usize) -> (m: u64)
    requires
        1 <= t <= 0x8000_0000_0000_0000,
    ensures
        m + 1 == pow2_ceil(t as nat, 1),
{
    let mut p: u64 = 1;
    while p < t as u64
        invariant
            1 <= p <= 2 * t,
            1 <= t <= 0x8000_0000_0000_0000,
            pow2_ceil(t as nat, p as nat) == pow2_ceil(t as nat, 1),
        decreases 2 * t - p,
    {
        p = p * 2;
    }
    p - 1
}

/// Generate a run of `t` visits over addresses below `2^k_bits` from `seed`,
/// with its sorted stream and event side (final rows at timestamp `t + 1`)
/// and the final value at `FINAL_ADDR`.
pub fn gen_case(k_bits: usize, t: usize, seed: u64) -> (c: RamSortCase)
    requires
        t >= 16,
        t <= 0x8000_0000_0000_0000,
        k_bits < 64,
    ensures
        ({
            let mask = (pow2_ceil(t as nat, 1) - 1) as u64;
            let cap = (vstd::arithmetic::power2::pow2(k_bits as nat) - 1) as u64;
            let events = gen_events(mask, cap, seed_state(seed), t as nat).0;
            let addrs = addresses(events);
            &&& c.k_bits == k_bits
            &&& c.t == t
            &&& c.events@ == events
            &&& c.sorted@ == sorted_stream(events, addrs, None, (t + 1) as u64)
            &&& c.events_side@ == event_side(events, addrs, None, (t + 1) as u64)
            &&& c.final_val == last_write(events, FINAL_ADDR)
        }),
{
    let mut rng = Lcg(seed ^ 0x9e3779b97f4a7c15);
    let mask = addr_mask(t);
    proof {
        vstd::bits::lemma_u64_pow2_no_overflow(k_bits as nat);
        vstd::bits::lemma_u64_shl_is_mul(1, k_bits as u64);
    }
    let cap: u64 = (1u64 << (k_bits as u64)) - 1;
    let ghost s0 = rng.0;
    let mut latest: HashMap<u64, u64> = HashMap::new();
    let mut events: Vec<Visit> = Vec::new();
    let mut i: usize = 0;
    while i < t
        invariant
            i <= t,
            t <= 0x8000_0000_0000_0000,
            (events@, rng.0) == gen_events(mask, cap, s0, i as nat),
            latest_ok(latest@, events@),
        decreases t - i,
    {
        let r = rng.next() & mask;
        let addr = if r < cap {
            r
        } else {
            cap
        };
        let is_write = (rng.next() & 1) == 1;
        let val = if is_write {
            rng.next() & 0x000f_ffff
        } else {
            latest_get(&latest, addr)
        };
        assert(!is_write ==> val == last_write(events@, addr));
        let kind = if is_write {
            K_WRITE
        } else {
            K_READ
        };
        let e = Visit { addr, ts: i as u64 + 1, val, kind };
        latest_record(&mut latest, e, Ghost(events@));
        events.push(e);
        i = i + 1;
    }
    let addrs = address_list(events.as_slice());
    let fts = t as u64 + 1;
    let sorted = sort_visits(events.as_slice(), addrs.as_slice(), None, fts);
    let events_side = visit_side(events.as_slice(), addrs.as_slice(), None, fts);
    let final_val = latest_get(&latest, FINAL_ADDR);
    assert(final_val == last_write(events@, FINAL_ADDR));
    RamSortCase { k_bits, t, events, sorted, events_side, final_val }
}

// ---------------------------------------------------------------------------
// Mutations of a case (soundness scenarios)
// ---------------------------------------------------------------------------

/// Ways of corrupting a case before it is proved.
#[derive(Clone, Copy, PartialEq, Eq, Debug, Structural)]
pub enum Mutate {
    Unchanged,
    /// Change the value of the first read in the sorted stream, on both sides.
    ReadStale,
    /// Remove the first read from the event side.
    DropEvent,
    /// Append a fake write to the sorted stream only.
    InsertFake,
    /// Change the value of the first read on the event side only.
    ValSwitchEventOnly,
}

/// Verifier-side tampering modes.
#[derive(Clone, Copy, PartialEq, Eq, Debug, Structural)]
pub enum Tamper {
    Unchanged,
    BadFinalOut,
    BadRootDen,
    BadDenAddr,
    BadDenVal,
}

/// `j` is the first read row of `s`.
pub open spec fn is_first_read(s: Seq<Visit>, j: int) -> bool {
    &&& 0 <= j < s.len()
    &&& s[j].kind == K_READ
    &&& forall|k: int| 0 <= k < j ==> s[k].kind != K_READ
}

/// Index of the first read row of `s`, if any.
pub open spec fn first_read(s: Seq<Visit>) -> Option<int> {
    if exists|j: int| is_first_read(s, j) {
        Some(choose|j: int| is_first_read(s, j))
    } else {
        None
    }
}

/// `s` with the value of every row at `(a, ts)` replaced by `v`.
pub open spec fn restamp(s: Seq<Visit>, a: u64, ts: u64, v: u64) -> Seq<Visit> {
    s.map_values(
        |x: Visit|
            if x.addr == a && x.ts == ts {
                Visit { addr: x.addr, ts: x.ts, val: v, kind: x.kind }
            } else {
                x
            },
    )
}

/// Bit pattern a stale read flips.
pub const STALE_FLIP: u64 = 0x0fff_0000;

fn find_first_read(s: &Vec<Visit>) -> (r: Option<usize>)
    ensures
        match r {
            Some(j) => first_read(s@) == Some(j as int),
            None => first_read(s@) is None,
        },
{
    let mut i: usize = 0;
    while i < s.len()
        invariant
            i <= s@.len(),
            forall|k: int| 0 <= k < i ==> s@[k].kind != K_READ,
        decreases s.len() - i,
    {
        if s[i].kind == K_READ {
            proof {
                assert(is_first_read(s@, i as int));
                let c = choose|j: int| is_first_read(s@, j);
                assert(c == i) by {
                    if c < i {
                    } else if c > i {
                        assert(s@[i as int].kind != K_READ);
                    }
                }
            }
            return Some(i);
        }
        i = i + 1;
    }
    proof {
        assert forall|j: int| !is_first_read(s@, j) by {
            if 0 <= j < s@.len() {
                assert(s@[j].kind != K_READ);
            }
        }
    }
    None
}

fn restamp_in_place(s: &mut Vec<Visit>, a: u64, ts: u64, v: u64)
    ensures
        final(s)@ == restamp(old(s)@, a, ts, v),
{
    let ghost s0 = s@;
    let mut i: usize = 0;
    while i < s.len()
        invariant
            i <= s@.len(),
            s@.len() == s0.len(),
            forall|k: int| 0 <= k < i ==> s@[k] == restamp(s0, a, ts, v)[k],
            forall|k: int| i <= k < s@.len() ==> s@[k] == s0[k],
        decreases s.len() - i,
    {
        let x = s[i];
        if x.addr == a && x.ts == ts {
            s.set(i, Visit { addr: x.addr, ts: x.ts, val: v, kind: x.kind });
        }
        i = i + 1;
    }
    assert(s@ =~= restamp(s0, a, ts, v));
}

/// Apply a mutation to a case.
pub fn apply_mutate(case: &mut RamSortCase, m: Mutate)
    ensures
        final(case).k_bits == old(case).k_bits,
        final(case).t == old(case).t,
        final(case).events@ == old(case).events@,
        final(case).final_val == old(case).final_val,
        ({
            let s0 = old(case).sorted@;
            let d0 = old(case).events_side@;
            let s1 = final(case).sorted@;
            let d1 = final(case).events_side@;
            match m {
                Mutate::Unchanged => s1 == s0 && d1 == d0,
                Mutate::ReadStale => match first_read(s0) {
                    Some(j) => {
                        let v = s0[j].val ^ STALE_FLIP;
                        &&& s1 == restamp(s0, s0[j].addr, s0[j].ts, v)
                        &&& d1 == restamp(d0, s0[j].addr, s0[j].ts, v)
                    },
                    None => s1 == s0 && d1 == d0,
                },
                Mutate::DropEvent => s1 == s0 && match first_read(d0) {
                    Some(j) => d1 == d0.remove(j),
                    None => d1 == d0,
                },
                Mutate::InsertFake => d1 == d0 && s1 == s0.push(
                    Visit { addr: 7, ts: old(case).t as u64, val: 0x1234, kind: K_WRITE },
                ),
                Mutate::ValSwitchEventOnly => s1 == s0 && match first_read(d0) {
                    Some(j) => d1 == d0.update(
                        j,
                        Visit { addr: d0[j].addr, ts: d0[j].ts, val: d0[j].val ^ STALE_FLIP, kind: d0[j].kind },
                    ),
                    None => d1 == d0,
                },
            }
        }),
{
    match m {
        Mutate::Unchanged => {},
        Mutate::ReadStale => {
            match find_first_read(&case.sorted) {
                Some(j) => {
                    let a = case.sorted[j].addr;
                    let ts = case.sorted[j].ts;
                    let v_new = case.sorted[j].val ^ STALE_FLIP;
                    restamp_in_place(&mut case.sorted, a, ts, v_new);
                    restamp_in_place(&mut case.events_side, a, ts, v_new);
                },
                None => {},
            }
        },
        Mutate::DropEvent => {
            match find_first_read(&case.events_side) {
                Some(j) => {
                    case.events_side.remove(j);
                },
                None => {},
            }
        },
        Mutate::InsertFake => {
            let ts = case.t as u64;
            case.sorted.push(Visit { addr: 7, ts, val: 0x1234, kind: K_WRITE });
        },
        Mutate::ValSwitchEventOnly => {
            match find_first_read(&case.events_side) {
                Some(j) => {
                    let r = case.events_side[j];
                    case.events_side.set(
                        j,
                        Visit { addr: r.addr, ts: r.ts, val: r.val ^ STALE_FLIP, kind: r.kind },
                    );
                },
                None => {},
            }
        },
    }
}

/// Committed column `r` of `nrows` rows: the sorted stream, then the event
/// side (at most as many rows as the sorted stream), then zero padding.
pub open spec fn column(sorted: Seq<Visit>, side: Seq<Visit>, nrows: nat, f: spec_fn(Visit) -> u64) -> Seq<u64> {
    Seq::new(
        nrows,
        |r: int|
            if r < sorted.len() {
                f(sorted[r])
            } else if r - sorted.len() < side.len() && r - sorted.len() < sorted.len() {
                f(side[r - sorted.len()])
            } else {
                0u64
            },
    )
}

pub open spec fn col_addr(v: Visit) -> u64 {
    v.addr
}

pub open spec fn col_val(v: Visit) -> u64 {
    v.val
}

pub open spec fn col_ts(v: Visit) -> u64 {
    v.ts
}

pub open spec fn col_kind(v: Visit) -> u64 {
    v.kind
}

/// The four committed columns (addr, val, ts, kind), `nrows` long, of a
/// sorted stream and an event side.
pub fn stream_columns(sorted: &[Visit], side: &[Visit], nrows: usize) -> (r: (
    Vec<u64>,
    Vec<u64>,
    Vec<u64>,
    Vec<u64>,
))
    ensures
        r.0@ == column(sorted@, side@, nrows as nat, |v: Visit| col_addr(v)),
        r.1@ == column(sorted@, side@, nrows as nat, |v: Visit| col_val(v)),
        r.2@ == column(sorted@, side@, nrows as nat, |v: Visit| col_ts(v)),
        r.3@ == column(sorted@, side@, nrows as nat, |v: Visit| col_kind(v)),
{
    let ts = sorted.len();
    let side_len = side.len();
    let mut addr: Vec<u64> = Vec::new();
    let mut val: Vec<u64> = Vec::new();
    let mut ts_c: Vec<u64> = Vec::new();
    let mut kind: Vec<u64> = Vec::new();
    let ghost s = sorted@;
    let ghost d = side@;
    let mut r: usize = 0;
    while r < nrows
        invariant
            r <= nrows,
            s == sorted@,
            d == side@,
            ts == s.len(),
            side_len == d.len(),
            addr@.len() == r && val@.len() == r && ts_c@.len() == r && kind@.len() == r,
            forall|q: int| 0 <= q < r ==> addr@[q] == column(s, d, nrows as nat, |v: Visit| col_addr(v))[q],
            forall|q: int| 0 <= q < r ==> val@[q] == column(s, d, nrows as nat, |v: Visit| col_val(v))[q],
            forall|q: int| 0 <= q < r ==> ts_c@[q] == column(s, d, nrows as nat, |v: Visit| col_ts(v))[q],
            forall|q: int| 0 <= q < r ==> kind@[q] == column(s, d, nrows as nat, |v: Visit| col_kind(v))[q],
        decreases nrows - r,
    {
        if r < ts {
            let v = sorted[r];
            addr.push(v.addr);
            val.push(v.val);
            ts_c.push(v.ts);
            kind.push(v.kind);
        } else if r - ts < side_len && r - ts < ts {
            let v = side[r - ts];
            addr.push(v.addr);
            val.push(v.val);
            ts_c.push(v.ts);
            kind.push(v.kind);
        } else {
            addr.push(0);
            val.push(0);
            ts_c.push(0);
            kind.push(0);
        }
        r = r + 1;
    }
    assert(addr@ =~= column(s, d, nrows as nat, |v: Visit| col_addr(v)));
    assert(val@ =~= column(s, d, nrows as nat, |v: Visit| col_val(v)));
    assert(ts_c@ =~= column(s, d, nrows as nat, |v: Visit| col_ts(v)));
    assert(kind@ =~= column(s, d, nrows as nat, |v: Visit| col_kind(v)));
    (addr, val, ts_c, kind)
}

/// The four committed columns (addr, val, ts, kind) of a case, `nrows` long.
pub fn build_cols(case: &RamSortCase, nrows: usize) -> (r: (Vec<u64>, Vec<u64>, Vec<u64>, Vec<u64>))
    requires
        case.sorted@.len() + (if case.events_side@.len() < case.sorted@.len() {
            case.events_side@.len()
        } else {
            case.sorted@.len()
        }) <= nrows,
    ensures
        r.0@ == column(case.sorted@, case.events_side@, nrows as nat, |v: Visit| col_addr(v)),
        r.1@ == column(case.sorted@, case.events_side@, nrows as nat, |v: Visit| col_val(v)),
        r.2@ == column(case.sorted@, case.events_side@, nrows as nat, |v: Visit| col_ts(v)),
        r.3@ == column(case.sorted@, case.events_side@, nrows as nat, |v: Visit| col_kind(v)),
{
    stream_columns(case.sorted.as_slice(), case.events_side.as_slice(), nrows)
}

} // verus!
