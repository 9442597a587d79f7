//! Laws of the sorted memory stream: it is a rearrangement of the event side,
//! and for an honest run it passes every check the memory circuit makes.

use vstd::prelude::*;
use vstd::multiset::Multiset;
use vstd::seq_lib::lemma_multiset_commutative;
use crate::slices::ram_sort::{
    Visit, K_INIT, K_READ, K_WRITE, K_FINAL, events_at, last_write, touches, is_address_list,
    init_row, final_row, init_rows, final_rows, group, sorted_stream, event_side, addresses,
    lemma_addresses_exist, gen_events, lcg_next, lcg_out,
};

verus! {

broadcast use vstd::seq_lib::group_to_multiset_ensures, vstd::multiset::group_multiset_axioms;

/// The visits of `events` whose address is in `s`, in order.
pub open spec fn events_in(events: Seq<Visit>, s: Set<u64>) -> Seq<Visit>
    decreases events.len(),
{
    if events.len() == 0 {
        seq![]
    } else {
        let rest = events_in(events.drop_last(), s);
        if s.contains(events.last().addr) {
            rest.push(events.last())
        } else {
            rest
        }
    }
}

/// The visits of each address of `addrs` in turn.
pub open spec fn events_over(events: Seq<Visit>, addrs: Seq<u64>) -> Seq<Visit>
    decreases addrs.len(),
{
    if addrs.len() == 0 {
        seq![]
    } else {
        events_over(events, addrs.drop_last()) + events_at(events, addrs.last())
    }
}

proof fn lemma_events_in_insert(events: Seq<Visit>, s: Set<u64>, a: u64)
    requires
        !s.contains(a),
    ensures
        events_in(events, s.insert(a)).to_multiset() =~= events_in(events, s).to_multiset().add(
            events_at(events, a).to_multiset(),
        ),
    decreases events.len(),
{
    if events.len() > 0 {
        lemma_events_in_insert(events.drop_last(), s, a);
    }
}

proof fn lemma_events_in_empty(events: Seq<Visit>)
    ensures
        events_in(events, Set::empty()) == Seq::<Visit>::empty(),
    decreases events.len(),
{
    if events.len() > 0 {
        lemma_events_in_empty(events.drop_last());
    }
}

proof fn lemma_events_in_all(events: Seq<Visit>, s: Set<u64>)
    requires
        forall|k: int| 0 <= k < events.len() ==> s.contains(#[trigger] events[k].addr),
    ensures
        events_in(events, s) == events,
    decreases events.len(),
{
    if events.len() > 0 {
        let e2 = events.drop_last();
        assert forall|k: int| 0 <= k < e2.len() implies s.contains(#[trigger] e2[k].addr) by {
            assert(e2[k] == events[k]);
        }
        lemma_events_in_all(e2, s);
        assert(events.last() == events[events.len() - 1]);
        assert(events =~= e2.push(events.last()));
    }
}

proof fn lemma_events_over(events: Seq<Visit>, addrs: Seq<u64>)
    requires
        addrs.no_duplicates(),
    ensures
        events_over(events, addrs).to_multiset() =~= events_in(events, addrs.to_set()).to_multiset(),
    decreases addrs.len(),
{
    if addrs.len() == 0 {
        lemma_events_in_empty(events);
        assert(addrs.to_set() =~= Set::empty());
    } else {
        let a2 = addrs.drop_last();
        let x = addrs.last();
        assert(a2.no_duplicates());
        lemma_events_over(events, a2);
        assert(addrs =~= a2.push(x));
        assert(addrs.to_set() =~= a2.to_set().insert(x));
        assert(!a2.to_set().contains(x)) by {
            if a2.contains(x) {
                let q = choose|q: int| 0 <= q < a2.len() && a2[q] == x;
                assert(addrs[q] == addrs[addrs.len() - 1]);
            }
        }
        lemma_events_in_insert(events, a2.to_set(), x);
        lemma_multiset_commutative(events_over(events, a2), events_at(events, x));
    }
}

proof fn lemma_stream_parts(events: Seq<Visit>, addrs: Seq<u64>, pad: Option<u64>, fts: u64)
    ensures
        sorted_stream(events, addrs, pad, fts).to_multiset() =~= init_rows(addrs, pad).to_multiset().add(
            events_over(events, addrs).to_multiset(),
        ).add(final_rows(events, addrs, fts).to_multiset()),
    decreases addrs.len(),
{
    if addrs.len() > 0 {
        let a2 = addrs.drop_last();
        let x = addrs.last();
        lemma_stream_parts(events, a2, pad, fts);
        let head = if pad == Some(x) {
            seq![]
        } else {
            seq![init_row(x)]
        };
        let ev = events_at(events, x);
        let fin = seq![final_row(events, x, fts)];
        let prev = sorted_stream(events, a2, pad, fts);
        assert(group(events, x, pad, fts) == head + ev + fin);
        lemma_multiset_commutative(prev, head + ev + fin);
        lemma_multiset_commutative(head + ev, fin);
        lemma_multiset_commutative(head, ev);
        assert(init_rows(addrs, pad) =~= init_rows(a2, pad) + head);
        lemma_multiset_commutative(init_rows(a2, pad), head);
        lemma_multiset_commutative(events_over(events, a2), ev);
        assert(final_rows(events, addrs, fts) =~= final_rows(events, a2, fts) + fin);
        lemma_multiset_commutative(final_rows(events, a2, fts), fin);
    }
}

/// The sorted stream holds exactly the rows of the event side (as a
/// multiset), so the two have the same length.
pub proof fn lemma_stream_is_rearrangement(events: Seq<Visit>, pad: Option<u64>, fts: u64)
    ensures
        sorted_stream(events, addresses(events), pad, fts).to_multiset() == event_side(
            events,
            addresses(events),
            pad,
            fts,
        ).to_multiset(),
        sorted_stream(events, addresses(events), pad, fts).len() == event_side(
            events,
            addresses(events),
            pad,
            fts,
        ).len(),
{
    lemma_addresses_exist(events);
    let addrs = addresses(events);
    assert(addrs.no_duplicates()) by {
        assert forall|i: int, j: int| 0 <= i < addrs.len() && 0 <= j < addrs.len() && i != j implies addrs[i]
            != addrs[j] by {
            if i < j {
                assert(addrs[i] < addrs[j]);
            } else {
                assert(addrs[j] < addrs[i]);
            }
        }
    }
    lemma_stream_parts(events, addrs, pad, fts);
    lemma_events_over(events, addrs);
    assert forall|k: int| 0 <= k < events.len() implies addrs.to_set().contains(
        #[trigger] events[k].addr,
    ) by {
        assert(touches(events, events[k].addr));
        assert(addrs.contains(events[k].addr));
    }
    lemma_events_in_all(events, addrs.to_set());
    let side = event_side(events, addrs, pad, fts);
    lemma_multiset_commutative(init_rows(addrs, pad) + events, final_rows(events, addrs, fts));
    lemma_multiset_commutative(init_rows(addrs, pad), events);
    let st = sorted_stream(events, addrs, pad, fts);
    assert(st.to_multiset() =~= side.to_multiset());
    assert(st.len() == st.to_multiset().len());
    assert(side.len() == side.to_multiset().len());
}

// ---------------------------------------------------------------------------
// Honest runs pass the stream checks
// ---------------------------------------------------------------------------

/// The checks the memory circuit makes on two neighbouring sorted rows:
/// addresses do not descend; within an address timestamps strictly grow and
/// a read or final row repeats the value before it; a new address starts
/// with an init row.
pub open spec fn adjacent_ok(x: Visit, y: Visit) -> bool {
    &&& x.addr <= y.addr
    &&& x.addr == y.addr ==> x.ts < y.ts
    &&& (x.addr == y.addr && (y.kind == K_READ || y.kind == K_FINAL)) ==> x.val == y.val
    &&& x.addr != y.addr ==> y.kind == K_INIT
}

pub open spec fn pair_ok(s: Seq<Visit>, j: int) -> bool {
    adjacent_ok(s[j], s[j + 1])
}

pub open spec fn chain_ok(s: Seq<Visit>) -> bool {
    forall|j: int| 0 <= j < s.len() - 1 ==> #[trigger] pair_ok(s, j)
}

pub open spec fn inits_zero(s: Seq<Visit>) -> bool {
    forall|j: int| 0 <= j < s.len() && (#[trigger] s[j]).kind == K_INIT ==> s[j].val == 0
}

/// Every check the memory circuit makes on a sorted stream: it starts with
/// an init row, init rows hold 0, and all neighbouring rows pass.
pub open spec fn stream_ok(s: Seq<Visit>) -> bool {
    &&& s.len() > 0 ==> s[0].kind == K_INIT
    &&& inits_zero(s)
    &&& chain_ok(s)
}

/// A row an honest run produces: a read or write (timestamp at least 1) away
/// from `pad`, or a zero init row at `pad`.
pub open spec fn row_kind_ok(e: Visit, pad: Option<u64>) -> bool {
    ||| (e.kind == K_READ || e.kind == K_WRITE) && pad != Some(e.addr) && e.ts >= 1
    ||| pad == Some(e.addr) && e.kind == K_INIT && e.val == 0
}

/// An honest run: timestamps strictly increase and stay below `fts`, rows
/// are well-formed, and each read returns the last value written to its
/// address before it (0 when none).
pub open spec fn honest_events(events: Seq<Visit>, pad: Option<u64>, fts: u64) -> bool {
    &&& forall|i: int, j: int| 0 <= i < j < events.len() ==> events[i].ts < events[j].ts
    &&& forall|k: int| 0 <= k < events.len() ==> (#[trigger] events[k]).ts < fts
    &&& forall|k: int| 0 <= k < events.len() ==> row_kind_ok(#[trigger] events[k], pad)
    &&& forall|k: int|
        0 <= k < events.len() && (#[trigger] events[k]).kind == K_READ ==> events[k].val
            == last_write(events.take(k), events[k].addr)
}

proof fn lemma_chain_concat(a: Seq<Visit>, b: Seq<Visit>)
    requires
        chain_ok(a),
        chain_ok(b),
        a.len() > 0 && b.len() > 0 ==> adjacent_ok(a.last(), b[0]),
    ensures
        chain_ok(a + b),
{
    let c = a + b;
    assert forall|j: int| 0 <= j < c.len() - 1 implies #[trigger] pair_ok(c, j) by {
        if j < a.len() - 1 {
            assert(pair_ok(a, j));
        } else if j == a.len() - 1 {
        } else {
            assert(pair_ok(b, j - a.len()));
        }
    }
}

proof fn lemma_inits_concat(a: Seq<Visit>, b: Seq<Visit>)
    requires
        inits_zero(a),
        inits_zero(b),
    ensures
        inits_zero(a + b),
{
    let c = a + b;
    assert forall|j: int| 0 <= j < c.len() && (#[trigger] c[j]).kind == K_INIT implies c[j].val
        == 0 by {
        if j < a.len() {
            assert(c[j] == a[j]);
        } else {
            assert(c[j] == b[j - a.len()]);
        }
    }
}

/// The visits at `a` are visits of `events` at `a`, in increasing order.
proof fn lemma_events_at_sub(events: Seq<Visit>, a: u64)
    ensures
        forall|i: int|
            0 <= i < events_at(events, a).len() ==> (#[trigger] events_at(events, a)[i]).addr == a
                && events.contains(events_at(events, a)[i]),
        (forall|i: int, j: int| 0 <= i < j < events.len() ==> events[i].ts < events[j].ts) ==> forall|
            i: int,
            j: int,
        | 0 <= i < j < events_at(events, a).len() ==> events_at(events, a)[i].ts < events_at(
            events,
            a,
        )[j].ts,
    decreases events.len(),
{
    if events.len() > 0 {
        let e2 = events.drop_last();
        lemma_events_at_sub(e2, a);
        let ev2 = events_at(e2, a);
        let ev = events_at(events, a);
        assert forall|i: int| 0 <= i < ev.len() implies (#[trigger] ev[i]).addr == a && events.contains(
            ev[i],
        ) by {
            if i < ev2.len() {
                assert(ev[i] == ev2[i]);
                let k = choose|k: int| 0 <= k < e2.len() && e2[k] == ev2[i];
                assert(events[k] == e2[k]);
            } else {
                assert(ev[i] == events.last());
                assert(events[events.len() - 1] == events.last());
            }
        }
        if forall|i: int, j: int| 0 <= i < j < events.len() ==> events[i].ts < events[j].ts {
            assert forall|i: int, j: int| 0 <= i < j < e2.len() implies e2[i].ts < e2[j].ts by {
                assert(e2[i] == events[i] && e2[j] == events[j]);
            }
            assert forall|i: int, j: int| 0 <= i < j < ev.len() implies ev[i].ts < ev[j].ts by {
                if j < ev2.len() {
                    assert(ev[i] == ev2[i] && ev[j] == ev2[j]);
                } else {
                    assert(ev[i] == ev2[i]);
                    let k = choose|k: int| 0 <= k < e2.len() && e2[k] == ev2[i];
                    assert(events[k] == e2[k]);
                    assert(events[events.len() - 1] == events.last());
                }
            }
        }
    }
}

/// The last write to `a` is the last write among the visits at `a`.
proof fn lemma_last_write_at(events: Seq<Visit>, a: u64)
    ensures
        last_write(events, a) == last_write(events_at(events, a), a),
    decreases events.len(),
{
    if events.len() > 0 {
        let e2 = events.drop_last();
        lemma_last_write_at(e2, a);
        let ev2 = events_at(e2, a);
        if events.last().addr == a {
            assert(ev2.push(events.last()).drop_last() =~= ev2);
        }
    }
}

/// Reads of the visits at `a` return the last value written before them.
proof fn lemma_reads_at(events: Seq<Visit>, a: u64)
    requires
        forall|k: int|
            0 <= k < events.len() && (#[trigger] events[k]).kind == K_READ ==> events[k].val
                == last_write(events.take(k), events[k].addr),
    ensures
        forall|i: int|
            0 <= i < events_at(events, a).len() && (#[trigger] events_at(events, a)[i]).kind
                == K_READ ==> events_at(events, a)[i].val == last_write(
                events_at(events, a).take(i),
                a,
            ),
    decreases events.len(),
{
    if events.len() > 0 {
        let e2 = events.drop_last();
        assert forall|k: int| 0 <= k < e2.len() && (#[trigger] e2[k]).kind == K_READ implies e2[k].val
            == last_write(e2.take(k), e2[k].addr) by {
            assert(e2[k] == events[k]);
            assert(e2.take(k) =~= events.take(k));
        }
        lemma_reads_at(e2, a);
        let ev2 = events_at(e2, a);
        let ev = events_at(events, a);
        assert forall|i: int| 0 <= i < ev.len() && (#[trigger] ev[i]).kind == K_READ implies ev[i].val
            == last_write(ev.take(i), a) by {
            if i < ev2.len() {
                assert(ev[i] == ev2[i]);
                assert(ev.take(i) =~= ev2.take(i));
            } else {
                let k = events.len() - 1;
                assert(events[k] == events.last());
                assert(events.take(k) =~= e2);
                lemma_last_write_at(e2, a);
                assert(ev.take(i) =~= ev2);
            }
        }
    }
}

/// Touched addresses have visits.
proof fn lemma_touched_nonempty(events: Seq<Visit>, a: u64)
    requires
        touches(events, a),
    ensures
        events_at(events, a).len() > 0,
    decreases events.len(),
{
    let k = choose|k: int| 0 <= k < events.len() && #[trigger] events[k].addr == a;
    if events.last().addr != a {
        let e2 = events.drop_last();
        assert(k < events.len() - 1);
        assert(e2[k].addr == a);
        lemma_touched_nonempty(e2, a);
    }
}

/// With no write to `a` in `s`, the last write to `a` reads 0.
proof fn lemma_no_write(s: Seq<Visit>, a: u64)
    requires
        forall|k: int| 0 <= k < s.len() ==> (#[trigger] s[k]).kind != K_WRITE,
    ensures
        last_write(s, a) == 0,
    decreases s.len(),
{
    if s.len() > 0 {
        let s2 = s.drop_last();
        assert forall|k: int| 0 <= k < s2.len() implies (#[trigger] s2[k]).kind != K_WRITE by {
            assert(s2[k] == s[k]);
        }
        assert(s[s.len() - 1] == s.last());
        lemma_no_write(s2, a);
    }
}

/// The group of a touched address of an honest run passes the checks,
/// starts with an init row and ends with its final row.
proof fn lemma_group_ok(events: Seq<Visit>, a: u64, pad: Option<u64>, fts: u64)
    requires
        honest_events(events, pad, fts),
        touches(events, a),
    ensures
        ({
            let g = group(events, a, pad, fts);
            &&& chain_ok(g)
            &&& inits_zero(g)
            &&& g.len() > 0
            &&& g[0].kind == K_INIT
            &&& g.last() == final_row(events, a, fts)
            &&& g[0].addr == a
        }),
{
    let ev = events_at(events, a);
    lemma_events_at_sub(events, a);
    lemma_reads_at(events, a);
    lemma_touched_nonempty(events, a);
    lemma_last_write_at(events, a);
    let fin = final_row(events, a, fts);
    assert forall|i: int| 0 <= i < ev.len() implies row_kind_ok(#[trigger] ev[i], pad) && ev[i].ts
        < fts by {
        let k = choose|k: int| 0 <= k < events.len() && events[k] == ev[i];
        assert(row_kind_ok(events[k], pad));
    }
    // the visits chain
    assert forall|j: int| 0 <= j < ev.len() - 1 implies #[trigger] pair_ok(ev, j) by {
        let x = ev[j];
        let y = ev[j + 1];
        assert(row_kind_ok(x, pad) && row_kind_ok(y, pad));
        if y.kind == K_READ {
            assert(ev.take(j + 1).drop_last() =~= ev.take(j));
            assert(ev.take(j + 1).last() == x);
        }
    }
    // the last visit and the final row
    let l = ev.last();
    assert(ev[ev.len() - 1] == l);
    assert(row_kind_ok(l, pad));
    assert(adjacent_ok(l, fin)) by {
        assert(ev.take(ev.len() - 1) =~= ev.drop_last());
        if l.kind == K_INIT {
            assert forall|k: int| 0 <= k < ev.len() implies (#[trigger] ev[k]).kind != K_WRITE by {
                assert(row_kind_ok(ev[k], pad));
            }
            lemma_no_write(ev, a);
        }
    }
    let tail = ev + seq![fin];
    assert(chain_ok(seq![fin]));
    lemma_chain_concat(ev, seq![fin]);
    assert(inits_zero(ev)) by {
        assert forall|j: int| 0 <= j < ev.len() && (#[trigger] ev[j]).kind == K_INIT implies ev[j].val
            == 0 by {
            assert(row_kind_ok(ev[j], pad));
        }
    }
    assert(inits_zero(seq![fin]));
    lemma_inits_concat(ev, seq![fin]);
    if pad == Some(a) {
        assert(group(events, a, pad, fts) =~= tail);
        assert(row_kind_ok(ev[0], pad));
    } else {
        let head = seq![init_row(a)];
        assert(group(events, a, pad, fts) =~= head + tail);
        assert(row_kind_ok(ev[0], pad));
        assert(adjacent_ok(init_row(a), tail[0])) by {
            assert(tail[0] == ev[0]);
            assert(ev.take(0) =~= Seq::<Visit>::empty());
        }
        assert(chain_ok(head));
        lemma_chain_concat(head, tail);
        assert(inits_zero(head));
        lemma_inits_concat(head, tail);
    }
}

proof fn lemma_stream_prefix_ok(events: Seq<Visit>, addrs: Seq<u64>, pad: Option<u64>, fts: u64)
    requires
        honest_events(events, pad, fts),
        forall|i: int, j: int| 0 <= i < j < addrs.len() ==> addrs[i] < addrs[j],
        forall|i: int| 0 <= i < addrs.len() ==> touches(events, #[trigger] addrs[i]),
    ensures
        ({
            let s = sorted_stream(events, addrs, pad, fts);
            &&& stream_ok(s)
            &&& addrs.len() > 0 ==> s.len() > 0 && s.last() == final_row(events, addrs.last(), fts)
        }),
    decreases addrs.len(),
{
    if addrs.len() > 0 {
        let a2 = addrs.drop_last();
        let x = addrs.last();
        assert forall|i: int| 0 <= i < a2.len() implies touches(events, #[trigger] a2[i]) by {
            assert(a2[i] == addrs[i]);
        }
        lemma_stream_prefix_ok(events, a2, pad, fts);
        assert(addrs[addrs.len() - 1] == x);
        lemma_group_ok(events, x, pad, fts);
        let p = sorted_stream(events, a2, pad, fts);
        let g = group(events, x, pad, fts);
        if a2.len() > 0 {
            assert(a2.last() == addrs[addrs.len() - 2]);
            assert(adjacent_ok(p.last(), g[0]));
        }
        lemma_chain_concat(p, g);
        lemma_inits_concat(p, g);
        if p.len() > 0 {
            assert((p + g)[0] == p[0]);
        }
    }
}

/// The sorted stream of an honest run passes every check of the memory
/// circuit.
pub proof fn lemma_honest_stream_ok(events: Seq<Visit>, pad: Option<u64>, fts: u64)
    requires
        honest_events(events, pad, fts),
    ensures
        stream_ok(sorted_stream(events, addresses(events), pad, fts)),
{
    lemma_addresses_exist(events);
    let addrs = addresses(events);
    assert forall|i: int| 0 <= i < addrs.len() implies touches(events, #[trigger] addrs[i]) by {
        assert(addrs.contains(addrs[i]));
    }
    lemma_stream_prefix_ok(events, addrs, pad, fts);
}

// ---------------------------------------------------------------------------
// Generated runs are honest
// ---------------------------------------------------------------------------

proof fn lemma_gen_prefix(mask: u64, cap: u64, s0: u64, n: nat, i: nat)
    requires
        i <= n,
    ensures
        gen_events(mask, cap, s0, n).0.len() == n,
        gen_events(mask, cap, s0, n).0.take(i as int) == gen_events(mask, cap, s0, i).0,
    decreases n,
{
    if n > 0 {
        if i < n {
            lemma_gen_prefix(mask, cap, s0, (n - 1) as nat, i);
            assert(gen_events(mask, cap, s0, n).0.take(i as int) =~= gen_events(
                mask,
                cap,
                s0,
                (n - 1) as nat,
            ).0.take(i as int));
        } else {
            lemma_gen_prefix(mask, cap, s0, (n - 1) as nat, (n - 1) as nat);
            assert(gen_events(mask, cap, s0, n).0.take(i as int) =~= gen_events(mask, cap, s0, n).0);
        }
    }
}

/// A generated run is honest: timestamps `1..=t`, reads return the latest
/// write, and no placeholder rows.
pub proof fn lemma_generated_run_honest(mask: u64, cap: u64, s0: u64, t: nat)
    requires
        t < u64::MAX,
    ensures
        honest_events(gen_events(mask, cap, s0, t).0, None, (t + 1) as u64),
{
    let ev = gen_events(mask, cap, s0, t).0;
    lemma_gen_prefix(mask, cap, s0, t, t);
    assert forall|k: int| #![trigger ev[k]] 0 <= k < ev.len() implies ({
        let e = gen_events(mask, cap, s0, (k + 1) as nat).0;
        &&& ev[k] == e.last()
        &&& ev.take(k) == gen_events(mask, cap, s0, k as nat).0
    }) by {
        lemma_gen_prefix(mask, cap, s0, t, (k + 1) as nat);
        lemma_gen_prefix(mask, cap, s0, t, k as nat);
        lemma_gen_prefix(mask, cap, s0, (k + 1) as nat, (k + 1) as nat);
        let e = gen_events(mask, cap, s0, (k + 1) as nat).0;
        assert(ev.take(k + 1)[k] == ev[k]);
        assert(e[k] == e.last());
    }
    assert forall|k: int| 0 <= k < ev.len() implies (#[trigger] ev[k]).ts == k + 1 && (ev[k].kind
        == K_READ || ev[k].kind == K_WRITE) by {
        let e = gen_events(mask, cap, s0, (k + 1) as nat).0;
        assert(ev[k] == e.last());
    }
    assert forall|i: int, j: int| 0 <= i < j < ev.len() implies ev[i].ts < ev[j].ts by {
        assert(ev[i].ts == i + 1 && ev[j].ts == j + 1);
    }
    assert forall|k: int| 0 <= k < ev.len() && (#[trigger] ev[k]).kind == K_READ implies ev[k].val
        == last_write(ev.take(k), ev[k].addr) by {
        let e = gen_events(mask, cap, s0, (k + 1) as nat).0;
        assert(ev[k] == e.last());
        assert(ev.take(k) == gen_events(mask, cap, s0, k as nat).0);
    }
    assert forall|k: int| 0 <= k < ev.len() implies row_kind_ok(#[trigger] ev[k], None) by {
        assert(ev[k].ts == k + 1);
    }
}

/// A generated case passes every check of the memory circuit, and its sorted
/// stream holds exactly the rows of its event side.
pub proof fn lemma_generated_case_ok(mask: u64, cap: u64, s0: u64, t: nat)
    requires
        t < u64::MAX,
    ensures
        ({
            let ev = gen_events(mask, cap, s0, t).0;
            let fts = (t + 1) as u64;
            let sorted = sorted_stream(ev, addresses(ev), None, fts);
            &&& stream_ok(sorted)
            &&& sorted.to_multiset() == event_side(ev, addresses(ev), None, fts).to_multiset()
        }),
{
    let ev = gen_events(mask, cap, s0, t).0;
    lemma_generated_run_honest(mask, cap, s0, t);
    lemma_honest_stream_ok(ev, None, (t + 1) as u64);
    lemma_stream_is_rearrangement(ev, None, (t + 1) as u64);
}

proof fn lemma_events_at_addr(events: Seq<Visit>, a: u64)
    ensures
        forall|k: int| 0 <= k < events_at(events, a).len() ==> #[trigger] events_at(events, a)[k].addr == a,
    decreases events.len(),
{
    if events.len() > 0 {
        lemma_events_at_addr(events.drop_last(), a);
        let rest = events_at(events.drop_last(), a);
        assert forall|k: int| 0 <= k < events_at(events, a).len() implies #[trigger] events_at(
            events,
            a,
        )[k].addr == a by {
            if k < rest.len() {
                assert(events_at(events, a)[k] == rest[k]);
            }
        }
    }
}

proof fn lemma_stream_ascending(events: Seq<Visit>, addrs: Seq<u64>, pad: Option<u64>, fts: u64)
    requires
        forall|i: int, j: int| 0 <= i < j < addrs.len() ==> addrs[i] < addrs[j],
    ensures
        ({
            let s = sorted_stream(events, addrs, pad, fts);
            &&& forall|i: int, j: int| 0 <= i < j < s.len() ==> s[i].addr <= s[j].addr
            &&& forall|i: int| 0 <= i < s.len() ==> addrs.contains(#[trigger] s[i].addr)
            &&& forall|i: int| 0 <= i < s.len() ==> #[trigger] s[i].addr <= addrs.last()
        }),
    decreases addrs.len(),
{
    if addrs.len() > 0 {
        let a2 = addrs.drop_last();
        let x = addrs.last();
        lemma_stream_ascending(events, a2, pad, fts);
        lemma_events_at_addr(events, x);
        let prev = sorted_stream(events, a2, pad, fts);
        let g = group(events, x, pad, fts);
        let s = sorted_stream(events, addrs, pad, fts);
        assert(s == prev + g);
        assert forall|k: int| 0 <= k < g.len() implies #[trigger] g[k].addr == x by {
            let head = if pad == Some(x) {
                seq![]
            } else {
                seq![init_row(x)]
            };
            let ev = events_at(events, x);
            assert(g == head + ev + seq![final_row(events, x, fts)]);
            if k >= head.len() && k < head.len() + ev.len() {
                assert(g[k] == ev[k - head.len()]);
            }
        }
        assert forall|i: int| 0 <= i < prev.len() implies #[trigger] prev[i].addr < x by {
            assert(a2.contains(prev[i].addr));
            let q = choose|q: int| 0 <= q < a2.len() && a2[q] == prev[i].addr;
            assert(addrs[q] < addrs[addrs.len() - 1]);
        }
        assert forall|i: int| 0 <= i < s.len() implies addrs.contains(#[trigger] s[i].addr) by {
            if i < prev.len() {
                assert(s[i] == prev[i]);
                let q = choose|q: int| 0 <= q < a2.len() && a2[q] == prev[i].addr;
                assert(addrs[q] == a2[q]);
            } else {
                assert(s[i] == g[i - prev.len()]);
                assert(addrs[addrs.len() - 1] == x);
            }
        }
        assert forall|i: int, j: int| 0 <= i < j < s.len() implies s[i].addr <= s[j].addr by {
            if j < prev.len() {
                assert(s[i] == prev[i] && s[j] == prev[j]);
            } else if i < prev.len() {
                assert(s[i] == prev[i] && s[j] == g[j - prev.len()]);
            } else {
                assert(s[i] == g[i - prev.len()] && s[j] == g[j - prev.len()]);
            }
        }
        assert forall|i: int| 0 <= i < s.len() implies #[trigger] s[i].addr <= addrs.last() by {
            if i < prev.len() {
                assert(s[i] == prev[i]);
            } else {
                assert(s[i] == g[i - prev.len()]);
            }
        }
    }
}

/// Law (sortedness of the memory stream): for any event rows, the sorted
/// stream visits addresses in non-decreasing order, and every row's address
/// is one the events touch.
pub proof fn lemma_stream_sorted_by_address(events: Seq<Visit>, pad: Option<u64>, fts: u64)
    ensures
        ({
            let s = sorted_stream(events, addresses(events), pad, fts);
            &&& forall|i: int, j: int| 0 <= i < j < s.len() ==> s[i].addr <= s[j].addr
            &&& forall|i: int| 0 <= i < s.len() ==> touches(events, #[trigger] s[i].addr)
        }),
{
    lemma_addresses_exist(events);
    let addrs = addresses(events);
    lemma_stream_ascending(events, addrs, pad, fts);
    let s = sorted_stream(events, addrs, pad, fts);
    assert forall|i: int| 0 <= i < s.len() implies touches(events, #[trigger] s[i].addr) by {
        assert(addrs.contains(s[i].addr));
    }
}

} // verus!
