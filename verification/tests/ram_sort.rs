//! Sorted memory streams: construction, generated cases, mutations and columns.

use zkvm_slice::slices::ram_sort::{
    address_list, apply_mutate, build_cols, gen_case, latest_write, sort_visits, stream_columns, visit_side, Mutate,
    Visit, FINAL_ADDR, K_FINAL, K_INIT, K_READ, K_WRITE,
};

fn v(addr: u64, ts: u64, val: u64, kind: u64) -> Visit {
    Visit { addr, ts, val, kind }
}

/// The checks the memory circuit makes on a sorted stream.
fn stream_passes(s: &[Visit]) -> bool {
    if s.is_empty() || s[0].kind != K_INIT {
        return false;
    }
    for x in s {
        if x.kind == K_INIT && x.val != 0 {
            return false;
        }
    }
    for w in s.windows(2) {
        let (x, y) = (w[0], w[1]);
        if y.addr < x.addr {
            return false;
        }
        if x.addr == y.addr && x.ts >= y.ts {
            return false;
        }
        if x.addr == y.addr && (y.kind == K_READ || y.kind == K_FINAL) && x.val != y.val {
            return false;
        }
        if x.addr != y.addr && y.kind != K_INIT {
            return false;
        }
    }
    true
}

fn sorted_rows(mut s: Vec<Visit>) -> Vec<(u64, u64, u64, u64)> {
    let mut r: Vec<(u64, u64, u64, u64)> = s.drain(..).map(|x| (x.addr, x.ts, x.val, x.kind)).collect();
    r.sort();
    r
}

fn example_events() -> Vec<Visit> {
    vec![
        v(3, 1, 10, K_WRITE),
        v(1, 2, 0, K_READ),
        v(3, 3, 10, K_READ),
        v(1, 4, 7, K_WRITE),
    ]
}

#[test]
fn address_list_is_sorted_and_unique() {
    let ev = vec![v(9, 1, 0, K_READ), v(2, 2, 0, K_READ), v(9, 3, 0, K_READ), v(5, 4, 1, K_WRITE)];
    assert_eq!(address_list(&ev), vec![2, 5, 9]);
    assert_eq!(address_list(&[]), Vec::<u64>::new());
}

#[test]
fn latest_write_picks_last_write() {
    let ev = example_events();
    assert_eq!(latest_write(&ev, 1), 7);
    assert_eq!(latest_write(&ev, 3), 10);
    assert_eq!(latest_write(&ev, 4), 0);
}

#[test]
fn sorted_stream_example() {
    let ev = example_events();
    let addrs = address_list(&ev);
    let s = sort_visits(&ev, &addrs, None, 5);
    assert_eq!(
        s,
        vec![
            v(1, 0, 0, K_INIT),
            v(1, 2, 0, K_READ),
            v(1, 4, 7, K_WRITE),
            v(1, 5, 7, K_FINAL),
            v(3, 0, 0, K_INIT),
            v(3, 1, 10, K_WRITE),
            v(3, 3, 10, K_READ),
            v(3, 5, 10, K_FINAL),
        ]
    );
    assert!(stream_passes(&s));
    let side = visit_side(&ev, &addrs, None, 5);
    assert_eq!(
        side,
        vec![
            v(1, 0, 0, K_INIT),
            v(3, 0, 0, K_INIT),
            v(3, 1, 10, K_WRITE),
            v(1, 2, 0, K_READ),
            v(3, 3, 10, K_READ),
            v(1, 4, 7, K_WRITE),
            v(1, 5, 7, K_FINAL),
            v(3, 5, 10, K_FINAL),
        ]
    );
    assert_eq!(sorted_rows(s), sorted_rows(side));
}

#[test]
fn sorted_stream_skips_pad_init() {
    let ev = vec![v(0xffff, 0, 0, K_INIT), v(4, 1, 9, K_WRITE), v(0xffff, 2, 0, K_INIT)];
    let addrs = address_list(&ev);
    let s = sort_visits(&ev, &addrs, Some(0xffff), 4);
    assert_eq!(
        s,
        vec![
            v(4, 0, 0, K_INIT),
            v(4, 1, 9, K_WRITE),
            v(4, 4, 9, K_FINAL),
            v(0xffff, 0, 0, K_INIT),
            v(0xffff, 2, 0, K_INIT),
            v(0xffff, 4, 0, K_FINAL),
        ]
    );
    let side = visit_side(&ev, &addrs, Some(0xffff), 4);
    assert_eq!(side.len(), s.len());
    assert_eq!(sorted_rows(s), sorted_rows(side));
}

#[test]
fn gen_case_honest_passes() {
    let c = gen_case(16, 256, 42);
    assert_eq!(c.events.len(), 256);
    assert_eq!(c.t, 256);
    assert_eq!(c.k_bits, 16);
    for (i, e) in c.events.iter().enumerate() {
        assert_eq!(e.ts, i as u64 + 1);
        assert!(e.addr < 256);
    }
    // reads return the latest write
    for (i, e) in c.events.iter().enumerate() {
        if e.kind == K_READ {
            assert_eq!(e.val, latest_write(&c.events[..i], e.addr));
        }
    }
    assert_eq!(c.sorted.len(), c.events_side.len());
    assert!(stream_passes(&c.sorted));
    assert_eq!(c.final_val, latest_write(&c.events, FINAL_ADDR));
    // the circuit's public output: xor of the final rows at FINAL_ADDR
    let mut acc = 0u64;
    for x in &c.sorted {
        if x.addr == FINAL_ADDR && x.kind == K_FINAL {
            acc ^= x.val;
        }
    }
    assert_eq!(acc, c.final_val);
    assert_eq!(sorted_rows(c.sorted.clone()), sorted_rows(c.events_side.clone()));
}

#[test]
fn gen_case_is_deterministic_and_capped() {
    let a = gen_case(3, 64, 7);
    let b = gen_case(3, 64, 7);
    assert_eq!(a.events, b.events);
    assert!(a.events.iter().all(|e| e.addr <= 7));
    let c = gen_case(3, 64, 8);
    assert_ne!(a.events, c.events);
}

#[test]
fn mutate_read_stale_changes_both_sides() {
    let c0 = gen_case(16, 256, 43);
    let mut c = gen_case(16, 256, 43);
    apply_mutate(&mut c, Mutate::ReadStale);
    let j = c0.sorted.iter().position(|x| x.kind == K_READ).unwrap();
    let r = c0.sorted[j];
    assert_eq!(c.sorted[j].val, r.val ^ 0x0fff_0000);
    assert_eq!(sorted_rows(c.sorted.clone()), sorted_rows(c.events_side.clone()));
    assert!(!stream_passes(&c.sorted));
}

#[test]
fn mutate_drop_event_shrinks_side() {
    let c0 = gen_case(16, 256, 44);
    let mut c = gen_case(16, 256, 44);
    apply_mutate(&mut c, Mutate::DropEvent);
    assert_eq!(c.sorted, c0.sorted);
    assert_eq!(c.events_side.len(), c0.events_side.len() - 1);
    assert_ne!(sorted_rows(c.sorted.clone()), sorted_rows(c.events_side.clone()));
}

#[test]
fn mutate_insert_fake_grows_sorted() {
    let c0 = gen_case(16, 256, 45);
    let mut c = gen_case(16, 256, 45);
    apply_mutate(&mut c, Mutate::InsertFake);
    assert_eq!(c.events_side, c0.events_side);
    assert_eq!(c.sorted.len(), c0.sorted.len() + 1);
    assert_eq!(*c.sorted.last().unwrap(), v(7, 256, 0x1234, K_WRITE));
}

#[test]
fn mutate_val_switch_changes_side_only() {
    let c0 = gen_case(16, 256, 46);
    let mut c = gen_case(16, 256, 46);
    apply_mutate(&mut c, Mutate::ValSwitchEventOnly);
    assert_eq!(c.sorted, c0.sorted);
    let j = c0.events_side.iter().position(|x| x.kind == K_READ).unwrap();
    assert_eq!(c.events_side[j].val, c0.events_side[j].val ^ 0x0fff_0000);
    assert_ne!(sorted_rows(c.sorted.clone()), sorted_rows(c.events_side.clone()));
}

#[test]
fn mutate_unchanged_keeps_case() {
    let c0 = gen_case(16, 64, 47);
    let mut c = gen_case(16, 64, 47);
    apply_mutate(&mut c, Mutate::Unchanged);
    assert_eq!(c.sorted, c0.sorted);
    assert_eq!(c.events_side, c0.events_side);
}

#[test]
fn columns_layout() {
    let c = gen_case(16, 16, 1);
    let ts = c.sorted.len();
    let nrows = (2 * ts).next_power_of_two();
    let (addr, val, tsc, kind) = build_cols(&c, nrows);
    assert_eq!(addr.len(), nrows);
    for j in 0..ts {
        assert_eq!(addr[j], c.sorted[j].addr);
        assert_eq!(val[j], c.sorted[j].val);
        assert_eq!(tsc[j], c.sorted[j].ts);
        assert_eq!(kind[j], c.sorted[j].kind);
        assert_eq!(addr[ts + j], c.events_side[j].addr);
        assert_eq!(val[ts + j], c.events_side[j].val);
    }
    for j in 2 * ts..nrows {
        assert_eq!((addr[j], val[j], tsc[j], kind[j]), (0, 0, 0, 0));
    }
}

#[test]
fn stream_columns_pads_and_truncates() {
    let s = vec![v(1, 0, 0, K_INIT), v(1, 2, 5, K_FINAL)];
    let d = vec![v(1, 0, 0, K_INIT), v(1, 2, 5, K_FINAL), v(9, 9, 9, K_READ)];
    let (a, vals, ts, k) = stream_columns(&s, &d, 8);
    assert_eq!(a, vec![1, 1, 1, 1, 0, 0, 0, 0]);
    assert_eq!(vals, vec![0, 5, 0, 5, 0, 0, 0, 0]);
    assert_eq!(ts, vec![0, 2, 0, 2, 0, 0, 0, 0]);
    assert_eq!(k, vec![K_INIT, K_FINAL, K_INIT, K_FINAL, 0, 0, 0, 0]);
    let (a3, _, _, _) = stream_columns(&s, &d, 3);
    assert_eq!(a3, vec![1, 1, 1]);
}
