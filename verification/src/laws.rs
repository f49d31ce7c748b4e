//! Engine-wide guarantees, stated and proved over the same model that the
//! executable functions are verified against.

use crate::fixed::{clamp_val, fmul, rdiv, SCALE};
use crate::layout::{
    append_row_v, cap_check, cfg_wf, compute_v, init_v, new_row_at, pending_box, run_v, step_v,
    CfgV, ResultV, StateV,
};
use crate::row::{
    add_decision, completed_box_at, completed_items, completed_row, cum_err, cursor_end,
    justify_overflow, BoxV, DecisionKind, RowV, WidowLayoutStyle,
};
use vstd::prelude::*;

verus! {

/// Sum of the widths of a run of boxes.
pub open spec fn sum_box_widths(boxes: Seq<BoxV>) -> int
    decreases boxes.len(),
{
    if boxes.len() == 0 {
        0
    } else {
        sum_box_widths(boxes.drop_last()) + boxes.last().width
    }
}

/// The ratio-and-forced-flag content of a run of boxes, geometry stripped.
pub open spec fn ars_of(boxes: Seq<BoxV>) -> Seq<(int, bool)> {
    boxes.map_values(|b: BoxV| (b.ar, b.forced))
}

/// `h` lies within the edge-case band of some configured target height.
pub open spec fn height_in_band(c: CfgV, h: int) -> bool {
    exists|j: int|
        0 <= j < c.targets.len() && fmul(c.min_factor, #[trigger] c.targets[j]) <= h <= fmul(
            c.max_factor,
            c.targets[j],
        )
}

/// Every box of `boxes` has a height within the band of some target.
pub open spec fn boxes_heights_ok(c: CfgV, boxes: Seq<BoxV>) -> bool {
    forall|i: int| 0 <= i < boxes.len() ==> height_in_band(c, (#[trigger] boxes[i]).height)
}

/// The row's target is one of the configured targets and its clamps were
/// derived from it.
pub open spec fn row_edges_from_cfg(c: CfgV, r: RowV) -> bool {
    &&& exists|j: int| 0 <= j < c.targets.len() && #[trigger] c.targets[j] == r.target
    &&& r.edge_min == fmul(c.min_factor, r.target)
    &&& r.edge_max == fmul(c.max_factor, r.target)
    &&& r.edge_min <= r.edge_max
}

/// The invariant behind the height-clamp law: placed boxes and the open row
/// both answer to a configured target.
pub open spec fn state_heights_ok(c: CfgV, st: StateV) -> bool {
    &&& 0 <= st.rows
    &&& boxes_heights_ok(c, st.boxes)
    &&& match st.open_row {
        Some(r) => row_edges_from_cfg(c, r),
        None => true,
    }
}

proof fn lemma_new_row_edges(c: CfgV, top: int, rows: int)
    requires
        cfg_wf(c),
        0 <= rows,
    ensures
        row_edges_from_cfg(c, new_row_at(c, top, rows)),
{
    let len = c.targets.len() as int;
    vstd::arithmetic::div_mod::lemma_mod_bound(rows, len);
    let j = rows % len;
    assert(0 <= j < c.targets.len() && c.targets[j] == new_row_at(c, top, rows).target);
    let t = c.targets[j];
    assert(c.min_factor * t <= c.max_factor * t) by (nonlinear_arith)
        requires
            c.min_factor <= c.max_factor,
            0 <= t,
    ;
    vstd::arithmetic::div_mod::lemma_div_is_ordered(
        c.min_factor * t + 500_000,
        c.max_factor * t + 500_000,
        1_000_000,
    );
}

proof fn lemma_append_heights_ok(c: CfgV, st: StateV, r: RowV, h: int, style: WidowLayoutStyle)
    requires
        cfg_wf(c),
        boxes_heights_ok(c, st.boxes),
        row_edges_from_cfg(c, r),
    ensures
        boxes_heights_ok(c, append_row_v(c, st, r, h, style).boxes),
{
    let done = completed_items(r, h, style);
    let ch = clamp_val(h, r.edge_min, r.edge_max);
    assert(forall|i: int| 0 <= i < done.len() ==> (#[trigger] done[i]).height == ch);
    assert(height_in_band(c, ch));
    let all = append_row_v(c, st, r, h, style).boxes;
    assert(forall|i: int|
        0 <= i < all.len() ==> height_in_band(c, (#[trigger] all[i]).height)) by {
        assert(forall|i: int|
            0 <= i < st.boxes.len() ==> all[i] == (#[trigger] st.boxes[i]));
        assert(forall|i: int|
            st.boxes.len() <= i < all.len() ==> all[i] == (#[trigger] done[i - st.boxes.len()]));
    }
}

proof fn lemma_step_heights_ok(c: CfgV, st: StateV, ar: int, forced: bool)
    requires
        cfg_wf(c),
        state_heights_ok(c, st),
    ensures
        state_heights_ok(c, step_v(c, st, ar, forced)),
{
    if !st.stopped {
        let row = match st.open_row {
            Some(r) => r,
            None => new_row_at(c, st.height, st.rows),
        };
        if st.open_row is None {
            lemma_new_row_edges(c, st.height, st.rows);
        }
        let d = add_decision(row, ar);
        let item = pending_box(ar, forced);
        let grown = RowV { items: row.items.push(item), ..row };
        match d.0 {
            DecisionKind::Grow => {},
            DecisionKind::Close => {
                let st1 = append_row_v(c, st, grown, d.1, WidowLayoutStyle::Justify);
                lemma_append_heights_ok(c, st, grown, d.1, WidowLayoutStyle::Justify);
                if st1.rows >= c.max_rows {
                } else {
                    lemma_new_row_edges(c, st1.height, st1.rows);
                }
            },
            DecisionKind::Bounce => {
                let st1 = append_row_v(c, st, row, d.1, WidowLayoutStyle::Justify);
                lemma_append_heights_ok(c, st, row, d.1, WidowLayoutStyle::Justify);
                if st1.rows >= c.max_rows {
                } else {
                    let row2 = new_row_at(c, st1.height, st1.rows);
                    lemma_new_row_edges(c, st1.height, st1.rows);
                    let d2 = add_decision(row2, ar);
                    let grown2 = RowV { items: row2.items.push(item), ..row2 };
                    match d2.0 {
                        DecisionKind::Grow => {},
                        DecisionKind::Close => {
                            let st2 = append_row_v(c, st1, grown2, d2.1, WidowLayoutStyle::Justify);
                            lemma_append_heights_ok(c, st1, grown2, d2.1, WidowLayoutStyle::Justify);
                            if st2.rows >= c.max_rows {
                            } else {
                                lemma_new_row_edges(c, st2.height, st2.rows);
                            }
                        },
                        DecisionKind::Bounce => {},
                    }
                }
            },
        }
    }
}

proof fn lemma_run_heights_ok(c: CfgV, items: Seq<(int, bool)>)
    requires
        cfg_wf(c),
    ensures
        state_heights_ok(c, run_v(c, items)),
    decreases items.len(),
{
    if items.len() == 0 {
    } else {
        lemma_run_heights_ok(c, items.drop_last());
        lemma_step_heights_ok(c, run_v(c, items.drop_last()), items.last().0, items.last().1);
    }
}

/// Height clamp: every box a computation returns has a height inside the
/// edge-case band `[min_factor x target, max_factor x target]` of one of the
/// configured target heights.
pub proof fn lemma_height_clamp(c: CfgV, items: Seq<(int, bool)>)
    requires
        cfg_wf(c),
    ensures
        forall|i: int|
            0 <= i < compute_v(c, items).boxes.len() ==> height_in_band(
                c,
                (#[trigger] compute_v(c, items).boxes[i]).height,
            ),
{
    lemma_run_heights_ok(c, items);
    let st = run_v(c, items);
    match st.open_row {
        Some(r) => {
            if r.items.len() > 0 && c.show_widows {
                lemma_append_heights_ok(
                    c,
                    st,
                    r,
                    crate::layout::widow_height_choice(st, r),
                    r.style,
                );
            }
        },
        None => {},
    }
}

/// Idempotence: the outcome is a function of the input sequence and the
/// configuration alone, so two computations over the same data agree
/// exactly.
pub proof fn lemma_compute_deterministic(
    c: CfgV,
    items: Seq<(int, bool)>,
    r1: ResultV,
    r2: ResultV,
)
    requires
        r1 == compute_v(c, items),
        r2 == compute_v(c, items),
    ensures
        r1 == r2,
{
}

/// Breakout isolation, row level: an empty breakout row that receives a
/// landscape-or-square item absorbs it alone and finalizes at once, so the
/// row holds exactly one item.
pub proof fn lemma_breakout_isolation(r: RowV, ar: int, forced: bool)
    requires
        r.breakout,
        r.items.len() == 0,
        ar >= SCALE,
        r.status is None,
    ensures
        add_decision(r, ar).0 is Close,
        completed_row(
            RowV { items: r.items.push(pending_box(ar, forced)), ..r },
            add_decision(r, ar).1,
            WidowLayoutStyle::Justify,
        ).items.len() == 1,
{
}

/// Breakout isolation, driver level: with cadence `k`, the row opened after
/// `rows` appended rows is a breakout row exactly when it is the `k`-th.
pub proof fn lemma_breakout_cadence(c: CfgV, top: int, rows: int)
    requires
        c.cadence != 0,
    ensures
        new_row_at(c, top, rows).breakout == ((rows + 1) % c.cadence == 0),
{
}

/// Widow suppression: with widows hidden, the trailing incomplete row
/// contributes nothing — the widow count is zero and the output holds
/// exactly the boxes of the completed rows.
pub proof fn lemma_widow_suppression(c: CfgV, items: Seq<(int, bool)>)
    requires
        !c.show_widows,
    ensures
        compute_v(c, items).widows == 0,
        compute_v(c, items).boxes == run_v(c, items).boxes,
{
}

/// Partial sum of the natural widths of the first `m` items of `r` at
/// requested height `h`.
pub open spec fn nat_sum(r: RowV, h: int, m: int) -> int
    decreases m,
{
    if m <= 0 {
        0
    } else {
        nat_sum(r, h, m - 1) + fmul(r.items[m - 1].ar, h)
    }
}

proof fn lemma_base_left_sum(r: RowV, h: int, m: int)
    requires
        0 <= m,
    ensures
        crate::row::base_left_at(r, h, m) == r.left + nat_sum(r, h, m) + m * r.spacing,
    decreases m,
{
    if m > 0 {
        lemma_base_left_sum(r, h, m - 1);
        assert((m - 1) * r.spacing + r.spacing == m * r.spacing) by (nonlinear_arith);
    } else {
        assert(m * r.spacing == 0) by (nonlinear_arith)
            requires
                m == 0,
        ;
    }
}

proof fn lemma_justify_sum(r: RowV, h: int, m: int)
    requires
        1 <= r.items.len(),
        0 <= m <= r.items.len(),
    ensures
        sum_box_widths(completed_items(r, h, WidowLayoutStyle::Justify).take(m)) == nat_sum(
            r,
            h,
            m,
        ) - (if m == 0 {
            0int
        } else {
            cum_err(justify_overflow(r, h), r.items.len() as int, m - 1)
        }),
    decreases m,
{
    let done = completed_items(r, h, WidowLayoutStyle::Justify);
    if m == 0 {
        assert(done.take(0) =~= Seq::<BoxV>::empty());
    } else {
        lemma_justify_sum(r, h, m - 1);
        assert(done.take(m).drop_last() =~= done.take(m - 1));
        assert(done.take(m).last() == done[m - 1]);
        assert(done[m - 1] == completed_box_at(r, h, WidowLayoutStyle::Justify, m - 1));
    }
}

proof fn lemma_cum_last(ovf: int, n: int)
    requires
        1 <= n,
    ensures
        -(500_000int) <= ovf - cum_err(ovf, n, n - 1) < 500_000,
{
    let s = SCALE as int;
    let d = n * s;
    let num = ovf * n;
    assert(d == n * 1_000_000 && 1_000_000 <= d) by (nonlinear_arith)
        requires
            1 <= n,
            s == 1_000_000,
            d == n * s,
    ;
    let q = (num + d / 2) / d;
    assert(cum_err(ovf, n, n - 1) == rdiv(ovf * ((n - 1) + 1), n * s) * s);
    assert(ovf * ((n - 1) + 1) == num);
    vstd::arithmetic::div_mod::lemma_fundamental_div_mod(num + d / 2, d);
    let rr = (num + d / 2) % d;
    assert(d / 2 == n * 500_000) by (nonlinear_arith)
        requires
            d == n * 1_000_000,
            1 <= n,
    ;
    assert(n * (ovf + 500_000 - s * q) == rr) by (nonlinear_arith)
        requires
            num == ovf * n,
            num + n * 500_000 == (n * s) * q + rr,
            d == n * s,
            s == 1_000_000,
    ;
    assert(0 <= ovf + 500_000 - s * q < s) by (nonlinear_arith)
        requires
            n * (ovf + 500_000 - s * q) == rr,
            0 <= rr < n * s,
            1 <= n,
            s == 1_000_000,
    ;
    assert(cum_err(ovf, n, n - 1) == q * s);
    assert(q * s == s * q) by (nonlinear_arith);
}

/// Width conservation: for a row completed under the Justify style, the sum
/// of the item widths plus one gap between each pair of neighbours matches
/// the row's available width to within half a display unit.
pub proof fn lemma_justify_width_conservation(r: RowV, h: int)
    requires
        1 <= r.items.len(),
    ensures
        ({
            let n = r.items.len() as int;
            let total = sum_box_widths(completed_items(r, h, WidowLayoutStyle::Justify));
            -(500_000int) <= total + (n - 1) * r.spacing - r.width < 500_000
        }),
{
    let n = r.items.len() as int;
    let done = completed_items(r, h, WidowLayoutStyle::Justify);
    assert(done.take(n) =~= done);
    lemma_justify_sum(r, h, n);
    lemma_base_left_sum(r, h, n);
    let ovf = justify_overflow(r, h);
    assert(ovf == nat_sum(r, h, n) + (n - 1) * r.spacing - r.width) by {
        assert(cursor_end(r, h) == r.left + nat_sum(r, h, n) + n * r.spacing);
        assert(n * r.spacing - r.spacing == (n - 1) * r.spacing) by (nonlinear_arith);
    }
    lemma_cum_last(ovf, n);
}

/// The item content (ratio and forced flag) of the open row, if any.
pub open spec fn open_ars(st: StateV) -> Seq<(int, bool)> {
    match st.open_row {
        Some(r) => ars_of(r.items),
        None => Seq::empty(),
    }
}

/// The invariant behind the order law: what was placed, followed by what
/// the open row holds, is exactly the consumed input — or a prefix of it
/// once the row cap has stopped the run.
pub open spec fn state_order_ok(items: Seq<(int, bool)>, st: StateV) -> bool {
    &&& st.open_row is Some ==> !st.stopped
    &&& if st.stopped {
        ars_of(st.boxes).is_prefix_of(items)
    } else {
        ars_of(st.boxes) + open_ars(st) == items
    }
}

proof fn lemma_ars_of_push(s: Seq<BoxV>, b: BoxV)
    ensures
        ars_of(s.push(b)) == ars_of(s).push((b.ar, b.forced)),
{
    assert(ars_of(s.push(b)) =~= ars_of(s).push((b.ar, b.forced)));
}

proof fn lemma_ars_of_concat(a: Seq<BoxV>, b: Seq<BoxV>)
    ensures
        ars_of(a + b) == ars_of(a) + ars_of(b),
{
    assert(ars_of(a + b) =~= ars_of(a) + ars_of(b));
}

proof fn lemma_ars_of_completed(r: RowV, h: int, style: WidowLayoutStyle)
    ensures
        ars_of(completed_items(r, h, style)) == ars_of(r.items),
{
    assert(ars_of(completed_items(r, h, style)) =~= ars_of(r.items));
}

proof fn lemma_prefix_push(a: Seq<(int, bool)>, items: Seq<(int, bool)>, x: (int, bool))
    requires
        a.is_prefix_of(items),
    ensures
        a.is_prefix_of(items.push(x)),
{
    assert(a =~= items.push(x).take(a.len() as int));
}

proof fn lemma_step_order(c: CfgV, items: Seq<(int, bool)>, st: StateV, ar: int, forced: bool)
    requires
        state_order_ok(items, st),
    ensures
        state_order_ok(items.push((ar, forced)), step_v(c, st, ar, forced)),
{
    let x = (ar, forced);
    let item = pending_box(ar, forced);
    if st.stopped {
        lemma_prefix_push(ars_of(st.boxes), items, x);
    } else {
        let row = match st.open_row {
            Some(r) => r,
            None => new_row_at(c, st.height, st.rows),
        };
        if st.open_row is None {
            assert(row.items =~= Seq::<BoxV>::empty());
            assert(ars_of(row.items) =~= Seq::<(int, bool)>::empty());
            assert(ars_of(st.boxes) + ars_of(row.items) =~= ars_of(st.boxes));
        }
        assert(ars_of(st.boxes) + ars_of(row.items) == items);
        let d = add_decision(row, ar);
        let grown = RowV { items: row.items.push(item), ..row };
        lemma_ars_of_push(row.items, item);
        assert(ars_of(st.boxes) + ars_of(grown.items) =~= items.push(x));
        match d.0 {
            DecisionKind::Grow => {},
            DecisionKind::Close => {
                let st1 = append_row_v(c, st, grown, d.1, WidowLayoutStyle::Justify);
                lemma_ars_of_completed(grown, d.1, WidowLayoutStyle::Justify);
                lemma_ars_of_concat(st.boxes, completed_items(grown, d.1, WidowLayoutStyle::Justify));
                assert(ars_of(st1.boxes) =~= items.push(x));
                if st1.rows >= c.max_rows {
                    assert(ars_of(st1.boxes).is_prefix_of(items.push(x))) by {
                        assert(ars_of(st1.boxes) =~= items.push(x).take(
                            ars_of(st1.boxes).len() as int,
                        ));
                    }
                } else {
                    assert(ars_of(st1.boxes) + open_ars(cap_check(c, st1)) =~= items.push(x));
                }
            },
            DecisionKind::Bounce => {
                let st1 = append_row_v(c, st, row, d.1, WidowLayoutStyle::Justify);
                lemma_ars_of_completed(row, d.1, WidowLayoutStyle::Justify);
                lemma_ars_of_concat(st.boxes, completed_items(row, d.1, WidowLayoutStyle::Justify));
                assert(ars_of(st1.boxes) =~= items);
                if st1.rows >= c.max_rows {
                    assert(ars_of(st1.boxes).is_prefix_of(items.push(x))) by {
                        assert(ars_of(st1.boxes) =~= items.push(x).take(
                            ars_of(st1.boxes).len() as int,
                        ));
                    }
                } else {
                    let row2 = new_row_at(c, st1.height, st1.rows);
                    let d2 = add_decision(row2, ar);
                    let grown2 = RowV { items: row2.items.push(item), ..row2 };
                    lemma_ars_of_push(row2.items, item);
                    assert(ars_of(grown2.items) =~= seq![x]);
                    match d2.0 {
                        DecisionKind::Grow => {
                            assert(ars_of(st1.boxes) + ars_of(grown2.items) =~= items.push(x));
                        },
                        DecisionKind::Close => {
                            let st2 = append_row_v(
                                c,
                                st1,
                                grown2,
                                d2.1,
                                WidowLayoutStyle::Justify,
                            );
                            lemma_ars_of_completed(grown2, d2.1, WidowLayoutStyle::Justify);
                            lemma_ars_of_concat(
                                st1.boxes,
                                completed_items(grown2, d2.1, WidowLayoutStyle::Justify),
                            );
                            assert(ars_of(st2.boxes) =~= items.push(x));
                            if st2.rows >= c.max_rows {
                                assert(ars_of(st2.boxes).is_prefix_of(items.push(x))) by {
                                    assert(ars_of(st2.boxes) =~= items.push(x).take(
                                        ars_of(st2.boxes).len() as int,
                                    ));
                                }
                            } else {
                                assert(ars_of(st2.boxes) + open_ars(cap_check(c, st2)) =~= items.push(
                                    x,
                                ));
                            }
                        },
                        DecisionKind::Bounce => {
                            assert(false);
                        },
                    }
                }
            },
        }
    }
}

proof fn lemma_run_order(c: CfgV, items: Seq<(int, bool)>)
    ensures
        state_order_ok(items, run_v(c, items)),
    decreases items.len(),
{
    if items.len() == 0 {
        assert(ars_of(run_v(c, items).boxes) =~= Seq::<(int, bool)>::empty());
        if init_v(c).stopped {
            assert(Seq::<(int, bool)>::empty() =~= items.take(0));
        } else {
            assert(ars_of(init_v(c).boxes) + open_ars(init_v(c)) =~= items);
        }
    } else {
        lemma_run_order(c, items.drop_last());
        lemma_step_order(
            c,
            items.drop_last(),
            run_v(c, items.drop_last()),
            items.last().0,
            items.last().1,
        );
        assert(items.drop_last().push(items.last()) =~= items);
    }
}

/// Order preservation: the output boxes carry the input ratios in input
/// order — box `i` holds the `i`-th effective ratio and forced flag — and
/// never more boxes than inputs.
pub proof fn lemma_order_preservation(c: CfgV, items: Seq<(int, bool)>)
    ensures
        compute_v(c, items).boxes.len() <= items.len(),
        forall|i: int|
            0 <= i < compute_v(c, items).boxes.len() ==> ((#[trigger] compute_v(
                c,
                items,
            ).boxes[i]).ar, compute_v(c, items).boxes[i].forced) == items[i],
{
    lemma_run_order(c, items);
    let st = run_v(c, items);
    let out = compute_v(c, items);
    match st.open_row {
        Some(r) => {
            if r.items.len() > 0 && c.show_widows {
                let st1 = append_row_v(
                    c,
                    st,
                    r,
                    crate::layout::widow_height_choice(st, r),
                    r.style,
                );
                lemma_ars_of_completed(r, crate::layout::widow_height_choice(st, r), r.style);
                lemma_ars_of_concat(
                    st.boxes,
                    completed_items(r, crate::layout::widow_height_choice(st, r), r.style),
                );
                assert(ars_of(st1.boxes) =~= items);
                assert(forall|i: int|
                    0 <= i < out.boxes.len() ==> ((#[trigger] out.boxes[i]).ar,
                    out.boxes[i].forced) == items[i]) by {
                    assert(forall|i: int|
                        0 <= i < out.boxes.len() ==> ars_of(out.boxes)[i] == ((#[trigger] out.boxes[i]).ar,
                        out.boxes[i].forced));
                }
            } else {
                lemma_final_prefix(items, st, out);
            }
        },
        None => {
            lemma_final_prefix(items, st, out);
        },
    }
}

proof fn lemma_final_prefix(items: Seq<(int, bool)>, st: StateV, out: ResultV)
    requires
        state_order_ok(items, st),
        out.boxes == st.boxes,
    ensures
        out.boxes.len() <= items.len(),
        forall|i: int|
            0 <= i < out.boxes.len() ==> ((#[trigger] out.boxes[i]).ar, out.boxes[i].forced)
                == items[i],
{
    if st.stopped {
        assert(ars_of(st.boxes) == items.take(ars_of(st.boxes).len() as int));
        assert(forall|i: int|
            0 <= i < out.boxes.len() ==> ars_of(out.boxes)[i] == ((#[trigger] out.boxes[i]).ar,
            out.boxes[i].forced));
    } else {
        assert(ars_of(st.boxes) + open_ars(st) == items);
        assert(forall|i: int|
            0 <= i < out.boxes.len() ==> ars_of(out.boxes)[i] == ((#[trigger] out.boxes[i]).ar,
            out.boxes[i].forced));
        assert(forall|i: int|
            0 <= i < out.boxes.len() ==> (ars_of(st.boxes) + open_ars(st))[i] == ars_of(
                st.boxes,
            )[i]);
    }
}

} // verus!
