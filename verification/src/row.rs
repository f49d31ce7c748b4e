//! A single row of the justified grid: the accumulator that decides whether
//! an incoming item is absorbed, rejected, or absorbed-and-closes-the-row,
//! and the completion step that assigns final geometry to every item.

use crate::fixed::{
    abs_i, abs_i128, clamp_i128, clamp_val, fmul, fmul_i128, fquot, fquot_i128,
    lemma_div_bound, lemma_mul_abs_bound, lemma_rdiv_bound, rdiv, rdiv_i128, SCALE, VAL_LIMIT,
};
use vstd::prelude::*;

verus! {

/// Largest configuration dimension (widths, paddings, spacings, targets).
pub const DIM_LIMIT: i128 = 1_000_000_000_000;

/// Largest accepted aspect ratio (a thousand display units of width per unit
/// of height).
pub const RATIO_LIMIT: i128 = 1_000_000_000;

/// Largest number of items a single computation accepts.
pub const COUNT_LIMIT: usize = 10_000;

/// Bound on a row's top coordinate (the running container height).
pub const TOP_LIMIT: i128 = 10_000_000_000_000_000_000;

/// Bound on the height clamps a row is created with.
pub const EDGE_LIMIT: i128 = 100_000_000_000_000;

/// Bound on the height a completion may be asked for.
pub const HEIGHT_REQ_LIMIT: i128 = 100_000_000_000_000_000_000_000;

/// Bound on one natural item width.
pub const NAT_W_LIMIT: i128 = 200_000_000_000_000_000_000_000_000;

/// Bound on one natural item width plus one gap, used while walking a row.
pub const STEP_LIMIT: i128 = 300_000_000_000_000_000_000_000_000;

/// Bound on the placement cursor of a row.
pub const CURSOR_LIMIT: i128 = 4_000_000_000_000_000_000_000_000_000_000;

/// Bound on the justify overflow of a row.
pub const OVF_LIMIT: i128 = 5_000_000_000_000_000_000_000_000_000_000;

/// Bound on a cumulative justify correction.
pub const CUM_LIMIT: i128 = 60_000_000_000_000_000_000_000_000_000_000_000;

/// Placement policy for a row that is force-completed as a widow row.
#[derive(Debug, Copy, Clone, PartialEq, Eq, Structural)]
pub enum WidowLayoutStyle {
    Justify,
    Center,
    Left,
}

/// One placed (or pending) element of the grid.
#[derive(Debug, Copy, Clone, PartialEq, Eq, Structural)]
pub struct LayoutItem {
    pub aspect_ratio: i128,
    pub top: i128,
    pub left: i128,
    pub width: i128,
    pub height: i128,
    pub forced_aspect_ratio: bool,
}

/// Mathematical image of a `LayoutItem`.
#[verifier::ext_equal]
pub ghost struct BoxV {
    pub ar: int,
    pub top: int,
    pub left: int,
    pub width: int,
    pub height: int,
    pub forced: bool,
}

impl View for LayoutItem {
    type V = BoxV;

    open spec fn view(&self) -> BoxV {
        BoxV {
            ar: self.aspect_ratio as int,
            top: self.top as int,
            left: self.left as int,
            width: self.width as int,
            height: self.height as int,
            forced: self.forced_aspect_ratio,
        }
    }
}

impl Default for LayoutItem {
    /// A pending square item with no geometry assigned yet.
    fn default() -> (d: Self)
        ensures
            d == (LayoutItem {
                aspect_ratio: SCALE,
                top: 0,
                left: 0,
                width: 0,
                height: 0,
                forced_aspect_ratio: false,
            }),
    {
        LayoutItem {
            aspect_ratio: SCALE,
            top: 0,
            left: 0,
            width: 0,
            height: 0,
            forced_aspect_ratio: false,
        }
    }
}

/// Whether the row is still accepting items or has received its one
/// completion step (carrying the final row height).
#[derive(Debug, Copy, Clone, PartialEq, Eq, Structural)]
pub enum RowStatus {
    Open,
    Finalized(i128),
}

/// Mathematical image of a `Row`.  `status` is `None` while the row is open
/// and `Some(height)` once it is finalized.
#[verifier::ext_equal]
pub ghost struct RowV {
    pub top: int,
    pub left: int,
    pub width: int,
    pub spacing: int,
    pub target: int,
    pub tol: int,
    pub edge_min: int,
    pub edge_max: int,
    pub style: WidowLayoutStyle,
    pub breakout: bool,
    pub items: Seq<BoxV>,
    pub status: Option<int>,
}

/// Accumulator for one line of the grid.
#[derive(Debug, Clone)]
pub struct Row {
    pub top: i128,
    pub left: i128,
    pub width: i128,
    pub spacing: i128,
    pub target_row_height: i128,
    pub target_row_height_tolerance: i128,
    pub edge_case_min_row_height: i128,
    pub edge_case_max_row_height: i128,
    pub widow_layout_style: WidowLayoutStyle,
    pub is_breakout_row: bool,
    pub items: Vec<LayoutItem>,
    pub ratio_sum: i128,
    pub status: RowStatus,
}

impl View for Row {
    type V = RowV;

    open spec fn view(&self) -> RowV {
        RowV {
            top: self.top as int,
            left: self.left as int,
            width: self.width as int,
            spacing: self.spacing as int,
            target: self.target_row_height as int,
            tol: self.target_row_height_tolerance as int,
            edge_min: self.edge_case_min_row_height as int,
            edge_max: self.edge_case_max_row_height as int,
            style: self.widow_layout_style,
            breakout: self.is_breakout_row,
            items: self.items@.map_values(|it: LayoutItem| it@),
            status: match self.status {
                RowStatus::Open => None,
                RowStatus::Finalized(h) => Some(h as int),
            },
        }
    }
}

/// Sum of the aspect ratios of a row's items.
pub open spec fn sum_ars(items: Seq<BoxV>) -> int
    decreases items.len(),
{
    if items.len() == 0 {
        0
    } else {
        sum_ars(items.drop_last()) + items.last().ar
    }
}

/// Every aspect ratio of `items` lies in `[1, RATIO_LIMIT]`.
pub open spec fn ars_in_range(items: Seq<BoxV>) -> bool {
    forall|i: int| 0 <= i < items.len() ==> 1 <= #[trigger] items[i].ar <= RATIO_LIMIT
}

/// The parameters a row is created with, in range; holds while items come
/// and go.
pub open spec fn row_wf(r: RowV) -> bool {
    &&& 0 < r.width <= DIM_LIMIT
    &&& 0 <= r.left <= DIM_LIMIT
    &&& 0 <= r.spacing <= DIM_LIMIT
    &&& -TOP_LIMIT <= r.top <= TOP_LIMIT
    &&& SCALE <= r.target <= DIM_LIMIT
    &&& 0 <= r.tol <= SCALE
    &&& 1 <= r.edge_min <= r.edge_max <= EDGE_LIMIT
    &&& r.items.len() <= COUNT_LIMIT
    &&& ars_in_range(r.items)
}

impl Row {
    /// Full well-formedness of the machine row: parameters in range and the
    /// cached ratio sum consistent with the items.
    pub open spec fn wf(self) -> bool {
        &&& row_wf(self@)
        &&& self.ratio_sum == sum_ars(self@.items)
    }
}

proof fn lemma_sum_ars_bounds(items: Seq<BoxV>)
    requires
        ars_in_range(items),
    ensures
        items.len() <= sum_ars(items) <= items.len() * (RATIO_LIMIT as int),
    decreases items.len(),
{
    if items.len() > 0 {
        lemma_sum_ars_bounds(items.drop_last());
        lemma_mul_abs_bound(
            items.len() - 1,
            items.len() - 1,
            RATIO_LIMIT as int,
            RATIO_LIMIT as int,
        );
        assert((items.len() - 1) * (RATIO_LIMIT as int) + RATIO_LIMIT == items.len() * (
        RATIO_LIMIT as int)) by (nonlinear_arith);
    }
}

/// Smallest combined aspect ratio at which the row counts as full.
pub open spec fn row_min_ar(r: RowV) -> int {
    fmul(fquot(r.width, r.target), SCALE - r.tol)
}

/// Largest combined aspect ratio the tolerance band allows.
pub open spec fn row_max_ar(r: RowV) -> int {
    fmul(fquot(r.width, r.target), SCALE + r.tol)
}

/// Row width available to `n` items once the gaps between them are taken out.
pub open spec fn rwws(r: RowV, n: int) -> int {
    r.width - r.spacing * (n - 1)
}

/// What `add_item` decides for a candidate ratio.
#[derive(Debug, Copy, Clone, PartialEq, Eq, Structural)]
pub enum DecisionKind {
    /// Absorb the item and stay open.
    Grow,
    /// Absorb the item and finalize the row.
    Close,
    /// Finalize the row without the item and hand it back.
    Bounce,
}

/// The packing decision for adding `ar` to open row `r`, with the height the
/// row is finalized at when the decision closes it (0 when it stays open).
pub open spec fn add_decision(r: RowV, ar: int) -> (DecisionKind, int) {
    let n = r.items.len() as int;
    let sum_prev = sum_ars(r.items);
    let sum_new = sum_prev + ar;
    let w_new = rwws(r, n + 1);
    if r.breakout && n == 0 && ar >= SCALE {
        (DecisionKind::Close, fquot(w_new, ar))
    } else if sum_new < row_min_ar(r) {
        (DecisionKind::Grow, 0)
    } else if sum_new > row_max_ar(r) {
        if n == 0 {
            (DecisionKind::Close, fquot(w_new, sum_new))
        } else {
            let w_prev = rwws(r, n);
            if abs_i(sum_new - fquot(w_new, r.target)) > abs_i(
                sum_prev - fquot(w_prev, r.target),
            ) {
                (DecisionKind::Bounce, fquot(w_prev, sum_prev))
            } else {
                (DecisionKind::Close, fquot(w_new, sum_new))
            }
        }
    } else {
        (DecisionKind::Close, fquot(w_new, sum_new))
    }
}

/// Left edge of item `i` (or the cursor after the last item, for `i == len`)
/// when each item takes its natural width at requested height `h`.
pub open spec fn base_left_at(r: RowV, h: int, i: int) -> int
    decreases i,
{
    if i <= 0 {
        r.left
    } else {
        base_left_at(r, h, i - 1) + fmul(r.items[i - 1].ar, h) + r.spacing
    }
}

/// Cursor after the last item of the naturally-placed row.
pub open spec fn cursor_end(r: RowV, h: int) -> int {
    base_left_at(r, h, r.items.len() as int)
}

/// How far the naturally-placed row over- or undershoots the available width.
pub open spec fn justify_overflow(r: RowV, h: int) -> int {
    cursor_end(r, h) - r.spacing - r.left - r.width
}

/// Cumulative rounding correction after item `i` (0-based) when overflow
/// `ovf` is spread over `n` items: the per-item share times `i + 1`, rounded
/// to a whole display unit.
pub open spec fn cum_err(ovf: int, n: int, i: int) -> int {
    rdiv(ovf * (i + 1), n * (SCALE as int)) * (SCALE as int)
}

/// Final geometry of item `i` after completing row `r` at requested height
/// `h` under `style`.
pub open spec fn completed_box_at(r: RowV, h: int, style: WidowLayoutStyle, i: int) -> BoxV {
    let ch = clamp_val(h, r.edge_min, r.edge_max);
    let n = r.items.len() as int;
    let bw = fmul(r.items[i].ar, h);
    let bl = base_left_at(r, h, i);
    match style {
        WidowLayoutStyle::Left => BoxV {
            ar: r.items[i].ar,
            forced: r.items[i].forced,
            top: r.top,
            height: ch,
            width: bw,
            left: bl,
        },
        WidowLayoutStyle::Center => BoxV {
            ar: r.items[i].ar,
            forced: r.items[i].forced,
            top: r.top,
            height: ch,
            width: bw,
            left: bl + rdiv(r.width - cursor_end(r, h), 2) + r.spacing,
        },
        WidowLayoutStyle::Justify => {
            let ovf = justify_overflow(r, h);
            let prev = if i == 0 {
                0
            } else {
                cum_err(ovf, n, i - 1)
            };
            BoxV {
                ar: r.items[i].ar,
                forced: r.items[i].forced,
                top: r.top,
                height: ch,
                width: bw - (cum_err(ovf, n, i) - prev),
                left: bl - prev,
            }
        },
    }
}

/// All items of row `r` after completion at requested height `h`.
pub open spec fn completed_items(r: RowV, h: int, style: WidowLayoutStyle) -> Seq<BoxV> {
    Seq::new(r.items.len(), |i: int| completed_box_at(r, h, style, i))
}

/// The whole row after completion.
pub open spec fn completed_row(r: RowV, h: int, style: WidowLayoutStyle) -> RowV {
    RowV {
        items: completed_items(r, h, style),
        status: Some(clamp_val(h, r.edge_min, r.edge_max)),
        ..r
    }
}

/// Geometry of item `i` right after the natural placement pass, before any
/// style correction: natural width at the requested height, left edges
/// advancing by width plus spacing.
pub open spec fn base_box_at(r: RowV, h: int, i: int) -> BoxV {
    BoxV {
        ar: r.items[i].ar,
        forced: r.items[i].forced,
        top: r.top,
        height: clamp_val(h, r.edge_min, r.edge_max),
        width: fmul(r.items[i].ar, h),
        left: base_left_at(r, h, i),
    }
}

/// The chosen style, defaulting to left alignment.
pub open spec fn style_or_left(s: Option<WidowLayoutStyle>) -> WidowLayoutStyle {
    match s {
        Some(x) => x,
        None => WidowLayoutStyle::Left,
    }
}

/// The natural width of an in-range item at an in-range height stays under
/// one cursor step.
proof fn lemma_nat_width_bound(ar: int, h: int)
    requires
        1 <= ar <= RATIO_LIMIT,
        -HEIGHT_REQ_LIMIT <= h <= HEIGHT_REQ_LIMIT,
    ensures
        -NAT_W_LIMIT <= fmul(ar, h) <= NAT_W_LIMIT,
{
    lemma_mul_abs_bound(ar, RATIO_LIMIT as int, h, HEIGHT_REQ_LIMIT as int);
    lemma_rdiv_bound(ar * h, SCALE as int, (RATIO_LIMIT as int) * (HEIGHT_REQ_LIMIT as int));
}

/// The natural placement cursor drifts from the row's left edge by at most
/// one step per item.
proof fn lemma_base_left_bound(r: RowV, h: int, i: int)
    requires
        row_wf(r),
        -HEIGHT_REQ_LIMIT <= h <= HEIGHT_REQ_LIMIT,
        0 <= i <= r.items.len(),
    ensures
        -(i * (STEP_LIMIT as int)) <= base_left_at(r, h, i) - r.left <= i * (STEP_LIMIT as int),
    decreases i,
{
    if i > 0 {
        lemma_base_left_bound(r, h, i - 1);
        assert(1 <= r.items[i - 1].ar <= RATIO_LIMIT);
        lemma_nat_width_bound(r.items[i - 1].ar, h);
    }
}

/// The height a force-completion finalizes at: the given one, or the row's
/// own target height when none is given.
pub open spec fn force_height_of(r: RowV, row_height: Option<i128>) -> int {
    match row_height {
        Some(h) => h as int,
        None => r.target,
    }
}

proof fn lemma_sum_ars_push(s: Seq<BoxV>, b: BoxV)
    ensures
        sum_ars(s.push(b)) == sum_ars(s) + b.ar,
{
    assert(s.push(b).drop_last() =~= s);
    assert(s.push(b).last() == b);
}

proof fn lemma_sum_ars_pointwise(a: Seq<BoxV>, b: Seq<BoxV>)
    requires
        a.len() == b.len(),
        forall|i: int| 0 <= i < a.len() ==> a[i].ar == b[i].ar,
    ensures
        sum_ars(a) == sum_ars(b),
    decreases a.len(),
{
    if a.len() > 0 {
        assert(forall|i: int|
            0 <= i < a.len() - 1 ==> a.drop_last()[i].ar == b.drop_last()[i].ar);
        lemma_sum_ars_pointwise(a.drop_last(), b.drop_last());
        assert(a.last().ar == b.last().ar);
    }
}

impl Row {
    /// Smallest combined aspect ratio at which this row counts as full.
    pub fn min_aspect_ratio(&self) -> (r: i128)
        requires
            self.wf(),
        ensures
            r == row_min_ar(self@),
    {
        let q = fquot_i128(self.width, self.target_row_height);
        proof {
            lemma_rdiv_bound(
                self.width * (SCALE as int),
                self.target_row_height as int,
                1_000_000_000_000_000_000,
            );
            lemma_div_bound(1_000_000_000_000_000_000, self.target_row_height as int);
            lemma_mul_abs_bound(
                q as int,
                1_000_000_000_000_000_001,
                (SCALE - self.target_row_height_tolerance) as int,
                2 * (SCALE as int),
            );
        }
        fmul_i128(q, SCALE - self.target_row_height_tolerance)
    }

    /// Largest combined aspect ratio the tolerance band allows.
    pub fn max_aspect_ratio(&self) -> (r: i128)
        requires
            self.wf(),
        ensures
            r == row_max_ar(self@),
    {
        let q = fquot_i128(self.width, self.target_row_height);
        proof {
            lemma_rdiv_bound(
                self.width * (SCALE as int),
                self.target_row_height as int,
                1_000_000_000_000_000_000,
            );
            lemma_div_bound(1_000_000_000_000_000_000, self.target_row_height as int);
            lemma_mul_abs_bound(
                q as int,
                1_000_000_000_000_000_001,
                (SCALE + self.target_row_height_tolerance) as int,
                2 * (SCALE as int),
            );
        }
        fmul_i128(q, SCALE + self.target_row_height_tolerance)
    }

    /// Whether the row has been finalized.
    pub fn is_layout_complete(&self) -> (r: bool)
        ensures
            r == (self@.status is Some),
    {
        match self.status {
            RowStatus::Open => false,
            RowStatus::Finalized(_) => true,
        }
    }

    /// The row's items, in order.
    pub fn get_items(&self) -> (r: &[LayoutItem])
        ensures
            r@ == self.items@,
            r@.map_values(|it: LayoutItem| it@) == self@.items,
    {
        self.items.as_slice()
    }

    /// Finalize the row at the requested height: clamp the height into the
    /// row's edge-case band, give every item its natural width at the
    /// requested height, then correct the placement per the given style
    /// (left alignment when none is given).
    ///
    /// When the clamp changes the height, each width is scaled by the ratio
    /// of the per-height row capacities, `(w / clamped) / (w / requested)`;
    /// that factor is `requested / clamped`, so an item's width is its
    /// aspect ratio times the requested height in every case, and only the
    /// height itself moves to the clamped value.
    pub fn complete_layout(
        &mut self,
        new_height: i128,
        widow_layout_style: Option<WidowLayoutStyle>,
    )
        requires
            old(self).wf(),
            old(self)@.status is None,
            1 <= old(self).items@.len(),
            -HEIGHT_REQ_LIMIT <= new_height <= HEIGHT_REQ_LIMIT,
        ensures
            final(self)@ == completed_row(
                old(self)@,
                new_height as int,
                style_or_left(widow_layout_style),
            ),
            final(self).ratio_sum == old(self).ratio_sum,
            final(self).wf(),
    {
        let ghost r0 = old(self)@;
        let ghost h = new_height as int;
        let style = match widow_layout_style {
            Some(s) => s,
            None => WidowLayoutStyle::Left,
        };
        let n = self.items.len();
        let ch = clamp_i128(
            new_height,
            self.edge_case_min_row_height,
            self.edge_case_max_row_height,
        );

        let mut cursor: i128 = self.left;
        let mut idx: usize = 0;
        while idx < n
            invariant
                old(self).wf(),
                -HEIGHT_REQ_LIMIT <= new_height <= HEIGHT_REQ_LIMIT,
                r0 == old(self)@,
                h == new_height as int,
                n == self.items.len(),
                n == old(self).items.len(),
                1 <= n <= COUNT_LIMIT,
                0 <= idx <= n,
                self@ == (RowV { items: self@.items, ..r0 }),
                self.ratio_sum == old(self).ratio_sum,
                ch == clamp_val(h, r0.edge_min, r0.edge_max),
                forall|j: int| idx <= j < n ==> self.items@[j] == old(self).items@[j],
                forall|j: int| 0 <= j < idx ==> (#[trigger] self.items@[j])@ == base_box_at(
                    r0,
                    h,
                    j,
                ),
                cursor == base_left_at(r0, h, idx as int),
                -(idx * (STEP_LIMIT as int)) <= cursor - r0.left <= idx * (STEP_LIMIT as int),
            decreases n - idx,
        {
            let ar = self.items[idx].aspect_ratio;
            proof {
                assert(self.items@[idx as int]@ == r0.items[idx as int]);
                assert(1 <= r0.items[idx as int].ar <= RATIO_LIMIT);
                lemma_mul_abs_bound(
                    ar as int,
                    RATIO_LIMIT as int,
                    new_height as int,
                    HEIGHT_REQ_LIMIT as int,
                );
            }
            let w = fmul_i128(ar, new_height);
            proof {
                lemma_rdiv_bound(
                    ar as int * new_height as int,
                    SCALE as int,
                    (RATIO_LIMIT as int) * (HEIGHT_REQ_LIMIT as int),
                );
            }
            let it = LayoutItem {
                aspect_ratio: ar,
                top: self.top,
                left: cursor,
                width: w,
                height: ch,
                forced_aspect_ratio: self.items[idx].forced_aspect_ratio,
            };
            self.items[idx] = it;
            cursor = cursor + w + self.spacing;
            idx = idx + 1;
        }

        match style {
            WidowLayoutStyle::Justify => {
                let occupied = cursor - self.spacing - self.left;
                let ovf = occupied - self.width;
                proof {
                    assert(ovf == justify_overflow(r0, h));
                    assert(-OVF_LIMIT <= ovf <= OVF_LIMIT);
                }
                let denom = (n as i128) * SCALE;
                let mut prev: i128 = 0;
                let mut i: usize = 0;
                while i < n
                    invariant
                        old(self).wf(),
                        -HEIGHT_REQ_LIMIT <= new_height <= HEIGHT_REQ_LIMIT,
                        r0 == old(self)@,
                        h == new_height as int,
                        n == self.items.len(),
                        n == r0.items.len(),
                        1 <= n <= COUNT_LIMIT,
                        0 <= i <= n,
                        self@ == (RowV { items: self@.items, ..r0 }),
                        self.ratio_sum == old(self).ratio_sum,
                        ch == clamp_val(h, r0.edge_min, r0.edge_max),
                        ovf == justify_overflow(r0, h),
                        -OVF_LIMIT <= ovf <= OVF_LIMIT,
                        denom == n as int * (SCALE as int),
                        prev == if i == 0 {
                            0int
                        } else {
                            cum_err(ovf as int, n as int, i - 1)
                        },
                        -CUM_LIMIT <= prev <= CUM_LIMIT,
                        forall|j: int| i <= j < n ==> (#[trigger] self.items@[j])@ == base_box_at(
                            r0,
                            h,
                            j,
                        ),
                        forall|j: int| 0 <= j < i ==> (#[trigger] self.items@[j])@
                            == completed_box_at(r0, h, WidowLayoutStyle::Justify, j),
                    decreases n - i,
                {
                    proof {
                        lemma_mul_abs_bound(
                            ovf as int,
                            OVF_LIMIT as int,
                            i + 1,
                            COUNT_LIMIT as int,
                        );
                    }
                    let q = rdiv_i128(ovf * (i as i128 + 1), denom);
                    proof {
                        lemma_rdiv_bound(
                            ovf as int * (i + 1),
                            denom as int,
                            (OVF_LIMIT as int) * (COUNT_LIMIT as int),
                        );
                        vstd::arithmetic::div_mod::lemma_div_is_ordered_by_denominator(
                            (OVF_LIMIT as int) * (COUNT_LIMIT as int),
                            SCALE as int,
                            denom as int,
                        );
                        lemma_mul_abs_bound(
                            q as int,
                            (OVF_LIMIT as int) * (COUNT_LIMIT as int) / (SCALE as int) + 1,
                            SCALE as int,
                            SCALE as int,
                        );
                    }
                    let c = q * SCALE;
                    proof {
                        assert(c == cum_err(ovf as int, n as int, i as int));
                        assert(self.items@[i as int]@ == base_box_at(r0, h, i as int));
                        assert(1 <= r0.items[i as int].ar <= RATIO_LIMIT);
                        lemma_base_left_bound(r0, h, i as int);
                        lemma_nat_width_bound(r0.items[i as int].ar, h);
                    }
                    let it_old = self.items[i];
                    let it = LayoutItem {
                        aspect_ratio: it_old.aspect_ratio,
                        top: it_old.top,
                        left: it_old.left - prev,
                        width: it_old.width - (c - prev),
                        height: it_old.height,
                        forced_aspect_ratio: it_old.forced_aspect_ratio,
                    };
                    self.items[i] = it;
                    prev = c;
                    i = i + 1;
                }
            },
            WidowLayoutStyle::Center => {
                proof {
                    lemma_rdiv_bound(
                        r0.width - cursor_end(r0, h),
                        2,
                        2 * CURSOR_LIMIT as int,
                    );
                }
                let off = rdiv_i128(self.width - cursor, 2);
                let spacing = self.spacing;
                let mut i: usize = 0;
                while i < n
                    invariant
                        old(self).wf(),
                        -HEIGHT_REQ_LIMIT <= new_height <= HEIGHT_REQ_LIMIT,
                        r0 == old(self)@,
                        h == new_height as int,
                        n == self.items.len(),
                        n == r0.items.len(),
                        1 <= n <= COUNT_LIMIT,
                        0 <= i <= n,
                        self@ == (RowV { items: self@.items, ..r0 }),
                        self.ratio_sum == old(self).ratio_sum,
                        ch == clamp_val(h, r0.edge_min, r0.edge_max),
                        spacing == r0.spacing,
                        off == rdiv(r0.width - cursor_end(r0, h), 2),
                        -VAL_LIMIT <= off <= VAL_LIMIT,
                        forall|j: int| i <= j < n ==> (#[trigger] self.items@[j])@ == base_box_at(
                            r0,
                            h,
                            j,
                        ),
                        forall|j: int| 0 <= j < i ==> (#[trigger] self.items@[j])@
                            == completed_box_at(r0, h, WidowLayoutStyle::Center, j),
                    decreases n - i,
                {
                    proof {
                        assert(self.items@[i as int]@ == base_box_at(r0, h, i as int));
                        lemma_base_left_bound(r0, h, i as int);
                    }
                    let it_old = self.items[i];
                    let it = LayoutItem {
                        aspect_ratio: it_old.aspect_ratio,
                        top: it_old.top,
                        left: it_old.left + off + spacing,
                        width: it_old.width,
                        height: it_old.height,
                        forced_aspect_ratio: it_old.forced_aspect_ratio,
                    };
                    self.items[i] = it;
                    i = i + 1;
                }
            },
            WidowLayoutStyle::Left => {},
        }

        self.status = RowStatus::Finalized(ch);
        proof {
            assert(self@.items =~= completed_items(r0, h, style));
            assert(self@ =~= completed_row(r0, h, style));
            lemma_sum_ars_pointwise(self@.items, r0.items);
        }
    }

    /// Finalize the row under its own widow style, at the given height or at
    /// the row's target height when none is given.
    pub fn force_complete(&mut self, _fit_to_width: bool, row_height: Option<i128>)
        requires
            old(self).wf(),
            old(self)@.status is None,
            1 <= old(self).items@.len(),
            row_height matches Some(hh) ==> -HEIGHT_REQ_LIMIT <= hh <= HEIGHT_REQ_LIMIT,
        ensures
            final(self).wf(),
            final(self)@ == completed_row(
                old(self)@,
                force_height_of(old(self)@, row_height),
                old(self)@.style,
            ),
    {
        let s = self.widow_layout_style;
        match row_height {
            Some(h) => self.complete_layout(h, Some(s)),
            None => {
                let t = self.target_row_height;
                self.complete_layout(t, Some(s))
            },
        }
    }

    /// Decide the fate of one incoming item: absorb it and stay open, absorb
    /// it and finalize, or finalize without it and hand it back.
    pub fn add_item(&mut self, item_data: LayoutItem) -> (res: Result<(), LayoutItem>)
        requires
            old(self).wf(),
            old(self)@.status is None,
            old(self).items@.len() < COUNT_LIMIT,
            1 <= item_data.aspect_ratio <= RATIO_LIMIT,
        ensures
            final(self).wf(),
            ({
                let d = add_decision(old(self)@, item_data.aspect_ratio as int);
                let grown = RowV { items: old(self)@.items.push(item_data@), ..old(self)@ };
                match d.0 {
                    DecisionKind::Grow => res is Ok && final(self)@ == grown,
                    DecisionKind::Close => res is Ok && final(self)@ == completed_row(
                        grown,
                        d.1,
                        WidowLayoutStyle::Justify,
                    ),
                    DecisionKind::Bounce => res == Result::<(), LayoutItem>::Err(item_data)
                        && final(self)@ == completed_row(old(self)@, d.1, WidowLayoutStyle::Justify),
                }
            }),
    {
        let ghost r0 = old(self)@;
        let ghost grown = RowV { items: r0.items.push(item_data@), ..r0 };
        let n = self.items.len();
        proof {
            lemma_sum_ars_bounds(r0.items);
            lemma_mul_abs_bound(
                self.spacing as int,
                DIM_LIMIT as int,
                n as int,
                COUNT_LIMIT as int,
            );
        }
        let rwws_new = self.width - self.spacing * (n as i128);
        let sum_new = self.ratio_sum + item_data.aspect_ratio;

        if self.is_breakout_row && n == 0 && item_data.aspect_ratio >= SCALE {
            self.items.push(item_data);
            self.ratio_sum = sum_new;
            proof {
                assert(self@.items =~= grown.items);
                assert(self@ =~= grown);
                lemma_sum_ars_push(r0.items, item_data@);
            }
            let h = fquot_i128(rwws_new, item_data.aspect_ratio);
            proof {
                lemma_rdiv_bound(
                    rwws_new as int * (SCALE as int),
                    item_data.aspect_ratio as int,
                    20_000_000_000_000_000_000_000,
                );
                lemma_div_bound(20_000_000_000_000_000_000_000, item_data.aspect_ratio as int);
            }
            self.complete_layout(h, Some(WidowLayoutStyle::Justify));
            return Ok(());
        }
        let min_ar = self.min_aspect_ratio();
        let max_ar = self.max_aspect_ratio();
        if sum_new < min_ar {
            self.items.push(item_data);
            self.ratio_sum = sum_new;
            proof {
                assert(self@.items =~= grown.items);
                assert(self@ =~= grown);
                lemma_sum_ars_push(r0.items, item_data@);
            }
            return Ok(());
        }
        if sum_new > max_ar {
            if n == 0 {
                self.items.push(item_data);
                self.ratio_sum = sum_new;
                proof {
                    assert(self@.items =~= grown.items);
                    assert(self@ =~= grown);
                    lemma_sum_ars_push(r0.items, item_data@);
                }
                let h = fquot_i128(rwws_new, sum_new);
                proof {
                    lemma_rdiv_bound(
                        rwws_new as int * (SCALE as int),
                        sum_new as int,
                        20_000_000_000_000_000_000_000,
                    );
                    lemma_div_bound(20_000_000_000_000_000_000_000, sum_new as int);
                }
                self.complete_layout(h, Some(WidowLayoutStyle::Justify));
                return Ok(());
            }
            proof {
                lemma_mul_abs_bound(
                    self.spacing as int,
                    DIM_LIMIT as int,
                    n as int - 1,
                    COUNT_LIMIT as int,
                );
            }
            let rwws_prev = self.width - self.spacing * (n as i128 - 1);
            let tar_new = fquot_i128(rwws_new, self.target_row_height);
            let tar_prev = fquot_i128(rwws_prev, self.target_row_height);
            proof {
                lemma_rdiv_bound(
                    rwws_new as int * (SCALE as int),
                    self.target_row_height as int,
                    100_000_000_000_000_000_000_000,
                );
                lemma_rdiv_bound(
                    rwws_prev as int * (SCALE as int),
                    self.target_row_height as int,
                    100_000_000_000_000_000_000_000,
                );
            }
            let err_new = abs_i128(sum_new - tar_new);
            let err_prev = abs_i128(self.ratio_sum - tar_prev);
            if err_new > err_prev {
                let h = fquot_i128(rwws_prev, self.ratio_sum);
                proof {
                    lemma_rdiv_bound(
                        rwws_prev as int * (SCALE as int),
                        sum_ars(r0.items),
                        20_000_000_000_000_000_000_000,
                    );
                    lemma_div_bound(20_000_000_000_000_000_000_000, sum_ars(r0.items));
                }
                self.complete_layout(h, Some(WidowLayoutStyle::Justify));
                return Err(item_data);
            }
            self.items.push(item_data);
            self.ratio_sum = sum_new;
            proof {
                assert(self@.items =~= grown.items);
                assert(self@ =~= grown);
                lemma_sum_ars_push(r0.items, item_data@);
            }
            let h = fquot_i128(rwws_new, sum_new);
            proof {
                lemma_rdiv_bound(
                    rwws_new as int * (SCALE as int),
                    sum_new as int,
                    20_000_000_000_000_000_000_000,
                );
                lemma_div_bound(20_000_000_000_000_000_000_000, sum_new as int);
            }
            self.complete_layout(h, Some(WidowLayoutStyle::Justify));
            return Ok(());
        }
        self.items.push(item_data);
        self.ratio_sum = sum_new;
        proof {
            assert(self@.items =~= grown.items);
            assert(self@ =~= grown);
            lemma_sum_ars_push(r0.items, item_data@);
        }
        let h = fquot_i128(rwws_new, sum_new);
        proof {
            lemma_rdiv_bound(
                rwws_new as int * (SCALE as int),
                sum_new as int,
                20_000_000_000_000_000_000_000,
            );
            lemma_div_bound(20_000_000_000_000_000_000_000, sum_new as int);
        }
        self.complete_layout(h, Some(WidowLayoutStyle::Justify));
        Ok(())
    }
}

} // verus!
