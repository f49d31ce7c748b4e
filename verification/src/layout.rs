//! The layout driver: walks the input ratios, feeds them to rows, stacks
//! completed rows into the container, applies the row cap, and resolves the
//! trailing incomplete row under the widow policy.

use crate::fixed::{clamp_val, fmul, fmul_i128, lemma_mul_abs_bound, SCALE};
use crate::row::{
    add_decision, completed_row, BoxV, DecisionKind, LayoutItem, Row, RowStatus, RowV,
    WidowLayoutStyle, COUNT_LIMIT, DIM_LIMIT, EDGE_LIMIT, RATIO_LIMIT, TOP_LIMIT,
};
use vstd::prelude::*;

verus! {

/// Smallest accepted edge-case height factor (one hundredth).
pub const FACTOR_MIN: i128 = 10_000;

/// Largest accepted edge-case height factor (one hundred).
pub const FACTOR_MAX: i128 = 100_000_000;

/// Space around the whole grid, one value per side.
#[derive(Debug, Clone, Copy, PartialEq, Eq, Structural)]
pub struct Padding {
    pub top: i128,
    pub right: i128,
    pub bottom: i128,
    pub left: i128,
}

impl Default for Padding {
    /// Ten display units on every side.
    fn default() -> (d: Self)
        ensures
            d == (Padding { top: 10_000_000, right: 10_000_000, bottom: 10_000_000, left: 10_000_000 }),
    {
        Padding { top: 10_000_000, right: 10_000_000, bottom: 10_000_000, left: 10_000_000 }
    }
}

/// Gaps between neighbouring boxes.
#[derive(Debug, Clone, Copy, PartialEq, Eq, Structural)]
pub struct Spacing {
    pub horizontal: i128,
    pub vertical: i128,
}

impl Default for Spacing {
    /// Ten display units in both directions.
    fn default() -> (d: Self)
        ensures
            d == (Spacing { horizontal: 10_000_000, vertical: 10_000_000 }),
    {
        Spacing { horizontal: 10_000_000, vertical: 10_000_000 }
    }
}

/// One input aspect ratio: a fixed-point width-to-height quotient, or the
/// marker for a value that is not a finite number (for instance from a
/// source image with zero height).
#[derive(Debug, Clone, Copy, PartialEq, Eq, Structural)]
pub enum InputRatio {
    Ratio(i128),
    Invalid,
}

/// The single failure mode of the engine: an input ratio that is not a
/// finite number, identified by its position in the input.
#[derive(Debug, Clone, Copy, PartialEq, Eq, Structural)]
pub enum LayoutError {
    InvalidAspectRatio { index: usize },
}

/// Read-only parameters of one computation.
#[derive(Debug, Clone)]
pub struct LayoutConfig {
    pub container_width: i128,
    pub container_padding: Padding,
    pub box_spacing: Spacing,
    pub target_row_height: Vec<i128>,
    pub target_row_height_tolerance: i128,
    pub edge_case_min_row_height_factor: i128,
    pub edge_case_max_row_height_factor: i128,
    pub max_num_rows: usize,
    pub force_aspect_ratio: Option<i128>,
    pub show_widows: bool,
    pub full_width_breakout_row_cadence: usize,
    pub widow_layout_style: WidowLayoutStyle,
}

/// Mathematical image of a `LayoutConfig`.
#[verifier::ext_equal]
pub ghost struct CfgV {
    pub container_width: int,
    pub pad_top: int,
    pub pad_right: int,
    pub pad_bottom: int,
    pub pad_left: int,
    pub h_spacing: int,
    pub v_spacing: int,
    pub targets: Seq<int>,
    pub tol: int,
    pub min_factor: int,
    pub max_factor: int,
    pub max_rows: int,
    pub force: Option<int>,
    pub show_widows: bool,
    pub cadence: int,
    pub widow_style: WidowLayoutStyle,
}

impl View for LayoutConfig {
    type V = CfgV;

    open spec fn view(&self) -> CfgV {
        CfgV {
            container_width: self.container_width as int,
            pad_top: self.container_padding.top as int,
            pad_right: self.container_padding.right as int,
            pad_bottom: self.container_padding.bottom as int,
            pad_left: self.container_padding.left as int,
            h_spacing: self.box_spacing.horizontal as int,
            v_spacing: self.box_spacing.vertical as int,
            targets: self.target_row_height@.map_values(|t: i128| t as int),
            tol: self.target_row_height_tolerance as int,
            min_factor: self.edge_case_min_row_height_factor as int,
            max_factor: self.edge_case_max_row_height_factor as int,
            max_rows: self.max_num_rows as int,
            force: match self.force_aspect_ratio {
                Some(f) => Some(f as int),
                None => None,
            },
            show_widows: self.show_widows,
            cadence: self.full_width_breakout_row_cadence as int,
            widow_style: self.widow_layout_style,
        }
    }
}

/// The configuration values a computation accepts: every dimension positive
/// or zero and within the fixed-point working range, at least one target
/// height of at least one display unit, padding leaving some width, factors
/// ordered and in range.
pub open spec fn cfg_wf(c: CfgV) -> bool {
    &&& 0 < c.container_width <= DIM_LIMIT
    &&& 0 <= c.pad_top <= DIM_LIMIT
    &&& 0 <= c.pad_right <= DIM_LIMIT
    &&& 0 <= c.pad_bottom <= DIM_LIMIT
    &&& 0 <= c.pad_left <= DIM_LIMIT
    &&& c.pad_left + c.pad_right < c.container_width
    &&& 0 <= c.h_spacing <= DIM_LIMIT
    &&& 0 <= c.v_spacing <= DIM_LIMIT
    &&& 1 <= c.targets.len()
    &&& (forall|i: int|
        0 <= i < c.targets.len() ==> SCALE <= #[trigger] c.targets[i] <= DIM_LIMIT)
    &&& 0 <= c.tol <= SCALE
    &&& FACTOR_MIN <= c.min_factor <= c.max_factor <= FACTOR_MAX
    &&& (c.force matches Some(f) ==> 1 <= f <= RATIO_LIMIT)
}

impl LayoutConfig {
    /// `cfg_wf` of the image.
    pub open spec fn wf(self) -> bool {
        cfg_wf(self@)
    }
}

impl Default for LayoutConfig {
    /// A container of 1060 display units, ten units of padding and spacing,
    /// a single target height of 320 units with a quarter of tolerance,
    /// edge-case factors one half and two, no row cap, no forced ratio,
    /// widows shown left-aligned, no breakout cadence.
    fn default() -> (d: Self)
        ensures
            d.container_width == 1_060_000_000,
            d.container_padding == (Padding {
                top: 10_000_000,
                right: 10_000_000,
                bottom: 10_000_000,
                left: 10_000_000,
            }),
            d.box_spacing == (Spacing { horizontal: 10_000_000, vertical: 10_000_000 }),
            d.target_row_height@ == seq![320_000_000i128],
            d.target_row_height_tolerance == 250_000,
            d.edge_case_min_row_height_factor == 500_000,
            d.edge_case_max_row_height_factor == 2_000_000,
            d.max_num_rows == usize::MAX,
            d.force_aspect_ratio is None,
            d.show_widows == true,
            d.full_width_breakout_row_cadence == 0,
            d.widow_layout_style == WidowLayoutStyle::Left,
            d.wf(),
    {
        let mut targets: Vec<i128> = Vec::new();
        targets.push(320_000_000);
        let d = LayoutConfig {
            container_width: 1_060_000_000,
            container_padding: Padding::default(),
            box_spacing: Spacing::default(),
            target_row_height: targets,
            target_row_height_tolerance: 250_000,
            edge_case_min_row_height_factor: 500_000,
            edge_case_max_row_height_factor: 2_000_000,
            max_num_rows: usize::MAX,
            force_aspect_ratio: None,
            show_widows: true,
            full_width_breakout_row_cadence: 0,
            widow_layout_style: WidowLayoutStyle::Left,
        };
        proof {
            assert(d@.targets =~= seq![320_000_000int]);
        }
        d
    }
}

/// The outcome of one computation.
#[derive(Debug, Clone)]
pub struct LayoutResult {
    pub container_height: i128,
    pub widow_count: usize,
    pub boxes: Vec<LayoutItem>,
}

/// Mathematical image of a `LayoutResult`.
#[verifier::ext_equal]
pub ghost struct ResultV {
    pub height: int,
    pub widows: int,
    pub boxes: Seq<BoxV>,
}

impl View for LayoutResult {
    type V = ResultV;

    open spec fn view(&self) -> ResultV {
        ResultV {
            height: self.container_height as int,
            widows: self.widow_count as int,
            boxes: self.boxes@.map_values(|it: LayoutItem| it@),
        }
    }
}

/// Row width available once the left and right padding are taken out.
pub open spec fn avail_width(c: CfgV) -> int {
    c.container_width - c.pad_left - c.pad_right
}

/// An item descriptor as it enters a row: ratio and forced flag set, no
/// geometry yet.
pub open spec fn pending_box(ar: int, forced: bool) -> BoxV {
    BoxV { ar: ar, forced: forced, top: 0, left: 0, width: 0, height: 0 }
}

/// The driver's running state.
#[verifier::ext_equal]
pub ghost struct StateV {
    /// Running container height: top padding plus every appended row's
    /// height and one vertical gap each.
    pub height: int,
    /// Boxes of all appended rows, in input order.
    pub boxes: Seq<BoxV>,
    /// Number of appended rows.
    pub rows: int,
    /// Whether the last appended row was a breakout row.
    pub last_breakout: bool,
    /// Target height of the last appended row.
    pub last_target: int,
    /// Final height of the last appended row.
    pub last_height: int,
    /// The row currently accepting items, if one is open.
    pub open_row: Option<RowV>,
    /// Set once the row cap is reached; every further item is dropped.
    pub stopped: bool,
}

/// The row the driver opens at height `top` after `rows` appended rows.
pub open spec fn new_row_at(c: CfgV, top: int, rows: int) -> RowV {
    let target = c.targets[rows % (c.targets.len() as int)];
    RowV {
        top: top,
        left: c.pad_left,
        width: avail_width(c),
        spacing: c.h_spacing,
        target: target,
        tol: c.tol,
        edge_min: fmul(c.min_factor, target),
        edge_max: fmul(c.max_factor, target),
        style: c.widow_style,
        breakout: c.cadence != 0 && (rows + 1) % c.cadence == 0,
        items: Seq::empty(),
        status: None,
    }
}

/// Append the completion of row `r` at requested height `h` under `style`:
/// extend the output, advance the container height, remember the row.
pub open spec fn append_row_v(c: CfgV, st: StateV, r: RowV, h: int, style: WidowLayoutStyle) -> StateV {
    let done = completed_row(r, h, style);
    let ch = clamp_val(h, r.edge_min, r.edge_max);
    StateV {
        height: st.height + ch + c.v_spacing,
        boxes: st.boxes + done.items,
        rows: st.rows + 1,
        last_breakout: r.breakout,
        last_target: r.target,
        last_height: ch,
        open_row: None,
        stopped: st.stopped,
    }
}

/// After appending a row: stop at the cap, otherwise open a fresh row.
pub open spec fn cap_check(c: CfgV, st: StateV) -> StateV {
    if st.rows >= c.max_rows {
        StateV { stopped: true, open_row: None, ..st }
    } else {
        StateV { open_row: Some(new_row_at(c, st.height, st.rows)), ..st }
    }
}

/// Feed one item (ratio `ar`, forced flag) to the driver.
pub open spec fn step_v(c: CfgV, st: StateV, ar: int, forced: bool) -> StateV {
    if st.stopped {
        st
    } else {
        let row = match st.open_row {
            Some(r) => r,
            None => new_row_at(c, st.height, st.rows),
        };
        let d = add_decision(row, ar);
        let item = pending_box(ar, forced);
        let grown = RowV { items: row.items.push(item), ..row };
        match d.0 {
            DecisionKind::Grow => StateV { open_row: Some(grown), ..st },
            DecisionKind::Close => cap_check(
                c,
                append_row_v(c, st, grown, d.1, WidowLayoutStyle::Justify),
            ),
            DecisionKind::Bounce => {
                let st1 = append_row_v(c, st, row, d.1, WidowLayoutStyle::Justify);
                if st1.rows >= c.max_rows {
                    StateV { stopped: true, open_row: None, ..st1 }
                } else {
                    let row2 = new_row_at(c, st1.height, st1.rows);
                    let d2 = add_decision(row2, ar);
                    let grown2 = RowV { items: row2.items.push(item), ..row2 };
                    match d2.0 {
                        DecisionKind::Grow => StateV { open_row: Some(grown2), ..st1 },
                        DecisionKind::Close => cap_check(
                            c,
                            append_row_v(c, st1, grown2, d2.1, WidowLayoutStyle::Justify),
                        ),
                        DecisionKind::Bounce => st1,
                    }
                }
            },
        }
    }
}

/// The driver's state before the first item: top padding consumed, nothing
/// placed; a row cap of zero stops the run before it begins.
pub open spec fn init_v(c: CfgV) -> StateV {
    StateV {
        height: c.pad_top,
        boxes: Seq::empty(),
        rows: 0,
        last_breakout: false,
        last_target: 0,
        last_height: 0,
        open_row: None,
        stopped: c.max_rows <= 0,
    }
}

/// Run the driver over all items.
pub open spec fn run_v(c: CfgV, items: Seq<(int, bool)>) -> StateV
    decreases items.len(),
{
    if items.len() == 0 {
        init_v(c)
    } else {
        step_v(c, run_v(c, items.drop_last()), items.last().0, items.last().1)
    }
}

/// The height a trailing widow row is force-completed at: the previous
/// row's height (its target height if it was a breakout row), or the widow
/// row's own target when it is the very first row.
pub open spec fn widow_height_choice(st: StateV, row: RowV) -> int {
    if st.rows > 0 {
        if st.last_breakout {
            st.last_target
        } else {
            st.last_height
        }
    } else {
        row.target
    }
}

/// Total container height: drop the trailing vertical gap (when any row was
/// placed) and add the bottom padding.
pub open spec fn final_height(c: CfgV, st: StateV) -> int {
    if st.rows > 0 {
        st.height - c.v_spacing + c.pad_bottom
    } else {
        st.height + c.pad_bottom
    }
}

/// Resolve the trailing open row under the widow policy and close the
/// container.
pub open spec fn finish_v(c: CfgV, st: StateV) -> ResultV {
    match st.open_row {
        Some(r) => {
            if r.items.len() > 0 && c.show_widows {
                let st1 = append_row_v(c, st, r, widow_height_choice(st, r), r.style);
                ResultV {
                    height: final_height(c, st1),
                    widows: r.items.len() as int,
                    boxes: st1.boxes,
                }
            } else {
                ResultV { height: final_height(c, st), widows: 0, boxes: st.boxes }
            }
        },
        None => ResultV { height: final_height(c, st), widows: 0, boxes: st.boxes },
    }
}

/// The whole computation over validated items.
pub open spec fn compute_v(c: CfgV, items: Seq<(int, bool)>) -> ResultV {
    finish_v(c, run_v(c, items))
}

/// Edge-case clamps computed from in-range factors and an in-range target
/// are ordered, positive, and bounded.
proof fn lemma_edge_bounds(minf: int, maxf: int, t: int)
    requires
        FACTOR_MIN <= minf <= maxf <= FACTOR_MAX,
        SCALE <= t <= DIM_LIMIT,
    ensures
        1 <= fmul(minf, t) <= fmul(maxf, t) <= EDGE_LIMIT,
{
    assert(10_000_000_000int <= minf * t) by (nonlinear_arith)
        requires
            10_000 <= minf,
            1_000_000 <= t,
    ;
    assert(minf * t <= maxf * t) by (nonlinear_arith)
        requires
            minf <= maxf,
            0 <= t,
    ;
    assert(maxf * t <= 100_000_000_000_000_000_000int) by (nonlinear_arith)
        requires
            0 <= maxf <= 100_000_000,
            0 <= t <= 1_000_000_000_000,
    ;
    vstd::arithmetic::div_mod::lemma_div_is_ordered(
        10_000_000_000int + 500_000,
        minf * t + 500_000,
        1_000_000,
    );
    vstd::arithmetic::div_mod::lemma_div_is_ordered(
        minf * t + 500_000,
        maxf * t + 500_000,
        1_000_000,
    );
    vstd::arithmetic::div_mod::lemma_div_is_ordered(
        maxf * t + 500_000,
        100_000_000_000_000_000_000int + 500_000,
        1_000_000,
    );
}

/// Open a fresh row at vertical position `top`, after `rows_done` appended
/// rows: pick the cycled target height, derive the edge-case clamps, and
/// mark the row a breakout row per the configured cadence.
fn create_new_row(config: &LayoutConfig, top: i128, rows_done: usize) -> (r: Row)
    requires
        config.wf(),
        0 <= top <= TOP_LIMIT,
        rows_done <= 2 * COUNT_LIMIT,
    ensures
        r@ == new_row_at(config@, top as int, rows_done as int),
        r.wf(),
        r.ratio_sum == 0,
        r@.status is None,
        r@.items.len() == 0,
{
    let len = config.target_row_height.len();
    let target = config.target_row_height[rows_done % len];
    let cadence = config.full_width_breakout_row_cadence;
    let is_breakout = cadence != 0 && (rows_done + 1) % cadence == 0;
    proof {
        assert(SCALE <= config@.targets[(rows_done as int) % (config@.targets.len() as int)]
            <= DIM_LIMIT);
        lemma_mul_abs_bound(
            config.edge_case_min_row_height_factor as int,
            FACTOR_MAX as int,
            target as int,
            DIM_LIMIT as int,
        );
        lemma_mul_abs_bound(
            config.edge_case_max_row_height_factor as int,
            FACTOR_MAX as int,
            target as int,
            DIM_LIMIT as int,
        );
    }
    let edge_min = fmul_i128(config.edge_case_min_row_height_factor, target);
    let edge_max = fmul_i128(config.edge_case_max_row_height_factor, target);
    proof {
        lemma_edge_bounds(
            config.edge_case_min_row_height_factor as int,
            config.edge_case_max_row_height_factor as int,
            target as int,
        );
    }
    let r = Row {
        top: top,
        left: config.container_padding.left,
        width: config.container_width - config.container_padding.left
            - config.container_padding.right,
        spacing: config.box_spacing.horizontal,
        target_row_height: target,
        target_row_height_tolerance: config.target_row_height_tolerance,
        edge_case_min_row_height: edge_min,
        edge_case_max_row_height: edge_max,
        widow_layout_style: config.widow_layout_style,
        is_breakout_row: is_breakout,
        items: Vec::new(),
        ratio_sum: 0,
        status: RowStatus::Open,
    };
    proof {
        assert(r@.items =~= Seq::<BoxV>::empty());
        assert(r@ =~= new_row_at(config@, top as int, rows_done as int));
    }
    r
}

/// The item sequence the driver actually packs: the forced ratio for every
/// item when one is configured, otherwise the input value.
pub open spec fn effective_items(input: Seq<InputRatio>, c: CfgV) -> Seq<(int, bool)> {
    Seq::new(
        input.len(),
        |i: int|
            match c.force {
                Some(f) => (f, true),
                None => match input[i] {
                    InputRatio::Ratio(v) => (v as int, false),
                    InputRatio::Invalid => (0int, false),
                },
            },
    )
}

proof fn lemma_map_view_concat(a: Seq<LayoutItem>, b: Seq<LayoutItem>)
    ensures
        (a + b).map_values(|it: LayoutItem| it@) == a.map_values(|it: LayoutItem| it@)
            + b.map_values(|it: LayoutItem| it@),
{
    assert((a + b).map_values(|it: LayoutItem| it@) =~= a.map_values(|it: LayoutItem| it@)
        + b.map_values(|it: LayoutItem| it@));
}

/// The driver's machine state while the input is walked.
struct DriverState {
    state_height: i128,
    boxes: Vec<LayoutItem>,
    rows_done: usize,
    last_breakout: bool,
    last_target: i128,
    last_height: i128,
    current: Option<Row>,
    stopped: bool,
}

impl View for DriverState {
    type V = StateV;

    closed spec fn view(&self) -> StateV {
        StateV {
            height: self.state_height as int,
            boxes: self.boxes@.map_values(|it: LayoutItem| it@),
            rows: self.rows_done as int,
            last_breakout: self.last_breakout,
            last_target: self.last_target as int,
            last_height: self.last_height as int,
            open_row: match self.current {
                Some(r) => Some(r@),
                None => None,
            },
            stopped: self.stopped,
        }
    }
}

impl DriverState {
    /// Numeric bounds the driver maintains while running.
    spec fn wf(self) -> bool {
        &&& 0 <= self.state_height
        &&& self.state_height as int <= DIM_LIMIT + self.rows_done * ((EDGE_LIMIT
            + DIM_LIMIT) as int)
        &&& self.rows_done <= 2 * COUNT_LIMIT + 1
        &&& (self.rows_done > 0 ==> SCALE <= self.last_target <= DIM_LIMIT)
        &&& (self.rows_done > 0 ==> 1 <= self.last_height <= EDGE_LIMIT)
        &&& match self.current {
            Some(r) => r.wf() && r@.status is None,
            None => true,
        }
    }
}

/// Append the just-finalized `row` to the driver state: extend the output,
/// advance the container height, remember the row, count it.
#[verifier::rlimit(100)]
fn absorb_finalized(config: &LayoutConfig, ds: &mut DriverState, row: Row, ghost_pre: Ghost<RowV>, ghost_h: Ghost<int>, ghost_style: Ghost<WidowLayoutStyle>)
    requires
        config.wf(),
        old(ds).wf(),
        old(ds).rows_done <= 2 * COUNT_LIMIT,
        row.wf(),
        row@ == completed_row(ghost_pre@, ghost_h@, ghost_style@),
    ensures
        final(ds).wf(),
        final(ds)@ == append_row_v(config@, old(ds)@, ghost_pre@, ghost_h@, ghost_style@),
        final(ds).rows_done == old(ds).rows_done + 1,
        final(ds).current is None,
        final(ds).stopped == old(ds).stopped,
{
    let mut row = row;
    let ch = match row.status {
        RowStatus::Finalized(hh) => hh,
        RowStatus::Open => 0,
    };
    proof {
        assert(ch as int == clamp_val(ghost_h@, ghost_pre@.edge_min, ghost_pre@.edge_max));
        assert(1 <= ch <= EDGE_LIMIT);
        lemma_map_view_concat(ds.boxes@, row.items@);
    }
    ds.state_height = ds.state_height + ch + config.box_spacing.vertical;
    ds.rows_done = ds.rows_done + 1;
    ds.last_breakout = row.is_breakout_row;
    ds.last_target = row.target_row_height;
    ds.last_height = ch;
    ds.boxes.append(&mut row.items);
    ds.current = None;
    proof {
        assert(ds@ =~= append_row_v(config@, old(ds)@, ghost_pre@, ghost_h@, ghost_style@));
    }
}

/// After a row was appended: stop at the row cap, otherwise open a fresh
/// row.
fn check_cap(config: &LayoutConfig, ds: &mut DriverState)
    requires
        config.wf(),
        old(ds).wf(),
        old(ds).rows_done <= 2 * COUNT_LIMIT,
        old(ds).current is None,
    ensures
        final(ds).wf(),
        final(ds)@ == cap_check(config@, old(ds)@),
        final(ds).rows_done == old(ds).rows_done,
        match final(ds).current {
            Some(r) => r@.items.len() == 0 && r.ratio_sum == 0,
            None => true,
        },
{
    if ds.rows_done >= config.max_num_rows {
        ds.stopped = true;
        ds.current = None;
        proof {
            assert(ds@ =~= cap_check(config@, old(ds)@));
        }
    } else {
        let fresh = create_new_row(config, ds.state_height, ds.rows_done);
        ds.current = Some(fresh);
        proof {
            assert(ds@ =~= cap_check(config@, old(ds)@));
        }
    }
}

/// Feed one validated item to the driver: exactly one step of the packing
/// state machine.
#[verifier::rlimit(100)]
fn drive_one(config: &LayoutConfig, ds: &mut DriverState, item: LayoutItem)
    requires
        config.wf(),
        old(ds).wf(),
        old(ds).rows_done <= 2 * COUNT_LIMIT - 2,
        1 <= item.aspect_ratio <= RATIO_LIMIT,
        item@ == pending_box(item.aspect_ratio as int, item.forced_aspect_ratio),
        match old(ds).current {
            Some(r) => r.items@.len() < COUNT_LIMIT,
            None => true,
        },
    ensures
        final(ds).wf(),
        final(ds)@ == step_v(
            config@,
            old(ds)@,
            item.aspect_ratio as int,
            item.forced_aspect_ratio,
        ),
        final(ds).rows_done <= old(ds).rows_done + 2,
        match final(ds).current {
            Some(r) => r.items@.len() <= (match old(ds).current {
                Some(r0) => r0.items@.len() as int,
                None => 0int,
            }) + 1,
            None => true,
        },
{
    if ds.stopped {
        return ;
    }
    let mut row = match ds.current.take() {
        Some(r) => r,
        None => create_new_row(config, ds.state_height, ds.rows_done),
    };
    let ghost rv = row@;
    let added = row.add_item(item);
    if row.is_layout_complete() {
        let ghost d = add_decision(rv, item.aspect_ratio as int);
        let ghost grown = RowV { items: rv.items.push(item@), ..rv };
        match added {
            Ok(_) => {
                absorb_finalized(config, ds, row, Ghost(grown), Ghost(d.1), Ghost(WidowLayoutStyle::Justify));
                check_cap(config, ds);
            },
            Err(item2) => {
                absorb_finalized(config, ds, row, Ghost(rv), Ghost(d.1), Ghost(WidowLayoutStyle::Justify));
                if ds.rows_done >= config.max_num_rows {
                    ds.stopped = true;
                    ds.current = None;
                } else {
                    let mut row2 = create_new_row(config, ds.state_height, ds.rows_done);
                    let ghost rv2 = row2@;
                    proof {
                        assert(add_decision(rv2, item2.aspect_ratio as int).0
                            != DecisionKind::Bounce);
                    }
                    let ghost d2 = add_decision(rv2, item2.aspect_ratio as int);
                    let ghost grown2 = RowV { items: rv2.items.push(item2@), ..rv2 };
                    let _ = row2.add_item(item2);
                    if row2.is_layout_complete() {
                        absorb_finalized(config, ds, row2, Ghost(grown2), Ghost(d2.1), Ghost(WidowLayoutStyle::Justify));
                        check_cap(config, ds);
                    } else {
                        ds.current = Some(row2);
                    }
                }
            },
        }
    } else {
        ds.current = Some(row);
    }
}

/// Lay out every input ratio: validate eagerly, pack the items into rows,
/// stack the rows, apply the row cap, resolve the trailing widow row, and
/// return the container height, the widow count, and every box in input
/// order.
///
/// The bounds demanded of the configuration and the ratios are the working
/// range of the fixed-point representation; dimensions up to a million
/// display units and ratios between a millionth and a thousand lie well
/// inside it.
#[verifier::rlimit(100)]
pub fn compute(input: &Vec<InputRatio>, config: &LayoutConfig) -> (res: Result<
    LayoutResult,
    LayoutError,
>)
    requires
        config.wf(),
        input@.len() <= COUNT_LIMIT,
        forall|i: int|
            0 <= i < input@.len() ==> ((#[trigger] input@[i]) matches InputRatio::Ratio(v) ==> 1
                <= v <= RATIO_LIMIT),
    ensures
        match res {
            Ok(out) => (config@.force is Some || (forall|i: int|
                0 <= i < input@.len() ==> (#[trigger] input@[i]) is Ratio)) && out@ == compute_v(
                config@,
                effective_items(input@, config@),
            ),
            Err(e) => match e {
                LayoutError::InvalidAspectRatio { index } => {
                    &&& config@.force is None
                    &&& index < input@.len()
                    &&& input@[index as int] is Invalid
                    &&& forall|j: int| 0 <= j < index ==> (#[trigger] input@[j]) is Ratio
                },
            },
        },
{
    let ghost c = config@;
    let ghost eff = effective_items(input@, c);
    let n = input.len();

    let mut items: Vec<LayoutItem> = Vec::new();
    let mut i: usize = 0;
    while i < n
        invariant
            n == input@.len(),
            n <= COUNT_LIMIT,
            0 <= i <= n,
            c == config@,
            eff == effective_items(input@, c),
            forall|j: int|
                0 <= j < input@.len() ==> ((#[trigger] input@[j]) matches InputRatio::Ratio(v)
                    ==> 1 <= v <= RATIO_LIMIT),
            cfg_wf(c),
            items@.len() == i,
            forall|j: int|
                0 <= j < i ==> (#[trigger] items@[j])@ == pending_box(eff[j].0, eff[j].1),
            forall|j: int| 0 <= j < i ==> 1 <= (#[trigger] items@[j]).aspect_ratio <= RATIO_LIMIT,
            c.force is None ==> (forall|j: int| 0 <= j < i ==> (#[trigger] input@[j]) is Ratio),
        decreases n - i,
    {
        match config.force_aspect_ratio {
            Some(f) => {
                items.push(
                    LayoutItem {
                        aspect_ratio: f,
                        top: 0,
                        left: 0,
                        width: 0,
                        height: 0,
                        forced_aspect_ratio: true,
                    },
                );
            },
            None => {
                match input[i] {
                    InputRatio::Ratio(v) => {
                        items.push(
                            LayoutItem {
                                aspect_ratio: v,
                                top: 0,
                                left: 0,
                                width: 0,
                                height: 0,
                                forced_aspect_ratio: false,
                            },
                        );
                    },
                    InputRatio::Invalid => {
                        return Err(LayoutError::InvalidAspectRatio { index: i });
                    },
                }
            },
        }
        i = i + 1;
    }

    let mut ds = DriverState {
        state_height: config.container_padding.top,
        boxes: Vec::new(),
        rows_done: 0,
        last_breakout: false,
        last_target: 0,
        last_height: 0,
        current: None,
        stopped: config.max_num_rows == 0,
    };
    proof {
        assert(ds@ =~~= init_v(c));
    }

    let mut k: usize = 0;
    while k < n
        invariant
            n == input@.len(),
            n <= COUNT_LIMIT,
            0 <= k <= n,
            c == config@,
            eff == effective_items(input@, c),
            config.wf(),
            eff.len() == n,
            items@.len() == n,
            forall|j: int|
                0 <= j < n ==> (#[trigger] items@[j])@ == pending_box(eff[j].0, eff[j].1),
            forall|j: int| 0 <= j < n ==> 1 <= (#[trigger] items@[j]).aspect_ratio <= RATIO_LIMIT,
            ds@ == run_v(c, eff.take(k as int)),
            ds.wf(),
            ds.rows_done <= 2 * k,
            match ds.current {
                Some(r) => r.items@.len() <= k,
                None => true,
            },
        decreases n - k,
    {
        let item = items[k];
        proof {
            assert(item@ == pending_box(eff[k as int].0, eff[k as int].1));
        }
        drive_one(config, &mut ds, item);
        proof {
            assert(eff.take(k as int + 1).drop_last() =~= eff.take(k as int));
            assert(eff.take(k as int + 1).last() == eff[k as int]);
            assert(ds@ == run_v(c, eff.take(k as int + 1)));
        }
        k = k + 1;
    }

    proof {
        assert(eff.take(n as int) =~= eff);
    }
    let ghost stfin = run_v(c, eff);

    let mut widow_count: usize = 0;
    match ds.current.take() {
        Some(mut row) => {
            if row.items.len() > 0 && config.show_widows {
                let ghost rvw = row@;
                if ds.rows_done > 0 {
                    let wh = if ds.last_breakout {
                        ds.last_target
                    } else {
                        ds.last_height
                    };
                    row.force_complete(false, Some(wh));
                } else {
                    row.force_complete(false, None);
                }
                widow_count = row.items.len();
                proof {
                    assert(row@ == completed_row(rvw, widow_height_choice(stfin, rvw), rvw.style));
                }
                absorb_finalized(
                    config,
                    &mut ds,
                    row,
                    Ghost(rvw),
                    Ghost(widow_height_choice(stfin, rvw)),
                    Ghost(rvw.style),
                );
                proof {
                    assert(ds@ =~~= append_row_v(c, stfin, rvw, widow_height_choice(stfin, rvw), rvw.style));
                }
            }
        },
        None => {},
    }

    if ds.rows_done > 0 {
        ds.state_height = ds.state_height - config.box_spacing.vertical;
    }
    ds.state_height = ds.state_height + config.container_padding.bottom;

    let total = ds.state_height;
    let out = LayoutResult { container_height: total, widow_count: widow_count, boxes: ds.boxes };
    proof {
        assert(out@ =~~= compute_v(c, eff));
    }
    Ok(out)
}

} // verus!
