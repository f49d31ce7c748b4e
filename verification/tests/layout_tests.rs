use justified_layout::fixed::SCALE;
use justified_layout::layout::{compute, InputRatio, LayoutConfig, LayoutError};
use justified_layout::row::{LayoutItem, WidowLayoutStyle};

fn ratios(values: &[i128]) -> Vec<InputRatio> {
    values.iter().map(|&v| InputRatio::Ratio(v)).collect()
}

fn item(ar: i128, forced: bool, top: i128, left: i128, width: i128, height: i128) -> LayoutItem {
    LayoutItem {
        aspect_ratio: ar,
        top,
        left,
        width,
        height,
        forced_aspect_ratio: forced,
    }
}

#[test]
fn three_items_single_row_plus_widow() {
    // 1.5, 1.0 and 2.0 at a 1060-unit container with a 320-unit target:
    // the first two fill a row at height 412, the third is left as a widow
    // carried at the previous row's height.
    let input = ratios(&[1_500_000, 1_000_000, 2_000_000]);
    let config = LayoutConfig::default();
    let out = compute(&input, &config).unwrap();
    assert_eq!(out.container_height, 854_000_000);
    assert_eq!(out.widow_count, 1);
    assert_eq!(out.boxes.len(), 3);
    assert_eq!(
        out.boxes[0],
        item(1_500_000, false, 10_000_000, 10_000_000, 618_000_000, 412_000_000)
    );
    assert_eq!(
        out.boxes[1],
        item(1_000_000, false, 10_000_000, 638_000_000, 412_000_000, 412_000_000)
    );
    assert_eq!(
        out.boxes[2],
        item(2_000_000, false, 432_000_000, 10_000_000, 824_000_000, 412_000_000)
    );
}

#[test]
fn single_wide_item_fills_row() {
    // A lone 3.0 item becomes a full-width row at row_width / 3, inside the
    // default clamp band [160, 640].
    let input = ratios(&[3_000_000]);
    let config = LayoutConfig::default();
    let out = compute(&input, &config).unwrap();
    assert_eq!(out.container_height, 366_666_667);
    assert_eq!(out.widow_count, 0);
    assert_eq!(out.boxes.len(), 1);
    assert_eq!(
        out.boxes[0],
        item(3_000_000, false, 10_000_000, 10_000_000, 1_040_000_001, 346_666_667)
    );
}

#[test]
fn invalid_ratio_reports_index() {
    let input = vec![
        InputRatio::Ratio(1_500_000),
        InputRatio::Invalid,
        InputRatio::Ratio(2_000_000),
    ];
    let config = LayoutConfig::default();
    let err = compute(&input, &config).unwrap_err();
    assert_eq!(err, LayoutError::InvalidAspectRatio { index: 1 });
}

#[test]
fn forced_ratio_overrides_invalid_input() {
    // With a forced ratio, even an invalid entry is replaced before
    // validation, so the computation succeeds and marks every box forced.
    let input = vec![
        InputRatio::Ratio(1_500_000),
        InputRatio::Invalid,
        InputRatio::Ratio(2_000_000),
    ];
    let mut config = LayoutConfig::default();
    config.force_aspect_ratio = Some(1_000_000);
    let out = compute(&input, &config).unwrap();
    assert_eq!(out.container_height, 360_000_000);
    assert_eq!(out.widow_count, 0);
    assert_eq!(out.boxes.len(), 3);
    assert_eq!(
        out.boxes[0],
        item(1_000_000, true, 10_000_000, 10_000_000, 340_000_000, 340_000_000)
    );
    assert_eq!(
        out.boxes[1],
        item(1_000_000, true, 10_000_000, 360_000_000, 340_000_000, 340_000_000)
    );
    assert_eq!(
        out.boxes[2],
        item(1_000_000, true, 10_000_000, 710_000_000, 340_000_000, 340_000_000)
    );
}

#[test]
fn empty_input_gives_padding_only() {
    let input: Vec<InputRatio> = Vec::new();
    let config = LayoutConfig::default();
    let out = compute(&input, &config).unwrap();
    assert_eq!(out.container_height, 20_000_000);
    assert_eq!(out.widow_count, 0);
    assert_eq!(out.boxes.len(), 0);
}

#[test]
fn hidden_widows_are_dropped() {
    let input = ratios(&[1_500_000, 1_000_000, 2_000_000]);
    let mut config = LayoutConfig::default();
    config.show_widows = false;
    let out = compute(&input, &config).unwrap();
    assert_eq!(out.container_height, 432_000_000);
    assert_eq!(out.widow_count, 0);
    assert_eq!(out.boxes.len(), 2);
}

#[test]
fn centered_widow_is_shifted() {
    let input = ratios(&[1_500_000, 1_000_000, 2_000_000]);
    let mut config = LayoutConfig::default();
    config.widow_layout_style = WidowLayoutStyle::Center;
    let out = compute(&input, &config).unwrap();
    assert_eq!(out.widow_count, 1);
    assert_eq!(
        out.boxes[2],
        item(2_000_000, false, 432_000_000, 118_000_000, 824_000_000, 412_000_000)
    );
}

#[test]
fn justified_widow_spans_row() {
    let input = ratios(&[1_500_000, 1_000_000, 2_000_000]);
    let mut config = LayoutConfig::default();
    config.widow_layout_style = WidowLayoutStyle::Justify;
    let out = compute(&input, &config).unwrap();
    assert_eq!(out.widow_count, 1);
    assert_eq!(
        out.boxes[2],
        item(2_000_000, false, 432_000_000, 10_000_000, 1_040_000_000, 412_000_000)
    );
}

#[test]
fn breakout_cadence_isolates_one_item() {
    // Every second row is a breakout row: the third input (ratio 1.0) lands
    // alone on the breakout row, spanning the full available width at the
    // clamped maximum height.
    let input = ratios(&[2_000_000, 1_500_000, 1_000_000, 1_200_000, 800_000]);
    let mut config = LayoutConfig::default();
    config.full_width_breakout_row_cadence = 2;
    let out = compute(&input, &config).unwrap();
    assert_eq!(out.container_height, 1_294_285_714);
    assert_eq!(out.widow_count, 2);
    assert_eq!(out.boxes.len(), 5);
    assert_eq!(
        out.boxes[2],
        item(1_000_000, false, 314_285_714, 10_000_000, 1_040_000_000, 640_000_000)
    );
    // The widow row after a breakout row uses the breakout row's target
    // height, not its actual height.
    assert_eq!(out.boxes[3].height, 320_000_000);
    assert_eq!(out.boxes[4].height, 320_000_000);
}

#[test]
fn row_cap_drops_remaining_items() {
    let input = ratios(&[1_500_000, 1_000_000, 2_000_000, 1_800_000]);
    let mut config = LayoutConfig::default();
    config.max_num_rows = 1;
    let out = compute(&input, &config).unwrap();
    assert_eq!(out.container_height, 432_000_000);
    assert_eq!(out.widow_count, 0);
    assert_eq!(out.boxes.len(), 2);
}

#[test]
fn zero_row_cap_discards_everything() {
    let input = ratios(&[1_500_000, 1_000_000]);
    let mut config = LayoutConfig::default();
    config.max_num_rows = 0;
    let out = compute(&input, &config).unwrap();
    assert_eq!(out.container_height, 20_000_000);
    assert_eq!(out.widow_count, 0);
    assert_eq!(out.boxes.len(), 0);
}

#[test]
fn alternating_targets_cycle_per_row() {
    // A two-entry target list alternates row heights; checked against the
    // composite-canvas configuration.
    let input = ratios(&[1_500_000, 707_000, 1_777_778, 1_333_333, 562_500, 2_350_000]);
    let mut config = LayoutConfig::default();
    config.container_width = 1_300_000_000;
    config.target_row_height = vec![440_000_000, 500_000_000];
    config.target_row_height_tolerance = 100_000;
    config.edge_case_min_row_height_factor = 800_000;
    config.edge_case_max_row_height_factor = 1_500_000;
    let out = compute(&input, &config).unwrap();
    assert_eq!(out.container_height, 1_459_707_578);
    assert_eq!(out.widow_count, 0);
    assert_eq!(out.boxes.len(), 6);
    assert_eq!(out.boxes[0].height, 575_441_776);
    assert_eq!(out.boxes[2].height, 408_214_300);
    assert_eq!(out.boxes[4].height, 436_051_502);
    assert_eq!(
        out.boxes[5],
        item(2_350_000, false, 1_013_656_076, 265_278_970, 1_024_721_030, 436_051_502)
    );
}

#[test]
fn rejected_item_starts_next_row() {
    // 2.437 alone stays under the lower tolerance bound; adding 2.0 pushes
    // the pair further from the target than 2.437 alone, so the second item
    // is rejected and opens the next row.
    let input = ratios(&[2_437_000, 2_000_000]);
    let config = LayoutConfig::default();
    let out = compute(&input, &config).unwrap();
    assert_eq!(out.container_height, 883_508_412);
    assert_eq!(out.widow_count, 1);
    assert_eq!(
        out.boxes[0],
        item(2_437_000, false, 10_000_000, 10_000_000, 1_040_000_000, 426_754_206)
    );
    assert_eq!(
        out.boxes[1],
        item(2_000_000, false, 446_754_206, 10_000_000, 853_508_412, 426_754_206)
    );
}

#[test]
fn identical_runs_agree_exactly() {
    let input = ratios(&[1_500_000, 707_000, 1_777_778, 1_333_333, 562_500, 2_350_000]);
    let mut config = LayoutConfig::default();
    config.full_width_breakout_row_cadence = 3;
    let a = compute(&input, &config).unwrap();
    let b = compute(&input, &config).unwrap();
    assert_eq!(a.container_height, b.container_height);
    assert_eq!(a.widow_count, b.widow_count);
    assert_eq!(a.boxes, b.boxes);
}

#[test]
fn width_conservation_within_one_unit() {
    // For every fully-justified (non-widow) row, the widths plus the gaps
    // recover the available row width to within half a display unit.
    let input = ratios(&[1_500_000, 1_000_000, 2_000_000, 1_200_000, 900_000, 1_100_000]);
    let config = LayoutConfig::default();
    let out = compute(&input, &config).unwrap();
    let available = config.container_width - 20_000_000;
    let spacing = 10_000_000i128;
    // group boxes by their top coordinate
    let mut rows: Vec<(i128, Vec<&LayoutItem>)> = Vec::new();
    for b in &out.boxes {
        match rows.iter_mut().find(|(t, _)| *t == b.top) {
            Some((_, v)) => v.push(b),
            None => rows.push((b.top, vec![b])),
        }
    }
    let complete_rows = rows.len() - (if out.widow_count > 0 { 1 } else { 0 });
    for (_, row) in rows.iter().take(complete_rows) {
        let total: i128 =
            row.iter().map(|b| b.width).sum::<i128>() + (row.len() as i128 - 1) * spacing;
        assert!((total - available).abs() <= SCALE / 2);
    }
}

#[test]
fn order_is_preserved_across_rows() {
    let values = [2_000_000i128, 1_500_000, 1_000_000, 1_200_000, 800_000, 1_700_000];
    let input = ratios(&values);
    let mut config = LayoutConfig::default();
    config.full_width_breakout_row_cadence = 2;
    let out = compute(&input, &config).unwrap();
    assert_eq!(out.boxes.len(), values.len());
    for (i, b) in out.boxes.iter().enumerate() {
        assert_eq!(b.aspect_ratio, values[i]);
        assert!(!b.forced_aspect_ratio);
    }
}
