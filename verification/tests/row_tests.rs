use justified_layout::row::{LayoutItem, Row, RowStatus, WidowLayoutStyle};

fn open_row() -> Row {
    Row {
        top: 10_000_000,
        left: 10_000_000,
        width: 1_040_000_000,
        spacing: 10_000_000,
        target_row_height: 320_000_000,
        target_row_height_tolerance: 250_000,
        edge_case_min_row_height: 160_000_000,
        edge_case_max_row_height: 640_000_000,
        widow_layout_style: WidowLayoutStyle::Left,
        is_breakout_row: false,
        items: Vec::new(),
        ratio_sum: 0,
        status: RowStatus::Open,
    }
}

fn pending(ar: i128) -> LayoutItem {
    LayoutItem {
        aspect_ratio: ar,
        top: 0,
        left: 0,
        width: 0,
        height: 0,
        forced_aspect_ratio: false,
    }
}

#[test]
fn tolerance_band_bounds() {
    let row = open_row();
    assert_eq!(row.min_aspect_ratio(), 2_437_500);
    assert_eq!(row.max_aspect_ratio(), 4_062_500);
}

#[test]
fn narrow_item_keeps_row_open() {
    let mut row = open_row();
    let res = row.add_item(pending(1_500_000));
    assert!(res.is_ok());
    assert!(!row.is_layout_complete());
    assert_eq!(row.get_items().len(), 1);
    assert_eq!(row.ratio_sum, 1_500_000);
}

#[test]
fn band_entry_completes_row() {
    let mut row = open_row();
    assert!(row.add_item(pending(1_500_000)).is_ok());
    assert!(row.add_item(pending(1_000_000)).is_ok());
    assert!(row.is_layout_complete());
    assert_eq!(row.status, RowStatus::Finalized(412_000_000));
    let items = row.get_items();
    assert_eq!(items[0].left, 10_000_000);
    assert_eq!(items[0].width, 618_000_000);
    assert_eq!(items[1].left, 638_000_000);
    assert_eq!(items[1].width, 412_000_000);
    assert_eq!(items[0].height, 412_000_000);
    assert_eq!(items[1].height, 412_000_000);
}

#[test]
fn worse_fit_bounces_the_item() {
    let mut row = open_row();
    assert!(row.add_item(pending(2_437_000)).is_ok());
    assert!(!row.is_layout_complete());
    let bounced = row.add_item(pending(2_000_000));
    assert_eq!(bounced, Err(pending(2_000_000)));
    assert!(row.is_layout_complete());
    assert_eq!(row.status, RowStatus::Finalized(426_754_206));
    assert_eq!(row.get_items().len(), 1);
}

#[test]
fn oversize_single_item_is_clamped() {
    // A lone 8.0 item wants height 130, below the 160 clamp: the height is
    // raised while the width keeps following the requested height.
    let mut row = open_row();
    assert!(row.add_item(pending(8_000_000)).is_ok());
    assert!(row.is_layout_complete());
    assert_eq!(row.status, RowStatus::Finalized(160_000_000));
    assert_eq!(row.get_items()[0].height, 160_000_000);
}

#[test]
fn breakout_row_takes_one_landscape_item() {
    let mut row = open_row();
    row.is_breakout_row = true;
    assert!(row.add_item(pending(1_000_000)).is_ok());
    assert!(row.is_layout_complete());
    assert_eq!(row.get_items().len(), 1);
    assert_eq!(row.status, RowStatus::Finalized(640_000_000));
    assert_eq!(row.get_items()[0].width, 1_040_000_000);
}

#[test]
fn breakout_row_passes_portrait_item_to_normal_logic() {
    let mut row = open_row();
    row.is_breakout_row = true;
    assert!(row.add_item(pending(900_000)).is_ok());
    assert!(!row.is_layout_complete());
    assert_eq!(row.get_items().len(), 1);
}

#[test]
fn force_complete_uses_given_height_and_widow_style() {
    let mut row = open_row();
    row.widow_layout_style = WidowLayoutStyle::Center;
    assert!(row.add_item(pending(1_000_000)).is_ok());
    row.force_complete(false, Some(300_000_000));
    assert_eq!(row.status, RowStatus::Finalized(300_000_000));
    let it = row.get_items()[0];
    assert_eq!(it.width, 300_000_000);
    assert_eq!(it.height, 300_000_000);
    // centered: shifted right by (width - cursor_end) / 2 + spacing
    assert_eq!(it.left, 10_000_000 + 360_000_000 + 10_000_000);
}

#[test]
fn force_complete_defaults_to_target_height() {
    let mut row = open_row();
    assert!(row.add_item(pending(1_000_000)).is_ok());
    row.force_complete(false, None);
    assert_eq!(row.status, RowStatus::Finalized(320_000_000));
    assert_eq!(row.get_items()[0].height, 320_000_000);
}

#[test]
fn default_item_is_square_and_unplaced() {
    let d = LayoutItem::default();
    assert_eq!(d.aspect_ratio, 1_000_000);
    assert_eq!(d.top, 0);
    assert_eq!(d.left, 0);
    assert_eq!(d.width, 0);
    assert_eq!(d.height, 0);
    assert!(!d.forced_aspect_ratio);
}
