use justified_layout::fixed::SCALE;
use justified_layout::layout::{LayoutConfig, Padding, Spacing};
use justified_layout::models::{PrizeSource, SpecialPrize};
use justified_layout::row::WidowLayoutStyle;
use justified_layout::utils::is_same_date_in_hkt;

#[test]
fn scale_is_one_display_unit() {
    assert_eq!(SCALE, 1_000_000);
}

#[test]
fn default_config_values() {
    let c = LayoutConfig::default();
    assert_eq!(c.container_width, 1_060 * SCALE);
    assert_eq!(
        c.container_padding,
        Padding { top: 10 * SCALE, right: 10 * SCALE, bottom: 10 * SCALE, left: 10 * SCALE }
    );
    assert_eq!(c.box_spacing, Spacing { horizontal: 10 * SCALE, vertical: 10 * SCALE });
    assert_eq!(c.target_row_height, vec![320 * SCALE]);
    assert_eq!(c.target_row_height_tolerance, 250_000);
    assert_eq!(c.edge_case_min_row_height_factor, 500_000);
    assert_eq!(c.edge_case_max_row_height_factor, 2_000_000);
    assert_eq!(c.max_num_rows, usize::MAX);
    assert!(c.force_aspect_ratio.is_none());
    assert!(c.show_widows);
    assert_eq!(c.full_width_breakout_row_cadence, 0);
    assert_eq!(c.widow_layout_style, WidowLayoutStyle::Left);
}

#[test]
fn same_hkt_date_straddles_utc_midnight() {
    // 1970-01-01 00:00:00 UTC is 08:00 in Hong Kong; 15:59:59 UTC is still
    // 23:59:59 the same Hong Kong day, while 16:00:00 UTC is the next one.
    assert!(is_same_date_in_hkt(0, 57_599));
    assert!(!is_same_date_in_hkt(0, 57_600));
}

#[test]
fn hkt_dates_before_the_epoch() {
    // 1969-12-31 15:59:59 UTC is 23:59:59 Hong Kong time, the day before
    // the epoch's Hong Kong date.
    assert!(!is_same_date_in_hkt(-28_801, 0));
    assert!(is_same_date_in_hkt(-28_800, 0));
    assert!(is_same_date_in_hkt(-28_801, -86_400));
}

#[test]
fn prize_source_variants_round_trip_fields() {
    let a = PrizeSource::Telegram { post_id: 531 };
    let b = PrizeSource::File { file_name: String::from("composite.jpg") };
    let c = PrizeSource::Url { photo_url: String::from("https://example.test/p.png") };
    assert_eq!(a, PrizeSource::Telegram { post_id: 531 });
    assert_ne!(a, PrizeSource::Telegram { post_id: 532 });
    match b {
        PrizeSource::File { file_name } => assert_eq!(file_name, "composite.jpg"),
        _ => panic!("wrong variant"),
    }
    match c {
        PrizeSource::Url { photo_url } => assert!(photo_url.starts_with("https://")),
        _ => panic!("wrong variant"),
    }
}

#[test]
fn special_prize_holds_tag_and_name() {
    let s = SpecialPrize {
        search_tag: String::from("hakurei_reimu"),
        display_name: String::from("Reimu"),
    };
    let t = s.clone();
    assert_eq!(s, t);
    assert_eq!(t.search_tag, "hakurei_reimu");
    assert_eq!(t.display_name, "Reimu");
}
