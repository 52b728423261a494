use std::path::PathBuf;

use pulseon_viewer::assets::{list_assets, IconName, ViewerAssets, ASSET_PATHS};
use pulseon_viewer::cursor::{next_text_cursor, previous_text_cursor};
use pulseon_viewer::format::{
    format_grouped_integer, format_signed_integer, format_utc_clock_millis, inspector_integer,
    project_tree_label,
};
use pulseon_viewer::ids::{picked_directory, DataSourceId};
use pulseon_viewer::inspector::{
    compare_optional, inspector_evidence_order, inspector_row_group, EvidenceCompleteness,
    InspectorColumn, InspectorSortDirection, INSPECTOR_COLUMNS,
};

#[test]
fn picker_cancellation_has_no_source_effect() {
    assert_eq!(picked_directory(None), None);
    assert_eq!(picked_directory(Some(Vec::new())), None);
}

#[test]
fn picker_uses_the_single_selected_directory() {
    assert_eq!(
        picked_directory(Some(vec![PathBuf::from("project")])),
        Some(PathBuf::from("project"))
    );
}

#[test]
fn text_cursor_moves_between_utf8_character_boundaries() {
    let text = "a界b";

    assert_eq!(previous_text_cursor(text, text.len()), "a界".len());
    assert_eq!(previous_text_cursor(text, "a界".len()), "a".len());
    assert_eq!(next_text_cursor(text, "a".len()), "a界".len());
    assert_eq!(next_text_cursor(text, text.len()), text.len());
}

#[test]
fn text_cursor_stays_put_at_the_ends() {
    assert_eq!(previous_text_cursor("abc", 0), 0);
    assert_eq!(next_text_cursor("", 0), 0);
    assert_eq!(next_text_cursor("🎉x", 0), 4);
    assert_eq!(previous_text_cursor("🎉x", 4), 0);
}

#[test]
fn duplicate_project_names_are_qualified_by_source_identity() {
    assert_eq!(
        project_tree_label("viewer", &DataSourceId::from_string("source-b".to_string()), true),
        "viewer — source-b"
    );
    assert_eq!(
        project_tree_label("viewer", &DataSourceId::from_string("source-b".to_string()), false),
        "viewer"
    );
}

#[test]
fn integers_are_grouped_in_thousands_with_signs() {
    assert_eq!(format_grouped_integer(20_512), "20,512");
    assert_eq!(format_grouped_integer(0), "0");
    assert_eq!(format_grouped_integer(999), "999");
    assert_eq!(format_grouped_integer(1_000), "1,000");
    assert_eq!(format_grouped_integer(-1_234_567), "−1,234,567");
    assert_eq!(format_signed_integer(-229), "−229");
    assert_eq!(format_signed_integer(1_000), "+1,000");
    assert_eq!(format_signed_integer(0), "+0");
    assert_eq!(
        format_grouped_integer(i128::MIN),
        "−170,141,183,460,469,231,731,687,303,715,884,105,727"
    );
    assert_eq!(inspector_integer(Some(20_512), Some(20_741), false), "20,512 (−229)");
    assert_eq!(inspector_integer(Some(20_512), Some(20_741), true), "20,512");
    assert_eq!(inspector_integer(Some(5), None, false), "5");
    assert_eq!(inspector_integer(None, Some(1), false), "");
}

#[test]
fn utc_clock_shows_only_the_needed_precision() {
    assert_eq!(format_utc_clock_millis(0), "00:00");
    assert_eq!(format_utc_clock_millis(3_723_000), "01:02:03");
    assert_eq!(format_utc_clock_millis(3_723_004), "01:02:03.004");
    assert_eq!(format_utc_clock_millis(-1), "23:59:59.999");
    assert_eq!(format_utc_clock_millis(86_400_000 + 60_000), "00:01");
}

#[test]
fn icon_name_has_a_stable_asset_path() {
    assert_eq!(IconName::Refresh.path(), "icons/refresh.svg");
    assert_eq!(IconName::Folder.path(), "icons/folder.svg");
    assert_eq!(IconName::FolderOpen.path(), "icons/folder-open.svg");
    assert_eq!(IconName::Eye.path(), "icons/eye.svg");
    assert_eq!(IconName::Close.path(), "icons/close.svg");
    assert_eq!(IconName::Ellipsis.path(), "icons/ellipsis.svg");
    assert_eq!(IconName::Plus.path(), "icons/plus.svg");
    assert_eq!(IconName::ArrowUp.path(), "icons/arrow-up.svg");
    assert_eq!(IconName::Clock.path(), "icons/clock.svg");
    assert_eq!(IconName::PanelBottomOpen.path(), "icons/panel-bottom-open.svg");
}

#[test]
fn embedded_icon_paths_are_loadable_and_listed() {
    let assets = ViewerAssets;

    for path in ASSET_PATHS {
        assert!(assets.load(path).is_some(), "missing embedded asset {path}");
    }
    assert_eq!(assets.list("icons").len(), ASSET_PATHS.len());
    assert!(assets.load("icons/missing.svg").is_none());
}

#[test]
fn asset_listing_ignores_trailing_slashes_and_other_directories() {
    assert_eq!(list_assets("icons///").len(), ASSET_PATHS.len());
    assert!(list_assets("").is_empty());
    assert!(list_assets("icon").is_empty());
    assert_eq!(list_assets("icons")[0], "refresh.svg");
    let svg = ViewerAssets.load("icons/plus.svg").expect("plus icon is embedded");
    assert!(svg.starts_with(b"<svg"));
}

#[test]
fn inspector_columns_sort_and_rank() {
    for (position, column) in INSPECTOR_COLUMNS.iter().enumerate() {
        assert_eq!(column.index(), position);
    }
    assert_eq!(InspectorColumn::LastStep.key(), "last-step");
    assert_eq!(InspectorColumn::LastValue.label(), "Last value");
    assert!(InspectorColumn::Count.right_aligned());
    assert!(!InspectorColumn::Project.right_aligned());
    assert!(!InspectorColumn::LastValue.has_left_border());
    assert_eq!(
        InspectorSortDirection::Descending.orient(std::cmp::Ordering::Less),
        std::cmp::Ordering::Greater
    );
    assert_eq!(
        compare_optional(Some(2u64), Some(3), InspectorSortDirection::Descending, u64::cmp),
        std::cmp::Ordering::Greater
    );
    assert_eq!(
        compare_optional(None, Some(3u64), InspectorSortDirection::Ascending, u64::cmp),
        std::cmp::Ordering::Greater
    );
    assert_eq!(
        [inspector_row_group(true, true), inspector_row_group(false, true), inspector_row_group(false, false)],
        [0, 1, 2]
    );
    assert_eq!(inspector_evidence_order(EvidenceCompleteness::Invalid), 3);
}
