use db_utils::backend::format_index;
use db_utils::rewrite::replace_arg_placeholders;

use db_utils::backend::{NumberedBackend, UnindexedBackend};

#[test]
fn rewrites_markers_with_increasing_indices() {
    let (text, next) = replace_arg_placeholders::<NumberedBackend>("WHERE a = $$ AND b = $$", 3);
    assert_eq!(text, "WHERE a = $3 AND b = $4");
    assert_eq!(next, 5);
}

#[test]
fn rewrites_markers_unindexed() {
    let (text, next) = replace_arg_placeholders::<UnindexedBackend>("WHERE a = $$ AND b = $$", 3);
    assert_eq!(text, "WHERE a = ? AND b = ?");
    assert_eq!(next, 5);
}

#[test]
fn rewrite_without_markers_keeps_text() {
    let (text, next) = replace_arg_placeholders::<NumberedBackend>("SELECT 1", 7);
    assert_eq!(text, "SELECT 1");
    assert_eq!(next, 7);
}

#[test]
fn rewrite_empty_fragment() {
    let (text, next) = replace_arg_placeholders::<NumberedBackend>("", 1);
    assert_eq!(text, "");
    assert_eq!(next, 1);
}

#[test]
fn rewrite_adjacent_markers_not_coalesced() {
    let (text, next) = replace_arg_placeholders::<NumberedBackend>("$$$$", 1);
    assert_eq!(text, "$1$2");
    assert_eq!(next, 3);
}

#[test]
fn rewrite_lone_dollar_is_kept() {
    let (text, next) = replace_arg_placeholders::<NumberedBackend>("a $ b $$", 9);
    assert_eq!(text, "a $ b $9");
    assert_eq!(next, 10);
}

#[test]
fn format_index_renders_decimal() {
    assert_eq!(format_index(0), "0");
    assert_eq!(format_index(7), "7");
    assert_eq!(format_index(10), "10");
    assert_eq!(format_index(12345), "12345");
    assert_eq!(format_index(i64::MAX), "9223372036854775807");
}
