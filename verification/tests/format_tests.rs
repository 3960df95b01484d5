use termprint::request_ext::HttpMethod;
use termprint::termprint as tp;
use termprint::tctermprint as tc;

#[test]
fn index2rgb_names_the_sixteen_base_colours() {
    assert_eq!(tp::index2rgb(0), (0, 0, 0));
    assert_eq!(tp::index2rgb(1), (205, 0, 0));
    assert_eq!(tp::index2rgb(9), (255, 0, 0));
    assert_eq!(tp::index2rgb(12), (92, 92, 255));
    assert_eq!(tp::index2rgb(15), (255, 255, 255));
}

#[test]
fn index2rgb_computes_the_colour_cube() {
    // 100 - 16 = 84: 84/36 % 6 = 2, 84/6 % 6 = 2, 84 % 6 = 0
    assert_eq!(tp::index2rgb(100), (102, 102, 0));
    assert_eq!(tp::index2rgb(16), (0, 0, 0));
    assert_eq!(tp::index2rgb(231), (255, 255, 255));
}

#[test]
fn index2rgb_computes_the_grayscale_ramp() {
    assert_eq!(tp::index2rgb(232), (8, 8, 8));
    assert_eq!(tp::index2rgb(255), (238, 238, 238));
}

#[test]
fn tp_error_lays_out_all_four_shapes() {
    colored::control::set_override(false);
    assert_eq!(tp::error("m", None, None), "ERROR m");
    assert_eq!(tp::error("m", Some("i"), None), "ERROR m: i");
    assert_eq!(tp::error("m", None, Some("e")), "ERROR m: e");
    assert_eq!(tp::error("m", Some("i"), Some("e")), "ERROR m: i - e");
}

#[test]
fn tp_warning_keeps_the_tag() {
    colored::control::set_override(false);
    assert_eq!(tp::warning("look out"), "WARNTING: look out");
}

#[test]
fn tp_info_joins_key_and_value_with_a_colon() {
    colored::control::set_override(false);
    assert_eq!(tp::info("key", "value"), "key: value");
}

#[test]
fn tp_write_info_appends_without_separator() {
    colored::control::set_override(false);
    let mut out = String::from("x");
    tp::write_info(&mut out, "k", "v");
    assert_eq!(out, "xkv\n");
}

#[test]
fn tp_message_is_the_text_when_colour_is_off() {
    colored::control::set_override(false);
    assert_eq!(tp::message("hello"), "hello");
    let mut out = String::new();
    tp::write_message(&mut out, "hello");
    assert_eq!(out, "hello\n");
}

#[test]
fn tp_titles_and_rules() {
    colored::control::set_override(false);
    assert_eq!(tp::str_title("T"), "T\n");
    let mut out = String::new();
    tp::write_title(&mut out, "T");
    assert_eq!(out, "T\n");
    assert_eq!(tp::line(5), "─────\n");
    assert_eq!(tp::double_line(4), "════\n");
    let mut ruled = String::new();
    tp::write_line(&mut ruled, 3);
    assert_eq!(ruled, "───\n");
    let mut doubled = String::new();
    tp::write_double_line(&mut doubled, 2);
    assert_eq!(doubled, "══\n\n");
}

#[test]
fn str_key_value_wraps_the_value_into_chunks() {
    colored::control::set_override(false);
    assert_eq!(tp::str_key_value("k", "abcdef", 4, 3), "k   : abc\n      def\n");
    assert_eq!(tp::str_key_value("key", "v", 3, 10), "key: v\n");
    assert_eq!(tp::str_key_value("k", "", 3, 10), "");
}

#[test]
fn str_hashmap_frames_the_pairs() {
    colored::control::set_override(false);
    let pairs = vec![(String::from("a"), String::from("xy"))];
    assert_eq!(tp::str_hashmap(&pairs, None, 80), "a: xy\n──────\n");
    assert_eq!(
        tp::str_hashmap(&pairs, Some("Map"), 80),
        "Map\n──────\na: xy\n──────\n"
    );
}

#[test]
fn write_hashmap_appends_a_trailing_break() {
    colored::control::set_override(false);
    let pairs = vec![(String::from("a"), String::from("x"))];
    let mut out = String::new();
    tp::write_hashmap(&mut out, &pairs, None, 80);
    assert_eq!(out, "a: x\n─────\n\n");
}

#[test]
fn str_struct_fields_widens_both_columns_by_one() {
    colored::control::set_override(false);
    let pairs = vec![(String::from("k"), String::from("v"))];
    assert_eq!(
        tp::str_struct_fields("S", &pairs, 80),
        "S\n───────\nk : v\n───────\n"
    );
}

#[test]
fn get_column_widths_caps_at_the_column_width() {
    let table = vec![vec!["Name", "Age"], vec!["Alice", "3"]];
    assert_eq!(tp::get_column_widths(&table, 10), vec![5, 3]);
    assert_eq!(tp::get_column_widths(&table, 4), vec![4, 3]);
}

#[test]
fn make_row_pads_and_truncates_cells() {
    colored::control::set_override(false);
    let row = vec!["ab", "cdef"];
    let widths = vec![4, 3];
    assert_eq!(tp::make_row(&row, &widths, 0, 1), "ab     cd*   \n");
}

#[test]
fn make_header_stacks_overlong_headers() {
    colored::control::set_override(false);
    let headers = vec!["abcdef"];
    let widths = vec![3];
    assert_eq!(tp::make_header(&headers, &widths, 0, 0), "abc   \ndef   \n");
    let short = vec!["ab"];
    assert_eq!(tp::make_header(&short, &widths, 0, 0), "");
    let mut out = String::from("|");
    tp::write_header(&mut out, &headers, &widths, 0, 0);
    assert_eq!(out, "|abc   \ndef   \n\n");
}

#[test]
fn make_table_assembles_header_rows_and_rules() {
    colored::control::set_override(false);
    let table = vec![vec!["h1", "h2"], vec!["a", "b"]];
    let expected = "h1   h2   \n──────────\na    b    \n──────────\n\n";
    assert_eq!(tp::make_table(table, true, None, Some(10), 80), expected);
}

#[test]
fn make_table_with_title_and_without_header() {
    colored::control::set_override(false);
    let table = vec![vec!["a", "b"]];
    let expected = "T\n────────\n────────\n\n";
    assert_eq!(tp::make_table(table, false, Some("T"), Some(10), 80), expected);
}

#[test]
fn make_table_splits_wide_tables_into_segments() {
    colored::control::set_override(false);
    // each column takes 4 + 3 = 7; max width 10 fits one column per segment
    let table = vec![vec!["aaaa", "bbbb"]];
    let expected = "───────\n───────\n\n───────\n───────\n\n";
    assert_eq!(tp::make_table(table, false, None, Some(4), 10), expected);
}

#[test]
fn table_from_string_matches_make_table() {
    colored::control::set_override(false);
    let owned = vec![
        vec![String::from("h1"), String::from("h2")],
        vec![String::from("a"), String::from("b")],
    ];
    let expected = "h1   h2   \n──────────\na    b    \n──────────\n\n";
    assert_eq!(tp::table_from_string(owned, true, None, Some(10), 80), expected);
    let data = vec![vec!["a"]];
    let mut out = String::new();
    tp::write_table(&mut out, data, false, None, Some(10), 80);
    assert_eq!(out, "────\n────\n\n\n");
}

#[test]
fn tc_key_value_pads_the_key_column() {
    colored::control::set_override(false);
    assert_eq!(tc::key_value("key", "value", None), "key: value");
    assert_eq!(tc::key_value("key", "value", Some(8)), "key     : value");
}

#[test]
fn tc_error_and_warning_tags() {
    colored::control::set_override(false);
    assert_eq!(tc::error("boom"), "ERROR: boom");
    assert_eq!(tc::warning("careful"), "Warning: careful");
}

#[test]
fn tc_info_has_no_separator() {
    colored::control::set_override(false);
    assert_eq!(tc::info("k", "v", Some(4)), "k   v");
    let mut out = String::new();
    tc::write_info(&mut out, "k", "v", Some(3));
    assert_eq!(out, "k  v\n");
}

#[test]
fn tc_msg_and_titles() {
    colored::control::set_override(false);
    assert_eq!(tc::msg("m"), "m");
    let mut out = String::new();
    tc::write_msg(&mut out, "m");
    tc::write_title(&mut out, "T");
    assert_eq!(out, "m\nT\n");
}

#[test]
fn tc_rules_default_to_medium_width() {
    colored::control::set_override(false);
    let mut out = String::new();
    tc::write_line(&mut out, Some(4));
    assert_eq!(out, "⎯⎯⎯⎯\n");
    let mut wide = String::new();
    tc::write_line(&mut wide, None);
    assert_eq!(wide, format!("{}\n", "⎯".repeat(80)));
    let mut doubled = String::new();
    tc::write_double_line(&mut doubled, Some(3));
    assert_eq!(doubled, "═══\n");
}

#[test]
fn http_method_texts() {
    assert_eq!(HttpMethod::GET.as_str(), "GET");
    assert_eq!(HttpMethod::POST.as_str(), "POST");
    assert_eq!(HttpMethod::PUT.to_string(), "PUT");
    assert_eq!(HttpMethod::DELETE.to_string(), "DELETE");
    assert_eq!(tc::HttpMethod::GET.as_str(), "GET");
    assert_eq!(tp::HttpMethod::DELETE.as_str(), "DELETE");
}

#[test]
fn painting_changes_the_text_when_colour_is_forced() {
    colored::control::set_override(true);
    assert_ne!(tp::message("plain"), "plain");
    assert!(tp::message("plain").contains('\u{1b}'));
    assert!(tp::info("k", "v").contains('\u{1b}'));
    assert!(tp::error("e", None, None).contains('\u{1b}'));
    assert!(tc::msg("plain").contains('\u{1b}'));
    assert!(tc::error("e").contains('\u{1b}'));
    assert!(tp::warning("w").contains('\u{1b}'));
    assert!(tp::str_title("t").contains('\u{1b}'));
    assert!(tp::line(3).contains('\u{1b}'));
    let mut title = String::new();
    tc::write_title(&mut title, "T");
    assert!(title.contains('\u{1b}'));
    // a five-column row runs through the whole column palette
    let row = vec!["a", "b", "c", "d", "e"];
    let widths = vec![1, 1, 1, 1, 1];
    let painted_row = tp::make_row(&row, &widths, 0, 4);
    assert!(painted_row.matches('\u{1b}').count() >= 10);
    colored::control::unset_override();
}
