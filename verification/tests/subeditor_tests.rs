use med_core::subeditor::SubEditor;
use med_core::subeditor::DEL;

fn doc_lines(ed: &SubEditor) -> Vec<String> {
    ed.get_lines().iter().map(|l| l.show()).collect()
}

#[test]
fn load_splits_on_newlines() {
    let ed = SubEditor::from_content("abc\nde\nfghij");
    assert_eq!(ed.num_lines(), 3);
    assert_eq!(doc_lines(&ed), vec!["abc", "de", "fghij"]);
    assert_eq!(ed.curr_line_num(), 0);
    assert_eq!(ed.cursor(), 0);
    assert!(!ed.is_modified());
}

#[test]
fn active_line_number_is_one_based() {
    let mut ed = SubEditor::from_content("ab\ncd\nef");
    assert_eq!(ed.active_line_number(), 1);
    assert_eq!(ed.curr_line_num(), 0);
    assert!(ed.move_down());
    assert_eq!(ed.active_line_number(), 2);
    ed.move_last();
    assert_eq!(ed.active_line_number(), ed.num_lines());
}

#[test]
fn load_of_empty_text_gives_one_empty_line() {
    let ed = SubEditor::from_content("");
    assert_eq!(ed.num_lines(), 1);
    assert_eq!(ed.curr_line(), "");
}

#[test]
fn load_treats_final_newline_as_line_end() {
    let ed = SubEditor::from_content("abc\nde\n");
    assert_eq!(ed.num_lines(), 2);
    assert_eq!(doc_lines(&ed), vec!["abc", "de"]);
    let ed2 = SubEditor::from_content("\n");
    assert_eq!(ed2.num_lines(), 1);
    assert_eq!(ed2.curr_line(), "");
}

#[test]
fn save_load_round_trip_with_final_newline() {
    let text = "abc\nde\nfghij\n";
    let ed = SubEditor::from_content(text);
    assert_eq!(ed.content(), text);
}

#[test]
fn save_load_round_trip_appends_one_newline() {
    let ed = SubEditor::from_content("abc\nde");
    assert_eq!(ed.content(), "abc\nde\n");
    let empty = SubEditor::from_content("");
    assert_eq!(empty.content(), "\n");
}

#[test]
fn enter_splits_line_two_at_column_one() {
    let mut ed = SubEditor::from_content("abc\nde\nfghij");
    assert!(ed.move_down());
    assert!(ed.move_right());
    assert_eq!(ed.curr_line_num(), 1);
    assert_eq!(ed.cursor(), 1);
    let prev = ed.insert_newline();
    assert_eq!(prev, "d");
    assert_eq!(ed.num_lines(), 4);
    assert_eq!(doc_lines(&ed), vec!["abc", "d", "e", "fghij"]);
    assert_eq!(ed.curr_line_num(), 2);
    assert_eq!(ed.curr_line(), "e");
    assert_eq!(ed.cursor(), 0);
    assert!(ed.is_modified());
}

#[test]
fn backspace_at_document_start_is_a_no_op() {
    let mut ed = SubEditor::from_content("x");
    assert_eq!(ed.backspace(), DEL::No);
    assert_eq!(ed.num_lines(), 1);
    assert_eq!(ed.curr_line(), "x");
}

#[test]
fn backspace_at_line_start_joins_lines() {
    let mut ed = SubEditor::from_content("ab\ncd");
    assert!(ed.move_down());
    assert_eq!(ed.curr_line_num(), 1);
    assert_eq!(ed.cursor(), 0);
    assert_eq!(ed.backspace(), DEL::NewLine(2));
    assert_eq!(ed.num_lines(), 1);
    assert_eq!(ed.curr_line(), "abcd");
    assert_eq!(ed.cursor(), 2);
}

#[test]
fn backspace_inside_a_line_deletes_one_character() {
    let mut ed = SubEditor::from_content("abc");
    assert!(ed.move_right());
    assert!(ed.move_right());
    assert_eq!(ed.backspace(), DEL::Yes);
    assert_eq!(ed.curr_line(), "ac");
    assert_eq!(ed.cursor(), 1);
}

#[test]
fn delete_at_line_end_joins_the_next_line() {
    let mut ed = SubEditor::from_content("ab\ncd");
    ed.move_end();
    assert_eq!(ed.delete(), DEL::NewLine(2));
    assert_eq!(ed.num_lines(), 1);
    assert_eq!(ed.curr_line(), "abcd");
    assert_eq!(ed.cursor(), 2);
}

#[test]
fn delete_at_document_end_is_a_no_op() {
    let mut ed = SubEditor::from_content("ab");
    ed.move_end();
    assert_eq!(ed.delete(), DEL::No);
    assert_eq!(ed.curr_line(), "ab");
}

#[test]
fn delete_inside_a_line_keeps_the_cursor() {
    let mut ed = SubEditor::from_content("abc");
    assert!(ed.move_right());
    assert_eq!(ed.delete(), DEL::Yes);
    assert_eq!(ed.curr_line(), "ac");
    assert_eq!(ed.cursor(), 1);
}

#[test]
fn split_then_join_restores_the_line() {
    let mut ed = SubEditor::from_content("abcdef");
    for _ in 0..3 {
        assert!(ed.move_right());
    }
    let before = ed.curr_line();
    let col = ed.cursor();
    ed.insert_newline();
    assert_eq!(ed.num_lines(), 2);
    assert_eq!(ed.backspace(), DEL::NewLine(3));
    assert_eq!(ed.num_lines(), 1);
    assert_eq!(ed.curr_line(), before);
    assert_eq!(ed.cursor(), col);
}

#[test]
fn column_memory_snaps_to_short_lines_and_back() {
    let mut ed = SubEditor::from_content("abcdefghijklm\nabc\nabcdefghijklm");
    for _ in 0..10 {
        assert!(ed.move_right());
    }
    assert_eq!(ed.cursor(), 10);
    assert!(ed.move_down());
    assert_eq!(ed.curr_line_num(), 1);
    assert_eq!(ed.cursor(), 3);
    assert!(ed.move_down());
    assert_eq!(ed.curr_line_num(), 2);
    assert_eq!(ed.cursor(), 10);
    assert!(ed.move_up());
    assert_eq!(ed.cursor(), 3);
    assert!(ed.move_up());
    assert_eq!(ed.curr_line_num(), 0);
    assert_eq!(ed.cursor(), 10);
}

#[test]
fn horizontal_motion_resets_column_memory() {
    let mut ed = SubEditor::from_content("abcdefghij\nab\nabcdefghij");
    for _ in 0..8 {
        assert!(ed.move_right());
    }
    assert!(ed.move_down());
    assert_eq!(ed.cursor(), 2);
    assert!(ed.move_left());
    assert_eq!(ed.cursor(), 1);
    assert!(ed.move_down());
    assert_eq!(ed.cursor(), 1);
}

#[test]
fn vertical_motion_stops_at_the_edges() {
    let mut ed = SubEditor::from_content("a\nb");
    assert!(!ed.move_up());
    assert!(ed.move_down());
    assert!(!ed.move_down());
    assert!(ed.move_up());
    assert!(!ed.move_up());
}

#[test]
fn move_first_and_last_jump_to_column_zero() {
    let mut ed = SubEditor::from_content("abc\nde\nfgh");
    assert!(ed.move_down());
    assert!(ed.move_right());
    ed.move_last();
    assert_eq!(ed.curr_line_num(), 2);
    assert_eq!(ed.cursor(), 0);
    ed.move_first();
    assert_eq!(ed.curr_line_num(), 0);
    assert_eq!(ed.cursor(), 0);
}

#[test]
fn insert_types_into_the_active_line() {
    let mut ed = SubEditor::from_content("ac");
    assert!(ed.move_right());
    ed.insert('b');
    assert_eq!(ed.curr_line(), "abc");
    assert_eq!(ed.cursor(), 2);
    assert_eq!(ed.linelen(), 3);
    assert!(ed.is_modified());
}

#[test]
fn remove_empty_line_drops_the_active_line() {
    let mut ed = SubEditor::from_content("ab\n\ncd");
    assert!(ed.move_down());
    assert_eq!(ed.linelen(), 0);
    assert!(ed.remove_empty_line());
    assert_eq!(ed.num_lines(), 2);
    assert_eq!(doc_lines(&ed), vec!["ab", "cd"]);
    assert_eq!(ed.curr_line_num(), 0);
    assert_eq!(ed.cursor(), 0);
}

#[test]
fn remove_empty_first_line_moves_to_the_next() {
    let mut ed = SubEditor::from_content("\nab");
    assert_eq!(ed.linelen(), 0);
    assert!(!ed.remove_empty_line());
    assert_eq!(ed.num_lines(), 1);
    assert_eq!(ed.curr_line(), "ab");
    assert_eq!(ed.cursor(), 0);
}

#[test]
fn remove_empty_line_refuses_the_last_line() {
    let mut ed = SubEditor::from_content("");
    assert!(!ed.remove_empty_line());
    assert_eq!(ed.num_lines(), 1);
    let mut ed2 = SubEditor::from_content("ab");
    assert!(!ed2.remove_empty_line());
    assert_eq!(ed2.curr_line(), "ab");
}

#[test]
fn post_line_accessors_show_the_rest() {
    let mut ed = SubEditor::from_content("abcd\nef");
    assert!(ed.move_right());
    assert_eq!(ed.show_curr_line(), "abcd");
    assert_eq!(ed.show_curr_post_line(), "bcd");
    let post = ed.get_post_lines();
    assert_eq!(post.len(), 1);
    assert_eq!(post[0].show(), "ef");
}

#[test]
fn show_dumps_position_and_lines() {
    let ed = SubEditor::from_content("ab\ncd");
    assert_eq!(ed.show(), "line: 1, cursor: 1\n1 | ab2 | cd");
}

#[test]
fn mark_saved_clears_the_modified_flag() {
    let mut ed = SubEditor::from_content("ab");
    ed.insert('x');
    assert!(ed.is_modified());
    ed.mark_saved();
    assert!(!ed.is_modified());
    assert_eq!(ed.content(), "xab\n");
}

#[test]
fn editing_then_saving_writes_the_edited_text() {
    let mut ed = SubEditor::from_content("hello\nworld\n");
    ed.move_end();
    ed.insert('!');
    assert!(ed.move_down());
    assert_eq!(ed.cursor(), 5);
    ed.insert('?');
    assert_eq!(ed.content(), "hello!\nworld?\n");
}

#[test]
fn number_strings_are_decimal() {
    assert_eq!(med_core::num::usize_to_string(0), "0");
    assert_eq!(med_core::num::usize_to_string(7), "7");
    assert_eq!(med_core::num::usize_to_string(1234), "1234");
    assert_eq!(med_core::num::usize_to_string(1000000), "1000000");
}
