use med_core::line::Line;

#[test]
fn empty_line_starts_blank() {
    let l = Line::init();
    assert_eq!(l.len(), 0);
    assert_eq!(l.cursor(), 0);
    assert_eq!(l.show(), "");
    assert_eq!(l.get_len(), 32);
}

#[test]
fn inserts_read_back_in_order() {
    let mut l = Line::init();
    for ch in "hello world".chars() {
        l.insert(ch);
    }
    assert_eq!(l.show(), "hello world");
    assert_eq!(l.len(), 11);
    assert_eq!(l.cursor(), 11);
}

#[test]
fn inserts_survive_interleaved_motion() {
    let mut l = Line::init();
    l.insert('a');
    l.insert('c');
    assert!(l.move_l());
    l.insert('b');
    assert_eq!(l.show(), "abc");
    assert_eq!(l.cursor(), 2);
}

#[test]
fn growth_is_transparent() {
    let mut l = Line::init();
    let mut expected = String::new();
    for i in 0..100u32 {
        let ch = char::from_u32(('a' as u32) + (i % 26)).unwrap();
        l.insert(ch);
        expected.push(ch);
    }
    assert_eq!(l.len(), 100);
    assert_eq!(l.show(), expected);
}

#[test]
fn growth_preserves_text_behind_cursor() {
    let mut l = Line::init();
    for ch in "abcdefghijklmnopqrstuvwxyz".chars() {
        l.insert(ch);
    }
    l.move_start();
    for ch in "0123456789".chars() {
        l.insert(ch);
    }
    assert_eq!(l.show(), "0123456789abcdefghijklmnopqrstuvwxyz");
    assert_eq!(l.cursor(), 10);
}

#[test]
fn length_after_n_inserts() {
    let mut l = Line::init_with_line(String::from("seed"));
    assert_eq!(l.len(), 4);
    l.move_end();
    for _ in 0..50 {
        l.insert('x');
    }
    assert_eq!(l.len(), 54);
}

#[test]
fn move_left_then_right_is_a_no_op() {
    let mut l = Line::init();
    for ch in "abcd".chars() {
        l.insert(ch);
    }
    assert!(l.move_l());
    assert!(l.move_l());
    let col = l.cursor();
    let text = l.show();
    assert!(l.move_l());
    assert!(l.move_r());
    assert_eq!(l.cursor(), col);
    assert_eq!(l.show(), text);
    assert!(l.move_r());
    assert!(l.move_l());
    assert_eq!(l.cursor(), col);
    assert_eq!(l.show(), text);
}

#[test]
fn motion_stops_at_the_ends() {
    let mut l = Line::init_with_line(String::from("ab"));
    assert_eq!(l.cursor(), 0);
    assert!(!l.move_l());
    l.move_end();
    assert_eq!(l.cursor(), 2);
    assert!(!l.move_r());
    l.move_start();
    assert_eq!(l.cursor(), 0);
}

#[test]
fn init_with_line_holds_the_text() {
    let l = Line::init_with_line(String::from("some words"));
    assert_eq!(l.show(), "some words");
    assert_eq!(l.len(), 10);
    assert_eq!(l.cursor(), 0);
}

#[test]
fn init_with_line_long_text_gets_larger_capacity() {
    let text = "x".repeat(100);
    let l = Line::init_with_line(text.clone());
    assert_eq!(l.show(), text);
    assert_eq!(l.get_len(), 128);
}

#[test]
fn backspace_removes_before_cursor() {
    let mut l = Line::init_with_line(String::from("abc"));
    l.move_end();
    assert!(l.backspace());
    assert_eq!(l.show(), "ab");
    assert_eq!(l.cursor(), 2);
    l.move_start();
    assert!(!l.backspace());
    assert_eq!(l.show(), "ab");
}

#[test]
fn delete_removes_after_cursor() {
    let mut l = Line::init_with_line(String::from("abc"));
    assert!(l.delete());
    assert_eq!(l.show(), "bc");
    assert_eq!(l.cursor(), 0);
    l.move_end();
    assert!(!l.delete());
    assert_eq!(l.show(), "bc");
}

#[test]
fn adjust_buffer_grows_a_tight_gap() {
    let mut l = Line::init_with_line(String::from("abcdefghijklmnopqrstuvwxyz0123"));
    assert_eq!(l.get_len(), 32);
    l.adjust_buffer();
    assert_eq!(l.get_len(), 64);
    assert_eq!(l.show(), "abcdefghijklmnopqrstuvwxyz0123");
}

#[test]
fn line_follows_a_naive_reference_model() {
    // Replays a script against a plain string-plus-index model: '<' and '>'
    // move the cursor one column, clamped at the ends; '^' and '$' jump to
    // the start and the end; any other character is inserted at the cursor.
    // The script inserts well past the initial capacity of 32.
    let script = "<hello< <world>>>>>>$!^>>¡<<<<^0123456789abcdefghijklmnopqrstuvwxyz$.^<$>";
    let mut l = Line::init();
    let mut model: Vec<char> = Vec::new();
    let mut idx: usize = 0;
    for ch in script.chars() {
        match ch {
            '<' => {
                let moved = l.move_l();
                assert_eq!(moved, idx > 0);
                if moved {
                    idx -= 1;
                }
            }
            '>' => {
                let moved = l.move_r();
                assert_eq!(moved, idx < model.len());
                if moved {
                    idx += 1;
                }
            }
            '^' => {
                l.move_start();
                idx = 0;
            }
            '$' => {
                l.move_end();
                idx = model.len();
            }
            _ => {
                l.insert(ch);
                model.insert(idx, ch);
                idx += 1;
            }
        }
        assert_eq!(l.show(), model.iter().collect::<String>());
        assert_eq!(l.cursor(), idx);
        assert_eq!(l.len(), model.len());
    }
}

#[test]
fn char_at_reads_logical_positions() {
    let mut l = Line::init_with_line(String::from("abcd"));
    assert!(l.move_r());
    assert!(l.move_r());
    assert_eq!(l.char_at(0), 'a');
    assert_eq!(l.char_at(1), 'b');
    assert_eq!(l.char_at(2), 'c');
    assert_eq!(l.char_at(3), 'd');
}

#[test]
fn gap_accessors_describe_the_layout() {
    let mut l = Line::init_with_line(String::from("abcd"));
    l.move_end();
    assert_eq!(l.get_pre(), 4);
    assert_eq!(l.get_post(), 31);
    assert_eq!(l.get_text(0), 'a');
    assert_eq!(l.get_text(3), 'd');
    l.move_start();
    assert_eq!(l.get_pre(), 0);
    assert_eq!(l.get_post(), 27);
    assert_eq!(l.get_text(28), 'a');
}

#[test]
fn set_post_truncates_at_the_cursor() {
    let mut l = Line::init_with_line(String::from("abcd"));
    assert!(l.move_r());
    assert!(l.move_r());
    let cap = l.get_len();
    l.set_post(cap - 1);
    assert_eq!(l.show(), "ab");
    assert_eq!(l.cursor(), 2);
}
