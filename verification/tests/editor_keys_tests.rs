use klc::editor_keys::{editor_key_action, toggle_comment, EditAction, EditorKey};

fn w(s: &str) -> Vec<u16> {
    s.encode_utf16().collect()
}

fn down(vk: u32) -> EditorKey {
    EditorKey::KeyDown { vk, ctrl: false }
}

#[test]
fn backspace_between_a_pair_deletes_both() {
    let t = w("f()");
    assert_eq!(editor_key_action(&t, 2, 2, down(0x08)), EditAction::Replace { text: w("f"), caret: 1 });
    let t = w("{}x");
    assert_eq!(editor_key_action(&t, 1, 1, down(0x08)), EditAction::Replace { text: w("x"), caret: 0 });
    let t = w("a\"\"b");
    assert_eq!(editor_key_action(&t, 2, 2, down(0x08)), EditAction::Replace { text: w("ab"), caret: 1 });
    // not a pair, a selection, or at the end: the control handles it
    assert_eq!(editor_key_action(&w("(]"), 1, 1, down(0x08)), EditAction::Default);
    assert_eq!(editor_key_action(&w("()"), 0, 2, down(0x08)), EditAction::Default);
    assert_eq!(editor_key_action(&w("("), 1, 1, down(0x08)), EditAction::Default);
}

#[test]
fn tab_and_enter() {
    assert_eq!(editor_key_action(&w("x"), 1, 1, down(0x09)), EditAction::Insert { text: w("    "), back: 0 });
    let t = w("fn f() {\r\n    \tlet x = 1");
    let end = t.len();
    assert_eq!(
        editor_key_action(&t, end, end, down(0x0D)),
        EditAction::Insert { text: w("\r\n    \t"), back: 0 }
    );
    assert_eq!(editor_key_action(&w("abc"), 1, 1, down(0x0D)), EditAction::Insert { text: w("\r\n"), back: 0 });
}

#[test]
fn paging_and_function_keys_are_dropped() {
    for vk in [0x70u32, 0x87, 0x21, 0x24, 0x90, 0x91, 0x13] {
        assert_eq!(editor_key_action(&w(""), 0, 0, down(vk)), EditAction::Swallow);
    }
    // arrows and Delete stay with the control
    assert_eq!(editor_key_action(&w(""), 0, 0, down(0x25)), EditAction::Default);
    assert_eq!(editor_key_action(&w(""), 0, 0, down(0x2E)), EditAction::Default);
    // '/' without Ctrl is typed normally
    assert_eq!(editor_key_action(&w("a"), 0, 0, down(0xBF)), EditAction::Default);
}

#[test]
fn brackets_and_quotes_are_paired() {
    assert_eq!(editor_key_action(&w(""), 0, 0, EditorKey::Char(40)), EditAction::Insert { text: w("()"), back: 1 });
    assert_eq!(editor_key_action(&w(""), 0, 0, EditorKey::Char(123)), EditAction::Insert { text: w("{}"), back: 1 });
    assert_eq!(editor_key_action(&w(""), 0, 0, EditorKey::Char(91)), EditAction::Insert { text: w("[]"), back: 1 });
    assert_eq!(editor_key_action(&w("a"), 1, 1, EditorKey::Char(34)), EditAction::Insert { text: w("\"\""), back: 1 });
    // with a selection the control types the character
    assert_eq!(editor_key_action(&w("ab"), 0, 2, EditorKey::Char(40)), EditAction::Default);
}

#[test]
fn a_closing_character_in_place_is_stepped_over() {
    assert_eq!(editor_key_action(&w("()"), 1, 1, EditorKey::Char(41)), EditAction::MoveCaret(2));
    assert_eq!(editor_key_action(&w("\"\""), 1, 1, EditorKey::Char(34)), EditAction::MoveCaret(2));
    assert_eq!(editor_key_action(&w("(x"), 1, 1, EditorKey::Char(41)), EditAction::Default);
}

#[test]
fn typed_control_characters_are_dropped() {
    assert_eq!(editor_key_action(&w(""), 0, 0, EditorKey::Char(1)), EditAction::Swallow);
    assert_eq!(editor_key_action(&w(""), 0, 0, EditorKey::Char(9)), EditAction::Swallow);
    assert_eq!(editor_key_action(&w(""), 0, 0, EditorKey::Char(13)), EditAction::Swallow);
    assert_eq!(editor_key_action(&w("a"), 1, 1, EditorKey::Char(8)), EditAction::Default);
    assert_eq!(editor_key_action(&w(""), 0, 0, EditorKey::Char(97)), EditAction::Default);
}

#[test]
fn ctrl_slash_toggles_a_comment() {
    let t = w("a\r\n    let x = 1\r\nb");
    // caret inside the second line
    let (on, caret) = toggle_comment(&t, 8);
    assert_eq!(on, w("a\r\n    --let x = 1\r\nb"));
    assert_eq!(caret, 10);
    let (off, caret) = toggle_comment(&on, 10);
    assert_eq!(off, t);
    assert_eq!(caret, 8);
    // the caret never goes below 0
    assert_eq!(toggle_comment(&w("--x"), 1), (w("x"), 0));
    // tabs of the indentation are written as spaces
    assert_eq!(toggle_comment(&w("\tx"), 0), (w(" --x"), 2));
    let action = editor_key_action(&w("y"), 0, 0, EditorKey::KeyDown { vk: 0xBF, ctrl: true });
    assert_eq!(action, EditAction::Replace { text: w("--y"), caret: 2 });
}
