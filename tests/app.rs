use reagent_solver::app::{ActiveBlock, App, Key, KeyAction, Status};

#[test]
fn new_app_defaults() {
    let app = App::new();
    assert!(app.running);
    assert_eq!(app.file_name_input, "reagents.txt");
    assert_eq!(app.character_index, 12);
    assert_eq!(app.active_block, ActiveBlock::FileNameInput);
    assert_eq!(app.status, Status::Neutral);
    assert!(!app.edit_mode);
    app.tick();
}

#[test]
fn quit_and_switch_block() {
    let mut app = App::new();
    app.quit();
    assert!(!app.running);
    app.switch_active_block(ActiveBlock::ReagentOutput);
    assert_eq!(app.active_block, ActiveBlock::ReagentOutput);
}

#[test]
fn cursor_moves_are_clamped() {
    let mut app = App::new();
    app.move_cursor_right();
    assert_eq!(app.character_index, 12);
    app.move_cursor_left();
    assert_eq!(app.character_index, 11);
    app.character_index = 0;
    app.move_cursor_left();
    assert_eq!(app.character_index, 0);
    assert_eq!(app.clamp_cursor(100), 12);
    assert_eq!(app.clamp_cursor(3), 3);
}

#[test]
fn enter_and_delete_chars() {
    let mut app = App::new();
    app.character_index = 8;
    app.enter_char('2');
    assert_eq!(app.file_name_input, "reagents2.txt");
    assert_eq!(app.character_index, 9);
    app.delete_char();
    assert_eq!(app.file_name_input, "reagents.txt");
    assert_eq!(app.character_index, 8);
    app.character_index = 0;
    app.delete_char();
    assert_eq!(app.file_name_input, "reagents.txt");
}

#[test]
fn multibyte_text_uses_character_positions() {
    let mut app = App::new();
    app.file_name_input = "äb".to_string();
    app.character_index = 1;
    assert_eq!(app.byte_index(), 2);
    app.enter_char('é');
    assert_eq!(app.file_name_input, "äéb");
    assert_eq!(app.character_index, 2);
    app.character_index = 10;
    assert_eq!(app.byte_index(), "äéb".len());
    app.character_index = 2;
    app.delete_char();
    assert_eq!(app.file_name_input, "äb");
    assert_eq!(app.character_index, 1);
}

#[test]
fn keys_outside_edit_mode() {
    let mut app = App::new();
    assert_eq!(app.handle_key(Key::Char('r'), false), KeyAction::LoadFile);
    assert_eq!(app.handle_key(Key::Char('s'), false), KeyAction::Nothing);
    assert_eq!(app.solver_log, vec!["No reagents loaded"]);
    assert_eq!(app.handle_key(Key::Char('x'), false), KeyAction::Nothing);
    assert_eq!(app.file_name_input, "reagents.txt");
    assert_eq!(app.handle_key(Key::Char('c'), false), KeyAction::Nothing);
    assert!(app.running);
    assert_eq!(app.handle_key(Key::Char('c'), true), KeyAction::Nothing);
    assert!(!app.running);
    let mut app = App::new();
    app.handle_key(Key::Esc, false);
    assert!(!app.running);
}

#[test]
fn keys_in_edit_mode_edit_the_file_name() {
    let mut app = App::new();
    app.handle_key(Key::Enter, false);
    assert!(app.edit_mode);
    app.handle_key(Key::Backspace, false);
    app.handle_key(Key::Backspace, false);
    app.handle_key(Key::Backspace, false);
    app.handle_key(Key::Backspace, false);
    assert_eq!(app.file_name_input, "reagents");
    assert_eq!(app.handle_key(Key::Char('q'), false), KeyAction::Nothing);
    assert_eq!(app.handle_key(Key::Char('s'), false), KeyAction::Nothing);
    assert_eq!(app.handle_key(Key::Char('r'), false), KeyAction::Nothing);
    assert_eq!(app.file_name_input, "reagentsqsr");
    assert!(app.running);
    app.handle_key(Key::Left, false);
    app.handle_key(Key::Char('!'), false);
    assert_eq!(app.file_name_input, "reagentsqs!r");
    app.handle_key(Key::Right, false);
    app.handle_key(Key::Right, false);
    assert_eq!(app.character_index, 12);
    app.switch_active_block(ActiveBlock::ReagentOutput);
    app.handle_key(Key::Char('z'), false);
    assert_eq!(app.file_name_input, "reagentsqs!r");
    app.handle_key(Key::Enter, false);
    app.reagents.push(reagent_solver::reagent::Reagent::new("R1".to_string(), vec!["A".to_string()]));
    assert_eq!(app.handle_key(Key::Char('s'), false), KeyAction::Solve);
}
