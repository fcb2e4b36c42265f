use dejavu::app_state::{App, Mode};
use dejavu::duplicate_group::DuplicateGroup;
use dejavu::file_info::{FileInfo, ImageFormat, MediaType};
use dejavu::key_handler::{handle_key_event, KeyAction, KeyPress};

fn record(path: &str) -> FileInfo {
    FileInfo::new(String::from(path), 10, 1, MediaType::Image(ImageFormat::Jpeg))
}

fn two_groups() -> Vec<DuplicateGroup> {
    vec![
        DuplicateGroup::new(0, vec![record("/a1.jpg"), record("/a2.jpg")]),
        DuplicateGroup::new(1, vec![record("/b1.jpg"), record("/b2.jpg"), record("/b3.jpg")]),
    ]
}

fn browser() -> App {
    let mut app = App::new(two_groups());
    app.exit_tutorial();
    app
}

#[test]
fn new_app_starts_in_tutorial_when_groups_exist() {
    let app = App::new(two_groups());
    assert_eq!(app.mode, Mode::Tutorial);
    assert!(app.show_tutorial);
    assert_eq!(app.group_count(), 2);
    assert_eq!(app.file_count(), 2);
    assert!(!app.should_quit);

    let empty = App::new(Vec::new());
    assert_eq!(empty.mode, Mode::Normal);
    assert!(!empty.show_tutorial);
    assert!(empty.current_group().is_none());
    assert_eq!(empty.file_count(), 0);
}

#[test]
fn group_navigation_stops_at_the_ends() {
    let mut app = browser();
    app.previous_group();
    assert_eq!(app.selected_group, 0);
    app.next_group();
    assert_eq!(app.selected_group, 1);
    assert_eq!(app.selected_file, 0);
    app.next_group();
    assert_eq!(app.selected_group, 1);
    app.previous_group();
    assert_eq!(app.selected_group, 0);
}

#[test]
fn file_navigation_wraps_within_the_group() {
    let mut app = browser();
    app.next_group();
    assert_eq!(app.file_count(), 3);
    app.next_file();
    assert_eq!(app.selected_file, 1);
    app.next_file();
    app.next_file();
    assert_eq!(app.selected_file, 0);
    app.previous_file();
    assert_eq!(app.selected_file, 2);
}

#[test]
fn marking_tracks_global_indices() {
    let mut app = browser();
    assert_eq!(app.marked_count(), 0);
    assert!(!app.is_current_file_marked());
    app.toggle_mark();
    assert!(app.is_current_file_marked());
    assert_eq!(app.marked_count(), 1);

    // Mark the second file of the second group (global index 3).
    app.next_group();
    app.next_file();
    app.toggle_mark();
    assert_eq!(app.get_global_file_index(1, 1), 3);
    assert_eq!(app.marked_count(), 2);
    assert_eq!(app.marked_count_in_group(0), 1);
    assert_eq!(app.marked_count_in_group(1), 1);
    assert_eq!(app.marked_count_in_group(2), 0);

    // Toggling again unmarks.
    app.toggle_mark();
    assert!(!app.is_current_file_marked());
    assert_eq!(app.marked_count(), 1);

    app.clear_marks();
    assert_eq!(app.marked_count(), 0);
}

#[test]
fn tutorial_advances_and_exits() {
    let mut app = App::new(two_groups());
    assert_eq!(app.mode, Mode::Tutorial);
    assert_eq!(handle_key_event(KeyPress::Down, &mut app), KeyAction::Nothing);
    assert_eq!(app.tutorial_step, 1);
    assert_eq!(handle_key_event(KeyPress::Tab, &mut app), KeyAction::Nothing);
    assert_eq!(handle_key_event(KeyPress::Char(' '), &mut app), KeyAction::Nothing);
    assert_eq!(app.tutorial_step, 3);
    assert_eq!(app.mode, Mode::Tutorial);
    assert_eq!(handle_key_event(KeyPress::Char('j'), &mut app), KeyAction::Nothing);
    assert_eq!(app.mode, Mode::Normal);
    assert!(!app.show_tutorial);
}

#[test]
fn tutorial_enter_leaves_at_once() {
    let mut app = App::new(two_groups());
    handle_key_event(KeyPress::Enter, &mut app);
    assert_eq!(app.mode, Mode::Normal);
    assert!(!app.show_tutorial);
}

#[test]
fn help_opens_and_any_key_closes() {
    let mut app = browser();
    handle_key_event(KeyPress::Char('?'), &mut app);
    assert_eq!(app.mode, Mode::Help);
    handle_key_event(KeyPress::Char('x'), &mut app);
    assert_eq!(app.mode, Mode::Normal);
}

#[test]
fn keys_drive_navigation_and_actions() {
    let mut app = browser();
    assert_eq!(handle_key_event(KeyPress::Char('j'), &mut app), KeyAction::Nothing);
    assert_eq!(app.selected_group, 1);
    assert_eq!(handle_key_event(KeyPress::Char('k'), &mut app), KeyAction::Nothing);
    assert_eq!(app.selected_group, 0);
    assert_eq!(handle_key_event(KeyPress::Char('o'), &mut app), KeyAction::OpenFile);
    assert_eq!(handle_key_event(KeyPress::Char('d'), &mut app), KeyAction::DeleteFile);
    // 'D' does nothing without marks, deletes marked with them.
    assert_eq!(handle_key_event(KeyPress::Char('D'), &mut app), KeyAction::Nothing);
    handle_key_event(KeyPress::Char(' '), &mut app);
    assert_eq!(handle_key_event(KeyPress::Char('D'), &mut app), KeyAction::DeleteMarked);
    assert_eq!(handle_key_event(KeyPress::Char('u'), &mut app), KeyAction::Nothing);
    assert_eq!(app.marked_count(), 0);
    handle_key_event(KeyPress::Char('q'), &mut app);
    assert!(app.should_quit);
}

#[test]
fn home_end_and_paging() {
    let mut app = App::new(vec![
        DuplicateGroup::new(0, vec![record("/g0a.jpg"), record("/g0b.jpg")]),
        DuplicateGroup::new(1, vec![record("/g1a.jpg"), record("/g1b.jpg")]),
        DuplicateGroup::new(2, vec![record("/g2a.jpg"), record("/g2b.jpg")]),
        DuplicateGroup::new(3, vec![record("/g3a.jpg"), record("/g3b.jpg")]),
        DuplicateGroup::new(4, vec![record("/g4a.jpg"), record("/g4b.jpg")]),
        DuplicateGroup::new(5, vec![record("/g5a.jpg"), record("/g5b.jpg")]),
        DuplicateGroup::new(6, vec![record("/g6a.jpg"), record("/g6b.jpg")]),
    ]);
    app.exit_tutorial();
    handle_key_event(KeyPress::End, &mut app);
    assert_eq!(app.selected_group, 6);
    handle_key_event(KeyPress::Home, &mut app);
    assert_eq!(app.selected_group, 0);
    handle_key_event(KeyPress::PageDown, &mut app);
    assert_eq!(app.selected_group, 5);
    handle_key_event(KeyPress::PageDown, &mut app);
    assert_eq!(app.selected_group, 6);
    handle_key_event(KeyPress::PageUp, &mut app);
    assert_eq!(app.selected_group, 1);
    handle_key_event(KeyPress::PageUp, &mut app);
    assert_eq!(app.selected_group, 0);
}

#[test]
fn hints_follow_the_state() {
    let mut app = App::new(two_groups());
    assert_eq!(app.get_tutorial_hint(), "👋 欢迎！使用 ↑↓ 键选择重复文件组");
    app.next_tutorial_step();
    assert_eq!(app.get_tutorial_hint(), "📌 按 Tab 键在文件之间切换（会循环）");
    app.exit_tutorial();
    assert_eq!(app.get_action_hint(), "按 Space 标记文件");
    app.toggle_mark();
    assert_eq!(app.get_action_hint(), "已标记文件，按 D 删除全部");
}
