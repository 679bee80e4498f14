use termjournal::app::{Action, App, InputMode, KeyInput};
use termjournal::commands::{
    confirmation_accepts, create_new_entry, delete_entry, entry_template, new_entry_target,
    open_entry,
};
use termjournal::settings::{
    config_path_of, get_config_path, get_editor, get_journal_dir, journal_dir_of,
};
use termjournal::storage::{refresh_entries, FileRecord};

fn rec(name: &str, size: u64, content: &str) -> FileRecord {
    FileRecord { name: name.to_string(), size, content: content.to_string() }
}

fn app_with(listing: Vec<FileRecord>) -> App {
    let mut app = App::new(Vec::new(), "nvim".to_string());
    refresh_entries(&mut app, listing);
    app
}

#[test]
fn new_app_starts_clean() {
    let app = App::new(Vec::new(), "vi".to_string());
    assert_eq!(app.tab_index, 0);
    assert_eq!(app.entries_list.selected, None);
    assert!(app.entries_list.items.is_empty());
    assert_eq!(app.input_mode, InputMode::Normal);
    assert!(!app.show_help);
    assert_eq!(app.editor, "vi");
    assert_eq!(app.status_message, "");
    assert_eq!(app.status_time, None);
}

#[test]
fn status_remains_just_under_its_lifetime() {
    let mut app = App::new(Vec::new(), "vi".to_string());
    app.set_status("saved", 1_000);
    app.poll_tick(3_999);
    assert_eq!(app.status_message, "saved");
    assert_eq!(app.status_time, Some(1_000));
}

#[test]
fn status_clears_once_its_lifetime_elapsed() {
    let mut app = App::new(Vec::new(), "vi".to_string());
    app.set_status("saved", 1_000);
    app.poll_tick(4_000);
    assert_eq!(app.status_message, "");
    assert_eq!(app.status_time, None);
}

#[test]
fn quit_key_requests_quitting() {
    let mut app = App::new(Vec::new(), "vi".to_string());
    assert_eq!(app.handle_key(KeyInput::Char('q')), Action::Quit);
}

#[test]
fn navigation_keys_move_the_selection() {
    let mut app = app_with(vec![rec("2024-01-01.md", 1, "a"), rec("2024-03-15.md", 2, "b")]);
    assert_eq!(app.entries_list.selected, None);
    assert_eq!(app.handle_key(KeyInput::Char('j')), Action::Idle);
    assert_eq!(app.entries_list.selected, Some(0));
    assert_eq!(app.handle_key(KeyInput::Down), Action::Idle);
    assert_eq!(app.entries_list.selected, Some(1));
    assert_eq!(app.handle_key(KeyInput::Char('k')), Action::Idle);
    assert_eq!(app.entries_list.selected, Some(0));
    assert_eq!(app.handle_key(KeyInput::Up), Action::Idle);
    assert_eq!(app.entries_list.selected, Some(1));
}

#[test]
fn next_on_empty_app_keeps_no_selection() {
    let mut app = app_with(Vec::new());
    assert!(app.entries_list.items.is_empty());
    app.handle_key(KeyInput::Char('j'));
    assert_eq!(app.entries_list.selected, None);
}

#[test]
fn enter_opens_the_selected_entry() {
    let mut app = app_with(vec![rec("2024-01-01.md", 1, "a"), rec("2024-03-15.md", 2, "b")]);
    assert_eq!(app.handle_key(KeyInput::Enter), Action::Idle);
    app.handle_key(KeyInput::Char('j'));
    assert_eq!(app.handle_key(KeyInput::Enter), Action::Open("2024-03-15".to_string()));
}

#[test]
fn delete_key_targets_the_selected_entry() {
    let mut app = app_with(vec![rec("2024-01-01.md", 1, "a"), rec("2024-03-15.md", 2, "b")]);
    assert_eq!(app.handle_key(KeyInput::Char('d')), Action::Idle);
    app.handle_key(KeyInput::Char('j'));
    app.handle_key(KeyInput::Char('j'));
    assert_eq!(app.handle_key(KeyInput::Char('d')), Action::Delete("2024-01-01".to_string()));
}

#[test]
fn tabs_cycle_forwards_and_backwards() {
    let mut app = App::new(Vec::new(), "vi".to_string());
    app.handle_key(KeyInput::Tab);
    assert_eq!(app.tab_index, 1);
    app.handle_key(KeyInput::Tab);
    assert_eq!(app.tab_index, 2);
    app.handle_key(KeyInput::Tab);
    assert_eq!(app.tab_index, 0);
    app.handle_key(KeyInput::BackTab);
    assert_eq!(app.tab_index, 2);
    app.handle_key(KeyInput::BackTab);
    assert_eq!(app.tab_index, 1);
}

#[test]
fn help_key_toggles_the_overlay() {
    let mut app = App::new(Vec::new(), "vi".to_string());
    app.handle_key(KeyInput::Char('h'));
    assert!(app.show_help);
    app.handle_key(KeyInput::Char('h'));
    assert!(!app.show_help);
}

#[test]
fn escape_leaves_editing_mode() {
    let mut app = App::new(Vec::new(), "vi".to_string());
    app.input_mode = InputMode::Editing;
    assert_eq!(app.handle_key(KeyInput::Char('q')), Action::Idle);
    assert_eq!(app.input_mode, InputMode::Editing);
    app.handle_key(KeyInput::Esc);
    assert_eq!(app.input_mode, InputMode::Normal);
}

#[test]
fn create_key_requests_a_new_entry() {
    let mut app = App::new(Vec::new(), "vi".to_string());
    assert_eq!(app.handle_key(KeyInput::Char('n')), Action::Create);
}

#[test]
fn refresh_replaces_the_list_and_resets_the_selection() {
    let mut app = app_with(vec![rec("2024-01-01.md", 1, "a")]);
    app.handle_key(KeyInput::Char('j'));
    assert_eq!(app.entries_list.selected, Some(0));
    app.set_status("kept", 10);
    refresh_entries(
        &mut app,
        vec![rec("2024-02-02.md", 2, "b"), rec("2024-03-03.md", 3, "c")],
    );
    assert_eq!(app.entries_list.selected, None);
    assert_eq!(app.entries_list.items.len(), 2);
    assert_eq!(app.entries_list.items[0].date, "2024-03-03");
    assert_eq!(app.status_message, "kept");
}

#[test]
fn deleting_an_absent_entry_twice_changes_nothing() {
    let mut app = app_with(vec![rec("2024-01-01.md", 1, "a")]);
    delete_entry(&mut app, "2024-05-05", false, 42);
    assert_eq!(app.status_message, "");
    assert_eq!(app.status_time, None);
    delete_entry(&mut app, "2024-05-05", false, 43);
    assert_eq!(app.status_message, "");
    assert_eq!(app.status_time, None);
    assert_eq!(app.entries_list.items.len(), 1);
}

#[test]
fn deleting_an_existing_entry_reports_it() {
    let mut app = app_with(vec![rec("2024-01-01.md", 1, "a")]);
    delete_entry(&mut app, "2024-01-01", true, 42);
    assert_eq!(app.status_message, "Deleted entry for 2024-01-01");
    assert_eq!(app.status_time, Some(42));
}

#[test]
fn finishing_a_creation_reports_it() {
    let mut app = App::new(Vec::new(), "vi".to_string());
    create_new_entry(&mut app, 7);
    assert_eq!(app.status_message, "Created new entry for today");
    assert_eq!(app.status_time, Some(7));
}

#[test]
fn todays_target_is_a_dated_journal_file() {
    let name = new_entry_target();
    assert!(name.ends_with(".md"));
    let stem = &name[..name.len() - 3];
    assert!(stem.len() >= 10);
    assert!(stem.chars().all(|c| c.is_ascii_digit() || c == '-'));
    assert_eq!(stem.matches('-').count(), 2);
}

#[test]
fn open_entry_resolves_the_dated_file() {
    assert_eq!(open_entry("2024-01-01"), "2024-01-01.md");
}

#[test]
fn template_titles_the_entry_with_its_date() {
    assert_eq!(entry_template("2024-01-01"), "# Journal Entry: 2024-01-01\n\n");
}

#[test]
fn confirmation_accepts_lines_starting_with_y() {
    assert!(confirmation_accepts("y"));
    assert!(confirmation_accepts("Yes, do it"));
    assert!(confirmation_accepts("yep\n"));
    assert!(!confirmation_accepts("n"));
    assert!(!confirmation_accepts(""));
    assert!(!confirmation_accepts(" y"));
    assert!(!confirmation_accepts("no"));
}

#[test]
fn editor_defaults_when_config_is_absent_or_blank() {
    assert_eq!(get_editor(None), "nvim");
    assert_eq!(get_editor(Some("")), "nvim");
    assert_eq!(get_editor(Some(" \t\r\n")), "nvim");
}

#[test]
fn editor_is_the_trimmed_config_contents() {
    assert_eq!(get_editor(Some("vi\n")), "vi");
    assert_eq!(get_editor(Some("code --wait")), "code --wait");
    assert_eq!(get_editor(Some("  nano \t\n")), "nano");
    assert_eq!(get_editor(Some("vim")), "vim");
}

#[test]
fn journal_dir_lives_under_documents() {
    let dir = get_journal_dir();
    assert!(dir.ends_with("/Documents/notes"));
}

#[test]
fn config_file_lives_in_the_dotfile_dir() {
    let (dir, file) = get_config_path();
    assert!(dir.ends_with("/.termjournal"));
    assert_eq!(file, format!("{}/config.txt", dir));
}

#[test]
fn journal_dir_is_resolved_from_the_given_home() {
    assert_eq!(journal_dir_of(Some("/home/sam")), "/home/sam/Documents/notes");
    assert_eq!(journal_dir_of(None), "./Documents/notes");
}

#[test]
fn config_path_is_resolved_from_the_given_home() {
    let (dir, file) = config_path_of(Some("/home/sam"));
    assert_eq!(dir, "/home/sam/.termjournal");
    assert_eq!(file, "/home/sam/.termjournal/config.txt");
    let (dir, file) = config_path_of(None);
    assert_eq!(dir, "./.termjournal");
    assert_eq!(file, "./.termjournal/config.txt");
}
