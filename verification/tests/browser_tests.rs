use rtrack::browser::{browser_listing, BrowserKey};
use rtrack::edit::{KeyCode, KeyPress};
use rtrack::editor::{FileBrowserAction, FileBrowserEntry, FileBrowserState};

fn plain(code: KeyCode) -> KeyPress {
    KeyPress { code, ctrl: false, shift: false }
}

fn entry(name: &str, is_dir: bool) -> FileBrowserEntry {
    FileBrowserEntry { name: name.to_string(), is_dir }
}

fn names(v: &[FileBrowserEntry]) -> Vec<&str> {
    v.iter().map(|e| e.name.as_str()).collect()
}

#[test]
fn test_file_browser_filter() {
    let found = vec![entry("sample.wav", false), entry("notes.txt", false), entry("beat.aiff", false)];
    let mut b = FileBrowserState::new("/tmp/rtrack_fb_filter_test".to_string());
    b.open(FileBrowserAction::LoadSample(0), vec!["wav".to_string(), "aiff".to_string()]);
    b.refresh_with(&found);
    let names: Vec<&str> = b.entries.iter().filter(|e| !e.is_dir).map(|e| e.name.as_str()).collect();
    assert!(names.contains(&"sample.wav"));
    assert!(names.contains(&"beat.aiff"));
    assert!(!names.contains(&"notes.txt"));
}

#[test]
fn test_file_browser_dirs_first() {
    let found = vec![entry("aaa_file.wav", false), entry("aaa_dir", true)];
    let mut b = FileBrowserState::new("/tmp/rtrack_fb_sort_test".to_string());
    b.open(FileBrowserAction::OpenSong, vec![]);
    b.refresh_with(&found);
    let dir_idx = b.entries.iter().position(|e| e.name == "aaa_dir").unwrap();
    let file_idx = b.entries.iter().position(|e| e.name == "aaa_file.wav").unwrap();
    assert!(dir_idx < file_idx, "Directories should sort before files");
}

#[test]
fn listing_hides_dot_files_and_sorts_without_case() {
    let found = vec![
        entry("b.WAV", false),
        entry(".hidden.wav", false),
        entry("Zeta", true),
        entry("alpha", true),
        entry("A.wav", false),
        entry("c", false),
        entry("song.", false),
    ];
    let listed = browser_listing(&found, &vec!["wav".to_string()]);
    assert_eq!(names(&listed), vec!["alpha", "Zeta", "A.wav", "b.WAV"]);
    let all = browser_listing(&found, &vec![]);
    assert_eq!(names(&all), vec!["alpha", "Zeta", "A.wav", "b.WAV", "c", "song."]);
}

#[test]
fn test_file_browser_navigate() {
    let found = vec![entry("one.rtrk", false), entry("two.rtrk", false)];
    let mut b = FileBrowserState::new("/tmp".to_string());
    b.open(FileBrowserAction::OpenSong, vec![]);
    b.refresh_with(&found);
    let initial = b.cursor;
    assert_eq!(b.handle_key(plain(KeyCode::Down)), BrowserKey::Stay);
    assert!(b.cursor >= initial);
    assert_eq!(b.handle_key(plain(KeyCode::Esc)), BrowserKey::Close);
}

#[test]
fn browser_cursor_stays_in_listing() {
    let found: Vec<FileBrowserEntry> = (0..25).map(|i| entry(&format!("f{:02}.wav", i), false)).collect();
    let mut b = FileBrowserState::new("/tmp".to_string());
    b.refresh_with(&found);
    b.handle_key(plain(KeyCode::Up));
    assert_eq!(b.cursor, 0);
    b.handle_key(plain(KeyCode::Char('j')));
    assert_eq!(b.cursor, 1);
    b.handle_key(plain(KeyCode::PageDown));
    assert_eq!(b.cursor, 11);
    b.handle_key(plain(KeyCode::PageDown));
    b.handle_key(plain(KeyCode::PageDown));
    assert_eq!(b.cursor, 24);
    b.handle_key(plain(KeyCode::Down));
    assert_eq!(b.cursor, 24);
    b.handle_key(plain(KeyCode::PageUp));
    assert_eq!(b.cursor, 14);
    b.handle_key(plain(KeyCode::Home));
    assert_eq!(b.cursor, 0);
    b.handle_key(plain(KeyCode::End));
    assert_eq!(b.cursor, 24);
    assert_eq!(b.handle_key(plain(KeyCode::Enter)), BrowserKey::Choose(24));
    assert_eq!(b.entries[24].name, "f24.wav");
    assert_eq!(b.handle_key(plain(KeyCode::Backspace)), BrowserKey::Parent);
}

#[test]
fn test_file_browser_enter_directory() {
    let found = vec![entry("subdir", true), entry("x.rtrk", false)];
    let mut b = FileBrowserState::new("/tmp/rtrack_fb_test_dir".to_string());
    b.open(FileBrowserAction::OpenSong, vec![]);
    b.refresh_with(&found);
    let idx = b.entries.iter().position(|e| e.name == "subdir" && e.is_dir).unwrap();
    b.cursor = idx;
    assert_eq!(b.handle_key(plain(KeyCode::Enter)), BrowserKey::OpenDir(idx));
    assert_eq!(b.handle_key(plain(KeyCode::Backspace)), BrowserKey::Parent);
}
