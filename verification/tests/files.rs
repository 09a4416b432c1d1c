use tui90::app::events::AppKey;
use tui90::engine::buffer::Buffer;
use tui90::engine::rect::Rect;
use tui90::engine::theme::Theme;
use tui90::widgets::filedialog::{
    filedialog_draw, filedialog_key, filedialog_layout, DirEntry, DirMove, FileDialog, FileDialogKey,
};

/// What reading the test directory gives: a subdirectory `sub`, the files
/// `b.txt` and `a.txt` (in the order a directory read may give them), and
/// a hidden file.
fn sandbox_listing() -> Result<Vec<DirEntry>, String> {
    Ok(vec![
        DirEntry { name: "b.txt".to_string(), is_dir: false },
        DirEntry { name: "sub".to_string(), is_dir: true },
        DirEntry { name: ".hidden".to_string(), is_dir: false },
        DirEntry { name: "a.txt".to_string(), is_dir: false },
    ])
}

#[test]
fn lists_dirs_and_files_sorted() {
    let dlg = FileDialog::new("/tmp/g90tui_fdlg_list", sandbox_listing());
    assert_eq!(dlg.dirs, vec!["sub".to_string()]);
    assert_eq!(dlg.file_list.items, vec!["a.txt".to_string(), "b.txt".to_string()]);
    assert!(dlg.error.is_none());
}

#[test]
fn enter_accepts_file_and_parent_works() {
    let root = "/tmp/g90tui_fdlg_nav";
    let mut dlg = FileDialog::new(root, sandbox_listing());
    dlg.panel = 1;
    match filedialog_key(&mut dlg, AppKey::Enter) {
        (FileDialogKey::Accepted(p), DirMove::Stay) => assert_eq!(p, "/tmp/g90tui_fdlg_nav/a.txt"),
        other => panic!("esperaba Accepted, fue {other:?}"),
    }
    dlg.panel = 0;
    dlg.dir_sel = 1;
    let (k, mv) = filedialog_key(&mut dlg, AppKey::Enter);
    assert_eq!(k, FileDialogKey::Moved);
    assert_eq!(mv, DirMove::Into("sub".to_string()));
    let (k, mv) = filedialog_key(&mut dlg, AppKey::Backspace);
    assert_eq!(k, FileDialogKey::Moved);
    assert_eq!(mv, DirMove::Parent);
    assert_eq!(filedialog_key(&mut dlg, AppKey::Esc), (FileDialogKey::Cancelled, DirMove::Stay));
}

#[test]
fn missing_dir_reports_error_without_panic() {
    let dlg = FileDialog::new(
        "/tmp/g90tui_fdlg_noexiste",
        Err("No such file or directory (os error 2)".to_string()),
    );
    assert!(dlg.error.is_some());
    assert!(dlg.file_list.items.is_empty());
    assert!(dlg.dirs.is_empty());
}

#[test]
fn draws_tree_list_and_buttons() {
    let dlg = FileDialog::new("/tmp/g90tui_fdlg_draw", sandbox_listing());
    let t = Theme::clipper();
    let mut b = Buffer::blank(80, 25, t.desktop);
    filedialog_draw(&mut b, Rect::new(0, 0, 80, 25), &dlg, t);
    let r = filedialog_layout(Rect::new(0, 0, 80, 25));
    assert_eq!(b.get(r.x + 2, r.y).unwrap().bg, t.teal);
    let mut saw_folder = false;
    let mut saw_file = false;
    for y in 0..25u16 {
        for x in 0..80u16 {
            let ch = b.get(x, y).unwrap().ch;
            if ch == '\u{f07b}' {
                saw_folder = true;
            }
            if ch == 'a' && b.get(x.saturating_add(1), y).map(|c| c.ch) == Some('.') {
                saw_file = true;
            }
        }
    }
    assert!(saw_folder && saw_file);
}

#[test]
fn moves_lead_to_parent_or_subdirectory() {
    let dlg = FileDialog::new("/tmp/base", sandbox_listing());
    assert_eq!(dlg.move_target(&DirMove::Stay), None);
    assert_eq!(dlg.move_target(&DirMove::Parent), Some("/tmp".to_string()));
    assert_eq!(dlg.move_target(&DirMove::Into("sub".to_string())), Some("/tmp/base/sub".to_string()));
    let root = FileDialog::new("/", Ok(Vec::new()));
    assert_eq!(root.move_target(&DirMove::Parent), None);
}

#[test]
fn side_keys_work_for_any_tree_position() {
    let mut dlg = FileDialog::new("/tmp/base", sandbox_listing());
    dlg.panel = 0;
    dlg.dir_sel = usize::MAX;
    assert_eq!(filedialog_key(&mut dlg, AppKey::Tab), (FileDialogKey::Moved, DirMove::Stay));
    assert_eq!(dlg.panel, 1);
    assert_eq!(dlg.dir_sel, usize::MAX);
    dlg.panel = 0;
    assert_eq!(filedialog_key(&mut dlg, AppKey::Esc), (FileDialogKey::Cancelled, DirMove::Stay));
    assert_eq!(filedialog_key(&mut dlg, AppKey::Backspace), (FileDialogKey::Moved, DirMove::Parent));
}
