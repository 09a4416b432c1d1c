//! Modal file browser (`FileDialog`).
//!
//! A popup with the directory tree on the left (`prim::folder` glyphs) and
//! a `ListBox` of files on the right. `Tab` switches panel, `Enter` on a
//! file accepts it and closes the modal, `Enter` on a directory goes into
//! it, `Backspace` goes up to the parent, `Esc` cancels.
//!
//! The dialog holds what a directory read gives (`DirEntry`s) and the
//! current path as text; reading the disk and walking paths is the
//! caller's part: `filedialog_key` says which directory to go to, and
//! `apply_listing` takes the entries read there.

use vstd::prelude::*;

use crate::app::events::AppKey;
use crate::engine::buffer::{Buffer, Grid, paint_run, paint_seq};
use crate::engine::cell::Cell;
use crate::engine::color::{Attr, Color};
use crate::engine::rect::{Rect, min_int, max_int, sat_add, sat_sub};
use crate::engine::theme::Theme;
use crate::prim::button::{button, button_grid, button_w, button_width};
use crate::prim::icons::{FolderGlyphs, folder};
use crate::prim::label::{draw_text, fit_spec, fit_text};
use crate::prim::shadow::ShadowStyle;
use crate::prim::window::{BorderStyle, WindowOpts, window, window_grid};
use crate::text::{char_seq_leq, sort_strings, strs_view};
use crate::widgets::common::{find_by_letter, letter_search, strings_view};
use crate::widgets::listbox::{
    ListBox,
    ListNav,
    list_bar_shown,
    list_thumb_fits,
    list_track_h,
    listbox_draw,
    listbox_grid,
    listbox_key,
    listbox_next,
};

verus! {

/// One entry of a directory read: its name and whether it is a directory.
#[derive(Clone, Debug, PartialEq, Eq)]
pub struct DirEntry {
    pub name: String,
    pub is_dir: bool,
}

/// Modal file browser.
#[derive(Clone, Debug)]
pub struct FileDialog {
    pub title: String,
    /// The directory shown, as text.
    pub current: String,
    /// Names of the subdirectories (without `..`, which is always row 0).
    pub dirs: Vec<String>,
    pub dir_sel: usize,
    pub dir_top: usize,
    /// Right panel: the files.
    pub file_list: ListBox,
    /// 0 = tree, 1 = files.
    pub panel: usize,
    pub error: Option<String>,
    pub foreground_color: Color,
    pub background_color: Color,
    pub border_color: Option<Color>,
    pub has_shadow: bool,
}

/// The visible entries of a read (names not starting with `.`) that are
/// directories (`dirs`) or files (`!dirs`), in the order read.
pub open spec fn visible_entries(entries: Seq<DirEntry>, dirs: bool) -> Seq<Seq<char>>
    decreases entries.len(),
{
    if entries.len() == 0 {
        Seq::empty()
    } else {
        let rest = visible_entries(entries.drop_last(), dirs);
        let e = entries.last();
        if e.is_dir == dirs && !(e.name@.len() > 0 && e.name@[0] == '.') {
            rest.push(e.name@)
        } else {
            rest
        }
    }
}

/// The directories and files a read leaves in the dialog: the visible ones,
/// sorted; none after a failed read.
pub open spec fn listed(listing: Result<Vec<DirEntry>, String>, dirs: bool) -> Seq<Seq<char>> {
    match listing {
        Ok(v) => visible_entries(v@, dirs).sort_by(char_seq_leq()),
        Err(_) => Seq::empty(),
    }
}

/// Result of a key in the dialog (`Accepted` carries the chosen file's path).
#[derive(Clone, Debug, PartialEq, Eq)]
pub enum FileDialogKey {
    Stay,
    Moved,
    Accepted(String),
    Cancelled,
}

/// What a result says, by the characters of its path.
pub enum FileDialogKeyView {
    Stay,
    Moved,
    Accepted(Seq<char>),
    Cancelled,
}

impl FileDialogKey {
    pub open spec fn view_of(&self) -> FileDialogKeyView {
        match self {
            FileDialogKey::Stay => FileDialogKeyView::Stay,
            FileDialogKey::Moved => FileDialogKeyView::Moved,
            FileDialogKey::Accepted(p) => FileDialogKeyView::Accepted(p@),
            FileDialogKey::Cancelled => FileDialogKeyView::Cancelled,
        }
    }
}

/// The path `name` joined onto `base` by `std::path::Path::join`.
pub uninterp spec fn joined_path(base: Seq<char>, name: Seq<char>) -> Seq<char>;

/// Calls `std::path::Path::join` and gives the path back as text; the
/// result is named `joined_path` of the two texts (what the join does with
/// separators and absolute names is the standard library's, on the target
/// the crate is built for, and is not stated here).
#[verifier::external_body]
fn path_join(base: &str, name: &str) -> (r: String)
    ensures
        r@ == joined_path(base@, name@),
{
    std::path::Path::new(base).join(name).to_string_lossy().into_owned()
}

/// The parent of a path, as text, by `std::path::Path::parent` (none for
/// a root or an empty path).
pub uninterp spec fn parent_path(p: Seq<char>) -> Option<Seq<char>>;

/// Calls `std::path::Path::parent` and gives the parent back as text; the
/// result is named `parent_path` of the text (what counts as a root, and
/// how separators are read, is the standard library's on the target the
/// crate is built for, and is not stated here).
#[verifier::external_body]
fn path_parent(p: &str) -> (r: Option<String>)
    ensures
        match r {
            Some(q) => parent_path(p@) == Some(q@),
            None => parent_path(p@) is None,
        },
{
    match std::path::Path::new(p).parent() {
        Some(q) => Some(q.to_string_lossy().into_owned()),
        None => None,
    }
}

/// Directory change a key asks for.
#[derive(Clone, Debug, PartialEq, Eq)]
pub enum DirMove {
    Stay,
    /// Up to the parent directory.
    Parent,
    /// Into the subdirectory of that name.
    Into(String),
}

impl FileDialog {
    /// The dialog after a read of its directory: the lists are replaced by
    /// the listing, the selections go back to the top.
    pub open spec fn listing_applied(&self, old: &FileDialog, listing: Result<Vec<DirEntry>, String>) -> bool {
        &&& strings_view(self.dirs@) == listed(listing, true)
        &&& strings_view(self.file_list.items@) == listed(listing, false)
        &&& self.file_list.selected == 0
        &&& self.file_list.top == 0
        &&& self.file_list.foreground_color == old.foreground_color
        &&& self.file_list.background_color == old.background_color
        &&& self.file_list.highlight_fg == Color::White
        &&& self.file_list.highlight_bg == Color::Navy
        &&& self.file_list.border_color is None
        &&& !self.file_list.has_shadow
        &&& self.file_list.scrollbar_width == 1
        &&& self.dir_sel == 0
        &&& self.dir_top == 0
        &&& self.error == match listing {
            Ok(_) => None,
            Err(e) => Some(e),
        }
        &&& self.title == old.title
        &&& self.current == old.current
        &&& self.panel == old.panel
        &&& self.foreground_color == old.foreground_color
        &&& self.background_color == old.background_color
        &&& self.border_color == old.border_color
        &&& self.has_shadow == old.has_shadow
    }

    /// A dialog on `path` showing `listing` (the read of that directory):
    /// titled "Abrir archivo", black on white, with a shadow, the file
    /// panel focused.
    pub fn new(path: &str, listing: Result<Vec<DirEntry>, String>) -> (r: Self)
        ensures
            r.title@ == "Abrir archivo"@,
            r.current@ == path@,
            r.panel == 1,
            r.foreground_color == Color::Black,
            r.background_color == Color::White,
            r.border_color is None,
            r.has_shadow,
            strings_view(r.dirs@) == listed(listing, true),
            strings_view(r.file_list.items@) == listed(listing, false),
            r.file_list.selected == 0,
            r.file_list.top == 0,
            r.file_list.foreground_color == Color::Black,
            r.file_list.background_color == Color::White,
            r.dir_sel == 0,
            r.dir_top == 0,
            r.error == match listing {
                Ok(_) => None,
                Err(e) => Some(e),
            },
    {
        let mut d = FileDialog {
            title: "Abrir archivo".to_owned(),
            current: path.to_owned(),
            dirs: Vec::new(),
            dir_sel: 0,
            dir_top: 0,
            file_list: ListBox::new(&[]),
            panel: 1,
            error: None,
            foreground_color: Color::Black,
            background_color: Color::White,
            border_color: None,
            has_shadow: true,
        };
        d.apply_listing(listing);
        d
    }

    /// Takes the read of the current directory: hidden names are left out,
    /// directories and files are sorted, a failed read leaves both lists
    /// empty and keeps its message in `error`.
    pub fn apply_listing(&mut self, listing: Result<Vec<DirEntry>, String>)
        ensures
            final(self).listing_applied(old(self), listing),
    {
        let mut dirs: Vec<String> = Vec::new();
        let mut files: Vec<String> = Vec::new();
        match &listing {
            Ok(entries) => {
                let mut i: usize = 0;
                while i < entries.len()
                    invariant
                        i <= entries@.len(),
                        listing == Ok::<Vec<DirEntry>, String>(*entries),
                        strs_view(dirs@) == visible_entries(entries@.take(i as int), true),
                        strs_view(files@) == visible_entries(entries@.take(i as int), false),
                    decreases entries.len() - i,
                {
                    assert(entries@.take(i + 1).drop_last() =~= entries@.take(i as int));
                    let e = &entries[i];
                    let name = e.name.clone();
                    let hidden = crate::text::str_len(name.as_str()) > 0 && crate::text::chars_of(name.as_str())[0] == '.';
                    if !hidden {
                        if e.is_dir {
                            dirs.push(name);
                            assert(strs_view(dirs@) =~= visible_entries(entries@.take(i + 1), true));
                        } else {
                            files.push(name);
                            assert(strs_view(files@) =~= visible_entries(entries@.take(i + 1), false));
                        }
                    }
                    i += 1;
                }
                assert(entries@.take(i as int) =~= entries@);
                self.error = None;
            },
            Err(e) => {
                self.error = Some(e.clone());
                proof {
                    lemma_sort_empty();
                }
            },
        }
        assert(strs_view(dirs@) =~= match listing {
            Ok(v) => visible_entries(v@, true),
            Err(_) => Seq::empty(),
        });
        assert(strs_view(files@) =~= match listing {
            Ok(v) => visible_entries(v@, false),
            Err(_) => Seq::empty(),
        });
        proof {
            lemma_sort_empty();
        }
        let dirs = sort_strings(dirs);
        let files = sort_strings(files);
        let mut names: Vec<&str> = Vec::new();
        let mut k: usize = 0;
        while k < files.len()
            invariant
                k <= files@.len(),
                names@.len() == k,
                forall|j: int| 0 <= j < k ==> #[trigger] names@[j]@ == files@[j]@,
            decreases files.len() - k,
        {
            names.push(files[k].as_str());
            k += 1;
        }
        assert(names@.map_values(|s: &str| s@) =~= strs_view(files@));
        let mut lb = ListBox::new(names.as_slice());
        lb.foreground_color = self.foreground_color;
        lb.background_color = self.background_color;
        proof {
            assert(strings_view(dirs@) =~= strs_view(dirs@));
            assert(strings_view(lb.items@) =~= strs_view(files@));
        }
        self.dirs = dirs;
        self.file_list = lb;
        self.dir_sel = 0;
        self.dir_top = 0;
    }

    /// The directory a move leads to: the parent of the current one (none
    /// at a root), or the subdirectory joined onto it; none when staying.
    pub fn move_target(&self, mv: &DirMove) -> (r: Option<String>)
        ensures
            match mv {
                DirMove::Stay => r is None,
                DirMove::Parent => match r {
                    Some(q) => parent_path(self.current@) == Some(q@),
                    None => parent_path(self.current@) is None,
                },
                DirMove::Into(name) => r matches Some(q) && q@ == joined_path(self.current@, name@),
            },
    {
        match mv {
            DirMove::Stay => None,
            DirMove::Parent => path_parent(self.current.as_str()),
            DirMove::Into(name) => Some(path_join(self.current.as_str(), name.as_str())),
        }
    }

    /// Rows of the tree: `..` plus the subdirectories.
    pub fn tree_rows(&self) -> (r: usize)
        requires
            self.dirs@.len() < usize::MAX,
        ensures
            r == self.dirs@.len() + 1,
    {
        self.dirs.len() + 1
    }

    /// Path of the selected file (the current directory joined with its
    /// name), when a file is selected.
    pub fn selected_path(&self) -> (r: Option<String>)
        ensures
            r matches Some(p) ==> self.file_list.selected < self.file_list.items@.len() && p@ == joined_path(
                self.current@,
                self.file_list.items@[self.file_list.selected as int]@,
            ),
            r is None ==> self.file_list.selected >= self.file_list.items@.len(),
    {
        if self.file_list.selected < self.file_list.items.len() {
            Some(path_join(self.current.as_str(), self.file_list.items[self.file_list.selected].as_str()))
        } else {
            None
        }
    }
}

/// Sorting nothing gives nothing.
proof fn lemma_sort_empty()
    ensures
        Seq::<Seq<char>>::empty().sort_by(char_seq_leq()) == Seq::<Seq<char>>::empty(),
{
    crate::text::lemma_char_seq_total_ordering();
    Seq::<Seq<char>>::empty().lemma_sort_by_ensures(char_seq_leq());
    vstd::seq_lib::lemma_sorted_unique(Seq::<Seq<char>>::empty(), Seq::<Seq<char>>::empty().sort_by(char_seq_leq()), char_seq_leq());
}

/// The names of the tree rows: `..` and the subdirectories.
pub open spec fn tree_names(dirs: Seq<String>) -> Seq<Seq<char>> {
    seq![seq!['.', '.']] + strings_view(dirs)
}

/// The modal's rectangle: 60 x 17 (or what fits) centred on the screen.
pub open spec fn fd_layout(screen: Rect) -> Rect {
    Rect::spec_centered_in(min_int(60, screen.w as int) as u16, min_int(17, max_int(screen.h as int, 1)) as u16, screen)
}

/// Centred modal of 60 x 17 or what fits.
pub fn filedialog_layout(screen: Rect) -> (r: Rect)
    requires
        Rect::centered_fits(min_int(60, screen.w as int) as u16, min_int(17, max_int(screen.h as int, 1)) as u16, screen),
    ensures
        r == fd_layout(screen),
{
    let w: u16 = if screen.w < 60 { screen.w } else { 60 };
    let h1: u16 = if screen.h < 1 { 1 } else { screen.h };
    let h: u16 = if h1 < 17 { h1 } else { 17 };
    Rect::centered_in(w, h, screen)
}

/// What a key does to the dialog: `Esc` cancels, `Tab`/`Left`/`Right`
/// switch panel, `Backspace` asks for the parent. On the tree,
/// `Up`/`Down` move round, `Home`/`End` go to the ends, `Enter` asks for
/// the directory of the row (`..` the parent), a letter jumps to the next
/// row starting with it. On the files, the keys go to the list box; an
/// `Enter` it leaves alone accepts the selected file. Gives the new panel,
/// tree row, list selection and list top, the result and the directory
/// change asked for.
pub open spec fn fd_next(d: FileDialog, code: AppKey) -> (int, int, int, int, FileDialogKeyView, DirMove) {
    let sel = d.file_list.selected as int;
    let top = d.file_list.top as int;
    let panel = d.panel as int;
    let ds = d.dir_sel as int;
    match code {
        AppKey::Esc => (panel, ds, sel, top, FileDialogKeyView::Cancelled, DirMove::Stay),
        AppKey::Tab | AppKey::Left | AppKey::Right => ((panel + 1) % 2, ds, sel, top, FileDialogKeyView::Moved, DirMove::Stay),
        AppKey::Backspace => (panel, ds, sel, top, FileDialogKeyView::Moved, DirMove::Parent),
        _ => if panel == 0 {
            let n = d.dirs@.len() + 1int;
            match code {
                AppKey::Up => (panel, (ds + n - 1) % n, sel, top, FileDialogKeyView::Moved, DirMove::Stay),
                AppKey::Down => (panel, (ds + 1) % n, sel, top, FileDialogKeyView::Moved, DirMove::Stay),
                AppKey::Home => (panel, 0, sel, top, FileDialogKeyView::Moved, DirMove::Stay),
                AppKey::End => (panel, n - 1, sel, top, FileDialogKeyView::Moved, DirMove::Stay),
                AppKey::Enter => (
                    panel,
                    ds,
                    sel,
                    top,
                    FileDialogKeyView::Moved,
                    if ds == 0 {
                        DirMove::Parent
                    } else if ds - 1 < d.dirs@.len() {
                        DirMove::Into(d.dirs@[ds - 1])
                    } else {
                        DirMove::Stay
                    },
                ),
                AppKey::Char(c) => match letter_search(tree_names(d.dirs@), ds, c, 0) {
                    Some(i) => (panel, i, sel, top, FileDialogKeyView::Moved, DirMove::Stay),
                    None => (panel, ds, sel, top, FileDialogKeyView::Stay, DirMove::Stay),
                },
                _ => (panel, ds, sel, top, FileDialogKeyView::Stay, DirMove::Stay),
            }
        } else {
            let (s, t, nav) = listbox_next(strings_view(d.file_list.items@), sel, top, 8, code);
            let key = match nav {
                ListNav::Move(_) => FileDialogKeyView::Moved,
                ListNav::Stay => if code == AppKey::Enter && 0 <= s < d.file_list.items@.len() {
                    FileDialogKeyView::Accepted(joined_path(d.current@, d.file_list.items@[s]@))
                } else {
                    FileDialogKeyView::Stay
                },
            };
            (panel, ds, s, t, key, DirMove::Stay)
        },
    }
}

/// `letter_search` only depends on the start modulo the length.
proof fn lemma_letter_search_mod(items: Seq<Seq<char>>, sel: int, c: char, k: int)
    requires
        items.len() > 0,
        sel >= 0,
    ensures
        letter_search(items, sel, c, k) == letter_search(items, sel % (items.len() as int), c, k),
    decreases items.len() - k,
{
    if 0 <= k < items.len() {
        let n = items.len() as int;
        vstd::arithmetic::div_mod::lemma_add_mod_noop(sel, 1 + k, n);
        vstd::arithmetic::div_mod::lemma_add_mod_noop(sel % n, 1 + k, n);
        vstd::arithmetic::div_mod::lemma_mod_twice(sel, n);
        assert((sel + (1 + k)) % n == (sel % n + (1 + k)) % n);
        lemma_letter_search_mod(items, sel, c, k + 1);
    }
}

/// A key handled by the directory tree: the tree panel has the focus and
/// the key is not one of those every panel handles alike (`Esc`, `Tab`,
/// the side arrows, `Backspace`). Only such keys count the tree's rows.
pub open spec fn tree_key(d: FileDialog, code: AppKey) -> bool {
    d.panel == 0 && !(code is Esc || code is Tab || code is Left || code is Right || code is Backspace)
}

/// Pure navigation; the caller performs the directory change asked for
/// (and reads the new directory).
pub fn filedialog_key(dlg: &mut FileDialog, code: AppKey) -> (r: (FileDialogKey, DirMove))
    requires
        tree_key(*old(dlg), code) ==> old(dlg).dirs@.len() + 1 <= usize::MAX,
        tree_key(*old(dlg), code) && code is Up ==> old(dlg).dir_sel + old(dlg).dirs@.len() + 1 <= usize::MAX,
        tree_key(*old(dlg), code) && code is Down ==> old(dlg).dir_sel + 1 <= usize::MAX,
    ensures
        ({
            let (p, ds, s, t, key, mv) = fd_next(*old(dlg), code);
            &&& final(dlg).panel == p
            &&& final(dlg).dir_sel == ds
            &&& final(dlg).file_list.selected == s
            &&& final(dlg).file_list.top == t
            &&& r.0.view_of() == key
            &&& r.1 == mv
        }),
        final(dlg).dirs == old(dlg).dirs,
        final(dlg).current == old(dlg).current,
        final(dlg).file_list.items == old(dlg).file_list.items,
        final(dlg).dir_top == old(dlg).dir_top,
        final(dlg).title == old(dlg).title,
        final(dlg).error == old(dlg).error,
        final(dlg).foreground_color == old(dlg).foreground_color,
        final(dlg).background_color == old(dlg).background_color,
        final(dlg).border_color == old(dlg).border_color,
        final(dlg).has_shadow == old(dlg).has_shadow,
        final(dlg).file_list.foreground_color == old(dlg).file_list.foreground_color,
        final(dlg).file_list.background_color == old(dlg).file_list.background_color,
        final(dlg).file_list.highlight_fg == old(dlg).file_list.highlight_fg,
        final(dlg).file_list.highlight_bg == old(dlg).file_list.highlight_bg,
        final(dlg).file_list.border_color == old(dlg).file_list.border_color,
        final(dlg).file_list.has_shadow == old(dlg).file_list.has_shadow,
        final(dlg).file_list.scrollbar_width == old(dlg).file_list.scrollbar_width,
{
    match code {
        AppKey::Esc => {
            return (FileDialogKey::Cancelled, DirMove::Stay);
        },
        AppKey::Tab | AppKey::Left | AppKey::Right => {
            dlg.panel = if dlg.panel % 2 == 0 { 1 } else { 0 };
            return (FileDialogKey::Moved, DirMove::Stay);
        },
        AppKey::Backspace => {
            return (FileDialogKey::Moved, DirMove::Parent);
        },
        _ => {},
    }
    if dlg.panel == 0 {
        let n = dlg.dirs.len() + 1;
        let ds = dlg.dir_sel;
        match code {
            AppKey::Up => {
                dlg.dir_sel = (ds + n - 1) % n;
                (FileDialogKey::Moved, DirMove::Stay)
            },
            AppKey::Down => {
                dlg.dir_sel = (ds + 1) % n;
                (FileDialogKey::Moved, DirMove::Stay)
            },
            AppKey::Home => {
                dlg.dir_sel = 0;
                (FileDialogKey::Moved, DirMove::Stay)
            },
            AppKey::End => {
                dlg.dir_sel = n - 1;
                (FileDialogKey::Moved, DirMove::Stay)
            },
            AppKey::Enter => {
                let mv = if ds == 0 {
                    DirMove::Parent
                } else if ds - 1 < dlg.dirs.len() {
                    DirMove::Into(dlg.dirs[ds - 1].clone())
                } else {
                    DirMove::Stay
                };
                (FileDialogKey::Moved, mv)
            },
            AppKey::Char(c) => {
                let mut names: Vec<String> = Vec::new();
                proof {
                    reveal_strlit("..");
                }
                names.push("..".to_owned());
                let mut k: usize = 0;
                while k < dlg.dirs.len()
                    invariant
                        k <= dlg.dirs@.len(),
                        names@.len() == k + 1,
                        names@[0]@ == seq!['.', '.'],
                        forall|j: int| 0 <= j < k ==> #[trigger] names@[j + 1]@ == dlg.dirs@[j]@,
                    decreases dlg.dirs.len() - k,
                {
                    names.push(dlg.dirs[k].clone());
                    k += 1;
                }
                proof {
                    assert forall|i: int| 1 <= i < names@.len() implies #[trigger] strings_view(names@)[i] == tree_names(dlg.dirs@)[i] by {
                        let j = i - 1;
                        assert(names@[j + 1]@ == dlg.dirs@[j]@);
                    }
                    assert(strings_view(names@) =~= tree_names(dlg.dirs@));
                    lemma_letter_search_mod(tree_names(dlg.dirs@), ds as int, c, 0);
                }
                match find_by_letter(&names, ds % n, c) {
                    Some(i) => {
                        dlg.dir_sel = i;
                        (FileDialogKey::Moved, DirMove::Stay)
                    },
                    None => (FileDialogKey::Stay, DirMove::Stay),
                }
            },
            _ => (FileDialogKey::Stay, DirMove::Stay),
        }
    } else {
        let nav = listbox_key(&mut dlg.file_list, 8, code);
        match nav {
            ListNav::Move(_) => (FileDialogKey::Moved, DirMove::Stay),
            ListNav::Stay => {
                if code == AppKey::Enter {
                    match dlg.selected_path() {
                        Some(p) => {
                            return (FileDialogKey::Accepted(p), DirMove::Stay);
                        },
                        None => {},
                    }
                }
                (FileDialogKey::Stay, DirMove::Stay)
            },
        }
    }
}

/// Window options of the dialog: the grey modal with a teal title, its
/// close box, and the dialog's shadow flag and border.
pub open spec fn fd_opts(dlg: FileDialog, theme: Theme) -> WindowOpts {
    WindowOpts {
        body_bg: theme.window_bg,
        body_fg: Color::Black,
        title: dlg.title,
        title_bg: theme.teal,
        title_fg: Color::White,
        title_bold: true,
        shadow: dlg.has_shadow,
        shadow_style: ShadowStyle::Translucent,
        border_color: dlg.border_color,
        border_style: BorderStyle::Single,
        controls: true,
    }
}

/// The tree panel inside the modal `r`.
pub open spec fn fd_tree(r: Rect) -> Rect {
    Rect { x: sat_add(r.x as int, 2) as u16, y: sat_add(r.y as int, 2) as u16, w: 22, h: sat_sub(r.h as int, 6) as u16 }
}

/// The file panel right of the tree.
pub open spec fn fd_list_rect(r: Rect) -> Rect {
    let tree = fd_tree(r);
    let x = sat_add(tree.spec_right() as int, 1);
    Rect { x: x as u16, y: tree.y, w: sat_sub(sat_sub(r.spec_right() as int, x), 2) as u16, h: tree.h }
}

/// The file list as drawn: the dialog's colours on its list box.
pub open spec fn fd_files(dlg: FileDialog) -> ListBox {
    ListBox { foreground_color: dlg.foreground_color, background_color: dlg.background_color, ..dlg.file_list }
}

/// The tree rows drawn: for `k` rows from `dir_top`, a strip (white on the
/// popup colour on the selected row of a focused tree), a folder glyph and
/// the name.
pub open spec fn tree_rows_grid(g: Grid, dlg: FileDialog, tree: Rect, theme: Theme, k: int) -> Grid
    decreases k,
{
    if k <= 0 {
        g
    } else {
        let prev = tree_rows_grid(g, dlg, tree, theme, k - 1);
        let row = dlg.dir_top + k - 1;
        if row >= dlg.dirs@.len() + 1 {
            prev
        } else {
            let y = sat_add(tree.y as int, k - 1);
            let sel = row == dlg.dir_sel && dlg.panel == 0;
            let fg = if sel { Color::White } else { dlg.foreground_color };
            let bg = if sel { theme.popup } else { dlg.background_color };
            let cx = sat_add(tree.x as int, 1);
            paint_run(
                prev.fill(Rect { x: tree.x, y: y as u16, w: tree.w, h: 1 }, Cell::spec_new(' ', fg, bg)).set(
                    cx,
                    y,
                    Cell::spec_new('\u{f07b}', Color::Yellow, bg),
                ),
                sat_add(cx + 1, 1),
                y,
                paint_seq(fit_spec(tree_names(dlg.dirs@)[row], sat_sub(tree.w as int, 4)), Attr { fg, bg, bold: false, dim: false }),
                false,
            )
        }
    }
}

proof fn lemma_tree_rows_stop(g: Grid, dlg: FileDialog, tree: Rect, theme: Theme, k0: int, k: int)
    requires
        0 <= k0 <= k,
        dlg.dir_top + k0 >= dlg.dirs@.len() + 1,
    ensures
        tree_rows_grid(g, dlg, tree, theme, k) == tree_rows_grid(g, dlg, tree, theme, k0),
    decreases k - k0,
{
    if k > k0 {
        lemma_tree_rows_stop(g, dlg, tree, theme, k0, k - 1);
    }
}

/// The help line shown when there is no error.
pub open spec fn fd_help() -> Seq<char> {
    "Tab panel \u{b7} Enter abre/elige \u{b7} Bksp sube \u{b7} Esc cancela"@
}

/// The window, the path line and the tree of the dialog in `r`.
pub open spec fn fd_top_grid(g: Grid, r: Rect, dlg: FileDialog, theme: Theme) -> Grid {
    let g1 = window_grid(g, r, fd_opts(dlg, theme), theme);
    let g2 = paint_run(
        g1,
        sat_add(r.x as int, 2),
        sat_add(r.y as int, 1),
        paint_seq(fit_spec(dlg.current@, sat_sub(r.w as int, 4)), Attr { fg: Color::Black, bg: theme.window_bg, bold: true, dim: false }),
        false,
    );
    let tree = fd_tree(r);
    tree_rows_grid(g2.fill(tree, Cell::spec_new(' ', dlg.foreground_color, dlg.background_color)), dlg, tree, theme, tree.h as int)
}

/// The error or help line and the two buttons of the dialog in `r`.
pub open spec fn fd_foot_grid(g: Grid, r: Rect, dlg: FileDialog, theme: Theme) -> Grid {
    let w4 = sat_sub(r.w as int, 4);
    let foot = match dlg.error {
        Some(e) => fit_spec(e@, w4),
        None => fd_help(),
    };
    let g5 = paint_run(
        g,
        sat_add(r.x as int, 2),
        sat_sub(r.spec_bottom() as int, 3),
        paint_seq(fit_spec(foot, w4), Attr { fg: Color::DarkGrey, bg: theme.window_bg, bold: false, dim: false }),
        false,
    );
    let by = sat_sub(r.spec_bottom() as int, 2);
    let wok = button_w("Aceptar"@);
    let wcancel = button_w("Cancelar"@);
    let bx = sat_sub(sat_sub(sat_sub(sat_sub(r.spec_right() as int, 2), wok), 2), wcancel);
    let g6 = button_grid(g5, bx, by, "Aceptar"@, theme, false);
    button_grid(g6, sat_add(sat_add(bx, wok), 2), by, "Cancelar"@, theme, false)
}

/// The dialog as `filedialog_draw` paints it: the window, the path, the
/// tree, the file list, the error or help line, and the two buttons.
pub open spec fn filedialog_grid(g: Grid, screen: Rect, dlg: FileDialog, theme: Theme) -> Grid {
    let r = fd_layout(screen);
    if r.spec_is_empty() {
        g
    } else {
        fd_foot_grid(listbox_grid(fd_top_grid(g, r, dlg, theme), fd_list_rect(r), fd_files(dlg)), r, dlg, theme)
    }
}

/// What `filedialog_draw` asks of its inputs: the centred modal's origin
/// fits in `u16` (with room for the tree's icon column), and the file
/// list's scroll block can be placed.
pub open spec fn fd_draw_ok(screen: Rect, dlg: FileDialog) -> bool {
    let r = fd_layout(screen);
    &&& Rect::centered_fits(min_int(60, screen.w as int) as u16, min_int(17, max_int(screen.h as int, 1)) as u16, screen)
    &&& r.x + 4 <= u16::MAX
    &&& list_bar_shown(fd_list_rect(r), fd_files(dlg)) ==> list_thumb_fits(fd_files(dlg), list_track_h(fd_list_rect(r), fd_files(dlg)))
}

/// Draws the modal (it does not touch the screen stack; the caller saves
/// the screen first).
pub fn filedialog_draw(buf: &mut Buffer, screen: Rect, dlg: &FileDialog, theme: Theme)
    requires
        old(buf).wf(),
        fd_draw_ok(screen, *dlg),
    ensures
        final(buf).wf(),
        final(buf)@ == filedialog_grid(old(buf)@, screen, *dlg, theme),
{
    let r = filedialog_layout(screen);
    if r.is_empty() {
        return;
    }
    draw_fd_top(buf, r, dlg, theme);
    let tree = Rect::new(r.x.saturating_add(2), r.y.saturating_add(2), 22, r.h.saturating_sub(6));
    let list_x = tree.right().saturating_add(1);
    let list_rect = Rect::new(list_x, tree.y, r.right().saturating_sub(list_x).saturating_sub(2), tree.h);
    let files = ListBox {
        items: dlg.file_list.items.clone(),
        selected: dlg.file_list.selected,
        top: dlg.file_list.top,
        foreground_color: dlg.foreground_color,
        background_color: dlg.background_color,
        highlight_fg: dlg.file_list.highlight_fg,
        highlight_bg: dlg.file_list.highlight_bg,
        border_color: dlg.file_list.border_color,
        has_shadow: dlg.file_list.has_shadow,
        scrollbar_width: dlg.file_list.scrollbar_width,
    };
    assert(files.items@ =~= dlg.file_list.items@);
    let ghost g3 = buf@;
    listbox_draw(buf, list_rect, &files);
    proof {
        crate::widgets::listbox::lemma_listbox_grid_same_view(g3, list_rect, files, fd_files(*dlg));
    }
    draw_fd_foot(buf, r, dlg, theme);
}

fn draw_fd_top(buf: &mut Buffer, r: Rect, dlg: &FileDialog, theme: Theme)
    requires
        old(buf).wf(),
        r.x + 4 <= u16::MAX,
    ensures
        final(buf).wf(),
        final(buf)@ == fd_top_grid(old(buf)@, r, *dlg, theme),
{
    let opts = WindowOpts {
        body_bg: theme.window_bg,
        body_fg: Color::Black,
        title: dlg.title.clone(),
        title_bg: theme.teal,
        title_fg: Color::White,
        title_bold: true,
        shadow: dlg.has_shadow,
        shadow_style: ShadowStyle::Translucent,
        border_color: dlg.border_color,
        border_style: BorderStyle::Single,
        controls: true,
    };
    window(buf, r, &opts, theme);
    let path = fit_text(dlg.current.as_str(), r.w.saturating_sub(4));
    draw_text(buf, r.x.saturating_add(2), r.y.saturating_add(1), path.as_str(), Attr::bold(Color::Black, theme.window_bg));
    let tree = Rect::new(r.x.saturating_add(2), r.y.saturating_add(2), 22, r.h.saturating_sub(6));
    buf.fill_rect(tree, Cell::new(' ', dlg.foreground_color, dlg.background_color));
    draw_tree(buf, tree, dlg, theme);
}

fn draw_fd_foot(buf: &mut Buffer, r: Rect, dlg: &FileDialog, theme: Theme)
    requires
        old(buf).wf(),
    ensures
        final(buf).wf(),
        final(buf)@ == fd_foot_grid(old(buf)@, r, *dlg, theme),
{
    let w4 = r.w.saturating_sub(4);
    let foot = match &dlg.error {
        Some(e) => fit_text(e.as_str(), w4),
        None => "Tab panel \u{b7} Enter abre/elige \u{b7} Bksp sube \u{b7} Esc cancela".to_owned(),
    };
    let foot_fit = fit_text(foot.as_str(), w4);
    draw_text(buf, r.x.saturating_add(2), r.bottom().saturating_sub(3), foot_fit.as_str(), Attr::new(Color::DarkGrey, theme.window_bg));
    let by = r.bottom().saturating_sub(2);
    let wok = button_width("Aceptar");
    let wcancel = button_width("Cancelar");
    let gap: u16 = 2;
    let bx = r.right().saturating_sub(2).saturating_sub(wok).saturating_sub(gap).saturating_sub(wcancel);
    button(buf, bx, by, "Aceptar", theme);
    button(buf, bx.saturating_add(wok).saturating_add(gap), by, "Cancelar", theme);
}

fn draw_tree(buf: &mut Buffer, tree: Rect, dlg: &FileDialog, theme: Theme)
    requires
        old(buf).wf(),
        tree.x + 2 <= u16::MAX,
    ensures
        final(buf).wf(),
        final(buf)@ == tree_rows_grid(old(buf)@, *dlg, tree, theme, tree.h as int),
{
    let ghost g0 = buf@;
    let vis = tree.h as usize;
    let mut i: usize = 0;
    while i < vis
        invariant
            buf.wf(),
            vis == tree.h,
            i <= vis,
            tree.x + 2 <= u16::MAX,
            buf@ == tree_rows_grid(g0, *dlg, tree, theme, i as int),
        ensures
            buf.wf(),
            buf@ == tree_rows_grid(g0, *dlg, tree, theme, vis as int),
        decreases vis - i,
    {
        if i > dlg.dirs.len() || dlg.dir_top > dlg.dirs.len() - i {
            proof {
                lemma_tree_rows_stop(g0, *dlg, tree, theme, i as int, vis as int);
            }
            break;
        }
        let row = dlg.dir_top + i;
        let y = tree.y.saturating_add(i as u16);
        let sel = row == dlg.dir_sel && dlg.panel == 0;
        let (fg, bg) = if sel { (Color::White, theme.popup) } else { (dlg.foreground_color, dlg.background_color) };
        buf.fill_rect(Rect::new(tree.x, y, tree.w, 1), Cell::new(' ', fg, bg));
        let attr = Attr::new(fg, bg);
        let mut cx = tree.x.saturating_add(1);
        cx = cx + folder(buf, cx, y, false, attr, Color::Yellow, FolderGlyphs::nerd());
        let name: &str = if row == 0 {
            proof {
                reveal_strlit("..");
            }
            ".."
        } else {
            dlg.dirs[row - 1].as_str()
        };
        assert(name@ == tree_names(dlg.dirs@)[row as int]);
        let fit = fit_text(name, tree.w.saturating_sub(4));
        draw_text(buf, cx.saturating_add(1), y, fit.as_str(), attr);
        i += 1;
    }
}

/// The dialog's keys: `Tab` and the side arrows switch between the two
/// panels (twice comes back), `Esc` cancels and `Backspace` asks for the
/// parent, neither moving anything. On the tree, `Down` goes to the next
/// row and `Up` to the one before, round the rows (`..` and the
/// subdirectories), `Home` and `End` to the first and the last; `Enter` on
/// `..` asks for the parent and on another row for that subdirectory.
pub proof fn lemma_filedialog_keys(d: FileDialog)
    requires
        d.panel <= 1,
        d.dir_sel <= d.dirs@.len(),
    ensures
        ({
            let t = fd_next(d, AppKey::Tab);
            &&& t.0 == 1 - d.panel && t.1 == d.dir_sel && t.2 == d.file_list.selected && t.3 == d.file_list.top
            &&& fd_next(d, AppKey::Left).0 == t.0 && fd_next(d, AppKey::Right).0 == t.0
            &&& fd_next(FileDialog { panel: t.0 as usize, ..d }, AppKey::Tab).0 == d.panel
        }),
        fd_next(d, AppKey::Esc) == (d.panel as int, d.dir_sel as int, d.file_list.selected as int, d.file_list.top as int, FileDialogKeyView::Cancelled, DirMove::Stay),
        fd_next(d, AppKey::Backspace).5 == DirMove::Parent,
        d.panel == 0 ==> ({
            let n = d.dirs@.len() + 1int;
            let ds = d.dir_sel as int;
            &&& fd_next(d, AppKey::Down).1 == (if ds + 1 < n { ds + 1 } else { 0 })
            &&& fd_next(d, AppKey::Up).1 == (if ds > 0 { ds - 1 } else { n - 1 })
            &&& fd_next(d, AppKey::Home).1 == 0
            &&& fd_next(d, AppKey::End).1 == n - 1
            &&& fd_next(d, AppKey::Enter).5 == (if ds == 0 { DirMove::Parent } else { DirMove::Into(d.dirs@[ds - 1]) })
        }),
{
    let n = d.dirs@.len() + 1int;
    let ds = d.dir_sel as int;
    crate::widgets::common::lemma_mod_wrap(ds + 1, n);
    crate::widgets::common::lemma_mod_wrap(ds + n - 1, n);
    crate::widgets::common::lemma_mod_wrap(d.panel + 1, 2);
    crate::widgets::common::lemma_mod_wrap((d.panel + 1) % 2 + 1, 2);
}

} // verus!
