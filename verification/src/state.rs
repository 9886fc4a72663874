//! The shell's state: pages, slot rectangles reported by the frontend, the
//! external windows placed in those slots, the IDE instance list and the
//! custom application pages with their window instances.

use vstd::prelude::*;
use vstd::set_lib::*;

verus! {

/// A rectangle in client coordinates.
#[derive(Clone, Copy, Debug, PartialEq, Eq, Structural)]
pub struct Rect {
    pub x: i32,
    pub y: i32,
    pub w: i32,
    pub h: i32,
}

/// What kind of application occupies a slot.
#[derive(Clone, Copy, Debug, PartialEq, Eq, Structural)]
pub enum SlotKind {
    Terminal,
    Ide,
    WeChat,
    Qq,
    WeCom,
    DesktopApp,
    Custom,
}

/// A slot rectangle as laid out by the frontend, on a given page.
#[derive(Clone, Debug)]
pub struct SlotRect {
    pub id: String,
    pub rect: Rect,
    pub kind: SlotKind,
    pub page: u8,
}

/// An external window placed in a slot.
#[derive(Clone, Debug)]
pub struct ManagedWindow {
    pub hwnd: usize,
    pub slot: String,
    pub page: u8,
    pub kind: SlotKind,
}

/// One running IDE window.
#[derive(Clone, Debug)]
pub struct IdeInstance {
    pub hwnd: usize,
    pub folder: Option<String>,
    pub title: String,
}

/// Which messenger view the messaging page shows.
#[derive(Clone, Copy, Debug, PartialEq, Eq, Structural)]
pub enum ImView {
    Split,
    WeCom,
}

/// A user-defined page that embeds one chosen application fullscreen.
#[derive(Clone, Debug)]
pub struct CustomPage {
    pub id: u8,
    pub name: String,
    pub exe: String,
    pub args: String,
}

/// A configured executable path for a messenger kind.
#[derive(Clone, Debug)]
pub struct ImPath {
    pub kind: String,
    pub path: String,
}

/// The window instances embedded for one custom page and the index of the
/// one that is shown.
#[derive(Clone, Debug)]
pub struct CustomInstances {
    pub page: u8,
    pub hwnds: Vec<usize>,
    pub active: usize,
}

/// Number of built-in pages (terminal, IDE, messaging, desktop).
pub const BUILTIN_PAGES: u8 = 4;

/// The first id given to a custom page.
pub const FIRST_CUSTOM_PAGE: u8 = 5;

/// The whole mutable state of the shell.
pub struct AppState {
    pub current_page: u8,
    pub slots: Vec<SlotRect>,
    pub managed: Vec<ManagedWindow>,
    pub ide_instances: Vec<IdeInstance>,
    pub ide_active: usize,
    pub im_view: ImView,
    pub im_paths: Vec<ImPath>,
    pub main_hwnd: Option<usize>,
    pub custom_pages: Vec<CustomPage>,
    pub custom_instances: Vec<CustomInstances>,
    pub desktop_slot_seq: u32,
}

/// Slot ids are unique in a list of slot rectangles.
pub open spec fn slot_ids_unique(s: Seq<SlotRect>) -> bool {
    forall|i: int, j: int| 0 <= i < s.len() && 0 <= j < s.len() && i != j ==> s[i].id@ != s[j].id@
}

/// Slot names are unique in a list of managed windows.
pub open spec fn managed_slots_unique(s: Seq<ManagedWindow>) -> bool {
    forall|i: int, j: int|
        0 <= i < s.len() && 0 <= j < s.len() && i != j ==> s[i].slot@ != s[j].slot@
}

/// Kinds are unique in a list of messenger paths.
pub open spec fn im_kinds_unique(s: Seq<ImPath>) -> bool {
    forall|i: int, j: int| 0 <= i < s.len() && 0 <= j < s.len() && i != j ==> s[i].kind@ != s[j].kind@
}

/// Custom page ids are unique and at least `FIRST_CUSTOM_PAGE`.
pub open spec fn page_ids_valid(s: Seq<CustomPage>) -> bool {
    &&& forall|i: int, j: int| 0 <= i < s.len() && 0 <= j < s.len() && i != j ==> s[i].id != s[j].id
    &&& forall|i: int| 0 <= i < s.len() ==> s[i].id >= FIRST_CUSTOM_PAGE
}

/// Each custom page has at most one instance entry.
pub open spec fn instance_pages_unique(s: Seq<CustomInstances>) -> bool {
    forall|i: int, j: int| 0 <= i < s.len() && 0 <= j < s.len() && i != j ==> s[i].page != s[j].page
}

/// The IDE active index points into the list, or is 0 for an empty list.
pub open spec fn ide_active_valid(len: nat, active: usize) -> bool {
    active < len || (len == 0 && active == 0)
}

/// Total number of pages for a list of custom pages.
pub open spec fn spec_total_pages(custom: nat) -> int {
    BUILTIN_PAGES + custom
}

/// Distinct custom page ids all lie in `5..=255`, so there are at most 251.
pub proof fn lemma_page_count_bound(s: Seq<CustomPage>)
    requires
        page_ids_valid(s),
    ensures
        s.len() <= 251,
{
    let ids = s.map_values(|p: CustomPage| p.id as int);
    assert(ids.no_duplicates()) by {
        assert forall|i: int, j: int| 0 <= i < ids.len() && 0 <= j < ids.len() && i != j implies ids[i]
            != ids[j] by {
            assert(s[i].id != s[j].id);
        }
    }
    ids.unique_seq_to_set();
    lemma_int_range(5, 256);
    assert(ids.to_set().subset_of(set_int_range(5, 256))) by {
        assert forall|x: int| ids.to_set().contains(x) implies set_int_range(5, 256).contains(x) by {
            let i = choose|i: int| 0 <= i < ids.len() && ids[i] == x;
            assert(s[i].id >= 5);
        }
    }
    lemma_len_subset(ids.to_set(), set_int_range(5, 256));
}

impl AppState {
    /// Well-formedness: every keyed collection has unique keys, custom page
    /// ids are distinct and not below the first custom id, and the IDE active
    /// index is in range.
    pub open spec fn wf(&self) -> bool {
        &&& slot_ids_unique(self.slots@)
        &&& managed_slots_unique(self.managed@)
        &&& im_kinds_unique(self.im_paths@)
        &&& page_ids_valid(self.custom_pages@)
        &&& instance_pages_unique(self.custom_instances@)
        &&& ide_active_valid(self.ide_instances@.len(), self.ide_active)
    }

    /// The initial state: page 1, nothing embedded, split messenger view, and
    /// the given custom pages (as loaded from the configuration).
    pub fn new(custom_pages: Vec<CustomPage>) -> (s: Self)
        requires
            page_ids_valid(custom_pages@),
        ensures
            s.wf(),
            s.current_page == 1,
            s.slots@.len() == 0,
            s.managed@.len() == 0,
            s.ide_instances@.len() == 0,
            s.ide_active == 0,
            s.im_view == ImView::Split,
            s.im_paths@.len() == 0,
            s.main_hwnd is None,
            s.custom_pages@ == custom_pages@,
            s.custom_instances@.len() == 0,
            s.desktop_slot_seq == 1,
    {
        AppState {
            current_page: 1,
            slots: Vec::new(),
            managed: Vec::new(),
            ide_instances: Vec::new(),
            ide_active: 0,
            im_view: ImView::Split,
            im_paths: Vec::new(),
            main_hwnd: None,
            custom_pages,
            custom_instances: Vec::new(),
            desktop_slot_seq: 1,
        }
    }

    /// Records the handle of the shell's own main window.
    pub fn set_main_hwnd(&mut self, hwnd: usize)
        requires
            old(self).wf(),
        ensures
            final(self).wf(),
            *final(self) == (AppState { main_hwnd: Some(hwnd), ..*old(self) }),
    {
        self.main_hwnd = Some(hwnd);
    }

    /// Total number of pages: the four built-in pages plus the custom pages.
    pub fn total_pages(&self) -> (n: u8)
        requires
            self.wf(),
        ensures
            n == spec_total_pages(self.custom_pages@.len()),
    {
        proof {
            lemma_page_count_bound(self.custom_pages@);
        }
        BUILTIN_PAGES + self.custom_pages.len() as u8
    }
}

} // verus!
