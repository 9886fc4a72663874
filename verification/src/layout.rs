//! Layout planning: which embedded windows are shown, moved, raised, parked
//! off-screen or hidden for the current page, as a list of window operations
//! that the shell then performs in order.

use vstd::prelude::*;
use crate::keyed::{find_instances, find_slot, instance_index, lemma_instance_index, lemma_slot_index, slot_index};
use crate::state::{AppState, CustomInstances, IdeInstance, ImView, ManagedWindow, Rect, SlotKind, SlotRect};

verus! {

/// One operation on a window.
#[derive(Clone, Copy, Debug, PartialEq, Eq, Structural)]
pub enum WinOp {
    /// Move and resize to the rectangle (keeping the window on top).
    MoveTo(usize, Rect),
    /// Move the window's top-left corner, keeping its size.
    MoveOrigin(usize, i32, i32),
    /// Show without activating.
    Show(usize),
    /// Show and bring to the top without moving.
    ShowTop(usize),
    /// Set (true) or clear (false) always-on-top.
    Topmost(usize, bool),
    /// Move off-screen, keeping the window alive.
    Park(usize),
    /// Hide.
    Hide(usize),
    /// Restore from minimized.
    Restore(usize),
    /// Bring to the foreground.
    Foreground(usize),
    /// Push the shell's main window to the bottom (true) or top (false).
    MainToBottom(bool),
}

/// What the shell observed about an embedded window.
#[derive(Clone, Copy, Debug, PartialEq, Eq, Structural)]
pub struct WindowObs {
    pub iconic: bool,
    pub topmost: bool,
}

/// Whether a managed window of `kind` placed on page `win_page` is shown on
/// page `page` with messenger view `im`.
pub open spec fn visible_on(kind: SlotKind, page: u8, im: ImView, win_page: u8) -> bool {
    match kind {
        SlotKind::WeChat => page == 3 && im == ImView::Split,
        SlotKind::Qq => page == 3 && im == ImView::Split,
        SlotKind::WeCom => page == 3 && im == ImView::WeCom,
        SlotKind::DesktopApp => page == 4,
        SlotKind::Custom => page == win_page,
        SlotKind::Terminal => false,
        SlotKind::Ide => false,
    }
}

/// The rectangle stored for slot id `k`, if any.
pub open spec fn slot_rect(slots: Seq<SlotRect>, k: Seq<char>) -> Option<Rect> {
    let i = slot_index(slots, k);
    if i >= 0 { Some(slots[i].rect) } else { None }
}

/// The slot whose position messenger windows of `kind` take.
pub open spec fn im_base_name(kind: SlotKind) -> Seq<char> {
    match kind {
        SlotKind::WeChat => "wechat"@,
        SlotKind::Qq => "qq"@,
        SlotKind::WeCom => "wecom"@,
        _ => ""@,
    }
}

/// A move to `r`, if there is a rectangle.
pub open spec fn move_ops(h: usize, r: Option<Rect>) -> Seq<WinOp> {
    match r {
        Some(r) => seq![WinOp::MoveTo(h, r)],
        None => Seq::empty(),
    }
}

/// The operations on IDE instance `i` (window `h`) when laying out page
/// `page`: the active instance on page 2 is moved into the IDE slot, shown
/// and kept on top; every other one loses always-on-top and is parked.
pub open spec fn ide_ops(page: u8, i: int, active: usize, h: usize, ide_slot: Option<Rect>) -> Seq<WinOp> {
    if page == 2 && i == active {
        move_ops(h, ide_slot) + seq![WinOp::Show(h), WinOp::Topmost(h, true)]
    } else {
        seq![WinOp::Topmost(h, false), WinOp::Park(h)]
    }
}

/// The operations on a managed window (custom ones are left alone): a
/// visible desktop window is shown on top; a visible messenger window is
/// moved to its slot's corner, shown and kept on top; another visible
/// window is moved into its slot, shown and kept on top; an invisible one
/// loses always-on-top and is hidden (desktop windows) or parked.
pub open spec fn managed_ops(slots: Seq<SlotRect>, page: u8, im: ImView, w: ManagedWindow) -> Seq<WinOp> {
    let h = w.hwnd;
    if w.kind == SlotKind::Custom {
        Seq::empty()
    } else if visible_on(w.kind, page, im, w.page) {
        if w.kind == SlotKind::DesktopApp {
            seq![WinOp::ShowTop(h), WinOp::Topmost(h, true)]
        } else if w.kind == SlotKind::WeChat || w.kind == SlotKind::Qq || w.kind == SlotKind::WeCom {
            (match slot_rect(slots, im_base_name(w.kind)) {
                Some(r) => seq![WinOp::MoveOrigin(h, r.x, r.y)],
                None => Seq::empty(),
            }) + seq![WinOp::Show(h), WinOp::Topmost(h, true)]
        } else {
            move_ops(h, slot_rect(slots, w.slot@)) + seq![WinOp::Show(h), WinOp::Topmost(h, true)]
        }
    } else if w.kind == SlotKind::DesktopApp {
        seq![WinOp::Topmost(h, false), WinOp::Hide(h)]
    } else {
        seq![WinOp::Topmost(h, false), WinOp::Park(h)]
    }
}

/// The IDE operations for the first instances of the list.
pub open spec fn ide_plan(ide: Seq<IdeInstance>, page: u8, active: usize, ide_slot: Option<Rect>) -> Seq<WinOp>
    decreases ide.len(),
{
    if ide.len() == 0 {
        Seq::empty()
    } else {
        ide_plan(ide.drop_last(), page, active, ide_slot) + ide_ops(
            page,
            ide.len() - 1,
            active,
            ide.last().hwnd,
            ide_slot,
        )
    }
}

/// The managed-window operations for the first windows of the list.
pub open spec fn managed_plan(m: Seq<ManagedWindow>, slots: Seq<SlotRect>, page: u8, im: ImView) -> Seq<WinOp>
    decreases m.len(),
{
    if m.len() == 0 {
        Seq::empty()
    } else {
        managed_plan(m.drop_last(), slots, page, im) + managed_ops(slots, page, im, m.last())
    }
}

/// With the main window minimized, every managed window but the custom
/// ones is hidden (desktop windows) or parked.
pub open spec fn minimized_managed(m: Seq<ManagedWindow>) -> Seq<WinOp>
    decreases m.len(),
{
    if m.len() == 0 {
        Seq::empty()
    } else {
        let w = m.last();
        minimized_managed(m.drop_last()) + (if w.kind == SlotKind::Custom {
            Seq::empty()
        } else if w.kind == SlotKind::DesktopApp {
            seq![WinOp::Hide(w.hwnd)]
        } else {
            seq![WinOp::Park(w.hwnd)]
        })
    }
}

/// Every IDE window parked.
pub open spec fn park_all(ide: Seq<IdeInstance>) -> Seq<WinOp> {
    Seq::new(ide.len(), |i: int| WinOp::Park(ide[i].hwnd))
}

/// The main window's z-order for page `page`: on a custom page with a live
/// active window, that window is brought to the foreground and the shell
/// goes to the bottom; otherwise the shell stays on top.
pub open spec fn zorder_ops(page: u8, live_custom: Option<usize>) -> Seq<WinOp> {
    if page >= 5 {
        match live_custom {
            Some(h) => seq![WinOp::Foreground(h), WinOp::MainToBottom(true)],
            None => seq![WinOp::MainToBottom(false)],
        }
    } else {
        seq![WinOp::MainToBottom(false)]
    }
}

/// The full layout for the state: with the main window minimized every
/// embedded window is put away; otherwise the z-order of the shell, then
/// the IDE windows, then the managed windows.
pub open spec fn layout_plan(st: AppState, main_minimized: bool, live_custom: Option<usize>) -> Seq<WinOp> {
    if main_minimized {
        minimized_managed(st.managed@) + park_all(st.ide_instances@)
    } else {
        zorder_ops(st.current_page, live_custom) + ide_plan(
            st.ide_instances@,
            st.current_page,
            st.ide_active,
            slot_rect(st.slots@, "ide"@),
        ) + managed_plan(st.managed@, st.slots@, st.current_page, st.im_view)
    }
}

/// The watchdog's operations on a managed window: on its page a messenger
/// window is restored if minimized and made always-on-top again if it lost
/// that; desktop and custom windows are left alone. Off its page a desktop
/// window is hidden and any other window but a custom one is parked.
pub open spec fn pin_managed_ops(page: u8, im: ImView, w: ManagedWindow, o: WindowObs) -> Seq<WinOp> {
    let h = w.hwnd;
    if visible_on(w.kind, page, im, w.page) {
        if w.kind == SlotKind::DesktopApp || w.kind == SlotKind::Custom {
            Seq::empty()
        } else {
            (if o.iconic { seq![WinOp::Restore(h)] } else { Seq::empty() }) + (if !o.topmost {
                seq![WinOp::Topmost(h, true)]
            } else {
                Seq::empty()
            })
        }
    } else if w.kind == SlotKind::DesktopApp {
        seq![WinOp::Hide(h)]
    } else if w.kind != SlotKind::Custom {
        seq![WinOp::Park(h)]
    } else {
        Seq::empty()
    }
}

/// The watchdog's operations on IDE instance `i`: the active one on page 2
/// is restored and kept on top, the others parked.
pub open spec fn pin_ide_ops(page: u8, i: int, active: usize, h: usize, o: WindowObs) -> Seq<WinOp> {
    if page == 2 && i == active {
        (if o.iconic { seq![WinOp::Restore(h)] } else { Seq::empty() }) + (if !o.topmost {
            seq![WinOp::Topmost(h, true)]
        } else {
            Seq::empty()
        })
    } else {
        seq![WinOp::Park(h)]
    }
}

pub open spec fn pin_managed_plan(m: Seq<ManagedWindow>, obs: Seq<WindowObs>, page: u8, im: ImView) -> Seq<WinOp>
    decreases m.len(),
{
    if m.len() == 0 {
        Seq::empty()
    } else {
        pin_managed_plan(m.drop_last(), obs.take(m.len() - 1), page, im) + pin_managed_ops(
            page,
            im,
            m.last(),
            obs[m.len() - 1],
        )
    }
}

pub open spec fn pin_ide_plan(ide: Seq<IdeInstance>, obs: Seq<WindowObs>, page: u8, active: usize) -> Seq<WinOp>
    decreases ide.len(),
{
    if ide.len() == 0 {
        Seq::empty()
    } else {
        pin_ide_plan(ide.drop_last(), obs.take(ide.len() - 1), page, active) + pin_ide_ops(
            page,
            ide.len() - 1,
            active,
            ide.last().hwnd,
            obs[ide.len() - 1],
        )
    }
}

/// The watchdog's operations on the first instances of one custom page: the
/// live active instance of the page being shown, when it is not the
/// foreground window, gets the shell pushed below it and is brought to the
/// foreground. Nothing else is touched.
pub open spec fn pin_entry_ops(
    id: u8,
    hwnds: Seq<usize>,
    active: usize,
    live: Seq<bool>,
    page: u8,
    fg: usize,
) -> Seq<WinOp>
    decreases hwnds.len(),
{
    if hwnds.len() == 0 {
        Seq::empty()
    } else {
        let i = hwnds.len() - 1;
        let h = hwnds.last();
        pin_entry_ops(id, hwnds.drop_last(), active, live.take(i), page, fg) + (if live[i] && id == page
            && i == active && fg != h {
            seq![WinOp::MainToBottom(true), WinOp::Foreground(h)]
        } else {
            Seq::empty()
        })
    }
}

pub open spec fn pin_custom_plan(ci: Seq<CustomInstances>, live: Seq<Seq<bool>>, page: u8, fg: usize) -> Seq<WinOp>
    decreases ci.len(),
{
    if ci.len() == 0 {
        Seq::empty()
    } else {
        let e = ci.last();
        pin_custom_plan(ci.drop_last(), live.take(ci.len() - 1), page, fg) + pin_entry_ops(
            e.page,
            e.hwnds@,
            e.active,
            live[ci.len() - 1],
            page,
            fg,
        )
    }
}

/// Whether the page being shown has a live active custom instance.
pub open spec fn found_live_custom(ci: Seq<CustomInstances>, live: Seq<Seq<bool>>, page: u8) -> bool {
    exists|j: int, i: int|
        0 <= j < ci.len() && 0 <= i < ci[j].hwnds@.len() && ci[j].page == page && i == ci[j].active
            && live[j][i]
}

/// The watchdog pass: managed windows, then IDE windows, then custom
/// instances; finally, on a custom page without a live active window, the
/// shell goes back on top.
pub open spec fn pin_plan(
    st: AppState,
    managed_obs: Seq<WindowObs>,
    ide_obs: Seq<WindowObs>,
    live: Seq<Seq<bool>>,
    fg: usize,
) -> Seq<WinOp> {
    let page = st.current_page;
    pin_managed_plan(st.managed@, managed_obs, page, st.im_view) + pin_ide_plan(
        st.ide_instances@,
        ide_obs,
        page,
        st.ide_active,
    ) + pin_custom_plan(st.custom_instances@, live, page, fg) + (if page >= 5 && !found_live_custom(
        st.custom_instances@,
        live,
        page,
    ) {
        seq![WinOp::MainToBottom(false)]
    } else {
        Seq::empty()
    })
}

/// The liveness flags have one flag per custom instance.
pub open spec fn live_shape(ci: Seq<CustomInstances>, live: Seq<Seq<bool>>) -> bool {
    &&& live.len() == ci.len()
    &&& forall|j: int| 0 <= j < ci.len() ==> #[trigger] live[j].len() == ci[j].hwnds@.len()
}

fn rect_of(slots: &Vec<SlotRect>, key: &str) -> (r: Option<Rect>)
    ensures
        r == slot_rect(slots@, key@),
{
    let k = String::from_str(key);
    proof {
        lemma_slot_index(slots@, k@);
    }
    match find_slot(slots, &k) {
        Some(i) => Some(slots[i].rect),
        None => None,
    }
}

/// The slot (and messenger kind key) of messenger windows of `kind`:
/// "wechat", "qq" or "wecom"; empty for other kinds.
pub fn im_base(kind: SlotKind) -> (s: &'static str)
    ensures
        s@ == im_base_name(kind),
{
    proof {
        reveal_strlit("wechat");
        reveal_strlit("qq");
        reveal_strlit("wecom");
        reveal_strlit("");
    }
    match kind {
        SlotKind::WeChat => "wechat",
        SlotKind::Qq => "qq",
        SlotKind::WeCom => "wecom",
        _ => "",
    }
}

fn push_all(v: &mut Vec<WinOp>, ops: &Vec<WinOp>)
    ensures
        final(v)@ == old(v)@ + ops@,
{
    let mut i: usize = 0;
    let ghost v0 = v@;
    while i < ops.len()
        invariant
            i <= ops@.len(),
            v@ == v0 + ops@.take(i as int),
        decreases ops@.len() - i,
    {
        v.push(ops[i]);
        i = i + 1;
        proof {
            assert(v@ =~= v0 + ops@.take(i as int));
        }
    }
    proof {
        assert(ops@.take(i as int) =~= ops@);
    }
}

fn managed_window_ops(slots: &Vec<SlotRect>, page: u8, im: ImView, w: &ManagedWindow) -> (v: Vec<WinOp>)
    ensures
        v@ == managed_ops(slots@, page, im, *w),
{
    let h = w.hwnd;
    let mut v: Vec<WinOp> = Vec::new();
    if w.kind == SlotKind::Custom {
        return v;
    }
    let visible = match w.kind {
        SlotKind::WeChat => page == 3 && im == ImView::Split,
        SlotKind::Qq => page == 3 && im == ImView::Split,
        SlotKind::WeCom => page == 3 && im == ImView::WeCom,
        SlotKind::DesktopApp => page == 4,
        SlotKind::Custom => page == w.page,
        SlotKind::Terminal => false,
        SlotKind::Ide => false,
    };
    if visible {
        if w.kind == SlotKind::DesktopApp {
            v.push(WinOp::ShowTop(h));
            v.push(WinOp::Topmost(h, true));
        } else if w.kind == SlotKind::WeChat || w.kind == SlotKind::Qq || w.kind == SlotKind::WeCom {
            let base = im_base(w.kind);
            let r = rect_of(slots, base);
            match r {
                Some(r) => {
                    v.push(WinOp::MoveOrigin(h, r.x, r.y));
                },
                None => {},
            }
            v.push(WinOp::Show(h));
            v.push(WinOp::Topmost(h, true));
        } else {
            proof {
                lemma_slot_index(slots@, w.slot@);
            }
            match find_slot(slots, &w.slot) {
                Some(i) => {
                    v.push(WinOp::MoveTo(h, slots[i].rect));
                },
                None => {},
            }
            v.push(WinOp::Show(h));
            v.push(WinOp::Topmost(h, true));
        }
    } else if w.kind == SlotKind::DesktopApp {
        v.push(WinOp::Topmost(h, false));
        v.push(WinOp::Hide(h));
    } else {
        v.push(WinOp::Topmost(h, false));
        v.push(WinOp::Park(h));
    }
    proof {
        assert(v@ =~= managed_ops(slots@, page, im, *w));
    }
    v
}

fn obs_ops(h: usize, o: WindowObs) -> (v: Vec<WinOp>)
    ensures
        v@ == (if o.iconic { seq![WinOp::Restore(h)] } else { Seq::empty() }) + (if !o.topmost {
            seq![WinOp::Topmost(h, true)]
        } else {
            Seq::empty()
        }),
{
    let mut v: Vec<WinOp> = Vec::new();
    if o.iconic {
        v.push(WinOp::Restore(h));
    }
    if !o.topmost {
        v.push(WinOp::Topmost(h, true));
    }
    proof {
        assert(v@ =~= (if o.iconic { seq![WinOp::Restore(h)] } else { Seq::empty() }) + (if !o.topmost {
            seq![WinOp::Topmost(h, true)]
        } else {
            Seq::empty()
        }));
    }
    v
}

impl AppState {
    /// The window of the active instance of custom page `page`, if there is
    /// one (whether it is still alive is for the caller to check).
    pub fn active_custom_hwnd(&self, page: u8) -> (h: Option<usize>)
        ensures
            ({
                let i = instance_index(self.custom_instances@, page);
                if i >= 0 && self.custom_instances@[i].active < self.custom_instances@[i].hwnds@.len() {
                    h == Some(self.custom_instances@[i].hwnds@[self.custom_instances@[i].active as int])
                } else {
                    h is None
                }
            }),
    {
        proof {
            lemma_instance_index(self.custom_instances@, page);
        }
        match find_instances(&self.custom_instances, page) {
            Some(i) => {
                let e = &self.custom_instances[i];
                if e.active < e.hwnds.len() {
                    Some(e.hwnds[e.active])
                } else {
                    None
                }
            },
            None => None,
        }
    }

    /// The operations that lay out the current page; `main_minimized` tells
    /// whether the shell's main window is minimized and `live_custom` is the
    /// active custom window of the current page if it is still alive.
    pub fn layout_plan(&self, main_minimized: bool, live_custom: Option<usize>) -> (v: Vec<WinOp>)
        ensures
            v@ == layout_plan(*self, main_minimized, live_custom),
    {
        let mut v: Vec<WinOp> = Vec::new();
        if main_minimized {
            let mut i: usize = 0;
            while i < self.managed.len()
                invariant
                    i <= self.managed@.len(),
                    v@ == minimized_managed(self.managed@.take(i as int)),
                decreases self.managed@.len() - i,
            {
                proof {
                    assert(self.managed@.take(i + 1).drop_last() =~= self.managed@.take(i as int));
                    assert(self.managed@.take(i + 1).last() == self.managed@[i as int]);
                }
                let w = &self.managed[i];
                let ghost before = v@;
                if w.kind == SlotKind::Custom {
                } else if w.kind == SlotKind::DesktopApp {
                    v.push(WinOp::Hide(w.hwnd));
                } else {
                    v.push(WinOp::Park(w.hwnd));
                }
                i = i + 1;
                proof {
                    assert(v@ =~= minimized_managed(self.managed@.take(i as int)));
                }
            }
            proof {
                assert(self.managed@.take(i as int) =~= self.managed@);
            }
            let ghost base = v@;
            let mut j: usize = 0;
            while j < self.ide_instances.len()
                invariant
                    j <= self.ide_instances@.len(),
                    v@ == base + park_all(self.ide_instances@).take(j as int),
                decreases self.ide_instances@.len() - j,
            {
                v.push(WinOp::Park(self.ide_instances[j].hwnd));
                j = j + 1;
                proof {
                    assert(v@ =~= base + park_all(self.ide_instances@).take(j as int));
                }
            }
            proof {
                assert(park_all(self.ide_instances@).take(j as int) =~= park_all(self.ide_instances@));
            }
            return v;
        }
        let page = self.current_page;
        if page >= 5 {
            match live_custom {
                Some(h) => {
                    v.push(WinOp::Foreground(h));
                    v.push(WinOp::MainToBottom(true));
                },
                None => {
                    v.push(WinOp::MainToBottom(false));
                },
            }
        } else {
            v.push(WinOp::MainToBottom(false));
        }
        proof {
            assert(v@ =~= zorder_ops(page, live_custom));
        }
        let ide_slot = rect_of(&self.slots, "ide");
        let ghost base = v@;
        let mut i: usize = 0;
        while i < self.ide_instances.len()
            invariant
                i <= self.ide_instances@.len(),
                page == self.current_page,
                ide_slot == slot_rect(self.slots@, "ide"@),
                v@ == base + ide_plan(self.ide_instances@.take(i as int), page, self.ide_active, ide_slot),
            decreases self.ide_instances@.len() - i,
        {
            proof {
                assert(self.ide_instances@.take(i + 1).drop_last() =~= self.ide_instances@.take(i as int));
                assert(self.ide_instances@.take(i + 1).last() == self.ide_instances@[i as int]);
            }
            let h = self.ide_instances[i].hwnd;
            if page == 2 && i == self.ide_active {
                match ide_slot {
                    Some(r) => {
                        v.push(WinOp::MoveTo(h, r));
                    },
                    None => {},
                }
                v.push(WinOp::Show(h));
                v.push(WinOp::Topmost(h, true));
            } else {
                v.push(WinOp::Topmost(h, false));
                v.push(WinOp::Park(h));
            }
            i = i + 1;
            proof {
                assert(v@ =~= base + ide_plan(self.ide_instances@.take(i as int), page, self.ide_active, ide_slot));
            }
        }
        proof {
            assert(self.ide_instances@.take(i as int) =~= self.ide_instances@);
        }
        let ghost base2 = v@;
        let mut k: usize = 0;
        while k < self.managed.len()
            invariant
                k <= self.managed@.len(),
                page == self.current_page,
                v@ == base2 + managed_plan(self.managed@.take(k as int), self.slots@, page, self.im_view),
            decreases self.managed@.len() - k,
        {
            proof {
                assert(self.managed@.take(k + 1).drop_last() =~= self.managed@.take(k as int));
                assert(self.managed@.take(k + 1).last() == self.managed@[k as int]);
            }
            let ops = managed_window_ops(&self.slots, page, self.im_view, &self.managed[k]);
            push_all(&mut v, &ops);
            k = k + 1;
            proof {
                assert(v@ =~= base2 + managed_plan(self.managed@.take(k as int), self.slots@, page, self.im_view));
            }
        }
        proof {
            assert(self.managed@.take(k as int) =~= self.managed@);
        }
        v
    }

    /// The watchdog pass (every 800 ms): `managed_obs` and `ide_obs` hold what
    /// was observed of the managed and IDE windows, `live[j][i]` whether
    /// instance `i` of custom entry `j` is still its application's window,
    /// and `fg` the foreground window.
    pub fn pin_plan(&self, managed_obs: &Vec<WindowObs>, ide_obs: &Vec<WindowObs>, live: &Vec<Vec<bool>>, fg: usize) -> (v: Vec<WinOp>)
        requires
            managed_obs@.len() == self.managed@.len(),
            ide_obs@.len() == self.ide_instances@.len(),
            live_shape(self.custom_instances@, live@.map_values(|l: Vec<bool>| l@)),
        ensures
            v@ == pin_plan(*self, managed_obs@, ide_obs@, live@.map_values(|l: Vec<bool>| l@), fg),
    {
        let page = self.current_page;
        let im = self.im_view;
        let ghost lv = live@.map_values(|l: Vec<bool>| l@);
        let mut v: Vec<WinOp> = Vec::new();
        let mut i: usize = 0;
        while i < self.managed.len()
            invariant
                i <= self.managed@.len(),
                managed_obs@.len() == self.managed@.len(),
                page == self.current_page,
                im == self.im_view,
                v@ == pin_managed_plan(self.managed@.take(i as int), managed_obs@.take(i as int), page, im),
            decreases self.managed@.len() - i,
        {
            proof {
                assert(self.managed@.take(i + 1).drop_last() =~= self.managed@.take(i as int));
                assert(self.managed@.take(i + 1).last() == self.managed@[i as int]);
                assert(managed_obs@.take(i + 1).take(i as int) =~= managed_obs@.take(i as int));
                assert(managed_obs@.take(i + 1)[i as int] == managed_obs@[i as int]);
            }
            let w = &self.managed[i];
            let h = w.hwnd;
            let visible = match w.kind {
                SlotKind::WeChat => page == 3 && im == ImView::Split,
                SlotKind::Qq => page == 3 && im == ImView::Split,
                SlotKind::WeCom => page == 3 && im == ImView::WeCom,
                SlotKind::DesktopApp => page == 4,
                SlotKind::Custom => page == w.page,
                SlotKind::Terminal => false,
                SlotKind::Ide => false,
            };
            if visible {
                if w.kind == SlotKind::DesktopApp || w.kind == SlotKind::Custom {
                } else {
                    let ops = obs_ops(h, managed_obs[i]);
                    push_all(&mut v, &ops);
                }
            } else if w.kind == SlotKind::DesktopApp {
                v.push(WinOp::Hide(h));
            } else if w.kind != SlotKind::Custom {
                v.push(WinOp::Park(h));
            }
            i = i + 1;
            proof {
                assert(v@ =~= pin_managed_plan(self.managed@.take(i as int), managed_obs@.take(i as int), page, im));
            }
        }
        proof {
            assert(self.managed@.take(i as int) =~= self.managed@);
            assert(managed_obs@.take(i as int) =~= managed_obs@);
        }
        let ghost b1 = v@;
        let mut j: usize = 0;
        while j < self.ide_instances.len()
            invariant
                j <= self.ide_instances@.len(),
                ide_obs@.len() == self.ide_instances@.len(),
                page == self.current_page,
                v@ == b1 + pin_ide_plan(self.ide_instances@.take(j as int), ide_obs@.take(j as int), page, self.ide_active),
            decreases self.ide_instances@.len() - j,
        {
            proof {
                assert(self.ide_instances@.take(j + 1).drop_last() =~= self.ide_instances@.take(j as int));
                assert(self.ide_instances@.take(j + 1).last() == self.ide_instances@[j as int]);
                assert(ide_obs@.take(j + 1).take(j as int) =~= ide_obs@.take(j as int));
                assert(ide_obs@.take(j + 1)[j as int] == ide_obs@[j as int]);
            }
            let h = self.ide_instances[j].hwnd;
            if page == 2 && j == self.ide_active {
                let ops = obs_ops(h, ide_obs[j]);
                push_all(&mut v, &ops);
            } else {
                v.push(WinOp::Park(h));
            }
            j = j + 1;
            proof {
                assert(v@ =~= b1 + pin_ide_plan(self.ide_instances@.take(j as int), ide_obs@.take(j as int), page, self.ide_active));
            }
        }
        proof {
            assert(self.ide_instances@.take(j as int) =~= self.ide_instances@);
            assert(ide_obs@.take(j as int) =~= ide_obs@);
        }
        let ghost b2 = v@;
        let mut found = false;
        let mut e: usize = 0;
        while e < self.custom_instances.len()
            invariant
                e <= self.custom_instances@.len(),
                lv == live@.map_values(|l: Vec<bool>| l@),
                live_shape(self.custom_instances@, lv),
                page == self.current_page,
                v@ == b2 + pin_custom_plan(self.custom_instances@.take(e as int), lv.take(e as int), page, fg),
                found == found_live_custom(self.custom_instances@.take(e as int), lv.take(e as int), page),
            decreases self.custom_instances@.len() - e,
        {
            let ent = &self.custom_instances[e];
            let lf = &live[e];
            proof {
                assert(lv[e as int] == lf@);
                assert(lv[e as int].len() == self.custom_instances@[e as int].hwnds@.len());
            }
            let ghost b3 = v@;
            let mut q: usize = 0;
            let ghost found0 = found;
            while q < ent.hwnds.len()
                invariant
                    q <= ent.hwnds@.len(),
                    lf@.len() == ent.hwnds@.len(),
                    v@ == b3 + pin_entry_ops(ent.page, ent.hwnds@.take(q as int), ent.active, lf@.take(q as int), page, fg),
                    found == (found0 || exists|x: int| 0 <= x < q && ent.page == page && x == ent.active && lf@[x]),
                decreases ent.hwnds@.len() - q,
            {
                proof {
                    assert(ent.hwnds@.take(q + 1).drop_last() =~= ent.hwnds@.take(q as int));
                    assert(lf@.take(q + 1).take(q as int) =~= lf@.take(q as int));
                }
                let h = ent.hwnds[q];
                if lf[q] {
                    if ent.page == page && q == ent.active {
                        found = true;
                        if fg != h {
                            v.push(WinOp::MainToBottom(true));
                            v.push(WinOp::Foreground(h));
                        }
                    }
                }
                q = q + 1;
                proof {
                    assert(v@ =~= b3 + pin_entry_ops(ent.page, ent.hwnds@.take(q as int), ent.active, lf@.take(q as int), page, fg));
                }
            }
            proof {
                let ci = self.custom_instances@;
                let t = ci.take(e + 1);
                assert(t.drop_last() =~= ci.take(e as int));
                assert(t.last() == ci[e as int]);
                assert(lv.take(e + 1).take(e as int) =~= lv.take(e as int));
                assert(lv.take(e + 1)[e as int] == lf@);
                assert(ent.hwnds@.take(q as int) =~= ent.hwnds@);
                assert(lf@.take(q as int) =~= lf@);
                assert(v@ =~= b2 + pin_custom_plan(t, lv.take(e + 1), page, fg));
                let lt = lv.take(e + 1);
                if found {
                    if found0 {
                        let (a, b) = choose|a: int, b: int|
                            0 <= a < ci.take(e as int).len() && 0 <= b < ci.take(e as int)[a].hwnds@.len()
                                && ci.take(e as int)[a].page == page && b == ci.take(e as int)[a].active
                                && lv.take(e as int)[a][b];
                        assert(t[a] == ci.take(e as int)[a]);
                        assert(lt[a] == lv.take(e as int)[a]);
                    } else {
                        let x = choose|x: int| 0 <= x < q && ent.page == page && x == ent.active && lf@[x];
                        assert(t[e as int] == ent);
                        assert(lt[e as int][x]);
                    }
                    assert(found_live_custom(t, lt, page));
                } else {
                    assert forall|a: int, b: int|
                        0 <= a < t.len() && 0 <= b < t[a].hwnds@.len() && t[a].page == page && b == t[a].active
                        implies !lt[a][b] by {
                        if a < e {
                            assert(t[a] == ci.take(e as int)[a]);
                            assert(lt[a] == lv.take(e as int)[a]);
                        } else {
                            assert(t[a] == ent);
                            assert(lt[a] == lf@);
                        }
                    }
                }
            }
            e = e + 1;
        }
        proof {
            assert(self.custom_instances@.take(e as int) =~= self.custom_instances@);
            assert(lv.take(e as int) =~= lv);
        }
        if page >= 5 && !found {
            v.push(WinOp::MainToBottom(false));
        }
        proof {
            assert(v@ =~= pin_plan(*self, managed_obs@, ide_obs@, lv, fg));
        }
        v
    }
}

/// The window an operation acts on (`None` for the shell's own z-order).
pub open spec fn op_target(op: WinOp) -> Option<usize> {
    match op {
        WinOp::MoveTo(h, _) => Some(h),
        WinOp::MoveOrigin(h, _, _) => Some(h),
        WinOp::Show(h) => Some(h),
        WinOp::ShowTop(h) => Some(h),
        WinOp::Topmost(h, _) => Some(h),
        WinOp::Park(h) => Some(h),
        WinOp::Hide(h) => Some(h),
        WinOp::Restore(h) => Some(h),
        WinOp::Foreground(h) => Some(h),
        WinOp::MainToBottom(_) => None,
    }
}

/// The operation acts on one of the managed windows that are not custom
/// windows.
pub open spec fn on_noncustom(m: Seq<ManagedWindow>, op: WinOp) -> bool {
    exists|i: int| 0 <= i < m.len() && m[i].kind != SlotKind::Custom && op_target(op) == Some(m[i].hwnd)
}

/// The operation acts on one of the IDE windows.
pub open spec fn on_ide(ide: Seq<IdeInstance>, op: WinOp) -> bool {
    exists|i: int| 0 <= i < ide.len() && op_target(op) == Some(ide[i].hwnd)
}

/// The operation brings the live active instance of custom page `page` to
/// the foreground.
pub open spec fn foregrounds_live_active(ci: Seq<CustomInstances>, live: Seq<Seq<bool>>, page: u8, op: WinOp) -> bool {
    exists|j: int, i: int|
        0 <= j < ci.len() && 0 <= i < ci[j].hwnds@.len() && ci[j].page == page && i == ci[j].active
            && live[j][i] && op == WinOp::Foreground(ci[j].hwnds@[i])
}

proof fn lemma_managed_plan_targets(m: Seq<ManagedWindow>, slots: Seq<SlotRect>, page: u8, im: ImView)
    ensures
        forall|k: int| 0 <= k < managed_plan(m, slots, page, im).len() ==> on_noncustom(m, #[trigger] managed_plan(m, slots, page, im)[k]),
    decreases m.len(),
{
    if m.len() > 0 {
        let p = m.drop_last();
        lemma_managed_plan_targets(p, slots, page, im);
        let a = managed_plan(p, slots, page, im);
        let b = managed_ops(slots, page, im, m.last());
        assert forall|k: int| 0 <= k < managed_plan(m, slots, page, im).len() implies on_noncustom(m, #[trigger] managed_plan(m, slots, page, im)[k]) by {
            if k < a.len() {
                assert(managed_plan(m, slots, page, im)[k] == a[k]);
                let i = choose|i: int| 0 <= i < p.len() && p[i].kind != SlotKind::Custom && op_target(a[k]) == Some(p[i].hwnd);
                assert(m[i] == p[i]);
            } else {
                assert(managed_plan(m, slots, page, im)[k] == b[k - a.len()]);
                assert(m[m.len() - 1] == m.last());
            }
        }
    }
}

proof fn lemma_minimized_targets(m: Seq<ManagedWindow>)
    ensures
        forall|k: int| 0 <= k < minimized_managed(m).len() ==> {
            let op = #[trigger] minimized_managed(m)[k];
            &&& (op is Hide || op is Park)
            &&& on_noncustom(m, op)
        },
    decreases m.len(),
{
    if m.len() > 0 {
        let p = m.drop_last();
        lemma_minimized_targets(p);
        let a = minimized_managed(p);
        assert forall|k: int| 0 <= k < minimized_managed(m).len() implies {
            let op = #[trigger] minimized_managed(m)[k];
            &&& (op is Hide || op is Park)
            &&& on_noncustom(m, op)
        } by {
            if k < a.len() {
                assert(minimized_managed(m)[k] == a[k]);
                let i = choose|i: int| 0 <= i < p.len() && p[i].kind != SlotKind::Custom && op_target(a[k]) == Some(p[i].hwnd);
                assert(m[i] == p[i]);
            } else {
                assert(m[m.len() - 1] == m.last());
            }
        }
    }
}

proof fn lemma_ide_plan_targets(ide: Seq<IdeInstance>, page: u8, active: usize, r: Option<Rect>)
    ensures
        forall|k: int| 0 <= k < ide_plan(ide, page, active, r).len() ==> {
            let op = #[trigger] ide_plan(ide, page, active, r)[k];
            &&& on_ide(ide, op)
            &&& (op is Show ==> page == 2 && active < ide.len() && op == WinOp::Show(ide[active as int].hwnd))
        },
    decreases ide.len(),
{
    if ide.len() > 0 {
        let p = ide.drop_last();
        lemma_ide_plan_targets(p, page, active, r);
        let a = ide_plan(p, page, active, r);
        assert forall|k: int| 0 <= k < ide_plan(ide, page, active, r).len() implies {
            let op = #[trigger] ide_plan(ide, page, active, r)[k];
            &&& on_ide(ide, op)
            &&& (op is Show ==> page == 2 && active < ide.len() && op == WinOp::Show(ide[active as int].hwnd))
        } by {
            if k < a.len() {
                assert(ide_plan(ide, page, active, r)[k] == a[k]);
                let i = choose|i: int| 0 <= i < p.len() && op_target(a[k]) == Some(p[i].hwnd);
                assert(ide[i] == p[i]);
                if active < p.len() {
                    assert(ide[active as int] == p[active as int]);
                }
            } else {
                assert(ide[ide.len() - 1] == ide.last());
            }
        }
    }
}

/// The operation is one the watchdog performs for the live active instance
/// `i` of custom page `id` shown as page `page`: pushing the shell down or
/// bringing that instance to the foreground.
spec fn entry_op(id: u8, hwnds: Seq<usize>, active: usize, live: Seq<bool>, page: u8, op: WinOp) -> bool {
    exists|i: int|
        0 <= i < hwnds.len() && id == page && i == active && live[i] && (op == WinOp::MainToBottom(true)
            || op == WinOp::Foreground(hwnds[i]))
}

/// The same, over all custom entries.
spec fn custom_op(ci: Seq<CustomInstances>, live: Seq<Seq<bool>>, page: u8, op: WinOp) -> bool {
    exists|j: int, i: int|
        0 <= j < ci.len() && 0 <= i < ci[j].hwnds@.len() && ci[j].page == page && i == ci[j].active
            && live[j][i] && (op == WinOp::MainToBottom(true) || op == WinOp::Foreground(ci[j].hwnds@[i]))
}

proof fn lemma_entry_ops_targets(id: u8, hwnds: Seq<usize>, active: usize, live: Seq<bool>, page: u8, fg: usize)
    requires
        live.len() == hwnds.len(),
    ensures
        forall|k: int| 0 <= k < pin_entry_ops(id, hwnds, active, live, page, fg).len() ==> entry_op(
            id,
            hwnds,
            active,
            live,
            page,
            #[trigger] pin_entry_ops(id, hwnds, active, live, page, fg)[k],
        ),
    decreases hwnds.len(),
{
    if hwnds.len() > 0 {
        let n = hwnds.len() - 1;
        let p = hwnds.drop_last();
        let lp = live.take(n);
        lemma_entry_ops_targets(id, p, active, lp, page, fg);
        let a = pin_entry_ops(id, p, active, lp, page, fg);
        assert forall|k: int| 0 <= k < pin_entry_ops(id, hwnds, active, live, page, fg).len() implies entry_op(
            id,
            hwnds,
            active,
            live,
            page,
            #[trigger] pin_entry_ops(id, hwnds, active, live, page, fg)[k],
        ) by {
            let op = pin_entry_ops(id, hwnds, active, live, page, fg)[k];
            if k < a.len() {
                assert(op == a[k]);
                let i = choose|i: int|
                    0 <= i < p.len() && id == page && i == active && lp[i] && (a[k] == WinOp::MainToBottom(true)
                        || a[k] == WinOp::Foreground(p[i]));
                assert(hwnds[i] == p[i] && live[i] == lp[i]);
            } else {
                assert(hwnds[n] == hwnds.last());
                assert(live[n] && id == page && n == active);
            }
        }
    }
}

proof fn lemma_custom_plan_targets(ci: Seq<CustomInstances>, live: Seq<Seq<bool>>, page: u8, fg: usize)
    requires
        live_shape(ci, live),
    ensures
        forall|k: int| 0 <= k < pin_custom_plan(ci, live, page, fg).len() ==> custom_op(
            ci,
            live,
            page,
            #[trigger] pin_custom_plan(ci, live, page, fg)[k],
        ),
    decreases ci.len(),
{
    if ci.len() > 0 {
        let n = ci.len() - 1;
        let p = ci.drop_last();
        let lp = live.take(n);
        let e = ci.last();
        assert(live_shape(p, lp)) by {
            assert forall|j: int| 0 <= j < p.len() implies #[trigger] lp[j].len() == p[j].hwnds@.len() by {
                assert(lp[j] == live[j] && p[j] == ci[j]);
            }
        }
        assert(live[n].len() == e.hwnds@.len()) by {
            assert(ci[n] == e);
        }
        lemma_custom_plan_targets(p, lp, page, fg);
        lemma_entry_ops_targets(e.page, e.hwnds@, e.active, live[n], page, fg);
        let a = pin_custom_plan(p, lp, page, fg);
        let b = pin_entry_ops(e.page, e.hwnds@, e.active, live[n], page, fg);
        assert forall|k: int| 0 <= k < pin_custom_plan(ci, live, page, fg).len() implies custom_op(
            ci,
            live,
            page,
            #[trigger] pin_custom_plan(ci, live, page, fg)[k],
        ) by {
            let op = pin_custom_plan(ci, live, page, fg)[k];
            if k < a.len() {
                assert(op == a[k]);
                let (j, i) = choose|j: int, i: int|
                    0 <= j < p.len() && 0 <= i < p[j].hwnds@.len() && p[j].page == page && i == p[j].active
                        && lp[j][i] && (a[k] == WinOp::MainToBottom(true) || a[k] == WinOp::Foreground(
                        p[j].hwnds@[i],
                    ));
                assert(ci[j] == p[j] && live[j] == lp[j]);
            } else {
                assert(op == b[k - a.len()]);
                assert(ci[n] == e);
                let i = choose|i: int|
                    0 <= i < e.hwnds@.len() && e.page == page && i == e.active && live[n][i] && (op
                        == WinOp::MainToBottom(true) || op == WinOp::Foreground(e.hwnds@[i]));
                assert(custom_op(ci, live, page, op));
            }
        }
    }
}

/// Embedded custom windows are never moved, resized, hidden, parked or
/// minimized by a layout: every operation of a layout either sets the
/// shell's z-order, brings the live active custom window of the page to
/// the foreground, or acts on an IDE window or a managed window that is not
/// a custom one. With the shell minimized, windows are only hidden or
/// parked. The shell goes to the bottom only on a custom page whose active
/// window is alive.
pub proof fn lemma_layout_spares_custom_windows(st: AppState, main_minimized: bool, live_custom: Option<usize>)
    ensures
        forall|k: int| 0 <= k < layout_plan(st, main_minimized, live_custom).len() ==> {
            let op = #[trigger] layout_plan(st, main_minimized, live_custom)[k];
            ||| op is MainToBottom
            ||| (live_custom matches Some(h) && op == WinOp::Foreground(h))
            ||| on_ide(st.ide_instances@, op)
            ||| on_noncustom(st.managed@, op)
        },
        main_minimized ==> forall|k: int| 0 <= k < layout_plan(st, main_minimized, live_custom).len() ==> {
            let op = #[trigger] layout_plan(st, main_minimized, live_custom)[k];
            op is Hide || op is Park
        },
        forall|k: int| 0 <= k < layout_plan(st, main_minimized, live_custom).len() && #[trigger] layout_plan(
            st,
            main_minimized,
            live_custom,
        )[k] == WinOp::MainToBottom(true) ==> !main_minimized && st.current_page >= 5 && live_custom is Some,
{
    let plan = layout_plan(st, main_minimized, live_custom);
    if main_minimized {
        let a = minimized_managed(st.managed@);
        lemma_minimized_targets(st.managed@);
        assert forall|k: int| 0 <= k < plan.len() implies {
            let op = #[trigger] plan[k];
            &&& (op is Hide || op is Park)
            &&& (on_ide(st.ide_instances@, op) || on_noncustom(st.managed@, op))
        } by {
            if k < a.len() {
                assert(plan[k] == a[k]);
            } else {
                assert(plan[k] == park_all(st.ide_instances@)[k - a.len()]);
                assert(op_target(plan[k]) == Some(st.ide_instances@[k - a.len()].hwnd));
            }
        }
    } else {
        let z = zorder_ops(st.current_page, live_custom);
        let i = ide_plan(st.ide_instances@, st.current_page, st.ide_active, slot_rect(st.slots@, "ide"@));
        let m = managed_plan(st.managed@, st.slots@, st.current_page, st.im_view);
        lemma_ide_plan_targets(st.ide_instances@, st.current_page, st.ide_active, slot_rect(st.slots@, "ide"@));
        lemma_managed_plan_targets(st.managed@, st.slots@, st.current_page, st.im_view);
        assert forall|k: int| 0 <= k < plan.len() implies {
            let op = #[trigger] plan[k];
            &&& (op is MainToBottom || (live_custom matches Some(h) && op == WinOp::Foreground(h)) || on_ide(
                st.ide_instances@,
                op,
            ) || on_noncustom(st.managed@, op))
            &&& (op == WinOp::MainToBottom(true) ==> st.current_page >= 5 && live_custom is Some)
        } by {
            if k < z.len() {
                assert(plan[k] == z[k]);
            } else if k < z.len() + i.len() {
                assert(plan[k] == i[k - z.len()]);
            } else {
                assert(plan[k] == m[k - z.len() - i.len()]);
            }
        }
    }
}

/// Only the active IDE window is ever shown, and only on the IDE page.
pub proof fn lemma_layout_shows_active_ide_only(ide: Seq<IdeInstance>, page: u8, active: usize, r: Option<Rect>)
    ensures
        forall|k: int| 0 <= k < ide_plan(ide, page, active, r).len() ==> (#[trigger] ide_plan(ide, page, active, r)[k] is Show
            ==> page == 2 && active < ide.len() && ide_plan(ide, page, active, r)[k] == WinOp::Show(ide[active as int].hwnd)),
{
    lemma_ide_plan_targets(ide, page, active, r);
}

/// The watchdog never touches a custom window but to bring the live active
/// instance of the page being shown to the foreground: every operation of
/// its pass sets the shell's z-order, does that, or acts on an IDE window or
/// a managed window that is not a custom one. It pushes the shell to the
/// bottom only while the page shown has a live active custom window.
pub proof fn lemma_watchdog_spares_custom_windows(
    st: AppState,
    managed_obs: Seq<WindowObs>,
    ide_obs: Seq<WindowObs>,
    live: Seq<Seq<bool>>,
    fg: usize,
)
    requires
        live_shape(st.custom_instances@, live),
    ensures
        forall|k: int| 0 <= k < pin_plan(st, managed_obs, ide_obs, live, fg).len() ==> {
            let op = #[trigger] pin_plan(st, managed_obs, ide_obs, live, fg)[k];
            ||| op is MainToBottom
            ||| foregrounds_live_active(st.custom_instances@, live, st.current_page, op)
            ||| on_ide(st.ide_instances@, op)
            ||| on_noncustom(st.managed@, op)
        },
        forall|k: int| 0 <= k < pin_plan(st, managed_obs, ide_obs, live, fg).len() && #[trigger] pin_plan(
            st,
            managed_obs,
            ide_obs,
            live,
            fg,
        )[k] == WinOp::MainToBottom(true) ==> found_live_custom(st.custom_instances@, live, st.current_page),
{
    let page = st.current_page;
    let a = pin_managed_plan(st.managed@, managed_obs, page, st.im_view);
    let b = pin_ide_plan(st.ide_instances@, ide_obs, page, st.ide_active);
    let c = pin_custom_plan(st.custom_instances@, live, page, fg);
    let plan = pin_plan(st, managed_obs, ide_obs, live, fg);
    lemma_pin_managed_targets(st.managed@, managed_obs, page, st.im_view);
    lemma_pin_ide_targets(st.ide_instances@, ide_obs, page, st.ide_active);
    lemma_custom_plan_targets(st.custom_instances@, live, page, fg);
    assert forall|k: int| 0 <= k < plan.len() implies {
        let op = #[trigger] plan[k];
        &&& (op is MainToBottom || foregrounds_live_active(st.custom_instances@, live, st.current_page, op)
            || on_ide(st.ide_instances@, op) || on_noncustom(st.managed@, op))
        &&& (op == WinOp::MainToBottom(true) ==> found_live_custom(st.custom_instances@, live, st.current_page))
    } by {
        if k < a.len() {
            assert(plan[k] == a[k]);
        } else if k < a.len() + b.len() {
            assert(plan[k] == b[k - a.len()]);
        } else if k < a.len() + b.len() + c.len() {
            let op = c[k - a.len() - b.len()];
            assert(plan[k] == op);
            let ci = st.custom_instances@;
            let (j, i) = choose|j: int, i: int|
                0 <= j < ci.len() && 0 <= i < ci[j].hwnds@.len() && ci[j].page == page && i == ci[j].active
                    && live[j][i] && (op == WinOp::MainToBottom(true) || op == WinOp::Foreground(ci[j].hwnds@[i]));
            if op != WinOp::MainToBottom(true) {
                assert(foregrounds_live_active(ci, live, page, op));
            }
            assert(found_live_custom(ci, live, page));
        }
    }
}

proof fn lemma_pin_managed_targets(m: Seq<ManagedWindow>, obs: Seq<WindowObs>, page: u8, im: ImView)
    ensures
        forall|k: int| 0 <= k < pin_managed_plan(m, obs, page, im).len() ==> on_noncustom(m, #[trigger] pin_managed_plan(m, obs, page, im)[k]),
    decreases m.len(),
{
    if m.len() > 0 {
        let p = m.drop_last();
        let n = m.len() - 1;
        lemma_pin_managed_targets(p, obs.take(n), page, im);
        let a = pin_managed_plan(p, obs.take(n), page, im);
        assert forall|k: int| 0 <= k < pin_managed_plan(m, obs, page, im).len() implies on_noncustom(m, #[trigger] pin_managed_plan(m, obs, page, im)[k]) by {
            if k < a.len() {
                assert(pin_managed_plan(m, obs, page, im)[k] == a[k]);
                let i = choose|i: int| 0 <= i < p.len() && p[i].kind != SlotKind::Custom && op_target(a[k]) == Some(p[i].hwnd);
                assert(m[i] == p[i]);
            } else {
                assert(m[n] == m.last());
            }
        }
    }
}

proof fn lemma_pin_ide_targets(ide: Seq<IdeInstance>, obs: Seq<WindowObs>, page: u8, active: usize)
    ensures
        forall|k: int| 0 <= k < pin_ide_plan(ide, obs, page, active).len() ==> on_ide(ide, #[trigger] pin_ide_plan(ide, obs, page, active)[k]),
    decreases ide.len(),
{
    if ide.len() > 0 {
        let p = ide.drop_last();
        let n = ide.len() - 1;
        lemma_pin_ide_targets(p, obs.take(n), page, active);
        let a = pin_ide_plan(p, obs.take(n), page, active);
        assert forall|k: int| 0 <= k < pin_ide_plan(ide, obs, page, active).len() implies on_ide(ide, #[trigger] pin_ide_plan(ide, obs, page, active)[k]) by {
            if k < a.len() {
                assert(pin_ide_plan(ide, obs, page, active)[k] == a[k]);
                let i = choose|i: int| 0 <= i < p.len() && op_target(a[k]) == Some(p[i].hwnd);
                assert(ide[i] == p[i]);
            } else {
                assert(ide[n] == ide.last());
            }
        }
    }
}

/// The messenger page shows either the WeChat and QQ pair or WeCom, never
/// WeChat and WeCom together.
pub proof fn lemma_messenger_views_exclusive(page: u8, im: ImView, p1: u8, p2: u8)
    ensures
        !(visible_on(SlotKind::WeChat, page, im, p1) && visible_on(SlotKind::WeCom, page, im, p2)),
        !(visible_on(SlotKind::Qq, page, im, p1) && visible_on(SlotKind::WeCom, page, im, p2)),
{
}

proof fn lemma_managed_ops_target(slots: Seq<SlotRect>, page: u8, im: ImView, w: ManagedWindow)
    ensures
        forall|t: int| 0 <= t < managed_ops(slots, page, im, w).len() ==> op_target(
            #[trigger] managed_ops(slots, page, im, w)[t],
        ) == Some(w.hwnd),
{
    let ops = managed_ops(slots, page, im, w);
    let h = w.hwnd;
    assert forall|t: int| 0 <= t < ops.len() implies op_target(#[trigger] ops[t]) == Some(h) by {
        if w.kind != SlotKind::Custom && visible_on(w.kind, page, im, w.page) && w.kind != SlotKind::DesktopApp {
            let tail = seq![WinOp::Show(h), WinOp::Topmost(h, true)];
            if w.kind == SlotKind::WeChat || w.kind == SlotKind::Qq || w.kind == SlotKind::WeCom {
                let head: Seq<WinOp> = match slot_rect(slots, im_base_name(w.kind)) {
                    Some(r) => seq![WinOp::MoveOrigin(h, r.x, r.y)],
                    None => Seq::empty(),
                };
                assert(ops == head + tail);
                if t < head.len() {
                    assert(ops[t] == head[t]);
                } else {
                    assert(ops[t] == tail[t - head.len()]);
                }
            } else {
                let head = move_ops(h, slot_rect(slots, w.slot@));
                assert(ops == head + tail);
                if t < head.len() {
                    assert(ops[t] == head[t]);
                } else {
                    assert(ops[t] == tail[t - head.len()]);
                }
            }
        }
    }
}

proof fn lemma_managed_plan_prefix(m: Seq<ManagedWindow>, slots: Seq<SlotRect>, page: u8, im: ImView, n: int)
    requires
        0 <= n <= m.len(),
    ensures
        managed_plan(m.take(n), slots, page, im).len() <= managed_plan(m, slots, page, im).len(),
        managed_plan(m.take(n), slots, page, im) == managed_plan(m, slots, page, im).take(
            managed_plan(m.take(n), slots, page, im).len() as int,
        ),
    decreases m.len(),
{
    let q = managed_plan(m.take(n), slots, page, im);
    if n == m.len() {
        assert(m.take(n) =~= m);
        assert(q.take(q.len() as int) =~= q);
    } else {
        let d = m.drop_last();
        assert(d.take(n) =~= m.take(n));
        lemma_managed_plan_prefix(d, slots, page, im, n);
        let a = managed_plan(d, slots, page, im);
        let b = managed_ops(slots, page, im, m.last());
        assert(managed_plan(m, slots, page, im) == a + b);
        assert((a + b).take(q.len() as int) =~= a.take(q.len() as int));
    }
}

/// The operations on managed window `j` stand together in the managed part
/// of the plan, after those of the windows before it.
proof fn lemma_managed_block(m: Seq<ManagedWindow>, slots: Seq<SlotRect>, page: u8, im: ImView, j: int)
    requires
        0 <= j < m.len(),
    ensures
        managed_plan(m.take(j), slots, page, im).len() + managed_ops(slots, page, im, m[j]).len()
            <= managed_plan(m, slots, page, im).len(),
        forall|t: int| 0 <= t < managed_ops(slots, page, im, m[j]).len() ==> managed_plan(m, slots, page, im)[
            managed_plan(m.take(j), slots, page, im).len() + t] == #[trigger] managed_ops(slots, page, im, m[j])[t],
{
    lemma_managed_plan_prefix(m, slots, page, im, j + 1);
    let b = m.take(j + 1);
    assert(b.drop_last() =~= m.take(j));
    assert(b.last() == m[j]);
    let a = managed_plan(m.take(j), slots, page, im);
    let ops = managed_ops(slots, page, im, m[j]);
    assert(managed_plan(b, slots, page, im) == a + ops);
    let p = managed_plan(m, slots, page, im);
    assert forall|t: int| 0 <= t < ops.len() implies p[a.len() + t] == #[trigger] ops[t] by {
        assert(p.take((a + ops).len() as int)[a.len() + t] == (a + ops)[a.len() + t]);
    }
}

/// Every operation of the managed part of the plan is one of the
/// operations on some managed window.
proof fn lemma_managed_plan_origin(m: Seq<ManagedWindow>, slots: Seq<SlotRect>, page: u8, im: ImView)
    ensures
        forall|k: int| 0 <= k < managed_plan(m, slots, page, im).len() ==> exists|j: int, t: int|
            0 <= j < m.len() && 0 <= t < managed_ops(slots, page, im, m[j]).len()
                && #[trigger] managed_plan(m, slots, page, im)[k] == managed_ops(slots, page, im, m[j])[t],
    decreases m.len(),
{
    if m.len() > 0 {
        let d = m.drop_last();
        lemma_managed_plan_origin(d, slots, page, im);
        let a = managed_plan(d, slots, page, im);
        let b = managed_ops(slots, page, im, m.last());
        let p = managed_plan(m, slots, page, im);
        assert forall|k: int| 0 <= k < p.len() implies exists|j: int, t: int|
            0 <= j < m.len() && 0 <= t < managed_ops(slots, page, im, m[j]).len()
                && #[trigger] p[k] == managed_ops(slots, page, im, m[j])[t] by {
            if k < a.len() {
                assert(p[k] == a[k]);
                let (j, t) = choose|j: int, t: int|
                    0 <= j < d.len() && 0 <= t < managed_ops(slots, page, im, d[j]).len()
                        && a[k] == managed_ops(slots, page, im, d[j])[t];
                assert(m[j] == d[j]);
            } else {
                assert(p[k] == b[k - a.len()]);
                assert(m[m.len() - 1] == m.last());
            }
        }
    }
}

/// On the page a managed window belongs to (the desktop page for desktop
/// windows, the messenger page in the matching view for messenger windows),
/// a layout of the shown shell shows it: some operation shows it, a desktop
/// window is shown on top and then kept always on top, and, when no other
/// managed or IDE window has its handle, nothing hides or parks it.
pub proof fn lemma_layout_shows_page_windows(st: AppState, live_custom: Option<usize>, j: int)
    requires
        0 <= j < st.managed@.len(),
        (st.managed@[j].kind == SlotKind::DesktopApp && st.current_page == 4)
            || ((st.managed@[j].kind == SlotKind::WeChat || st.managed@[j].kind == SlotKind::Qq)
            && st.current_page == 3 && st.im_view == ImView::Split)
            || (st.managed@[j].kind == SlotKind::WeCom && st.current_page == 3 && st.im_view == ImView::WeCom),
    ensures
        exists|k: int| 0 <= k < layout_plan(st, false, live_custom).len() && (#[trigger] layout_plan(st, false, live_custom)[k]
            == WinOp::Show(st.managed@[j].hwnd) || layout_plan(st, false, live_custom)[k] == WinOp::ShowTop(st.managed@[j].hwnd)),
        st.managed@[j].kind == SlotKind::DesktopApp ==> exists|k: int| 0 <= k && k + 1 < layout_plan(st, false, live_custom).len()
            && #[trigger] layout_plan(st, false, live_custom)[k] == WinOp::ShowTop(st.managed@[j].hwnd)
            && layout_plan(st, false, live_custom)[k + 1] == WinOp::Topmost(st.managed@[j].hwnd, true),
        (forall|j2: int| 0 <= j2 < st.managed@.len() && j2 != j ==> #[trigger] st.managed@[j2].hwnd != st.managed@[j].hwnd)
            && (forall|i: int| 0 <= i < st.ide_instances@.len() ==> #[trigger] st.ide_instances@[i].hwnd != st.managed@[j].hwnd)
            ==> forall|k: int| 0 <= k < layout_plan(st, false, live_custom).len() ==> #[trigger] layout_plan(st, false, live_custom)[k]
            != WinOp::Hide(st.managed@[j].hwnd) && layout_plan(st, false, live_custom)[k] != WinOp::Park(st.managed@[j].hwnd),
{
    let m = st.managed@;
    let w = m[j];
    let h = w.hwnd;
    let page = st.current_page;
    let im = st.im_view;
    let plan = layout_plan(st, false, live_custom);
    let z = zorder_ops(page, live_custom);
    let i = ide_plan(st.ide_instances@, page, st.ide_active, slot_rect(st.slots@, "ide"@));
    let mp = managed_plan(m, st.slots@, page, im);
    assert(plan == z + i + mp);
    let ops = managed_ops(st.slots@, page, im, w);
    assert(visible_on(w.kind, page, im, w.page));
    lemma_managed_block(m, st.slots@, page, im, j);
    let off: int = (z.len() + i.len() + managed_plan(m.take(j), st.slots@, page, im).len()) as int;
    assert(ops.len() >= 2);
    let s: int = ops.len() - 2;
    assert(ops[s] == WinOp::Show(h) || ops[s] == WinOp::ShowTop(h)) by {
        if w.kind == SlotKind::DesktopApp {
        } else if w.kind == SlotKind::WeChat || w.kind == SlotKind::Qq || w.kind == SlotKind::WeCom {
            let head: Seq<WinOp> = match slot_rect(st.slots@, im_base_name(w.kind)) {
                Some(r) => seq![WinOp::MoveOrigin(h, r.x, r.y)],
                None => Seq::empty(),
            };
            assert(ops == head + seq![WinOp::Show(h), WinOp::Topmost(h, true)]);
        }
    }
    assert(plan[off + s] == ops[s]);
    if w.kind == SlotKind::DesktopApp {
        assert(ops == seq![WinOp::ShowTop(h), WinOp::Topmost(h, true)]);
        assert(plan[off] == ops[0]);
        assert(plan[off + 1] == ops[1]);
    }
    if (forall|j2: int| 0 <= j2 < m.len() && j2 != j ==> #[trigger] m[j2].hwnd != h)
        && (forall|x: int| 0 <= x < st.ide_instances@.len() ==> #[trigger] st.ide_instances@[x].hwnd != h) {
        lemma_managed_plan_origin(m, st.slots@, page, im);
        lemma_ide_plan_targets(st.ide_instances@, page, st.ide_active, slot_rect(st.slots@, "ide"@));
        assert forall|k: int| 0 <= k < plan.len() implies #[trigger] plan[k] != WinOp::Hide(h) && plan[k]
            != WinOp::Park(h) by {
            if k < z.len() {
                assert(plan[k] == z[k]);
            } else if k < z.len() + i.len() {
                assert(plan[k] == i[k - z.len()]);
                if plan[k] == WinOp::Hide(h) || plan[k] == WinOp::Park(h) {
                    let x = choose|x: int| 0 <= x < st.ide_instances@.len() && op_target(i[k - z.len()]) == Some(st.ide_instances@[x].hwnd);
                    assert(st.ide_instances@[x].hwnd != h);
                }
            } else {
                let kk = k - z.len() - i.len();
                assert(plan[k] == mp[kk]);
                let (j2, t) = choose|j2: int, t: int|
                    0 <= j2 < m.len() && 0 <= t < managed_ops(st.slots@, page, im, m[j2]).len()
                        && mp[kk] == managed_ops(st.slots@, page, im, m[j2])[t];
                lemma_managed_ops_target(st.slots@, page, im, m[j2]);
                if plan[k] == WinOp::Hide(h) || plan[k] == WinOp::Park(h) {
                    assert(op_target(managed_ops(st.slots@, page, im, m[j2])[t]) == Some(m[j2].hwnd));
                    assert(m[j2].hwnd == h);
                    assert(j2 == j);
                    if w.kind == SlotKind::DesktopApp {
                        assert(ops == seq![WinOp::ShowTop(h), WinOp::Topmost(h, true)]);
                    } else {
                        let tail = seq![WinOp::Show(h), WinOp::Topmost(h, true)];
                        let head: Seq<WinOp> = match slot_rect(st.slots@, im_base_name(w.kind)) {
                            Some(r) => seq![WinOp::MoveOrigin(h, r.x, r.y)],
                            None => Seq::empty(),
                        };
                        assert(ops == head + tail);
                        if t < head.len() {
                            assert(ops[t] == head[t]);
                        } else {
                            assert(ops[t] == tail[t - head.len()]);
                        }
                    }
                }
            }
        }
    }
}

/// Off the page a managed window belongs to, a layout of the shown shell
/// puts it away (custom windows excepted): a desktop window loses always-on-top
/// and is hidden, any other is parked off-screen; and, when no other managed
/// or IDE window has its handle, nothing shows it.
pub proof fn lemma_layout_puts_away_other_windows(st: AppState, live_custom: Option<usize>, j: int)
    requires
        0 <= j < st.managed@.len(),
        st.managed@[j].kind != SlotKind::Custom,
        !((st.managed@[j].kind == SlotKind::DesktopApp && st.current_page == 4)
            || ((st.managed@[j].kind == SlotKind::WeChat || st.managed@[j].kind == SlotKind::Qq)
            && st.current_page == 3 && st.im_view == ImView::Split)
            || (st.managed@[j].kind == SlotKind::WeCom && st.current_page == 3 && st.im_view == ImView::WeCom)),
    ensures
        exists|k: int| 0 <= k < layout_plan(st, false, live_custom).len() && #[trigger] layout_plan(st, false, live_custom)[k]
            == (if st.managed@[j].kind == SlotKind::DesktopApp {
                WinOp::Hide(st.managed@[j].hwnd)
            } else {
                WinOp::Park(st.managed@[j].hwnd)
            }),
        (forall|j2: int| 0 <= j2 < st.managed@.len() && j2 != j ==> #[trigger] st.managed@[j2].hwnd != st.managed@[j].hwnd)
            && (forall|i: int| 0 <= i < st.ide_instances@.len() ==> #[trigger] st.ide_instances@[i].hwnd != st.managed@[j].hwnd)
            ==> forall|k: int| 0 <= k < layout_plan(st, false, live_custom).len() ==> #[trigger] layout_plan(st, false, live_custom)[k]
            != WinOp::Show(st.managed@[j].hwnd) && layout_plan(st, false, live_custom)[k] != WinOp::ShowTop(st.managed@[j].hwnd),
{
    let m = st.managed@;
    let w = m[j];
    let h = w.hwnd;
    let page = st.current_page;
    let im = st.im_view;
    let plan = layout_plan(st, false, live_custom);
    let z = zorder_ops(page, live_custom);
    let i = ide_plan(st.ide_instances@, page, st.ide_active, slot_rect(st.slots@, "ide"@));
    let mp = managed_plan(m, st.slots@, page, im);
    assert(plan == z + i + mp);
    let ops = managed_ops(st.slots@, page, im, w);
    assert(!visible_on(w.kind, page, im, w.page));
    lemma_managed_block(m, st.slots@, page, im, j);
    let off: int = (z.len() + i.len() + managed_plan(m.take(j), st.slots@, page, im).len()) as int;
    if w.kind == SlotKind::DesktopApp {
        assert(ops == seq![WinOp::Topmost(h, false), WinOp::Hide(h)]);
    } else {
        assert(ops == seq![WinOp::Topmost(h, false), WinOp::Park(h)]);
    }
    assert(plan[off + 1] == ops[1]);
    if (forall|j2: int| 0 <= j2 < m.len() && j2 != j ==> #[trigger] m[j2].hwnd != h)
        && (forall|x: int| 0 <= x < st.ide_instances@.len() ==> #[trigger] st.ide_instances@[x].hwnd != h) {
        lemma_managed_plan_origin(m, st.slots@, page, im);
        lemma_ide_plan_targets(st.ide_instances@, page, st.ide_active, slot_rect(st.slots@, "ide"@));
        assert forall|k: int| 0 <= k < plan.len() implies #[trigger] plan[k] != WinOp::Show(h) && plan[k]
            != WinOp::ShowTop(h) by {
            if k < z.len() {
                assert(plan[k] == z[k]);
            } else if k < z.len() + i.len() {
                assert(plan[k] == i[k - z.len()]);
                if plan[k] == WinOp::Show(h) || plan[k] == WinOp::ShowTop(h) {
                    let x = choose|x: int| 0 <= x < st.ide_instances@.len() && op_target(i[k - z.len()]) == Some(st.ide_instances@[x].hwnd);
                    assert(st.ide_instances@[x].hwnd != h);
                }
            } else {
                let kk = k - z.len() - i.len();
                assert(plan[k] == mp[kk]);
                let (j2, t) = choose|j2: int, t: int|
                    0 <= j2 < m.len() && 0 <= t < managed_ops(st.slots@, page, im, m[j2]).len()
                        && mp[kk] == managed_ops(st.slots@, page, im, m[j2])[t];
                lemma_managed_ops_target(st.slots@, page, im, m[j2]);
                if plan[k] == WinOp::Show(h) || plan[k] == WinOp::ShowTop(h) {
                    assert(op_target(managed_ops(st.slots@, page, im, m[j2])[t]) == Some(m[j2].hwnd));
                    assert(j2 == j);
                }
            }
        }
    }
}

/// A property of the windows that a window operation sets: a window's
/// position and size, whether it is shown, always on top or minimized,
/// whether one window is stacked above another (`None` stands for the
/// shell's main window), and which window is in the foreground.
pub enum WinProp {
    Position(usize),
    Size(usize),
    Shown(usize),
    OnTop(usize),
    Minimized(usize),
    Above(Option<usize>, Option<usize>),
    Foreground,
}

/// The value of a window property.
pub enum PropValue {
    Point(int, int),
    Flag(bool),
    Window(usize),
}

/// What raising `k` to the top of the stacking sets: `k` above every other
/// window, and no other window above `k`.
pub open spec fn raise_sets(k: Option<usize>, p: WinProp) -> Option<PropValue> {
    match p {
        WinProp::Above(a, b) => if a == k && b != k {
            Some(PropValue::Flag(true))
        } else if b == k && a != k {
            Some(PropValue::Flag(false))
        } else {
            None
        },
        _ => None,
    }
}

/// What pushing `k` to the bottom of the stacking sets: every other window
/// above `k`.
pub open spec fn lower_sets(k: Option<usize>, p: WinProp) -> Option<PropValue> {
    match p {
        WinProp::Above(a, b) => if a == k && b != k {
            Some(PropValue::Flag(false))
        } else if b == k && a != k {
            Some(PropValue::Flag(true))
        } else {
            None
        },
        _ => None,
    }
}

/// The value that performing `op` gives property `p`, or `None` when `op`
/// leaves `p` as it was. Moves (`MoveTo`, `MoveOrigin`), `ShowTop`,
/// `Topmost` and `Foreground` raise their window (`Topmost` to the top of
/// its band); `Park` moves the window to the off-screen point `park` and
/// pushes it to the bottom; `MainToBottom` moves the shell's main window.
pub open spec fn op_sets(op: WinOp, park: (int, int), p: WinProp) -> Option<PropValue> {
    match op {
        WinOp::MoveTo(h, r) => if p == WinProp::Position(h) {
            Some(PropValue::Point(r.x as int, r.y as int))
        } else if p == WinProp::Size(h) {
            Some(PropValue::Point(r.w as int, r.h as int))
        } else {
            raise_sets(Some(h), p)
        },
        WinOp::MoveOrigin(h, x, y) => if p == WinProp::Position(h) {
            Some(PropValue::Point(x as int, y as int))
        } else {
            raise_sets(Some(h), p)
        },
        WinOp::Show(h) => if p == WinProp::Shown(h) { Some(PropValue::Flag(true)) } else { None },
        WinOp::ShowTop(h) => if p == WinProp::Shown(h) {
            Some(PropValue::Flag(true))
        } else {
            raise_sets(Some(h), p)
        },
        WinOp::Topmost(h, on) => if p == WinProp::OnTop(h) {
            Some(PropValue::Flag(on))
        } else {
            raise_sets(Some(h), p)
        },
        WinOp::Park(h) => if p == WinProp::Position(h) {
            Some(PropValue::Point(park.0, park.1))
        } else {
            lower_sets(Some(h), p)
        },
        WinOp::Hide(h) => if p == WinProp::Shown(h) { Some(PropValue::Flag(false)) } else { None },
        WinOp::Restore(h) => if p == WinProp::Minimized(h) {
            Some(PropValue::Flag(false))
        } else if p == WinProp::Shown(h) {
            Some(PropValue::Flag(true))
        } else {
            None
        },
        WinOp::Foreground(h) => if p == WinProp::Foreground {
            Some(PropValue::Window(h))
        } else {
            raise_sets(Some(h), p)
        },
        WinOp::MainToBottom(bottom) => if bottom { lower_sets(None, p) } else { raise_sets(None, p) },
    }
}

/// The windows after performing `op` on windows `d`.
pub open spec fn apply_op(d: spec_fn(WinProp) -> PropValue, op: WinOp, park: (int, int)) -> spec_fn(WinProp) -> PropValue {
    |p: WinProp| match op_sets(op, park, p) {
        Some(v) => v,
        None => d(p),
    }
}

/// The windows after performing `ops` in order on windows `d`.
pub open spec fn apply_ops(d: spec_fn(WinProp) -> PropValue, ops: Seq<WinOp>, park: (int, int)) -> spec_fn(WinProp) -> PropValue
    decreases ops.len(),
{
    if ops.len() == 0 {
        d
    } else {
        apply_op(apply_ops(d, ops.drop_last(), park), ops.last(), park)
    }
}

/// The value the last operation of `ops` that sets `p` gives it.
pub open spec fn last_set(ops: Seq<WinOp>, park: (int, int), p: WinProp) -> Option<PropValue>
    decreases ops.len(),
{
    if ops.len() == 0 {
        None
    } else {
        match op_sets(ops.last(), park, p) {
            Some(v) => Some(v),
            None => last_set(ops.drop_last(), park, p),
        }
    }
}

proof fn lemma_apply_ops_last_set(d: spec_fn(WinProp) -> PropValue, ops: Seq<WinOp>, park: (int, int), p: WinProp)
    ensures
        apply_ops(d, ops, park)(p) == match last_set(ops, park, p) {
            Some(v) => v,
            None => d(p),
        },
    decreases ops.len(),
{
    if ops.len() > 0 {
        lemma_apply_ops_last_set(d, ops.drop_last(), park, p);
    }
}

/// Performing a list of window operations twice leaves the windows as
/// performing it once: every operation only sets properties to values of
/// its own.
pub proof fn lemma_ops_twice_is_once(d: spec_fn(WinProp) -> PropValue, ops: Seq<WinOp>, park: (int, int))
    ensures
        apply_ops(apply_ops(d, ops, park), ops, park) == apply_ops(d, ops, park),
{
    let once = apply_ops(d, ops, park);
    assert forall|p: WinProp| #[trigger] apply_ops(once, ops, park)(p) == once(p) by {
        lemma_apply_ops_last_set(d, ops, park, p);
        lemma_apply_ops_last_set(once, ops, park, p);
    }
    assert(apply_ops(once, ops, park) =~= once);
}

/// Laying out is safe to repeat: for the same state and the same observed
/// windows, performing the layout twice leaves every window (position,
/// size, shown, always on top, minimized, stacking, foreground) as
/// performing it once.
pub proof fn lemma_layout_twice_is_once(
    st: AppState,
    main_minimized: bool,
    live_custom: Option<usize>,
    d: spec_fn(WinProp) -> PropValue,
    park: (int, int),
)
    ensures
        apply_ops(
            apply_ops(d, layout_plan(st, main_minimized, live_custom), park),
            layout_plan(st, main_minimized, live_custom),
            park,
        ) == apply_ops(d, layout_plan(st, main_minimized, live_custom), park),
{
    lemma_ops_twice_is_once(d, layout_plan(st, main_minimized, live_custom), park);
}

} // verus!
