//! Slot rectangles and the external windows placed in slots: frontend
//! reports, messenger and desktop-page windows, lookups by slot, pruning of
//! windows that are gone, and the lists of windows to hide or release.

use vstd::prelude::*;
use crate::keyed::{
    ManagedView, SlotView, find_managed, find_slot, find_im_path, im_path_index, im_path_upsert,
    lemma_im_path_index, lemma_managed_index, lemma_managed_upsert_view, lemma_slot_index,
    lemma_slot_upsert_view, managed_index, mview_upsert, mviews, remove_at, slot_index,
    slot_upsert, sview_upsert, sviews, upsert_im_path, upsert_managed, upsert_slot,
};
use crate::seqs::{kept, lemma_kept_unique, retain_kept};
use crate::state::{
    AppState, ImPath, ImView, ManagedWindow, Rect, SlotKind, SlotRect, managed_slots_unique,
    slot_ids_unique,
};
use crate::text::{decimal, push_decimal};
use vstd::relations::injective_on;
use vstd::set_lib::{lemma_int_range, lemma_len_subset, lemma_map_size, set_int_range};

verus! {

/// The messaging page.
pub const IM_PAGE: u8 = 3;

/// The desktop page.
pub const DESKTOP_PAGE: u8 = 4;

/// A window shown in the desktop page's taskbar.
#[derive(Debug)]
pub struct DesktopWin {
    pub slot: String,
    pub title: String,
}

/// One frontend report applied to the slot list: an entry whose rectangle
/// and page are unchanged is left alone, anything else is stored.
pub open spec fn report_step(s: Seq<SlotRect>, r: SlotRect) -> Seq<SlotRect> {
    if report_changes(s, r) { slot_upsert(s, r) } else { s }
}

/// Whether a report differs from what is stored for its slot id.
pub open spec fn report_changes(s: Seq<SlotRect>, r: SlotRect) -> bool {
    let i = slot_index(s, r.id@);
    !(i >= 0 && s[i].rect == r.rect && s[i].page == r.page)
}

/// The slot list after applying the reports in order.
pub open spec fn report_all(s: Seq<SlotRect>, rects: Seq<SlotRect>) -> Seq<SlotRect>
    decreases rects.len(),
{
    if rects.len() == 0 {
        s
    } else {
        report_step(report_all(s, rects.drop_last()), rects.last())
    }
}

/// Whether any of the reports changed the slot list.
pub open spec fn report_any_change(s: Seq<SlotRect>, rects: Seq<SlotRect>) -> bool
    decreases rects.len(),
{
    if rects.len() == 0 {
        false
    } else {
        report_any_change(s, rects.drop_last()) || report_changes(
            report_all(s, rects.drop_last()),
            rects.last(),
        )
    }
}

/// Reports that name the same slot id agree on its rectangle and page.
pub open spec fn reports_consistent(rects: Seq<SlotRect>) -> bool {
    forall|i: int, j: int|
        0 <= i < rects.len() && 0 <= j < rects.len() && #[trigger] rects[i].id@ == #[trigger] rects[j].id@
            ==> rects[i].rect == rects[j].rect && rects[i].page == rects[j].page
}

/// Every report is already stored: the slot list holds each report's
/// rectangle and page under its id.
pub open spec fn reports_stored(s: Seq<SlotRect>, rects: Seq<SlotRect>) -> bool {
    forall|k: int|
        0 <= k < rects.len() ==> !report_changes(s, #[trigger] rects[k])
}

proof fn lemma_slot_index_at(s: Seq<SlotRect>, k: Seq<char>, j: int)
    requires
        0 <= j < s.len(),
        s[j].id@ == k,
        forall|i: int| j < i < s.len() ==> s[i].id@ != k,
    ensures
        slot_index(s, k) == j,
    decreases s.len(),
{
    if j < s.len() - 1 {
        lemma_slot_index_at(s.drop_last(), k, j);
    }
}

proof fn lemma_slot_index_is_last(s: Seq<SlotRect>, k: Seq<char>)
    ensures
        slot_index(s, k) >= 0 ==> forall|j: int| slot_index(s, k) < j < s.len() ==> s[j].id@ != k,
    decreases s.len(),
{
    if s.len() > 0 && s.last().id@ != k {
        lemma_slot_index_is_last(s.drop_last(), k);
        assert forall|j: int| 0 <= j < s.len() - 1 implies s[j] == s.drop_last()[j] by {}
    }
}

/// After a report is stored, it is stored, and a report for another slot
/// id that was stored stays stored.
proof fn lemma_report_step_stores(s: Seq<SlotRect>, r: SlotRect, x: SlotRect)
    requires
        x.id@ == r.id@ ==> x.rect == r.rect && x.page == r.page,
        x.id@ != r.id@ ==> !report_changes(s, x),
    ensures
        !report_changes(report_step(s, r), x),
{
    let t = report_step(s, r);
    lemma_slot_index(s, r.id@);
    lemma_slot_index(s, x.id@);
    lemma_slot_index_is_last(s, r.id@);
    lemma_slot_index_is_last(s, x.id@);
    if report_changes(s, r) {
        let i = slot_index(s, r.id@);
        if x.id@ == r.id@ {
            if i >= 0 {
                assert forall|j: int| i < j < t.len() implies t[j].id@ != x.id@ by {
                    assert(t[j] == s[j]);
                }
                lemma_slot_index_at(t, x.id@, i);
            } else {
                lemma_slot_index_at(t, x.id@, t.len() - 1);
            }
        } else {
            let j = slot_index(s, x.id@);
            assert(t[j] == s[j]);
            assert forall|m: int| j < m < t.len() implies t[m].id@ != x.id@ by {
                if m < s.len() && m != i {
                    assert(t[m] == s[m]);
                }
            }
            lemma_slot_index_at(t, x.id@, j);
        }
    }
}

proof fn lemma_report_all_stores(s: Seq<SlotRect>, rects: Seq<SlotRect>)
    requires
        reports_consistent(rects),
    ensures
        reports_stored(report_all(s, rects), rects),
    decreases rects.len(),
{
    if rects.len() > 0 {
        let p = rects.drop_last();
        let r = rects.last();
        assert(reports_consistent(p)) by {
            assert forall|i: int, j: int|
                0 <= i < p.len() && 0 <= j < p.len() && #[trigger] p[i].id@ == #[trigger] p[j].id@ implies p[i].rect
                == p[j].rect && p[i].page == p[j].page by {
                assert(p[i] == rects[i] && p[j] == rects[j]);
            }
        }
        lemma_report_all_stores(s, p);
        assert forall|k: int| 0 <= k < rects.len() implies !report_changes(
            report_all(s, rects),
            #[trigger] rects[k],
        ) by {
            if k < p.len() {
                assert(rects[k] == p[k]);
                assert(rects[k].id@ == r.id@ ==> rects[k].rect == r.rect && rects[k].page == r.page) by {
                    assert(rects[rects.len() - 1] == r);
                }
            }
            lemma_report_step_stores(report_all(s, p), r, rects[k]);
        }
    }
}

proof fn lemma_report_stored_fixed(s: Seq<SlotRect>, rects: Seq<SlotRect>)
    requires
        reports_stored(s, rects),
    ensures
        report_all(s, rects) == s,
        !report_any_change(s, rects),
    decreases rects.len(),
{
    if rects.len() > 0 {
        let p = rects.drop_last();
        assert(reports_stored(s, p)) by {
            assert forall|k: int| 0 <= k < p.len() implies !report_changes(s, #[trigger] p[k]) by {
                assert(p[k] == rects[k]);
            }
        }
        lemma_report_stored_fixed(s, p);
        assert(!report_changes(s, rects[rects.len() - 1]));
    }
}

/// Reporting the same rectangles twice: the second report changes nothing
/// and says so (as long as reports naming one slot agree with each other).
pub proof fn lemma_report_twice(s: Seq<SlotRect>, rects: Seq<SlotRect>)
    requires
        reports_consistent(rects),
    ensures
        report_all(report_all(s, rects), rects) == report_all(s, rects),
        !report_any_change(report_all(s, rects), rects),
{
    lemma_report_all_stores(s, rects);
    lemma_report_stored_fixed(report_all(s, rects), rects);
}

/// The messenger paths after storing `paths` one after another.
pub open spec fn im_paths_stored(s: Seq<ImPath>, paths: Seq<ImPath>) -> Seq<ImPath>
    decreases paths.len(),
{
    if paths.len() == 0 {
        s
    } else {
        im_path_upsert(im_paths_stored(s, paths.drop_last()), paths.last())
    }
}

/// Pruning dead windows never drops a custom window, even one whose window
/// is gone for the moment: its application may create it again.
pub proof fn lemma_prune_keeps_custom(m: Seq<ManagedWindow>, alive: Seq<bool>, j: int)
    requires
        alive.len() == m.len(),
        0 <= j < m.len(),
        m[j].kind == SlotKind::Custom,
    ensures
        kept(m, keep_alive_or_custom(m, alive)).contains(m[j]),
{
    crate::seqs::lemma_kept_contains(m, keep_alive_or_custom(m, alive), j);
}

/// A slot name made of a base and an index, such as `wechat-0`.
pub open spec fn indexed_slot_name(base: Seq<char>, idx: nat) -> Seq<char> {
    base + "-"@ + decimal(idx)
}

/// The slot name of the `seq`-th desktop window.
pub open spec fn desktop_slot_name(seq: u32) -> Seq<char> {
    "desktop-"@ + decimal(seq as nat)
}

/// The message for a slot that holds no managed window.
pub open spec fn no_window_error(slot: Seq<char>) -> Seq<char> {
    "no managed window in slot "@ + slot
}

/// Number of managed windows of kind `kind`.
pub open spec fn count_kind(m: Seq<ManagedView>, kind: SlotKind) -> nat
    decreases m.len(),
{
    if m.len() == 0 {
        0
    } else {
        count_kind(m.drop_last(), kind) + if m.last().kind == kind { 1nat } else { 0nat }
    }
}

/// Whether some managed window has handle `h`.
pub open spec fn has_hwnd(m: Seq<ManagedView>, h: usize) -> bool {
    exists|j: int| 0 <= j < m.len() && m[j].hwnd == h
}

/// The handles of the managed windows, in order.
pub open spec fn hwnds_of(m: Seq<ManagedView>) -> Seq<usize> {
    m.map_values(|w: ManagedView| w.hwnd)
}

/// The first index `j` from `n` on (looking at most `k` further) whose slot
/// name `base-j` no managed window uses.
pub open spec fn free_slot_index(m: Seq<ManagedView>, base: Seq<char>, n: nat, k: nat) -> nat
    decreases k,
{
    if k == 0 || crate::keyed::mview_index(m, indexed_slot_name(base, n)) < 0 {
        n
    } else {
        free_slot_index(m, base, n + 1, (k - 1) as nat)
    }
}

/// The first index from `n` on whose slot name is free (one always is within
/// `m.len()` steps).
pub open spec fn next_free(m: Seq<ManagedView>, base: Seq<char>, n: nat) -> nat {
    free_slot_index(m, base, n, m.len())
}

/// The slot a new messenger window of `kind` gets: `base-j` for the first
/// `j`, from the number of windows of that kind on, that no window uses.
pub open spec fn new_im_slot(m: Seq<ManagedView>, kind: SlotKind, base: Seq<char>) -> Seq<char> {
    indexed_slot_name(base, next_free(m, base, count_kind(m, kind)))
}

/// The state of messenger registration: windows and first new window (0
/// until one is added).
pub struct ImFold {
    pub managed: Seq<ManagedView>,
    pub first: usize,
}

/// Messenger windows registered one after another: a window already
/// managed is skipped, any other is added on the messaging page in a new
/// slot (`new_im_slot`), so no embedded window is displaced.
pub open spec fn im_register(
    m: Seq<ManagedView>,
    hwnds: Seq<usize>,
    kind: SlotKind,
    base: Seq<char>,
) -> ImFold
    decreases hwnds.len(),
{
    if hwnds.len() == 0 {
        ImFold { managed: m, first: 0 }
    } else {
        let prev = im_register(m, hwnds.drop_last(), kind, base);
        let h = hwnds.last();
        if has_hwnd(prev.managed, h) {
            prev
        } else {
            ImFold {
                managed: prev.managed.push(
                    ManagedView { hwnd: h, slot: new_im_slot(prev.managed, kind, base), page: IM_PAGE, kind },
                ),
                first: if prev.first == 0 { h } else { prev.first },
            }
        }
    }
}

/// Messenger windows found later registered one after another: windows
/// managed before the pass (`known`) are skipped, any other is added in a
/// new slot (`new_im_slot`).
pub open spec fn im_discover(
    m: Seq<ManagedView>,
    known: Seq<usize>,
    hwnds: Seq<usize>,
    kind: SlotKind,
    base: Seq<char>,
) -> Seq<ManagedView>
    decreases hwnds.len(),
{
    if hwnds.len() == 0 {
        m
    } else {
        let pm = im_discover(m, known, hwnds.drop_last(), kind, base);
        let h = hwnds.last();
        if known.contains(h) {
            pm
        } else {
            pm.push(ManagedView { hwnd: h, slot: new_im_slot(pm, kind, base), page: IM_PAGE, kind })
        }
    }
}

/// The cascade position of the `count`-th desktop window in a client area
/// of size `cw` x `ch`: offset by 40 pixels per window modulo 240, three
/// fifths of the width (at least 320) and four fifths of the height (at
/// least 240).
pub open spec fn cascade_rect(count: int, cw: int, ch: int) -> Rect {
    let off = (40 * count) % 240;
    let w = cw * 3 / 5;
    let h = ch * 4 / 5;
    Rect {
        x: off as i32,
        y: off as i32,
        w: (if w > 320 { w } else { 320 }) as i32,
        h: (if h > 240 { h } else { 240 }) as i32,
    }
}

/// The client area assumed when the main window's is unknown.
pub open spec fn default_client() -> Rect {
    Rect { x: 0, y: 0, w: 1280, h: 800 }
}

/// Whether the cascade arithmetic on the client size (three times the width,
/// four times the height) stays within `i32`.
pub open spec fn client_fits(c: Rect) -> bool {
    i32::MIN <= 3 * c.w <= i32::MAX && i32::MIN <= 4 * c.h <= i32::MAX
}

/// Keep flags for pruning: custom windows stay, others stay while alive.
pub open spec fn keep_alive_or_custom(m: Seq<ManagedWindow>, alive: Seq<bool>) -> Seq<bool> {
    Seq::new(m.len(), |j: int| m[j].kind == SlotKind::Custom || alive[j])
}

/// Slot names of the managed windows that are gone (custom ones excepted).
pub open spec fn dead_slots(m: Seq<ManagedWindow>, alive: Seq<bool>) -> Seq<Seq<char>>
    decreases m.len(),
{
    if m.len() == 0 {
        Seq::empty()
    } else {
        let rest = dead_slots(m.drop_last(), alive.take(m.len() - 1));
        if m.last().kind != SlotKind::Custom && !alive[m.len() - 1] {
            rest.push(m.last().slot@)
        } else {
            rest
        }
    }
}

/// Slot rectangles with the given ids removed.
pub open spec fn without_slots(s: Seq<SlotRect>, ids: Seq<Seq<char>>) -> Seq<SlotRect>
    decreases ids.len(),
{
    if ids.len() == 0 {
        s
    } else {
        let t = without_slots(s, ids.drop_last());
        remove_at(t, slot_index(t, ids.last()))
    }
}

/// The windows hidden when a modal dialog opens: every managed window that
/// is not a custom one, then every IDE window.
pub open spec fn hide_all_list(m: Seq<ManagedWindow>, ide: Seq<usize>) -> Seq<usize>
    decreases m.len(),
{
    if m.len() == 0 {
        ide
    } else {
        let rest = hide_all_list(m.drop_first(), ide);
        if m[0].kind == SlotKind::Custom { rest } else { seq![m[0].hwnd] + rest }
    }
}

/// The windows hidden under a modal dialog are exactly the managed windows
/// that are not custom ones and the IDE windows: each of those is in the
/// list, and every entry of the list is one of them.
pub proof fn lemma_hide_all_covers(m: Seq<ManagedWindow>, ide: Seq<usize>)
    ensures
        forall|j: int| 0 <= j < m.len() && m[j].kind != SlotKind::Custom ==> hide_all_list(m, ide).contains(
            #[trigger] m[j].hwnd,
        ),
        forall|i: int| 0 <= i < ide.len() ==> hide_all_list(m, ide).contains(#[trigger] ide[i]),
        forall|x: usize| #[trigger] hide_all_list(m, ide).contains(x) ==> ide.contains(x) || exists|j: int|
            0 <= j < m.len() && m[j].kind != SlotKind::Custom && m[j].hwnd == x,
    decreases m.len(),
{
    let l = hide_all_list(m, ide);
    if m.len() == 0 {
        assert forall|i: int| 0 <= i < ide.len() implies l.contains(#[trigger] ide[i]) by {
            assert(l[i] == ide[i]);
        }
    } else {
        let d = m.drop_first();
        lemma_hide_all_covers(d, ide);
        let rest = hide_all_list(d, ide);
        assert forall|x: usize| rest.contains(x) implies l.contains(x) by {
            let k = choose|k: int| 0 <= k < rest.len() && rest[k] == x;
            if m[0].kind != SlotKind::Custom {
                assert(l[k + 1] == x);
            }
        }
        assert forall|j: int| 0 <= j < m.len() && m[j].kind != SlotKind::Custom implies l.contains(#[trigger] m[j].hwnd) by {
            if j == 0 {
                assert(l[0] == m[0].hwnd);
            } else {
                assert(d[j - 1] == m[j]);
                assert(rest.contains(d[j - 1].hwnd));
            }
        }
        assert forall|i: int| 0 <= i < ide.len() implies l.contains(#[trigger] ide[i]) by {
            assert(rest.contains(ide[i]));
        }
        assert forall|x: usize| #[trigger] l.contains(x) implies ide.contains(x) || exists|j: int|
            0 <= j < m.len() && m[j].kind != SlotKind::Custom && m[j].hwnd == x by {
            let k = choose|k: int| 0 <= k < l.len() && l[k] == x;
            if m[0].kind != SlotKind::Custom && k == 0 {
                assert(m[0].hwnd == x);
            } else {
                let kk = if m[0].kind != SlotKind::Custom { k - 1 } else { k };
                assert(rest[kk] == x);
                assert(rest.contains(x));
                if !ide.contains(x) {
                    let j = choose|j: int| 0 <= j < d.len() && d[j].kind != SlotKind::Custom && d[j].hwnd == x;
                    assert(m[j + 1] == d[j]);
                }
            }
        }
    }
}

/// Whether some managed window with handle `h` is a custom one.
pub open spec fn hwnd_is_custom(m: Seq<ManagedWindow>, h: usize) -> bool {
    exists|j: int| 0 <= j < m.len() && m[j].hwnd == h && m[j].kind == SlotKind::Custom
}

/// One window to hand back to the desktop on exit, and whether only the
/// gentle release (no style changes) may be used on it.
#[derive(Clone, Copy, Debug, PartialEq, Eq, Structural)]
pub struct Release {
    pub hwnd: usize,
    pub gentle: bool,
}

/// The releases on exit: every managed window (gently when it is a custom
/// one), every IDE window, then every custom-page instance (gently).
pub open spec fn release_all_list(
    m: Seq<ManagedWindow>,
    ide: Seq<usize>,
    custom: Seq<usize>,
) -> Seq<Release> {
    Seq::new(m.len(), |j: int| Release { hwnd: m[j].hwnd, gentle: hwnd_is_custom(m, m[j].hwnd) })
        + Seq::new(ide.len(), |j: int| Release { hwnd: ide[j], gentle: false })
        + Seq::new(custom.len(), |j: int| Release { hwnd: custom[j], gentle: true })
}

/// Every embedded custom-page instance, page by page.
pub open spec fn all_instances(s: Seq<crate::state::CustomInstances>) -> Seq<usize>
    decreases s.len(),
{
    if s.len() == 0 {
        Seq::empty()
    } else {
        all_instances(s.drop_last()) + s.last().hwnds@
    }
}

/// The lowercased executable file names of the custom pages (pages whose
/// executable has no file name contribute nothing).
pub open spec fn custom_exe_list(pages: Seq<crate::state::CustomPage>) -> Seq<Seq<char>>
    decreases pages.len(),
{
    if pages.len() == 0 {
        Seq::empty()
    } else {
        let rest = custom_exe_list(pages.drop_last());
        match crate::text::spec_file_name(pages.last().exe@) {
            Some(n) => rest.push(crate::text::lowercase(n)),
            None => rest,
        }
    }
}

/// A copy of a managed window.
pub fn copy_managed(w: &ManagedWindow) -> (r: ManagedWindow)
    ensures
        r == *w,
{
    ManagedWindow { hwnd: w.hwnd, slot: w.slot.clone(), page: w.page, kind: w.kind }
}

/// The slot name `base-idx`.
/// The free slot name from index `start` on, with its index.
fn free_slot(m: &Vec<ManagedWindow>, base: &String, start: usize) -> (r: (usize, String))
    requires
        start + m@.len() <= usize::MAX,
    ensures
        r.0 == next_free(mviews(m@), base@, start as nat),
        r.1@ == indexed_slot_name(base@, r.0 as nat),
{
    let ghost mv = mviews(m@);
    let n = m.len();
    let mut j = start;
    proof {
        lemma_next_free(mv, base@, start as nat);
    }
    loop
        invariant
            mv == mviews(m@),
            n == m@.len(),
            start + n <= usize::MAX,
            start <= j <= start + n,
            next_free(mv, base@, start as nat) == free_slot_index(mv, base@, j as nat, (n - (j - start)) as nat),
            crate::keyed::mview_index(mv, indexed_slot_name(base@, next_free(mv, base@, start as nat))) < 0,
        decreases start + n - j,
    {
        let name = indexed_slot(base, j);
        proof {
            crate::keyed::lemma_mview_index(m@, name@);
            crate::keyed::lemma_managed_index(m@, name@);
            lemma_free_slot_index(mv, base@, j as nat, (n - (j - start)) as nat);
        }
        match find_managed(m, &name) {
            None => {
                return (j, name);
            },
            Some(_) => {
                proof {
                    if j == start + n {
                        assert(free_slot_index(mv, base@, j as nat, 0) == j);
                    }
                }
                j = j + 1;
            },
        }
    }
}

pub fn indexed_slot(base: &String, idx: usize) -> (s: String)
    ensures
        s@ == indexed_slot_name(base@, idx as nat),
{
    let mut s = base.clone();
    s.append("-");
    push_decimal(&mut s, idx as u64);
    proof {
        reveal_strlit("-");
        assert(s@ =~= indexed_slot_name(base@, idx as nat));
    }
    s
}

/// The cascade rectangle of the `count`-th desktop window.
pub fn desktop_cascade_rect(count: usize, client: Option<Rect>) -> (r: Rect)
    requires
        40 * count <= i32::MAX,
        client matches Some(c) ==> client_fits(c),
    ensures
        ({
            let c = match client {
                Some(c) => c,
                None => default_client(),
            };
            r == cascade_rect(count as int, c.w as int, c.h as int)
        }),
{
    let c = match client {
        Some(c) => c,
        None => Rect { x: 0, y: 0, w: 1280, h: 800 },
    };
    let n = count as i32;
    let off = (40 * n) % 240;
    let w = if c.w > 0 { c.w * 3 / 5 } else { 0 };
    let h = if c.h > 0 { c.h * 4 / 5 } else { 0 };
    Rect { x: off, y: off, w: if w > 320 { w } else { 320 }, h: if h > 240 { h } else { 240 } }
}

proof fn lemma_count_kind_bound(m: Seq<ManagedView>, kind: SlotKind)
    ensures
        count_kind(m, kind) <= m.len(),
    decreases m.len(),
{
    if m.len() > 0 {
        lemma_count_kind_bound(m.drop_last(), kind);
    }
}

proof fn lemma_mview_index_bound(m: Seq<ManagedView>, k: Seq<char>)
    ensures
        -1 <= crate::keyed::mview_index(m, k) < m.len(),
    decreases m.len(),
{
    if m.len() > 0 {
        lemma_mview_index_bound(m.drop_last(), k);
    }
}

proof fn lemma_mview_index_found(m: Seq<ManagedView>, k: Seq<char>)
    ensures
        -1 <= crate::keyed::mview_index(m, k) < m.len(),
        crate::keyed::mview_index(m, k) >= 0 ==> m[crate::keyed::mview_index(m, k)].slot == k,
        crate::keyed::mview_index(m, k) < 0 ==> forall|j: int| 0 <= j < m.len() ==> m[j].slot != k,
    decreases m.len(),
{
    if m.len() > 0 && m.last().slot != k {
        lemma_mview_index_found(m.drop_last(), k);
        assert forall|j: int| 0 <= j < m.len() - 1 implies m[j] == m.drop_last()[j] by {}
    }
}

/// Slot names with distinct indices are distinct.
proof fn lemma_indexed_slot_injective(base: Seq<char>, a: nat, b: nat)
    requires
        indexed_slot_name(base, a) == indexed_slot_name(base, b),
    ensures
        a == b,
{
    let p = base + "-"@;
    assert((p + decimal(a)).skip(p.len() as int) =~= decimal(a));
    assert((p + decimal(b)).skip(p.len() as int) =~= decimal(b));
    crate::text::lemma_decimal_injective(a, b);
}

/// Not all of the `m.len() + 1` slot names from `n` on can be in use.
proof fn lemma_some_name_free(m: Seq<ManagedView>, base: Seq<char>, n: nat)
    ensures
        exists|j: int| n <= j <= n + m.len() && crate::keyed::mview_index(
            m,
            #[trigger] indexed_slot_name(base, j as nat),
        ) < 0,
{
    if forall|j: int| n <= j <= n + m.len() ==> crate::keyed::mview_index(
        m,
        #[trigger] indexed_slot_name(base, j as nat),
    ) >= 0 {
        lemma_all_names_used_impossible(m, base, n);
    }
}

proof fn lemma_all_names_used_impossible(m: Seq<ManagedView>, base: Seq<char>, n: nat)
    requires
        forall|j: int| n <= j <= n + m.len() ==> crate::keyed::mview_index(
            m,
            #[trigger] indexed_slot_name(base, j as nat),
        ) >= 0,
    ensures
        n > n + m.len(),
{
    let x = set_int_range(n as int, (n + m.len() + 1) as int);
    let f = |j: int| crate::keyed::mview_index(m, indexed_slot_name(base, j as nat));
    let y = x.map(f);
    let r = set_int_range(0, m.len() as int);
    lemma_int_range(n as int, (n + m.len() + 1) as int);
    lemma_int_range(0, m.len() as int);
    assert(injective_on(f, x)) by {
        assert forall|x1: int, x2: int| x.contains(x1) && x.contains(x2) && #[trigger] f(x1) == #[trigger] f(x2) implies x1
            == x2 by {
            assert(crate::keyed::mview_index(m, indexed_slot_name(base, x1 as nat)) >= 0);
            assert(crate::keyed::mview_index(m, indexed_slot_name(base, x2 as nat)) >= 0);
            lemma_mview_index_found(m, indexed_slot_name(base, x1 as nat));
            lemma_mview_index_found(m, indexed_slot_name(base, x2 as nat));
            lemma_indexed_slot_injective(base, x1 as nat, x2 as nat);
        }
    }
    lemma_map_size(x, y, f);
    assert(y.subset_of(r)) by {
        assert forall|e: int| y.contains(e) implies r.contains(e) by {
            let j = choose|j: int| x.contains(j) && e == f(j);
            assert(crate::keyed::mview_index(m, indexed_slot_name(base, j as nat)) >= 0);
            lemma_mview_index_found(m, indexed_slot_name(base, j as nat));
        }
    }
    lemma_len_subset(y, r);
}

proof fn lemma_free_slot_index(m: Seq<ManagedView>, base: Seq<char>, n: nat, k: nat)
    ensures
        n <= free_slot_index(m, base, n, k) <= n + k,
        crate::keyed::mview_index(m, indexed_slot_name(base, free_slot_index(m, base, n, k))) < 0 || (
        free_slot_index(m, base, n, k) == n + k && forall|j: int|
            n <= j <= n + k ==> crate::keyed::mview_index(m, #[trigger] indexed_slot_name(base, j as nat))
                >= 0),
    decreases k,
{
    if k > 0 && crate::keyed::mview_index(m, indexed_slot_name(base, n)) >= 0 {
        lemma_free_slot_index(m, base, n + 1, (k - 1) as nat);
    }
}

/// The next free index is within `m.len()` of `n` and its name is unused.
proof fn lemma_next_free(m: Seq<ManagedView>, base: Seq<char>, n: nat)
    ensures
        n <= next_free(m, base, n) <= n + m.len(),
        crate::keyed::mview_index(m, indexed_slot_name(base, next_free(m, base, n))) < 0,
{
    lemma_free_slot_index(m, base, n, m.len());
    if crate::keyed::mview_index(m, indexed_slot_name(base, next_free(m, base, n))) >= 0 {
        lemma_some_name_free(m, base, n);
        let j = choose|j: int| n <= j <= n + m.len() && crate::keyed::mview_index(
            m,
            #[trigger] indexed_slot_name(base, j as nat),
        ) < 0;
    }
}

proof fn lemma_im_register_bound(m: Seq<ManagedView>, hwnds: Seq<usize>, kind: SlotKind, base: Seq<char>)
    ensures
        m.len() <= im_register(m, hwnds, kind, base).managed.len() <= m.len() + hwnds.len(),
        im_register(m, hwnds, kind, base).managed.take(m.len() as int) == m,
    decreases hwnds.len(),
{
    if hwnds.len() == 0 {
        assert(m.take(m.len() as int) =~= m);
    } else {
        lemma_im_register_bound(m, hwnds.drop_last(), kind, base);
        let prev = im_register(m, hwnds.drop_last(), kind, base);
        let cur = im_register(m, hwnds, kind, base);
        if !has_hwnd(prev.managed, hwnds.last()) {
            assert(cur.managed.take(m.len() as int) =~= prev.managed.take(m.len() as int));
        }
    }
}

proof fn lemma_im_discover_bound(
    m: Seq<ManagedView>,
    known: Seq<usize>,
    hwnds: Seq<usize>,
    kind: SlotKind,
    base: Seq<char>,
)
    ensures
        m.len() <= im_discover(m, known, hwnds, kind, base).len() <= m.len() + hwnds.len(),
        im_discover(m, known, hwnds, kind, base).take(m.len() as int) == m,
    decreases hwnds.len(),
{
    if hwnds.len() == 0 {
        assert(m.take(m.len() as int) =~= m);
    } else {
        lemma_im_discover_bound(m, known, hwnds.drop_last(), kind, base);
        let pm = im_discover(m, known, hwnds.drop_last(), kind, base);
        if !known.contains(hwnds.last()) {
            assert(im_discover(m, known, hwnds, kind, base).take(m.len() as int) =~= pm.take(m.len() as int));
        }
    }
}

impl AppState {
    /// Applies the frontend's slot rectangle reports in order; returns whether
    /// any rectangle or page changed (only then is the layout re-applied).
    pub fn report_slot_rects(&mut self, rects: Vec<SlotRect>) -> (changed: bool)
        requires
            old(self).wf(),
        ensures
            final(self).wf(),
            final(self).slots@ == report_all(old(self).slots@, rects@),
            changed == report_any_change(old(self).slots@, rects@),
            *final(self) == (AppState { slots: final(self).slots, ..*old(self) }),
    {
        let ghost all = rects@;
        let _n = rects.len();
        let mut rest = rects;
        let mut changed = false;
        let mut k: usize = 0;
        proof {
            assert(all.take(0) =~= Seq::<SlotRect>::empty());
            assert(all.skip(0) =~= all);
        }
        while rest.len() > 0
            invariant
                self.wf(),
                *self == (AppState { slots: self.slots, ..*old(self) }),
                k + rest@.len() == all.len(),
                all.len() <= usize::MAX,
                rest@ == all.skip(k as int),
                self.slots@ == report_all(old(self).slots@, all.take(k as int)),
                changed == report_any_change(old(self).slots@, all.take(k as int)),
            decreases rest@.len(),
        {
            let r = rest.remove(0);
            proof {
                assert(r == all[k as int]);
                assert(all.take(k + 1).drop_last() =~= all.take(k as int));
                assert(all.take(k + 1).last() == r);
                lemma_slot_index(self.slots@, r.id@);
            }
            let same = match find_slot(&self.slots, &r.id) {
                Some(i) => self.slots[i].rect == r.rect && self.slots[i].page == r.page,
                None => false,
            };
            if !same {
                changed = true;
                upsert_slot(&mut self.slots, r);
            }
            k = k + 1;
            proof {
                assert(rest@ =~= all.skip(k as int));
            }
        }
        proof {
            assert(all.take(k as int) =~= all);
        }
        changed
    }

    /// Places window `hwnd` in slot `slot` on page `page` as kind `kind`
    /// (replacing whatever the slot held).
    pub fn add_managed(&mut self, slot: String, hwnd: usize, page: u8, kind: SlotKind)
        requires
            old(self).wf(),
        ensures
            final(self).wf(),
            mviews(final(self).managed@) == mview_upsert(
                mviews(old(self).managed@),
                ManagedView { hwnd, slot: slot@, page, kind },
            ),
            *final(self) == (AppState { managed: final(self).managed, ..*old(self) }),
    {
        let w = ManagedWindow { hwnd, slot, page, kind };
        proof {
            lemma_managed_upsert_view(self.managed@, w);
        }
        upsert_managed(&mut self.managed, w);
    }

    /// The managed window in slot `slot`.
    pub fn managed_window(&self, slot: &String) -> (r: Result<ManagedWindow, String>)
        ensures
            ({
                let i = managed_index(self.managed@, slot@);
                if i >= 0 {
                    r == Ok::<ManagedWindow, String>(self.managed@[i])
                } else {
                    r matches Err(e) && e@ == no_window_error(slot@)
                }
            }),
    {
        proof {
            lemma_managed_index(self.managed@, slot@);
        }
        match find_managed(&self.managed, slot) {
            Some(i) => Ok(copy_managed(&self.managed[i])),
            None => {
                let mut e = String::from_str("no managed window in slot ");
                e.append(slot.as_str());
                proof {
                    reveal_strlit("no managed window in slot ");
                }
                Err(e)
            },
        }
    }

    /// Forgets slot `slot`: both its managed window and its rectangle.
    pub fn forget_slot(&mut self, slot: &String)
        requires
            old(self).wf(),
        ensures
            final(self).wf(),
            final(self).managed@ == remove_at(old(self).managed@, managed_index(old(self).managed@, slot@)),
            final(self).slots@ == remove_at(old(self).slots@, slot_index(old(self).slots@, slot@)),
            *final(self) == (AppState {
                managed: final(self).managed,
                slots: final(self).slots,
                ..*old(self)
            }),
    {
        proof {
            lemma_managed_index(self.managed@, slot@);
            lemma_slot_index(self.slots@, slot@);
        }
        match find_managed(&self.managed, slot) {
            Some(i) => {
                self.managed.remove(i);
                proof {
                    let o = old(self).managed@;
                    let n = self.managed@;
                    assert forall|a: int| 0 <= a < n.len() implies n[a] == o[if a < i { a } else { a + 1 }] by {}
                }
            },
            None => {},
        }
        match find_slot(&self.slots, slot) {
            Some(i) => {
                self.slots.remove(i);
                proof {
                    let o = old(self).slots@;
                    let n = self.slots@;
                    assert forall|a: int| 0 <= a < n.len() implies n[a] == o[if a < i { a } else { a + 1 }] by {}
                }
            },
            None => {},
        }
    }

    /// The handles of every managed window, in order.
    pub fn managed_hwnds(&self) -> (v: Vec<usize>)
        ensures
            v@ == hwnds_of(mviews(self.managed@)),
    {
        let mut v: Vec<usize> = Vec::new();
        let mut i: usize = 0;
        while i < self.managed.len()
            invariant
                i <= self.managed@.len(),
                v@ == hwnds_of(mviews(self.managed@)).take(i as int),
            decreases self.managed@.len() - i,
        {
            v.push(self.managed[i].hwnd);
            i = i + 1;
            proof {
                assert(v@ =~= hwnds_of(mviews(self.managed@)).take(i as int));
            }
        }
        proof {
            assert(v@ =~= hwnds_of(mviews(self.managed@)));
        }
        v
    }

    /// Number of managed windows of kind `kind`.
    pub fn count_managed(&self, kind: SlotKind) -> (n: usize)
        ensures
            n == count_kind(mviews(self.managed@), kind),
    {
        let mut n: usize = 0;
        let mut i: usize = 0;
        while i < self.managed.len()
            invariant
                i <= self.managed@.len(),
                n == count_kind(mviews(self.managed@).take(i as int), kind),
                n <= i,
            decreases self.managed@.len() - i,
        {
            proof {
                assert(mviews(self.managed@).take(i + 1).drop_last() =~= mviews(self.managed@).take(i as int));
            }
            if self.managed[i].kind == kind {
                n = n + 1;
            }
            i = i + 1;
        }
        proof {
            assert(mviews(self.managed@).take(i as int) =~= mviews(self.managed@));
        }
        n
    }

    /// Whether some window of kind `kind` is managed.
    pub fn has_kind(&self, kind: SlotKind) -> (b: bool)
        ensures
            b == exists|j: int| 0 <= j < self.managed@.len() && self.managed@[j].kind == kind,
    {
        let mut i: usize = 0;
        while i < self.managed.len()
            invariant
                i <= self.managed@.len(),
                forall|j: int| 0 <= j < i ==> self.managed@[j].kind != kind,
            decreases self.managed@.len() - i,
        {
            if self.managed[i].kind == kind {
                return true;
            }
            i = i + 1;
        }
        false
    }

    /// The windows of `hwnds` that are not managed yet, in order.
    pub fn unmanaged(&self, hwnds: &Vec<usize>) -> (v: Vec<usize>)
        ensures
            v@ == hwnds@.filter(|h: usize| !hwnds_of(mviews(self.managed@)).contains(h)),
    {
        let known = self.managed_hwnds();
        let ghost pred = |h: usize| !hwnds_of(mviews(self.managed@)).contains(h);
        let mut v: Vec<usize> = Vec::new();
        let mut i: usize = 0;
        while i < hwnds.len()
            invariant
                i <= hwnds@.len(),
                known@ == hwnds_of(mviews(self.managed@)),
                pred == (|h: usize| !hwnds_of(mviews(self.managed@)).contains(h)),
                v@ == hwnds@.take(i as int).filter(pred),
            decreases hwnds@.len() - i,
        {
            proof {
                reveal_with_fuel(Seq::<_>::filter, 1);
                assert(hwnds@.take(i + 1).drop_last() =~= hwnds@.take(i as int));
            }
            let ghost prev = v@;
            let x = hwnds[i];
            let keep_it = !crate::seqs::contains_usize(&known, x);
            if keep_it {
                v.push(x);
            }
            proof {
                let t = hwnds@.take(i + 1);
                assert(t.drop_last() =~= hwnds@.take(i as int));
                assert(t.last() == x);
                assert(keep_it == !known@.contains(x));
                assert(pred(x) == !hwnds_of(mviews(self.managed@)).contains(x));
                assert(pred(x) == keep_it);
                assert(t.filter(pred) == if pred(t.last()) {
                    t.drop_last().filter(pred).push(t.last())
                } else {
                    t.drop_last().filter(pred)
                });
            }
            i = i + 1;
        }
        proof {
            assert(hwnds@.take(i as int) =~= hwnds@);
        }
        v
    }

    /// Registers newly attached messenger windows of kind `kind` on the
    /// messaging page, skipping windows already managed; each new one gets
    /// the first free slot `base-j`, `j` counting on from the windows of that
    /// kind already managed, so no managed window is displaced. Returns the
    /// first window registered (0 if none).
    pub fn register_im_windows(&mut self, hwnds: &Vec<usize>, kind: SlotKind, base: &String) -> (first:
        usize)
        requires
            old(self).wf(),
            old(self).managed@.len() + hwnds@.len() <= usize::MAX / 2,
        ensures
            final(self).wf(),
            mviews(final(self).managed@) == im_register(mviews(old(self).managed@), hwnds@, kind, base@).managed,
            first == im_register(mviews(old(self).managed@), hwnds@, kind, base@).first,
            mviews(final(self).managed@).take(old(self).managed@.len() as int) == mviews(old(self).managed@),
            *final(self) == (AppState { managed: final(self).managed, ..*old(self) }),
    {
        let ghost m0 = mviews(self.managed@);
        let mut idx = self.count_managed(kind);
        let mut first: usize = 0;
        let mut i: usize = 0;
        proof {
            assert(hwnds@.take(0) =~= Seq::<usize>::empty());
        }
        while i < hwnds.len()
            invariant
                self.wf(),
                *self == (AppState { managed: self.managed, ..*old(self) }),
                i <= hwnds@.len(),
                m0 == mviews(old(self).managed@),
                m0.len() + hwnds@.len() <= usize::MAX / 2,
                self.managed@.len() <= m0.len() + i,
                idx as nat == count_kind(mviews(self.managed@), kind),
                ({
                    let f = im_register(m0, hwnds@.take(i as int), kind, base@);
                    &&& mviews(self.managed@) == f.managed
                    &&& first == f.first
                }),
            decreases hwnds@.len() - i,
        {
            let h = hwnds[i];
            proof {
                assert(hwnds@.take(i + 1).drop_last() =~= hwnds@.take(i as int));
                assert(hwnds@.take(i + 1).last() == h);
                lemma_count_kind_bound(mviews(self.managed@), kind);
            }
            let mut present = false;
            let mut j: usize = 0;
            while j < self.managed.len()
                invariant
                    j <= self.managed@.len(),
                    !present ==> forall|q: int| 0 <= q < j ==> self.managed@[q].hwnd != h,
                    present ==> has_hwnd(mviews(self.managed@), h),
                decreases self.managed@.len() - j,
            {
                if self.managed[j].hwnd == h {
                    present = true;
                    proof {
                        assert(mviews(self.managed@)[j as int].hwnd == h);
                    }
                }
                j = j + 1;
            }
            proof {
                if !present {
                    assert(!has_hwnd(mviews(self.managed@), h));
                }
            }
            if !present {
                let ghost before = mviews(self.managed@);
                let (k, slot) = free_slot(&self.managed, base, idx);
                let w = ManagedWindow { hwnd: h, slot, page: IM_PAGE, kind };
                proof {
                    lemma_next_free(before, base@, idx as nat);
                    lemma_managed_upsert_view(self.managed@, w);
                    assert(mview_upsert(before, w@) == before.push(w@));
                }
                upsert_managed(&mut self.managed, w);
                proof {
                    assert(mviews(self.managed@).drop_last() =~= before);
                }
                idx = idx + 1;
                if first == 0 {
                    first = h;
                }
            }
            i = i + 1;
        }
        proof {
            assert(hwnds@.take(i as int) =~= hwnds@);
            lemma_im_register_bound(m0, hwnds@, kind, base@);
        }
        first
    }

    /// The messenger kinds whose later windows are looked for: only on the
    /// messaging page, only the kinds its current view shows (WeChat and QQ,
    /// or WeCom), and only kinds that already have a managed window.
    pub fn im_discovery_kinds(&self) -> (v: Vec<SlotKind>)
        ensures
            v@ == seq![SlotKind::WeChat, SlotKind::Qq, SlotKind::WeCom].filter(
                |k: SlotKind| self.current_page == IM_PAGE && (if k == SlotKind::WeCom {
                    self.im_view == ImView::WeCom
                } else {
                    self.im_view == ImView::Split
                }) && exists|j: int| 0 <= j < self.managed@.len() && self.managed@[j].kind == k,
            ),
    {
        let ghost p = |k: SlotKind| self.current_page == IM_PAGE && (if k == SlotKind::WeCom {
            self.im_view == ImView::WeCom
        } else {
            self.im_view == ImView::Split
        }) && exists|j: int| 0 <= j < self.managed@.len() && self.managed@[j].kind == k;
        let mut v: Vec<SlotKind> = Vec::new();
        let split = self.im_view == ImView::Split;
        let on_page = self.current_page == IM_PAGE;
        let a = on_page && split && self.has_kind(SlotKind::WeChat);
        let b = on_page && split && self.has_kind(SlotKind::Qq);
        let c = on_page && !split && self.has_kind(SlotKind::WeCom);
        if a {
            v.push(SlotKind::WeChat);
        }
        if b {
            v.push(SlotKind::Qq);
        }
        if c {
            v.push(SlotKind::WeCom);
        }
        proof {
            let s = seq![SlotKind::WeChat, SlotKind::Qq, SlotKind::WeCom];
            assert(p(SlotKind::WeChat) == a);
            assert(p(SlotKind::Qq) == b);
            assert(p(SlotKind::WeCom) == c);
            reveal_with_fuel(Seq::<_>::filter, 4);
            assert(s.drop_last().drop_last().drop_last() =~= Seq::<SlotKind>::empty());
            assert(s.drop_last().drop_last() =~= seq![SlotKind::WeChat]);
            assert(s.drop_last() =~= seq![SlotKind::WeChat, SlotKind::Qq]);
            assert(v@ =~= s.filter(p));
        }
        v
    }

    /// Registers messenger windows found after the first ones: windows managed
    /// before the pass are skipped, each other one gets the first free slot
    /// `base-j`, `j` counting on from the windows of that kind managed, so no
    /// managed window is displaced.
    pub fn register_discovered_im(&mut self, hwnds: &Vec<usize>, kind: SlotKind, base: &String)
        requires
            old(self).wf(),
            old(self).managed@.len() + hwnds@.len() <= usize::MAX / 2,
        ensures
            final(self).wf(),
            mviews(final(self).managed@) == im_discover(
                mviews(old(self).managed@),
                hwnds_of(mviews(old(self).managed@)),
                hwnds@,
                kind,
                base@,
            ),
            mviews(final(self).managed@).take(old(self).managed@.len() as int) == mviews(old(self).managed@),
            *final(self) == (AppState { managed: final(self).managed, ..*old(self) }),
    {
        let ghost m0 = mviews(self.managed@);
        let known = self.managed_hwnds();
        let mut idx = self.count_managed(kind);
        let mut i: usize = 0;
        proof {
            assert(hwnds@.take(0) =~= Seq::<usize>::empty());
        }
        while i < hwnds.len()
            invariant
                self.wf(),
                *self == (AppState { managed: self.managed, ..*old(self) }),
                i <= hwnds@.len(),
                m0 == mviews(old(self).managed@),
                known@ == hwnds_of(m0),
                m0.len() + hwnds@.len() <= usize::MAX / 2,
                self.managed@.len() <= m0.len() + i,
                idx as nat == count_kind(mviews(self.managed@), kind),
                mviews(self.managed@) == im_discover(m0, known@, hwnds@.take(i as int), kind, base@),
            decreases hwnds@.len() - i,
        {
            let h = hwnds[i];
            proof {
                assert(hwnds@.take(i + 1).drop_last() =~= hwnds@.take(i as int));
                assert(hwnds@.take(i + 1).last() == h);
                lemma_count_kind_bound(mviews(self.managed@), kind);
            }
            if !crate::seqs::contains_usize(&known, h) {
                let ghost before = mviews(self.managed@);
                let (k, slot) = free_slot(&self.managed, base, idx);
                let w = ManagedWindow { hwnd: h, slot, page: IM_PAGE, kind };
                proof {
                    lemma_next_free(before, base@, idx as nat);
                    lemma_managed_upsert_view(self.managed@, w);
                    assert(mview_upsert(before, w@) == before.push(w@));
                }
                upsert_managed(&mut self.managed, w);
                proof {
                    assert(mviews(self.managed@).drop_last() =~= before);
                }
                idx = idx + 1;
            }
            i = i + 1;
        }
        proof {
            assert(hwnds@.take(i as int) =~= hwnds@);
            lemma_im_discover_bound(m0, known@, hwnds@, kind, base@);
        }
    }

    /// Registers a window on the desktop page: it gets the next
    /// `desktop-N` slot and the cascade rectangle for the number of desktop
    /// windows already managed. Returns the slot name and the rectangle
    /// the window is to be moved to.
    pub fn add_desktop_window(&mut self, hwnd: usize, client: Option<Rect>) -> (r: (String, Rect))
        requires
            old(self).wf(),
            40 * count_kind(mviews(old(self).managed@), SlotKind::DesktopApp) <= i32::MAX,
            client matches Some(c) ==> client_fits(c),
        ensures
            final(self).wf(),
            r.0@ == desktop_slot_name(old(self).desktop_slot_seq),
            ({
                let c = match client {
                    Some(c) => c,
                    None => default_client(),
                };
                r.1 == cascade_rect(
                    count_kind(mviews(old(self).managed@), SlotKind::DesktopApp) as int,
                    c.w as int,
                    c.h as int,
                )
            }),
            final(self).desktop_slot_seq == (if old(self).desktop_slot_seq == u32::MAX {
                0
            } else {
                old(self).desktop_slot_seq + 1
            }),
            sviews(final(self).slots@) == sview_upsert(
                sviews(old(self).slots@),
                SlotView { id: r.0@, rect: r.1, kind: SlotKind::DesktopApp, page: DESKTOP_PAGE },
            ),
            mviews(final(self).managed@) == mview_upsert(
                mviews(old(self).managed@),
                ManagedView { hwnd, slot: r.0@, page: DESKTOP_PAGE, kind: SlotKind::DesktopApp },
            ),
            *final(self) == (AppState {
                slots: final(self).slots,
                managed: final(self).managed,
                desktop_slot_seq: final(self).desktop_slot_seq,
                ..*old(self)
            }),
    {
        let seq = self.desktop_slot_seq;
        self.desktop_slot_seq = if seq == u32::MAX { 0 } else { seq + 1 };
        let mut slot = String::from_str("desktop-");
        push_decimal(&mut slot, seq as u64);
        proof {
            reveal_strlit("desktop-");
        }
        let count = self.count_managed(SlotKind::DesktopApp);
        proof {
            lemma_count_kind_bound(mviews(self.managed@), SlotKind::DesktopApp);
        }
        let rect = desktop_cascade_rect(count, client);
        let sr = SlotRect { id: slot.clone(), rect, kind: SlotKind::DesktopApp, page: DESKTOP_PAGE };
        proof {
            lemma_slot_upsert_view(self.slots@, sr);
        }
        upsert_slot(&mut self.slots, sr);
        let w = ManagedWindow { hwnd, slot: slot.clone(), page: DESKTOP_PAGE, kind: SlotKind::DesktopApp };
        proof {
            lemma_managed_upsert_view(self.managed@, w);
        }
        upsert_managed(&mut self.managed, w);
        (slot, rect)
    }

    /// The managed desktop-page windows, in order (for the taskbar).
    pub fn desktop_windows(&self) -> (v: Vec<ManagedWindow>)
        ensures
            v@ == self.managed@.filter(|w: ManagedWindow| w.kind == SlotKind::DesktopApp),
    {
        let ghost pred = |w: ManagedWindow| w.kind == SlotKind::DesktopApp;
        let mut v: Vec<ManagedWindow> = Vec::new();
        let mut i: usize = 0;
        while i < self.managed.len()
            invariant
                i <= self.managed@.len(),
                pred == (|w: ManagedWindow| w.kind == SlotKind::DesktopApp),
                v@ == self.managed@.take(i as int).filter(pred),
            decreases self.managed@.len() - i,
        {
            proof {
                reveal_with_fuel(Seq::<_>::filter, 1);
                assert(self.managed@.take(i + 1).drop_last() =~= self.managed@.take(i as int));
            }
            let ghost prev = v@;
            let is_desk = self.managed[i].kind == SlotKind::DesktopApp;
            if is_desk {
                v.push(copy_managed(&self.managed[i]));
            }
            proof {
                assert(pred(self.managed@[i as int]) == is_desk);
                if is_desk {
                    assert(v@ == prev.push(self.managed@[i as int]));
                } else {
                    assert(v@ == prev);
                }
                let t = self.managed@.take(i + 1);
                assert(t.drop_last() =~= self.managed@.take(i as int));
                assert(t.last() == self.managed@[i as int]);
                assert(t.filter(pred) == if pred(t.last()) {
                    t.drop_last().filter(pred).push(t.last())
                } else {
                    t.drop_last().filter(pred)
                });
            }
            i = i + 1;
        }
        proof {
            assert(self.managed@.take(i as int) =~= self.managed@);
        }
        v
    }

    /// Stores user-configured messenger executable paths (kind, path),
    /// replacing earlier paths for the same kind.
    pub fn set_im_paths(&mut self, paths: Vec<ImPath>)
        requires
            old(self).wf(),
        ensures
            final(self).wf(),
            *final(self) == (AppState { im_paths: final(self).im_paths, ..*old(self) }),
            final(self).im_paths@ == im_paths_stored(old(self).im_paths@, paths@),
            forall|j: int|
                #![trigger paths@[j]]
                0 <= j < paths@.len() && (forall|q: int| j < q < paths@.len() ==> #[trigger] paths@[q].kind@
                    != paths@[j].kind@) ==> ({
                    let i = im_path_index(final(self).im_paths@, paths@[j].kind@);
                    i >= 0 && final(self).im_paths@[i].path@ == paths@[j].path@
                }),
    {
        let ghost all = paths@;
        let _n = paths.len();
        let mut rest = paths;
        let mut k: usize = 0;
        proof {
            assert(all.take(0) =~= Seq::<ImPath>::empty());
        }
        while rest.len() > 0
            invariant
                self.wf(),
                *self == (AppState { im_paths: self.im_paths, ..*old(self) }),
                k + rest@.len() == all.len(),
                all.len() <= usize::MAX,
                rest@ == all.skip(k as int),
                self.im_paths@ == im_paths_stored(old(self).im_paths@, all.take(k as int)),
                forall|j: int|
                    #![trigger all[j]]
                    0 <= j < k && (forall|q: int| j < q < k ==> #[trigger] all[q].kind@ != all[j].kind@) ==> ({
                        let i = im_path_index(self.im_paths@, all[j].kind@);
                        i >= 0 && self.im_paths@[i].path@ == all[j].path@
                    }),
            decreases rest@.len(),
        {
            let p = rest.remove(0);
            proof {
                assert(p == all[k as int]);
            }
            let ghost before = self.im_paths@;
            upsert_im_path(&mut self.im_paths, p);
            proof {
                let n = self.im_paths@;
                lemma_im_path_index(before, p.kind@);
                lemma_im_path_index(n, p.kind@);
                assert forall|j: int|
                    #![trigger all[j]]
                    0 <= j < k + 1 && (forall|q: int| j < q < k + 1 ==> #[trigger] all[q].kind@ != all[j].kind@) implies ({
                        let i = im_path_index(n, all[j].kind@);
                        i >= 0 && n[i].path@ == all[j].path@
                    }) by {
                    if j == k {
                        let i = im_path_index(n, p.kind@);
                        let bi = im_path_index(before, p.kind@);
                        if bi >= 0 {
                            assert(n[bi] == p);
                        } else {
                            assert(n[before.len() as int] == p);
                        }
                        lemma_im_path_unique_index(n, p.kind@, if bi >= 0 { bi } else { before.len() as int });
                    } else {
                        let key = all[j].kind@;
                        assert(key != p.kind@);
                        lemma_im_path_index(before, key);
                        let bi = im_path_index(before, key);
                        assert(before[bi].path@ == all[j].path@);
                        assert(n[bi] == before[bi]);
                        lemma_im_path_unique_index(n, key, bi);
                    }
                }
            }
            k = k + 1;
            proof {
                assert(rest@ =~= all.skip(k as int));
                assert(all.take(k as int).drop_last() =~= all.take(k - 1));
                assert(all.take(k as int).last() == p);
            }
        }
        proof {
            assert(all.take(k as int) =~= all);
        }
    }

    /// Drops the windows that are gone after a watchdog pass: IDE instances
    /// (`ide_alive`, parallel to the IDE list, clamping the active index) and
    /// managed windows other than custom ones (`alive`, parallel to the
    /// managed list) together with their slot rectangles. Returns whether the
    /// IDE list changed.
    pub fn prune_dead_windows(&mut self, ide_alive: &Vec<bool>, alive: &Vec<bool>) -> (changed: bool)
        requires
            old(self).wf(),
            ide_alive@.len() == old(self).ide_instances@.len(),
            alive@.len() == old(self).managed@.len(),
        ensures
            final(self).wf(),
            final(self).ide_instances@ == kept(old(self).ide_instances@, ide_alive@),
            changed == (final(self).ide_instances@.len() != old(self).ide_instances@.len()),
            final(self).ide_active == if changed {
                crate::ide::clamp_ide_active(final(self).ide_instances@.len(), old(self).ide_active)
            } else {
                old(self).ide_active
            },
            final(self).managed@ == kept(old(self).managed@, keep_alive_or_custom(old(self).managed@, alive@)),
            final(self).slots@ == without_slots(old(self).slots@, dead_slots(old(self).managed@, alive@)),
            *final(self) == (AppState {
                ide_instances: final(self).ide_instances,
                ide_active: final(self).ide_active,
                managed: final(self).managed,
                slots: final(self).slots,
                ..*old(self)
            }),
    {
        let changed = self.prune_ide(ide_alive);
        let ghost m = self.managed@;
        let mut dead: Vec<String> = Vec::new();
        let mut keep: Vec<bool> = Vec::new();
        let mut i: usize = 0;
        while i < self.managed.len()
            invariant
                self.managed@ == m,
                m == old(self).managed@,
                alive@.len() == m.len(),
                i <= m.len(),
                keep@ == keep_alive_or_custom(m, alive@).take(i as int),
                dead@.map_values(|d: String| d@) == dead_slots(m.take(i as int), alive@.take(i as int)),
            decreases m.len() - i,
        {
            let w = &self.managed[i];
            let is_dead = w.kind != SlotKind::Custom && !alive[i];
            if is_dead {
                dead.push(w.slot.clone());
            }
            keep.push(!is_dead);
            proof {
                let t = m.take(i + 1);
                assert(t.drop_last() =~= m.take(i as int));
                assert(alive@.take(i + 1).take(i as int) =~= alive@.take(i as int));
                assert(alive@.take(i + 1)[i as int] == alive@[i as int]);
                assert(dead@.map_values(|d: String| d@) =~= dead_slots(t, alive@.take(i + 1)));
            }
            i = i + 1;
            proof {
                assert(keep@ =~= keep_alive_or_custom(m, alive@).take(i as int));
            }
        }
        proof {
            assert(keep@ =~= keep_alive_or_custom(m, alive@));
            assert(m.take(i as int) =~= m);
            assert(alive@.take(i as int) =~= alive@);
            lemma_kept_unique(m, keep@, |w: ManagedWindow| w.slot@);
        }
        retain_kept(&mut self.managed, &keep);
        let ghost dv = dead@.map_values(|d: String| d@);
        let ghost s0 = self.slots@;
        let ghost pre = *self;
        let mut k: usize = 0;
        proof {
            assert(dv.take(0) =~= Seq::<Seq<char>>::empty());
        }
        while k < dead.len()
            invariant
                k <= dead@.len(),
                dv == dead@.map_values(|d: String| d@),
                slot_ids_unique(self.slots@),
                *self == (AppState { slots: self.slots, ..pre }),
                self.slots@ == without_slots(s0, dv.take(k as int)),
            decreases dead@.len() - k,
        {
            proof {
                assert(dv.take(k + 1).drop_last() =~= dv.take(k as int));
                assert(dv.take(k + 1).last() == dead@[k as int]@);
                lemma_slot_index(self.slots@, dead@[k as int]@);
            }
            match find_slot(&self.slots, &dead[k]) {
                Some(j) => {
                    let ghost before = self.slots@;
                    self.slots.remove(j);
                    proof {
                        let n = self.slots@;
                        assert forall|a: int| 0 <= a < n.len() implies n[a] == before[if a < j { a } else { a + 1 }] by {}
                    }
                },
                None => {},
            }
            k = k + 1;
        }
        proof {
            assert(dv.take(k as int) =~= dv);
        }
        changed
    }

    /// The windows to hide when a modal dialog opens.
    pub fn hide_all_plan(&self) -> (v: Vec<usize>)
        ensures
            v@ == hide_all_list(
                self.managed@,
                self.ide_instances@.map_values(|i: crate::state::IdeInstance| i.hwnd),
            ),
    {
        let ghost ide = self.ide_instances@.map_values(|i: crate::state::IdeInstance| i.hwnd);
        let mut v: Vec<usize> = Vec::new();
        let mut i: usize = 0;
        while i < self.ide_instances.len()
            invariant
                i <= self.ide_instances@.len(),
                ide == self.ide_instances@.map_values(|i: crate::state::IdeInstance| i.hwnd),
                v@ == ide.take(i as int),
            decreases self.ide_instances@.len() - i,
        {
            v.push(self.ide_instances[i].hwnd);
            i = i + 1;
            proof {
                assert(v@ =~= ide.take(i as int));
            }
        }
        proof {
            assert(v@ =~= ide);
            assert(self.managed@.skip(self.managed@.len() as int) =~= Seq::<ManagedWindow>::empty());
        }
        let mut j: usize = self.managed.len();
        while j > 0
            invariant
                j <= self.managed@.len(),
                v@ == hide_all_list(self.managed@.skip(j as int), ide),
            decreases j,
        {
            let w = &self.managed[j - 1];
            proof {
                assert(self.managed@.skip(j - 1).drop_first() =~= self.managed@.skip(j as int));
                assert(self.managed@.skip(j - 1)[0] == self.managed@[j - 1]);
            }
            if w.kind != SlotKind::Custom {
                v.insert(0, w.hwnd);
                proof {
                    assert(v@ =~= seq![self.managed@[j - 1].hwnd] + hide_all_list(self.managed@.skip(j as int), ide));
                }
            }
            j = j - 1;
        }
        proof {
            assert(self.managed@.skip(0) =~= self.managed@);
        }
        v
    }

    /// The windows to hand back to the desktop on exit.
    pub fn release_all_plan(&self) -> (v: Vec<Release>)
        ensures
            v@ == release_all_list(
                self.managed@,
                self.ide_instances@.map_values(|i: crate::state::IdeInstance| i.hwnd),
                all_instances(self.custom_instances@),
            ),
    {
        let ghost m = self.managed@;
        let ghost ide = self.ide_instances@.map_values(|i: crate::state::IdeInstance| i.hwnd);
        let ghost cus = all_instances(self.custom_instances@);
        let ghost part1 = Seq::new(m.len(), |j: int| Release { hwnd: m[j].hwnd, gentle: hwnd_is_custom(m, m[j].hwnd) });
        let mut v: Vec<Release> = Vec::new();
        let mut i: usize = 0;
        while i < self.managed.len()
            invariant
                m == self.managed@,
                i <= m.len(),
                part1 == Seq::new(m.len(), |j: int| Release { hwnd: m[j].hwnd, gentle: hwnd_is_custom(m, m[j].hwnd) }),
                v@ == part1.take(i as int),
            decreases m.len() - i,
        {
            let h = self.managed[i].hwnd;
            let mut gentle = false;
            let mut j: usize = 0;
            while j < self.managed.len()
                invariant
                    m == self.managed@,
                    j <= m.len(),
                    gentle == exists|q: int| 0 <= q < j && m[q].hwnd == h && m[q].kind == SlotKind::Custom,
                decreases m.len() - j,
            {
                if self.managed[j].hwnd == h && self.managed[j].kind == SlotKind::Custom {
                    gentle = true;
                }
                j = j + 1;
            }
            v.push(Release { hwnd: h, gentle });
            i = i + 1;
            proof {
                assert(v@ =~= part1.take(i as int));
            }
        }
        let mut k: usize = 0;
        while k < self.ide_instances.len()
            invariant
                k <= self.ide_instances@.len(),
                ide == self.ide_instances@.map_values(|i: crate::state::IdeInstance| i.hwnd),
                v@ == part1 + Seq::new(k as nat, |j: int| Release { hwnd: ide[j], gentle: false }),
            decreases self.ide_instances@.len() - k,
        {
            v.push(Release { hwnd: self.ide_instances[k].hwnd, gentle: false });
            k = k + 1;
            proof {
                assert(v@ =~= part1 + Seq::new(k as nat, |j: int| Release { hwnd: ide[j], gentle: false }));
            }
        }
        let ghost part2 = v@;
        proof {
            assert(part2 =~= part1 + Seq::new(ide.len(), |j: int| Release { hwnd: ide[j], gentle: false }));
        }
        let mut p: usize = 0;
        while p < self.custom_instances.len()
            invariant
                p <= self.custom_instances@.len(),
                v@ == part2 + Seq::new(all_instances(self.custom_instances@.take(p as int)).len(), |j: int| Release {
                    hwnd: all_instances(self.custom_instances@.take(p as int))[j],
                    gentle: true,
                }),
            decreases self.custom_instances@.len() - p,
        {
            let hw = &self.custom_instances[p].hwnds;
            let ghost before = v@;
            let ghost acc = all_instances(self.custom_instances@.take(p as int));
            let mut q: usize = 0;
            while q < hw.len()
                invariant
                    q <= hw@.len(),
                    v@ == before + Seq::new(q as nat, |j: int| Release { hwnd: hw@[j], gentle: true }),
                decreases hw@.len() - q,
            {
                v.push(Release { hwnd: hw[q], gentle: true });
                q = q + 1;
                proof {
                    assert(v@ =~= before + Seq::new(q as nat, |j: int| Release { hwnd: hw@[j], gentle: true }));
                }
            }
            proof {
                let t = self.custom_instances@.take(p + 1);
                assert(t.drop_last() =~= self.custom_instances@.take(p as int));
                assert(t.last() == self.custom_instances@[p as int]);
                assert(all_instances(t) == acc + hw@);
                assert(v@ =~= part2 + Seq::new(all_instances(t).len(), |j: int| Release {
                    hwnd: all_instances(t)[j],
                    gentle: true,
                }));
            }
            p = p + 1;
        }
        proof {
            assert(self.custom_instances@.take(p as int) =~= self.custom_instances@);
            assert(v@ =~= release_all_list(m, ide, cus));
        }
        v
    }

    /// Windows that must never be adopted onto the desktop page: every
    /// managed window, every IDE window and the shell's main window.
    pub fn adoption_exclude(&self) -> (v: Vec<usize>)
        ensures
            v@ == hwnds_of(mviews(self.managed@)) + self.ide_instances@.map_values(
                |i: crate::state::IdeInstance| i.hwnd,
            ) + match self.main_hwnd {
                Some(h) => seq![h],
                None => Seq::empty(),
            },
    {
        let mut v = self.managed_hwnds();
        let ghost base = v@;
        let ghost ide = self.ide_instances@.map_values(|i: crate::state::IdeInstance| i.hwnd);
        let mut i: usize = 0;
        while i < self.ide_instances.len()
            invariant
                i <= self.ide_instances@.len(),
                ide == self.ide_instances@.map_values(|i: crate::state::IdeInstance| i.hwnd),
                v@ == base + ide.take(i as int),
            decreases self.ide_instances@.len() - i,
        {
            v.push(self.ide_instances[i].hwnd);
            i = i + 1;
            proof {
                assert(v@ =~= base + ide.take(i as int));
            }
        }
        proof {
            assert(ide.take(i as int) =~= ide);
        }
        match self.main_hwnd {
            Some(h) => {
                v.push(h);
            },
            None => {},
        }
        proof {
            assert(v@ =~= base + ide + match self.main_hwnd {
                Some(h) => seq![h],
                None => Seq::<usize>::empty(),
            });
        }
        v
    }

    /// Lowercased executable file names of the custom pages, whose windows
    /// belong to their own pages and are never adopted onto the desktop.
    pub fn custom_exe_names(&self) -> (v: Vec<String>)
        ensures
            v@.map_values(|s: String| s@) == custom_exe_list(self.custom_pages@),
    {
        let ghost pages = self.custom_pages@;
        let mut v: Vec<String> = Vec::new();
        let mut i: usize = 0;
        while i < self.custom_pages.len()
            invariant
                pages == self.custom_pages@,
                i <= pages.len(),
                v@.map_values(|s: String| s@) == custom_exe_list(pages.take(i as int)),
            decreases pages.len() - i,
        {
            proof {
                assert(pages.take(i + 1).drop_last() =~= pages.take(i as int));
                assert(pages.take(i + 1).last() == pages[i as int]);
            }
            match crate::text::file_name(self.custom_pages[i].exe.as_str()) {
                Some(n) => {
                    let l = crate::text::to_lowercase(n.as_str());
                    v.push(l);
                    proof {
                        assert(v@.map_values(|s: String| s@) =~= custom_exe_list(pages.take(i + 1)));
                    }
                },
                None => {
                    proof {
                        assert(v@.map_values(|s: String| s@) =~= custom_exe_list(pages.take(i + 1)));
                    }
                },
            }
            i = i + 1;
        }
        proof {
            assert(pages.take(i as int) =~= pages);
        }
        v
    }

    /// The configured executable path for messenger kind `kind`.
    pub fn im_path(&self, kind: &String) -> (r: Option<String>)
        ensures
            ({
                let i = im_path_index(self.im_paths@, kind@);
                if i >= 0 {
                    r matches Some(p) && p@ == self.im_paths@[i].path@
                } else {
                    r is None
                }
            }),
    {
        proof {
            lemma_im_path_index(self.im_paths@, kind@);
        }
        match find_im_path(&self.im_paths, kind) {
            Some(i) => Some(self.im_paths[i].path.clone()),
            None => None,
        }
    }
}

/// With unique kinds, the index found for a kind is the one holding it.
proof fn lemma_im_path_unique_index(s: Seq<ImPath>, k: Seq<char>, i: int)
    requires
        crate::state::im_kinds_unique(s),
        0 <= i < s.len(),
        s[i].kind@ == k,
    ensures
        im_path_index(s, k) == i,
{
    lemma_im_path_index(s, k);
}

} // verus!
