//! Page navigation: Ctrl+Tab moves to the next page, Ctrl+Shift+Tab acts
//! inside the current page (cycle IDE instances, toggle the messenger view,
//! cycle custom-page instances) or goes back one page.

use vstd::prelude::*;
use crate::state::{AppState, ImView, FIRST_CUSTOM_PAGE, spec_total_pages};
use crate::text::{decimal, push_decimal};

verus! {

/// The current page forced into `1..=total`.
pub open spec fn clamp_page(p: int, total: int) -> int {
    if p > total {
        if total < 1 { 1 } else { total }
    } else if p < 1 {
        1
    } else {
        p
    }
}

/// The page Ctrl+Tab leads to: the next one, wrapping from the last to 1.
pub open spec fn next_page(p: int, total: int) -> int {
    let t = if total < 1 { 1 } else { total };
    clamp_page(p, t) % t + 1
}

/// The page "go back" leads to: the previous one, wrapping from 1 to the last.
pub open spec fn prev_page(p: int, total: int) -> int {
    let t = if total < 1 { 1 } else { total };
    let c = clamp_page(p, t);
    if c <= 1 { t } else { c - 1 }
}

/// `k` presses of Ctrl+Tab starting from page `p`.
pub open spec fn next_page_iter(p: int, total: int, k: nat) -> int
    decreases k,
{
    if k == 0 { p } else { next_page(next_page_iter(p, total, (k - 1) as nat), total) }
}

/// What Ctrl+Shift+Tab does on a page.
#[derive(Clone, Copy, Debug, PartialEq, Eq, Structural)]
pub enum ShiftTab {
    /// Page 2: go to the next IDE instance.
    CycleIde,
    /// Page 3: switch between the split messenger view and the WeCom view.
    ToggleIm,
    /// A custom page: go to its next window instance.
    CycleCustom(u8),
    /// Any other page: go to the previous page.
    PreviousPage,
}

/// The action of Ctrl+Shift+Tab on page `page`.
pub open spec fn spec_shift_tab(page: u8) -> ShiftTab {
    if page == 2 {
        ShiftTab::CycleIde
    } else if page == 3 {
        ShiftTab::ToggleIm
    } else if page >= FIRST_CUSTOM_PAGE {
        ShiftTab::CycleCustom(page)
    } else {
        ShiftTab::PreviousPage
    }
}

/// The other messenger view.
pub open spec fn toggled(v: ImView) -> ImView {
    match v {
        ImView::Split => ImView::WeCom,
        ImView::WeCom => ImView::Split,
    }
}

/// The message refusing a page outside `1..=total`.
pub open spec fn page_range_error(total: nat) -> Seq<char> {
    "page must be 1..="@ + decimal(total)
}

/// Ctrl+Tab always lands on a page in `1..=total` (for at least one page).
pub proof fn lemma_next_page_in_range(p: int, total: int)
    requires
        total >= 1,
    ensures
        1 <= next_page(p, total) <= total,
{
}

/// For `x` in `0..m`, `x % m == x`.
proof fn lemma_mod_of_small(x: int, m: int)
    requires
        0 <= x < m,
    ensures
        x % m == x,
{
    vstd::arithmetic::div_mod::lemma_small_mod(x as nat, m as nat);
}

/// Adding one to a residue modulo `m` either increments it or wraps to 0.
proof fn lemma_mod_succ(x: int, m: int)
    requires
        m >= 1,
        x >= 0,
    ensures
        (x + 1) % m == if x % m + 1 < m { x % m + 1 } else { 0 },
{
    let q = x / m;
    let r = x % m;
    vstd::arithmetic::div_mod::lemma_fundamental_div_mod(x, m);
    assert(x == m * q + r);
    assert(0 <= r < m) by {
        vstd::arithmetic::div_mod::lemma_mod_bound(x, m);
    }
    if r + 1 < m {
        assert(x + 1 == q * m + (r + 1)) by (nonlinear_arith)
            requires x == m * q + r;
        vstd::arithmetic::div_mod::lemma_fundamental_div_mod_converse(x + 1, m, q, r + 1);
    } else {
        assert(x + 1 == (q + 1) * m + 0) by (nonlinear_arith)
            requires x == m * q + r, r + 1 == m;
        vstd::arithmetic::div_mod::lemma_fundamental_div_mod_converse(x + 1, m, q + 1, 0);
    }
}

/// Going forward then back returns to the (clamped) page, and so does going
/// back then forward.
pub proof fn lemma_next_prev_inverse(p: int, total: int)
    requires
        total >= 1,
    ensures
        prev_page(next_page(p, total), total) == clamp_page(p, total),
        next_page(prev_page(p, total), total) == clamp_page(p, total),
{
    let c = clamp_page(p, total);
    if c < total {
        lemma_mod_of_small(c, total);
    } else {
        vstd::arithmetic::div_mod::lemma_mod_self_0(total);
    }
    let q = prev_page(p, total);
    if q < total {
        lemma_mod_of_small(q, total);
    } else {
        vstd::arithmetic::div_mod::lemma_mod_self_0(total);
    }
}

/// After `k` presses of Ctrl+Tab from a page in range, the page is the one
/// `k` steps further round the cycle.
pub proof fn lemma_next_page_iter(p: int, total: int, k: nat)
    requires
        total >= 1,
        1 <= p <= total,
    ensures
        next_page_iter(p, total, k) == (p - 1 + k) % total + 1,
    decreases k,
{
    if k == 0 {
        lemma_mod_of_small(p - 1, total);
    } else {
        lemma_next_page_iter(p, total, (k - 1) as nat);
        let x = p - 1 + k - 1;
        let q = next_page_iter(p, total, (k - 1) as nat);
        vstd::arithmetic::div_mod::lemma_mod_bound(x, total);
        assert(q == x % total + 1);
        lemma_mod_succ(x, total);
        if q < total {
            lemma_mod_of_small(q, total);
        } else {
            vstd::arithmetic::div_mod::lemma_mod_self_0(total);
        }
    }
}

/// Pressing Ctrl+Tab once per page brings the shell back to where it started.
pub proof fn lemma_next_page_full_cycle(p: int, total: int)
    requires
        total >= 1,
        1 <= p <= total,
    ensures
        next_page_iter(p, total, total as nat) == p,
{
    lemma_next_page_iter(p, total, total as nat);
    vstd::arithmetic::div_mod::lemma_fundamental_div_mod_converse(p - 1 + total, total, 1, p - 1);
}

/// Toggling the messenger view twice restores it.
pub proof fn lemma_toggle_twice(v: ImView)
    ensures
        toggled(toggled(v)) == v,
{
}

/// The action of Ctrl+Shift+Tab on page `page`.
pub fn shift_tab_action(page: u8) -> (a: ShiftTab)
    ensures
        a == spec_shift_tab(page),
{
    if page == 2 {
        ShiftTab::CycleIde
    } else if page == 3 {
        ShiftTab::ToggleIm
    } else if page >= FIRST_CUSTOM_PAGE {
        ShiftTab::CycleCustom(page)
    } else {
        ShiftTab::PreviousPage
    }
}

impl AppState {
    /// Ctrl+Tab: move to the next page (wrapping) and return it.
    pub fn handle_tab(&mut self) -> (page: u8)
        requires
            old(self).wf(),
        ensures
            final(self).wf(),
            page as int == next_page(
                old(self).current_page as int,
                spec_total_pages(old(self).custom_pages@.len()),
            ),
            *final(self) == (AppState { current_page: page, ..*old(self) }),
    {
        let total = self.total_pages();
        let cur = if self.current_page > total {
            total
        } else if self.current_page < 1 {
            1
        } else {
            self.current_page
        };
        let page = cur % total + 1;
        self.current_page = page;
        page
    }

    /// Ctrl+Shift+Tab on pages 1 and 4: move to the previous page (wrapping)
    /// and return it.
    pub fn go_previous_page(&mut self) -> (page: u8)
        requires
            old(self).wf(),
        ensures
            final(self).wf(),
            page as int == prev_page(
                old(self).current_page as int,
                spec_total_pages(old(self).custom_pages@.len()),
            ),
            *final(self) == (AppState { current_page: page, ..*old(self) }),
    {
        let total = self.total_pages();
        let cur = if self.current_page > total {
            total
        } else if self.current_page < 1 {
            1
        } else {
            self.current_page
        };
        let page = if cur <= 1 { total } else { cur - 1 };
        self.current_page = page;
        page
    }

    /// Switch to `page`, which must be in `1..=total_pages()`.
    pub fn set_current_page(&mut self, page: u8) -> (r: Result<(), String>)
        requires
            old(self).wf(),
        ensures
            final(self).wf(),
            ({
                let total = spec_total_pages(old(self).custom_pages@.len());
                if 1 <= page <= total {
                    &&& r is Ok
                    &&& *final(self) == (AppState { current_page: page, ..*old(self) })
                } else {
                    &&& r matches Err(e) && e@ == page_range_error(total as nat)
                    &&& *final(self) == *old(self)
                }
            }),
    {
        let total = self.total_pages();
        if page < 1 || page > total {
            let mut msg = String::from_str("page must be 1..=");
            push_decimal(&mut msg, total as u64);
            proof {
                reveal_strlit("page must be 1..=");
            }
            return Err(msg);
        }
        self.current_page = page;
        Ok(())
    }

    /// Switch between the split messenger view and the WeCom view; returns
    /// the new view.
    pub fn toggle_im_view(&mut self) -> (v: ImView)
        requires
            old(self).wf(),
        ensures
            final(self).wf(),
            v == toggled(old(self).im_view),
            *final(self) == (AppState { im_view: v, ..*old(self) }),
    {
        let v = match self.im_view {
            ImView::Split => ImView::WeCom,
            ImView::WeCom => ImView::Split,
        };
        self.im_view = v;
        v
    }
}

} // verus!
