//! The global keyboard hook's decisions: Ctrl+Tab and Ctrl+Shift+Tab switch
//! pages (once per key press, however long the key is held), Ctrl+Alt+R
//! brings the shell back; every other key passes through.

use vstd::prelude::*;

verus! {

/// Virtual-key code of Tab.
pub const VK_TAB: u32 = 0x09;

/// Virtual-key code of R.
pub const VK_R: u32 = 0x52;

/// The kind of keyboard message the hook received.
#[derive(Clone, Copy, Debug, PartialEq, Eq, Structural)]
pub enum KeyMsg {
    KeyDown,
    SysKeyDown,
    KeyUp,
    SysKeyUp,
    Other,
}

/// One keyboard event as the hook sees it: whether it is an action the hook
/// must process, the virtual key, the message and which modifiers are held.
#[derive(Clone, Copy, Debug, PartialEq, Eq, Structural)]
pub struct KeyEvent {
    pub action: bool,
    pub vk: u32,
    pub msg: KeyMsg,
    pub ctrl: bool,
    pub shift: bool,
    pub alt: bool,
}

/// What the hook does with an event.
#[derive(Clone, Copy, Debug, PartialEq, Eq, Structural)]
pub enum HookAction {
    /// Hand the event on to the next hook.
    Pass,
    /// Swallow the event.
    Swallow,
    /// Swallow it and go to the next page.
    NextPage,
    /// Swallow it and run the page's Ctrl+Shift+Tab action.
    ShiftTab,
    /// Swallow it and restore and focus the shell's main window.
    RestoreMain,
}

/// Whether the message presses a key.
pub open spec fn is_down(m: KeyMsg) -> bool {
    m == KeyMsg::KeyDown || m == KeyMsg::SysKeyDown
}

/// Whether the message releases a key.
pub open spec fn is_up(m: KeyMsg) -> bool {
    m == KeyMsg::KeyUp || m == KeyMsg::SysKeyUp
}

/// The hook's decision and whether Tab counts as held afterwards, given
/// whether it was held before the event.
pub open spec fn spec_hook_step(tab_held: bool, e: KeyEvent) -> (bool, HookAction) {
    if e.action && e.ctrl && e.vk == VK_TAB && is_down(e.msg) {
        if tab_held {
            (true, HookAction::Swallow)
        } else if e.shift {
            (true, HookAction::ShiftTab)
        } else {
            (true, HookAction::NextPage)
        }
    } else if e.action && e.ctrl && e.vk == VK_TAB && is_up(e.msg) {
        (false, HookAction::Swallow)
    } else if e.action && e.ctrl && e.vk == VK_R && e.alt && e.msg == KeyMsg::KeyDown {
        (tab_held, HookAction::RestoreMain)
    } else {
        (tab_held, HookAction::Pass)
    }
}

/// Decides what to do with a keyboard event; returns whether Tab is held
/// afterwards and the action.
pub fn hook_step(tab_held: bool, e: KeyEvent) -> (r: (bool, HookAction))
    ensures
        r == spec_hook_step(tab_held, e),
{
    if e.action && e.ctrl {
        if e.vk == VK_TAB {
            let down = e.msg == KeyMsg::KeyDown || e.msg == KeyMsg::SysKeyDown;
            let up = e.msg == KeyMsg::KeyUp || e.msg == KeyMsg::SysKeyUp;
            if down {
                if tab_held {
                    return (true, HookAction::Swallow);
                }
                return if e.shift { (true, HookAction::ShiftTab) } else { (true, HookAction::NextPage) };
            }
            if up {
                return (false, HookAction::Swallow);
            }
        } else if e.vk == VK_R && e.alt && e.msg == KeyMsg::KeyDown {
            return (tab_held, HookAction::RestoreMain);
        }
    }
    (tab_held, HookAction::Pass)
}

/// Holding Ctrl+Tab switches pages once: however many repeated key-down
/// events follow the first, they are swallowed without another switch,
/// until Tab is released; Ctrl+Tab events never reach other applications.
pub proof fn lemma_tab_fires_once_per_press(held: bool, first: KeyEvent, repeat: KeyEvent)
    requires
        first.action && first.ctrl && first.vk == VK_TAB && is_down(first.msg),
        repeat.action && repeat.ctrl && repeat.vk == VK_TAB && is_down(repeat.msg),
    ensures
        spec_hook_step(held, first).1 != HookAction::Pass,
        spec_hook_step(spec_hook_step(held, first).0, repeat) == (true, HookAction::Swallow),
        !held ==> spec_hook_step(held, first).1 == (if first.shift {
            HookAction::ShiftTab
        } else {
            HookAction::NextPage
        }),
{
}

/// Releasing Tab re-arms the hook: the next Ctrl+Tab press switches again.
pub proof fn lemma_release_rearms(held: bool, up: KeyEvent, down: KeyEvent)
    requires
        up.action && up.ctrl && up.vk == VK_TAB && is_up(up.msg),
        down.action && down.ctrl && down.vk == VK_TAB && is_down(down.msg),
    ensures
        spec_hook_step(held, up) == (false, HookAction::Swallow),
        spec_hook_step(false, down).1 != HookAction::Swallow,
        spec_hook_step(false, down).1 != HookAction::Pass,
{
}

/// Only Ctrl+Alt+R pressed (a plain key-down with Ctrl and Alt held)
/// restores the shell. Every event the hook is not asked to act on, or
/// without Ctrl, passes on; so does every Ctrl combination with another key
/// than Tab that is not Ctrl+Alt+R pressed, and a Tab message that neither
/// presses nor releases the key. Whatever passes leaves Tab's held state as
/// it was.
pub proof fn lemma_hook_other_keys_pass(held: bool, e: KeyEvent)
    ensures
        (spec_hook_step(held, e).1 == HookAction::RestoreMain) <==> (e.action && e.ctrl && e.alt && e.vk == VK_R
            && e.msg == KeyMsg::KeyDown),
        spec_hook_step(held, e).1 == HookAction::RestoreMain ==> spec_hook_step(held, e).0 == held,
        !(e.action && e.ctrl) ==> spec_hook_step(held, e) == (held, HookAction::Pass),
        e.vk != VK_TAB && !(e.vk == VK_R && e.alt && e.msg == KeyMsg::KeyDown) ==> spec_hook_step(held, e) == (
            held,
            HookAction::Pass,
        ),
        e.vk == VK_TAB && !is_down(e.msg) && !is_up(e.msg) ==> spec_hook_step(held, e) == (held, HookAction::Pass),
        spec_hook_step(held, e).1 == HookAction::Pass ==> spec_hook_step(held, e).0 == held,
{
}

} // verus!
