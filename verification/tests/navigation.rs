use winux_kate::hotkey::{hook_step, HookAction, KeyEvent, KeyMsg, VK_R, VK_TAB};
use winux_kate::ide::IdeCycle;
use winux_kate::paging::{shift_tab_action, ShiftTab};
use winux_kate::state::{AppState, CustomPage, ImView};

fn page(id: u8, name: &str) -> CustomPage {
    CustomPage { id, name: name.to_string(), exe: format!("C:\\Apps\\{name}.exe"), args: String::new() }
}

#[test]
fn new_state_starts_on_page_one_with_four_pages() {
    let st = AppState::new(vec![]);
    assert_eq!(st.current_page, 1);
    assert_eq!(st.total_pages(), 4);
    assert_eq!(st.im_view, ImView::Split);
}

#[test]
fn total_pages_counts_custom_pages() {
    let st = AppState::new(vec![page(5, "Trae"), page(6, "Notes")]);
    assert_eq!(st.total_pages(), 6);
}

#[test]
fn ctrl_tab_walks_pages_and_wraps() {
    let mut st = AppState::new(vec![]);
    assert_eq!(st.handle_tab(), 2);
    assert_eq!(st.handle_tab(), 3);
    assert_eq!(st.handle_tab(), 4);
    assert_eq!(st.handle_tab(), 1);
    assert_eq!(st.current_page, 1);
}

#[test]
fn ctrl_tab_full_round_returns_to_start() {
    let mut st = AppState::new(vec![page(5, "Trae")]);
    st.set_current_page(3).unwrap();
    let total = st.total_pages();
    for _ in 0..total {
        st.handle_tab();
    }
    assert_eq!(st.current_page, 3);
}

#[test]
fn ctrl_tab_from_out_of_range_page_clamps_first() {
    let mut st = AppState::new(vec![]);
    st.current_page = 9;
    assert_eq!(st.handle_tab(), 1);
    st.current_page = 0;
    assert_eq!(st.handle_tab(), 2);
}

#[test]
fn previous_page_wraps_from_one_to_last() {
    let mut st = AppState::new(vec![page(5, "Trae")]);
    assert_eq!(st.go_previous_page(), 5);
    assert_eq!(st.go_previous_page(), 4);
}

#[test]
fn next_then_previous_returns() {
    let mut st = AppState::new(vec![page(5, "Trae"), page(7, "Mail")]);
    st.set_current_page(4).unwrap();
    st.handle_tab();
    assert_eq!(st.go_previous_page(), 4);
}

#[test]
fn set_current_page_rejects_out_of_range() {
    let mut st = AppState::new(vec![]);
    assert_eq!(st.set_current_page(5), Err("page must be 1..=4".to_string()));
    assert_eq!(st.set_current_page(0), Err("page must be 1..=4".to_string()));
    assert_eq!(st.current_page, 1);
    assert_eq!(st.set_current_page(4), Ok(()));
    assert_eq!(st.current_page, 4);
}

#[test]
fn shift_tab_depends_on_page() {
    assert_eq!(shift_tab_action(1), ShiftTab::PreviousPage);
    assert_eq!(shift_tab_action(2), ShiftTab::CycleIde);
    assert_eq!(shift_tab_action(3), ShiftTab::ToggleIm);
    assert_eq!(shift_tab_action(4), ShiftTab::PreviousPage);
    assert_eq!(shift_tab_action(5), ShiftTab::CycleCustom(5));
    assert_eq!(shift_tab_action(200), ShiftTab::CycleCustom(200));
}

#[test]
fn toggling_im_view_twice_restores_it() {
    let mut st = AppState::new(vec![]);
    assert_eq!(st.toggle_im_view(), ImView::WeCom);
    assert_eq!(st.toggle_im_view(), ImView::Split);
    assert_eq!(st.im_view, ImView::Split);
}

#[test]
fn ide_instances_cycle_then_request_new() {
    let mut st = AppState::new(vec![]);
    assert_eq!(st.cycle_ide(), IdeCycle::RequestNew);
    assert_eq!(st.add_ide_instance(100, None, "VSCode".to_string()), 0);
    assert_eq!(st.add_ide_instance(200, Some("C:\\src\\app".to_string()), "app".to_string()), 1);
    assert_eq!(st.ide_active, 1);
    assert_eq!(st.cycle_ide(), IdeCycle::RequestNew);
    assert!(st.set_ide_active(0));
    assert_eq!(st.cycle_ide(), IdeCycle::Activated(1));
    assert!(!st.set_ide_active(2));
    assert_eq!(st.ide_active, 1);
}

#[test]
fn ide_hwnd_and_list() {
    let mut st = AppState::new(vec![]);
    st.add_ide_instance(100, None, "VSCode".to_string());
    st.add_ide_instance(200, None, "VSCode".to_string());
    assert_eq!(st.ide_hwnd(1), Some(200));
    assert_eq!(st.ide_hwnd(2), None);
    let l = st.ide_list();
    assert_eq!(l.list.len(), 2);
    assert_eq!(l.active, 1);
}

#[test]
fn pruning_dead_ide_windows_clamps_active() {
    let mut st = AppState::new(vec![]);
    st.add_ide_instance(100, None, "a".to_string());
    st.add_ide_instance(200, None, "b".to_string());
    st.add_ide_instance(300, None, "c".to_string());
    assert!(st.prune_ide(&vec![true, false, false]));
    assert_eq!(st.ide_instances.len(), 1);
    assert_eq!(st.ide_instances[0].hwnd, 100);
    assert_eq!(st.ide_active, 0);
    assert!(!st.prune_ide(&vec![true]));
}

#[test]
fn ide_title_is_folder_name() {
    assert_eq!(winux_kate::ide::ide_title(&Some("C:\\src\\kate".to_string())), "kate");
    assert_eq!(winux_kate::ide::ide_title(&Some("C:\\src\\kate\\".to_string())), "kate");
    assert_eq!(winux_kate::ide::ide_title(&None), "VSCode");
    assert_eq!(winux_kate::ide::ide_title(&Some("C:\\".to_string())), "VSCode");
    assert_eq!(winux_kate::ide::ide_title(&Some("\\\\nas\\projects".to_string())), "VSCode");
    assert_eq!(winux_kate::ide::ide_title(&Some("\\\\nas\\projects\\kate".to_string())), "kate");
}

fn key(vk: u32, msg: KeyMsg, shift: bool, alt: bool) -> KeyEvent {
    KeyEvent { action: true, vk, msg, ctrl: true, shift, alt }
}

#[test]
fn ctrl_tab_fires_once_per_press() {
    let down = key(VK_TAB, KeyMsg::KeyDown, false, false);
    let (held, a) = hook_step(false, down);
    assert_eq!((held, a), (true, HookAction::NextPage));
    assert_eq!(hook_step(held, down), (true, HookAction::Swallow));
    let (held, a) = hook_step(held, key(VK_TAB, KeyMsg::KeyUp, false, false));
    assert_eq!((held, a), (false, HookAction::Swallow));
    assert_eq!(hook_step(held, key(VK_TAB, KeyMsg::SysKeyDown, true, false)), (true, HookAction::ShiftTab));
}

#[test]
fn other_keys_pass_and_ctrl_alt_r_restores() {
    assert_eq!(hook_step(false, key(0x41, KeyMsg::KeyDown, false, false)), (false, HookAction::Pass));
    assert_eq!(hook_step(true, key(VK_R, KeyMsg::KeyDown, false, true)), (true, HookAction::RestoreMain));
    assert_eq!(hook_step(false, key(VK_R, KeyMsg::SysKeyDown, false, true)), (false, HookAction::Pass));
    let no_ctrl = KeyEvent { action: true, vk: VK_TAB, msg: KeyMsg::KeyDown, ctrl: false, shift: false, alt: false };
    assert_eq!(hook_step(false, no_ctrl), (false, HookAction::Pass));
    let not_action = KeyEvent { action: false, ..key(VK_TAB, KeyMsg::KeyDown, false, false) };
    assert_eq!(hook_step(false, not_action), (false, HookAction::Pass));
}
