use winux_kate::discovery::{
    adoptable_windows_filtered, find_all_windows_by_processes, find_new_window_by_processes,
    find_window_by_processes, find_window_in_tree, is_descendant, is_real_app_window, ProcInfo,
    WindowInfo, WS_EX_TOOLWINDOW,
};
use winux_kate::layout::{WinOp, WindowObs};
use winux_kate::managed::{desktop_cascade_rect, indexed_slot, Release};
use winux_kate::state::{AppState, CustomPage, ImView, Rect, SlotKind, SlotRect};

fn rect(x: i32, y: i32, w: i32, h: i32) -> Rect {
    Rect { x, y, w, h }
}

fn slot(id: &str, r: Rect, kind: SlotKind, page: u8) -> SlotRect {
    SlotRect { id: id.to_string(), rect: r, kind, page }
}

fn proc_(pid: u32, name: &str, parent: u32) -> ProcInfo {
    ProcInfo { pid, name: name.to_string(), parent }
}

fn win(hwnd: usize, pid: u32, title: &str) -> WindowInfo {
    WindowInfo { hwnd, pid, visible: true, is_window: true, title: title.to_string(), ex_style: 0 }
}

#[test]
fn reporting_same_rects_twice_changes_nothing_second_time() {
    let mut st = AppState::new(vec![]);
    let rects = vec![
        slot("ide", rect(0, 40, 800, 600), SlotKind::Ide, 2),
        slot("wechat", rect(10, 50, 400, 600), SlotKind::WeChat, 3),
    ];
    assert!(st.report_slot_rects(rects.clone()));
    assert_eq!(st.slots.len(), 2);
    assert!(!st.report_slot_rects(rects));
    assert_eq!(st.slots.len(), 2);
    assert!(st.report_slot_rects(vec![slot("ide", rect(0, 40, 900, 600), SlotKind::Ide, 2)]));
    assert_eq!(st.slots[0].rect, rect(0, 40, 900, 600));
}

#[test]
fn managed_window_lookup_and_error() {
    let mut st = AppState::new(vec![]);
    st.add_managed("desktop-1".to_string(), 0x42, 4, SlotKind::DesktopApp);
    let w = st.managed_window(&"desktop-1".to_string()).unwrap();
    assert_eq!(w.hwnd, 0x42);
    assert_eq!(w.page, 4);
    let e = st.managed_window(&"desktop-9".to_string()).unwrap_err();
    assert_eq!(e, "no managed window in slot desktop-9");
    st.forget_slot(&"desktop-1".to_string());
    assert!(st.managed.is_empty());
}

#[test]
fn messenger_windows_get_indexed_slots_once() {
    let mut st = AppState::new(vec![]);
    let first = st.register_im_windows(&vec![0x500, 0x501], SlotKind::WeChat, &"wechat".to_string());
    assert_eq!(first, 0x500);
    assert_eq!(st.managed.len(), 2);
    assert_eq!(st.managed[0].slot, "wechat-0");
    assert_eq!(st.managed[1].slot, "wechat-1");
    assert_eq!(st.managed[1].page, 3);
    let again = st.register_im_windows(&vec![0x500], SlotKind::WeChat, &"wechat".to_string());
    assert_eq!(again, 0);
    assert_eq!(st.managed.len(), 2);
    assert_eq!(st.count_managed(SlotKind::WeChat), 2);
    assert!(st.has_kind(SlotKind::WeChat));
    assert!(!st.has_kind(SlotKind::WeCom));
    assert_eq!(st.unmanaged(&vec![0x500, 0x777]), vec![0x777]);
    assert_eq!(indexed_slot(&"qq".to_string(), 12), "qq-12");
}

#[test]
fn desktop_windows_cascade() {
    let mut st = AppState::new(vec![]);
    let (s1, r1) = st.add_desktop_window(0x900, None);
    assert_eq!(s1, "desktop-1");
    assert_eq!(r1, rect(0, 0, 768, 640));
    let (s2, r2) = st.add_desktop_window(0x901, Some(rect(0, 0, 400, 200)));
    assert_eq!(s2, "desktop-2");
    assert_eq!(r2, rect(40, 40, 320, 240));
    assert_eq!(st.desktop_windows().len(), 2);
    assert_eq!(desktop_cascade_rect(6, None), rect(0, 0, 768, 640));
    assert_eq!(desktop_cascade_rect(7, Some(rect(0, 0, 1000, 1000))), rect(40, 40, 600, 800));
}

#[test]
fn dead_windows_are_pruned_with_their_slots() {
    let mut st = AppState::new(vec![CustomPage {
        id: 5,
        name: "T".to_string(),
        exe: "t.exe".to_string(),
        args: String::new(),
    }]);
    st.add_ide_instance(0x1, None, "a".to_string());
    st.add_managed("desktop-1".to_string(), 0x10, 4, SlotKind::DesktopApp);
    st.add_managed("custom-5".to_string(), 0x20, 5, SlotKind::Custom);
    st.report_slot_rects(vec![slot("desktop-1", rect(0, 0, 10, 10), SlotKind::DesktopApp, 4)]);
    let changed = st.prune_dead_windows(&vec![true], &vec![false, false]);
    assert!(!changed);
    assert_eq!(st.managed.len(), 1);
    assert_eq!(st.managed[0].slot, "custom-5");
    assert!(st.slots.is_empty());
}

#[test]
fn hide_and_release_plans() {
    let mut st = AppState::new(vec![]);
    st.add_managed("desktop-1".to_string(), 0x10, 4, SlotKind::DesktopApp);
    st.add_managed("custom-5".to_string(), 0x20, 5, SlotKind::Custom);
    st.add_ide_instance(0x30, None, "a".to_string());
    st.adopt_custom_window(5, 0x40);
    assert_eq!(st.hide_all_plan(), vec![0x10, 0x30]);
    let r = st.release_all_plan();
    assert_eq!(
        r,
        vec![
            Release { hwnd: 0x10, gentle: false },
            Release { hwnd: 0x40, gentle: true },
            Release { hwnd: 0x30, gentle: false },
            Release { hwnd: 0x40, gentle: true },
        ]
    );
}

#[test]
fn layout_shows_only_active_ide_on_ide_page() {
    let mut st = AppState::new(vec![]);
    st.add_ide_instance(0x100, None, "a".to_string());
    st.add_ide_instance(0x200, None, "b".to_string());
    st.register_im_windows(&vec![0x500], SlotKind::WeChat, &"wechat".to_string());
    let r = rect(0, 40, 800, 600);
    st.report_slot_rects(vec![slot("ide", r, SlotKind::Ide, 2)]);
    st.set_current_page(2).unwrap();
    let ops = st.layout_plan(false, None);
    assert_eq!(
        ops,
        vec![
            WinOp::MainToBottom(false),
            WinOp::Topmost(0x100, false),
            WinOp::Park(0x100),
            WinOp::MoveTo(0x200, r),
            WinOp::Show(0x200),
            WinOp::Topmost(0x200, true),
            WinOp::Topmost(0x500, false),
            WinOp::Park(0x500),
        ]
    );
}

#[test]
fn layout_is_the_same_when_repeated() {
    let mut st = AppState::new(vec![]);
    st.add_ide_instance(0x100, None, "a".to_string());
    st.register_im_windows(&vec![0x500], SlotKind::WeChat, &"wechat".to_string());
    st.report_slot_rects(vec![slot("ide", rect(0, 40, 800, 600), SlotKind::Ide, 2)]);
    st.set_current_page(2).unwrap();
    let first = st.layout_plan(false, None);
    let second = st.layout_plan(false, None);
    assert_eq!(first, second);
    assert_eq!(st.layout_plan(true, None), st.layout_plan(true, None));
}

#[test]
fn layout_on_messenger_page_moves_to_slot_corner() {
    let mut st = AppState::new(vec![]);
    st.register_im_windows(&vec![0x500], SlotKind::WeChat, &"wechat".to_string());
    st.register_im_windows(&vec![0x600], SlotKind::WeCom, &"wecom".to_string());
    st.report_slot_rects(vec![slot("wechat", rect(10, 50, 400, 600), SlotKind::WeChat, 3)]);
    st.set_current_page(3).unwrap();
    assert_eq!(
        st.layout_plan(false, None),
        vec![
            WinOp::MainToBottom(false),
            WinOp::MoveOrigin(0x500, 10, 50),
            WinOp::Show(0x500),
            WinOp::Topmost(0x500, true),
            WinOp::Topmost(0x600, false),
            WinOp::Park(0x600),
        ]
    );
    st.toggle_im_view();
    assert_eq!(st.im_view, ImView::WeCom);
    assert_eq!(
        st.layout_plan(false, None),
        vec![
            WinOp::MainToBottom(false),
            WinOp::Topmost(0x500, false),
            WinOp::Park(0x500),
            WinOp::Show(0x600),
            WinOp::Topmost(0x600, true),
        ]
    );
}

#[test]
fn layout_on_custom_page_only_foregrounds_custom_window() {
    let mut st = AppState::new(vec![CustomPage {
        id: 5,
        name: "T".to_string(),
        exe: "t.exe".to_string(),
        args: String::new(),
    }]);
    st.adopt_custom_window(5, 0x40);
    st.add_managed("desktop-1".to_string(), 0x10, 4, SlotKind::DesktopApp);
    st.set_current_page(5).unwrap();
    assert_eq!(st.active_custom_hwnd(5), Some(0x40));
    assert_eq!(st.active_custom_hwnd(6), None);
    assert_eq!(
        st.layout_plan(false, Some(0x40)),
        vec![
            WinOp::Foreground(0x40),
            WinOp::MainToBottom(true),
            WinOp::Topmost(0x10, false),
            WinOp::Hide(0x10),
        ]
    );
    assert_eq!(
        st.layout_plan(false, None),
        vec![WinOp::MainToBottom(false), WinOp::Topmost(0x10, false), WinOp::Hide(0x10)]
    );
}

#[test]
fn minimized_shell_puts_everything_away() {
    let mut st = AppState::new(vec![]);
    st.add_managed("desktop-1".to_string(), 0x10, 4, SlotKind::DesktopApp);
    st.add_managed("custom-5".to_string(), 0x20, 5, SlotKind::Custom);
    st.register_im_windows(&vec![0x500], SlotKind::Qq, &"qq".to_string());
    st.add_ide_instance(0x30, None, "a".to_string());
    let ops = st.layout_plan(true, Some(0x20));
    assert_eq!(ops, vec![WinOp::Hide(0x10), WinOp::Park(0x500), WinOp::Park(0x30)]);
    assert!(ops.iter().all(|op| matches!(op, WinOp::Hide(_) | WinOp::Park(_))));
}

#[test]
fn watchdog_restores_messengers_and_pins_custom_window() {
    let mut st = AppState::new(vec![CustomPage {
        id: 5,
        name: "T".to_string(),
        exe: "t.exe".to_string(),
        args: String::new(),
    }]);
    st.register_im_windows(&vec![0x500], SlotKind::WeChat, &"wechat".to_string());
    st.adopt_custom_window(5, 0x40);
    st.add_ide_instance(0x30, None, "a".to_string());
    st.set_current_page(3).unwrap();
    let mobs = vec![
        WindowObs { iconic: true, topmost: false },
        WindowObs { iconic: false, topmost: false },
    ];
    let iobs = vec![WindowObs { iconic: false, topmost: true }];
    let live = vec![vec![true]];
    assert_eq!(
        st.pin_plan(&mobs, &iobs, &live, 0),
        vec![WinOp::Restore(0x500), WinOp::Topmost(0x500, true), WinOp::Park(0x30)]
    );
    st.set_current_page(5).unwrap();
    assert_eq!(
        st.pin_plan(&mobs, &iobs, &live, 0x99),
        vec![WinOp::Park(0x500), WinOp::Park(0x30), WinOp::MainToBottom(true), WinOp::Foreground(0x40)]
    );
    assert_eq!(st.pin_plan(&mobs, &iobs, &live, 0x40), vec![WinOp::Park(0x500), WinOp::Park(0x30)]);
    assert_eq!(
        st.pin_plan(&mobs, &iobs, &vec![vec![false]], 0x99),
        vec![WinOp::Park(0x500), WinOp::Park(0x30), WinOp::MainToBottom(false)]
    );
}

#[test]
fn process_tree_and_window_search() {
    let procs = vec![
        proc_(1, "explorer.exe", 0),
        proc_(10, "Weixin.exe", 1),
        proc_(11, "WeChatAppEx.exe", 10),
        proc_(20, "notepad.exe", 1),
    ];
    assert!(is_descendant(11, 10, &procs));
    assert!(is_descendant(10, 10, &procs));
    assert!(!is_descendant(20, 10, &procs));
    let windows = vec![win(0xa, 20, "Untitled - Notepad"), win(0xb, 10, "微信"), win(0xc, 11, "Mini")];
    let names = vec!["weixin.exe".to_string(), "WeChat.exe".to_string()];
    assert_eq!(find_window_by_processes(&windows, &procs, &names), Some(0xb));
    assert_eq!(find_all_windows_by_processes(&windows, &procs, &names), vec![0xb]);
    assert_eq!(find_window_in_tree(&windows, &procs, 10, &vec![]), Some(0xb));
    assert_eq!(find_window_in_tree(&windows, &procs, 10, &vec![0xb]), Some(0xc));
    assert_eq!(find_new_window_by_processes(&windows, &procs, &names, &vec![0xb]), None);
}

#[test]
fn real_windows_exclude_hidden_untitled_and_ime() {
    assert!(is_real_app_window(&win(1, 1, "Editor")));
    assert!(!is_real_app_window(&win(1, 1, "   ")));
    assert!(!is_real_app_window(&win(1, 1, "MSCTFIME UI")));
    assert!(!is_real_app_window(&win(1, 1, "Default IME")));
    let mut hidden = win(1, 1, "Editor");
    hidden.visible = false;
    assert!(!is_real_app_window(&hidden));
}

#[test]
fn adoptable_windows_skip_own_tree_excluded_and_blocked() {
    let procs = vec![
        proc_(100, "kate.exe", 1),
        proc_(101, "msedgewebview2.exe", 100),
        proc_(200, "notepad.exe", 1),
        proc_(300, "Trae.exe", 1),
    ];
    let mut tool = win(0x4, 200, "Tool");
    tool.ex_style = WS_EX_TOOLWINDOW;
    let windows = vec![
        win(0x1, 101, "WebView"),
        win(0x2, 200, "Untitled - Notepad"),
        win(0x3, 300, "Trae"),
        tool,
        win(0x5, 200, "IME"),
        win(0x6, 200, "Second"),
    ];
    let r = adoptable_windows_filtered(&windows, &procs, &vec![0x6], 100, &vec!["trae.exe".to_string()]);
    assert_eq!(r, vec![(0x2, "Untitled - Notepad".to_string())]);
}

#[test]
fn messenger_discovery_only_for_shown_managed_kinds() {
    let mut st = AppState::new(vec![]);
    st.register_im_windows(&vec![0x500], SlotKind::WeChat, &"wechat".to_string());
    st.register_im_windows(&vec![0x600], SlotKind::WeCom, &"wecom".to_string());
    assert!(st.im_discovery_kinds().is_empty());
    st.set_current_page(3).unwrap();
    assert_eq!(st.im_discovery_kinds(), vec![SlotKind::WeChat]);
    st.toggle_im_view();
    assert_eq!(st.im_discovery_kinds(), vec![SlotKind::WeCom]);
    st.register_discovered_im(&vec![0x600, 0x601], SlotKind::WeCom, &"wecom".to_string());
    assert_eq!(st.managed.len(), 3);
    assert_eq!(st.managed[2].slot, "wecom-1");
}

#[test]
fn messenger_paths_last_one_wins() {
    use_paths();
}

fn use_paths() {
    let mut st = AppState::new(vec![]);
    st.set_im_paths(vec![
        winux_kate::state::ImPath { kind: "qq".to_string(), path: "C:\\QQ\\old.exe".to_string() },
        winux_kate::state::ImPath { kind: "wechat".to_string(), path: "C:\\W\\Weixin.exe".to_string() },
        winux_kate::state::ImPath { kind: "qq".to_string(), path: "C:\\QQ\\QQ.exe".to_string() },
    ]);
    assert_eq!(st.im_path(&"qq".to_string()), Some("C:\\QQ\\QQ.exe".to_string()));
    assert_eq!(st.im_path(&"wechat".to_string()), Some("C:\\W\\Weixin.exe".to_string()));
    assert_eq!(st.im_path(&"wecom".to_string()), None);
    st.set_im_paths(vec![winux_kate::state::ImPath { kind: "wecom".to_string(), path: "x".to_string() }]);
    assert_eq!(st.im_paths.len(), 3);
    assert_eq!(st.im_path(&"qq".to_string()), Some("C:\\QQ\\QQ.exe".to_string()));
}

#[test]
fn messenger_base_slots() {
    assert_eq!(winux_kate::layout::im_base(SlotKind::WeChat), "wechat");
    assert_eq!(winux_kate::layout::im_base(SlotKind::Qq), "qq");
    assert_eq!(winux_kate::layout::im_base(SlotKind::WeCom), "wecom");
    assert_eq!(winux_kate::layout::im_base(SlotKind::DesktopApp), "");
}

#[test]
fn new_messenger_windows_never_displace_embedded_ones() {
    let mut st = AppState::new(vec![]);
    st.add_managed("wechat-1".to_string(), 1, 3, SlotKind::WeChat);
    assert_eq!(st.register_im_windows(&vec![1, 2], SlotKind::WeChat, &"wechat".to_string()), 2);
    assert_eq!(st.managed.len(), 2);
    assert_eq!((st.managed[0].slot.as_str(), st.managed[0].hwnd), ("wechat-1", 1));
    assert_eq!((st.managed[1].slot.as_str(), st.managed[1].hwnd), ("wechat-2", 2));
    st.register_discovered_im(&vec![3], SlotKind::WeChat, &"wechat".to_string());
    assert_eq!((st.managed[2].slot.as_str(), st.managed[2].hwnd), ("wechat-3", 3));
    assert_eq!(st.managed[0].hwnd, 1);
}
