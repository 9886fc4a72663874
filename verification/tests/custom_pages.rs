use winux_kate::apps::{new_instance_step, NewInstance};
use winux_kate::custom::custom_slot;
use winux_kate::state::{AppState, CustomPage, SlotKind};

fn page(id: u8, name: &str) -> CustomPage {
    CustomPage { id, name: name.to_string(), exe: format!("C:\\Apps\\{name}.exe"), args: String::new() }
}

fn ids(st: &AppState) -> Vec<u8> {
    st.custom_pages.iter().map(|p| p.id).collect()
}

#[test]
fn first_custom_page_gets_id_five_then_max_plus_one() {
    let mut st = AppState::new(vec![]);
    let p = st.add_custom_page("Trae".to_string(), "C:\\Trae\\Trae.exe".to_string(), "--x".to_string());
    assert_eq!(p.id, 5);
    assert_eq!(p.name, "Trae");
    assert_eq!(p.args, "--x");
    let q = st.add_custom_page("Mail".to_string(), "mail.exe".to_string(), String::new());
    assert_eq!(q.id, 6);
    let mut st2 = AppState::new(vec![page(9, "A"), page(5, "B")]);
    assert_eq!(st2.add_custom_page("C".to_string(), "c.exe".to_string(), String::new()).id, 10);
}

#[test]
fn add_then_remove_page_restores_list() {
    let mut st = AppState::new(vec![page(5, "A"), page(8, "B")]);
    let before = ids(&st);
    let p = st.add_custom_page("New".to_string(), "new.exe".to_string(), String::new());
    assert_eq!(p.id, 9);
    let r = st.remove_custom_page(p.id);
    assert!(r.release.is_empty());
    assert!(!r.page_reset);
    assert_eq!(ids(&st), before);
}

#[test]
fn removing_shown_page_returns_to_page_one_and_releases_windows() {
    let mut st = AppState::new(vec![page(5, "A"), page(6, "B")]);
    st.adopt_custom_window(5, 0x100);
    st.adopt_custom_window(6, 0x200);
    st.set_current_page(5).unwrap();
    let r = st.remove_custom_page(5);
    assert!(r.page_reset);
    assert_eq!(r.release, vec![0x100]);
    assert_eq!(st.current_page, 1);
    assert_eq!(ids(&st), vec![6]);
    assert_eq!(st.custom_state(5).list, Vec::<usize>::new());
    assert_eq!(st.custom_state(6).list, vec![0x200]);
    assert_eq!(st.managed.len(), 1);
    assert_eq!(st.managed[0].hwnd, 0x200);
}

#[test]
fn custom_page_target_and_missing_page_error() {
    let st = AppState::new(vec![CustomPage {
        id: 5,
        name: "Trae".to_string(),
        exe: "C:\\Trae\\Trae.exe".to_string(),
        args: "--new".to_string(),
    }]);
    assert_eq!(st.custom_page_target(5), Ok(("C:\\Trae\\Trae.exe".to_string(), "--new".to_string())));
    assert_eq!(st.custom_page_target(7), Err("no custom page 7".to_string()));
}

#[test]
fn custom_slot_names() {
    assert_eq!(custom_slot(5), "custom-5");
    assert_eq!(custom_slot(255), "custom-255");
}

#[test]
fn adopting_windows_makes_the_newest_active() {
    let mut st = AppState::new(vec![page(5, "Trae")]);
    st.adopt_custom_window(5, 0x10);
    st.adopt_custom_window(5, 0x20);
    let s = st.custom_state(5);
    assert_eq!(s.list, vec![0x10, 0x20]);
    assert_eq!(s.active, 1);
    assert_eq!(st.managed.len(), 1);
    assert_eq!(st.managed[0].slot, "custom-5");
    assert_eq!(st.managed[0].hwnd, 0x20);
    assert_eq!(st.managed[0].kind, SlotKind::Custom);
    st.set_main_hwnd(0x99);
    assert_eq!(st.adoption_exclude(), vec![0x20, 0x99]);
}

#[test]
fn set_custom_active_clamps_to_last_instance() {
    let mut st = AppState::new(vec![page(5, "Trae")]);
    assert!(!st.set_custom_active(5, 0));
    st.adopt_custom_window(5, 0x10);
    st.adopt_custom_window(5, 0x20);
    assert!(st.set_custom_active(5, 0));
    assert_eq!(st.custom_state(5).active, 0);
    assert!(st.set_custom_active(5, 7));
    assert_eq!(st.custom_state(5).active, 1);
    assert!(!st.set_custom_active(6, 0));
    assert_eq!(st.custom_state(5).active, 1);
}

#[test]
fn cycling_all_live_instances_comes_back() {
    let mut st = AppState::new(vec![page(5, "Trae")]);
    st.adopt_custom_window(5, 0x10);
    st.adopt_custom_window(5, 0x20);
    st.adopt_custom_window(5, 0x30);
    assert!(st.set_custom_active(5, 1));
    let keep = vec![true, true, true];
    assert_eq!(st.cycle_custom(5, &keep), Some(2));
    assert_eq!(st.cycle_custom(5, &keep), Some(0));
    assert_eq!(st.cycle_custom(5, &keep), Some(1));
    assert_eq!(st.custom_state(5).active, 1);
    assert_eq!(st.custom_state(5).list, vec![0x10, 0x20, 0x30]);
}

#[test]
fn cycling_drops_dead_instances_first() {
    let mut st = AppState::new(vec![page(5, "Trae")]);
    st.adopt_custom_window(5, 0x10);
    st.adopt_custom_window(5, 0x20);
    st.adopt_custom_window(5, 0x30);
    // active is 2; the last window died
    assert_eq!(st.cycle_custom(5, &vec![true, true, false]), Some(0));
    assert_eq!(st.custom_state(5).list, vec![0x10, 0x20]);
    assert_eq!(st.cycle_custom(5, &vec![false, false]), None);
    assert_eq!(st.custom_state(5).list, Vec::<usize>::new());
    assert_eq!(st.cycle_custom(6, &vec![]), None);
}

#[test]
fn closing_an_instance_clamps_active() {
    let mut st = AppState::new(vec![page(5, "Trae")]);
    st.adopt_custom_window(5, 0x10);
    st.adopt_custom_window(5, 0x20);
    st.close_custom_window(5, 1, 0x20, false);
    assert_eq!(st.custom_state(5).list, vec![0x10, 0x20]);
    assert_eq!(st.custom_state(5).active, 1);
    st.close_custom_window(5, 1, 0x20, true);
    let s = st.custom_state(5);
    assert_eq!(s.list, vec![0x10]);
    assert_eq!(s.active, 0);
    assert!(st.managed.is_empty());
    st.close_custom_window(5, 0, 0x10, true);
    assert!(st.custom_instances.is_empty());
}

#[test]
fn pruning_instances_clamps_or_drops_entry() {
    let mut st = AppState::new(vec![page(5, "Trae")]);
    st.adopt_custom_window(5, 0x10);
    st.adopt_custom_window(5, 0x20);
    st.prune_custom_clamped(5, &vec![true, false]);
    assert_eq!(st.custom_state(5).list, vec![0x10]);
    assert_eq!(st.custom_state(5).active, 0);
    st.prune_custom_clamped(5, &vec![false]);
    assert!(st.custom_instances.is_empty());
}

#[test]
fn custom_exe_names_are_lowercased_file_names() {
    let st = AppState::new(vec![
        CustomPage { id: 5, name: "T".to_string(), exe: "C:\\Apps\\Trae\\Trae.EXE".to_string(), args: String::new() },
        CustomPage { id: 6, name: "N".to_string(), exe: "Notepad.exe".to_string(), args: String::new() },
    ]);
    assert_eq!(st.custom_exe_names(), vec!["trae.exe".to_string(), "notepad.exe".to_string()]);
}

#[test]
fn new_instance_adopts_an_unheld_window_or_launches() {
    match new_instance_step(&vec![0x10, 0x20, 0x30], &vec![0x10, 0x30], "--x  y") {
        NewInstance::Adopt(h) => assert_eq!(h, 0x20),
        other => panic!("expected adoption, got {other:?}"),
    }
    match new_instance_step(&vec![0x10], &vec![0x10], "--new-window  C:\\src") {
        NewInstance::Launch(a) => assert_eq!(a, vec!["--new-window".to_string(), "C:\\src".to_string()]),
        other => panic!("expected a launch, got {other:?}"),
    }
    match new_instance_step(&vec![], &vec![], "") {
        NewInstance::Launch(a) => assert!(a.is_empty()),
        other => panic!("expected a launch, got {other:?}"),
    }
}
