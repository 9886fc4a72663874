use winux_kate::apps::{
    detect_im, detect_vscode, im_exe_candidates, im_kind_info, im_process_names, install_roots,
    launch_args, locate_vscode, process_name, vscode_exe, vscode_args, vscode_candidates,
};
use winux_kate::config::{load, save, SavedPage};
use winux_kate::entries::{sort_entries, DirEntry};
use winux_kate::pty::{encode_output, PtySessions};
use winux_kate::shell::{
    explorer_running, install_as_shell, is_running_as_shell, parent_process_name, registry_shell_value,
    shell_path, shell_set_result, should_take_over_shell, uninstall_shell,
};
use winux_kate::shortcuts::{
    bgra_to_rgba, desktop_dirs, icon_buffer_len, icon_data_url, is_lnk, make_shortcut, shortcut_name,
};
use winux_kate::discovery::ProcInfo;
use winux_kate::state::{CustomPage, SlotKind};
use winux_kate::system::{brightness_query, parse_u8, read_brightness, set_brightness, wifi_info};
use winux_kate::text::{
    blank, contains_str, eq_ignore_ascii_case, file_name, is_ime_title, is_whitespace, split_whitespace,
};
use winux_kate::utf16::{decode_units, registry_string_bytes, utf16_to_string};

fn utf16(s: &str) -> Vec<u16> {
    s.encode_utf16().collect()
}

#[test]
fn file_names_follow_windows_paths() {
    assert_eq!(file_name("C:\\Apps\\Trae\\Trae.exe"), Some("Trae.exe".to_string()));
    assert_eq!(file_name("C:/Apps/code.exe"), Some("code.exe".to_string()));
    assert_eq!(file_name("notepad.exe"), Some("notepad.exe".to_string()));
    assert_eq!(file_name("C:\\src\\kate\\"), Some("kate".to_string()));
    assert_eq!(file_name("C:\\"), None);
    assert_eq!(file_name(""), None);
    assert_eq!(file_name("C:\\src\\.."), None);
}

#[test]
fn file_names_skip_share_and_device_prefixes() {
    assert_eq!(file_name("\\\\nas\\projects"), None);
    assert_eq!(file_name("\\\\nas\\projects\\"), None);
    assert_eq!(file_name("\\\\nas\\projects\\foo"), Some("foo".to_string()));
    assert_eq!(file_name("//nas/projects/foo/"), Some("foo".to_string()));
    assert_eq!(file_name("\\\\.\\COM1"), None);
    assert_eq!(file_name("\\\\?\\C:\\a\\."), None);
    assert_eq!(file_name("\\\\?\\C:\\a/b"), Some("a/b".to_string()));
    assert_eq!(file_name("\\\\?\\UNC\\nas\\share"), None);
    assert_eq!(file_name("\\\\?\\UNC\\nas\\share\\x.txt"), Some("x.txt".to_string()));
    assert_eq!(file_name("\\\\nas"), Some("nas".to_string()));
    assert_eq!(file_name("C:foo"), Some("foo".to_string()));
    assert_eq!(file_name("C:\\a\\."), Some("a".to_string()));
}

#[test]
fn text_helpers() {
    assert!(eq_ignore_ascii_case("Winlogon.EXE", "winlogon.exe"));
    assert!(!eq_ignore_ascii_case("winlogon.ex", "winlogon.exe"));
    assert!(contains_str("hello world", "o w"));
    assert!(contains_str("abc", ""));
    assert!(!contains_str("abc", "abcd"));
    assert!(blank(" \t\r\n"));
    assert!(!blank(" x "));
    assert!(is_whitespace('\u{3000}'));
    assert!(!is_whitespace('x'));
    assert_eq!(split_whitespace("  --new-window \t C:\\src  "), vec!["--new-window".to_string(), "C:\\src".to_string()]);
    assert!(split_whitespace("   ").is_empty());
}

#[test]
fn ime_titles_are_recognised_case_insensitively() {
    assert!(is_ime_title("MSCTFIME UI"));
    assert!(is_ime_title("Default IME"));
    assert!(is_ime_title("IME"));
    assert!(!is_ime_title("IME settings"));
    assert!(!is_ime_title("Trae"));
}

#[test]
fn utf16_roundtrip_through_registry_bytes() {
    let s = "C:\\Kate\\kate.exe 😀";
    let bytes = registry_string_bytes(s);
    let units: Vec<u16> = bytes.chunks(2).map(|c| u16::from_le_bytes([c[0], c[1]])).collect();
    assert_eq!(*units.last().unwrap(), 0);
    assert_eq!(utf16_to_string(&units), s);
}

#[test]
fn utf16_decoding_stops_at_nul_and_replaces_lone_surrogates() {
    let mut buf = utf16("ab");
    buf.push(0);
    buf.extend(utf16("cd"));
    assert_eq!(utf16_to_string(&buf), "ab");
    assert_eq!(utf16_to_string(&[0x61, 0xD800, 0x62]), "a\u{FFFD}b");
    assert_eq!(utf16_to_string(&[0xDC00]), "\u{FFFD}");
    assert_eq!(decode_units(&utf16("hello"), 3), "hel");
}

#[test]
fn shell_registry_values() {
    assert_eq!(
        uninstall_shell(0),
        Ok(vec![b'e', 0, b'x', 0, b'p', 0, b'l', 0, b'o', 0, b'r', 0, b'e', 0, b'r', 0, b'.', 0, b'e', 0, b'x', 0, b'e', 0, 0, 0])
    );
    assert_eq!(install_as_shell("K", 0), Ok(vec![b'K', 0, 0, 0]));
    let mut buf = utf16("explorer.exe");
    buf.push(0);
    buf.push(0);
    assert_eq!(registry_shell_value(&buf, 28), "explorer.exe");
    assert_eq!(registry_shell_value(&buf, 6), "exp");
}

#[test]
fn shell_write_errors() {
    assert_eq!(shell_set_result(0), Ok(()));
    assert_eq!(
        install_as_shell("C:\\k.exe", 5),
        Err("failed to open Winlogon registry key (admin required)".to_string())
    );
    assert_eq!(uninstall_shell(2), Err("failed to open Winlogon registry key (admin required)".to_string()));
    assert_eq!(shell_set_result(5), Err("failed to write Shell registry value".to_string()));
}

#[test]
fn shell_mode_detection() {
    assert!(should_take_over_shell(&vec!["kate.exe".to_string(), "--shell".to_string()], &None));
    assert!(should_take_over_shell(&vec![], &Some("1".to_string())));
    assert!(!should_take_over_shell(&vec!["--shel".to_string()], &Some("0".to_string())));
    assert!(is_running_as_shell(&Some("WINLOGON.EXE".to_string())));
    assert!(!is_running_as_shell(&Some("explorer.exe".to_string())));
    assert!(!is_running_as_shell(&None));
    assert!(explorer_running(&vec!["svchost.exe".to_string(), "Explorer.EXE".to_string()]));
    assert!(!explorer_running(&vec!["svchost.exe".to_string()]));
    assert_eq!(shell_path(None, Some("C:\\k.exe".to_string())), "C:\\k.exe");
    assert_eq!(shell_path(Some("D:\\x.exe".to_string()), Some("C:\\k.exe".to_string())), "D:\\x.exe");
    assert_eq!(shell_path(None, None), "");
}

#[test]
fn parent_process_lookup() {
    let procs = vec![
        ProcInfo { pid: 4, name: "winlogon.exe".to_string(), parent: 1 },
        ProcInfo { pid: 9, name: "kate.exe".to_string(), parent: 4 },
    ];
    assert_eq!(parent_process_name(&procs, 9), Some("winlogon.exe".to_string()));
    assert_eq!(parent_process_name(&procs, 4), None);
    assert_eq!(parent_process_name(&procs, 7), None);
}

#[test]
fn brightness_is_clamped_and_cached() {
    let mut cache = None;
    let script = set_brightness(&mut cache, 150);
    assert_eq!(script, "(Get-WmiObject -Namespace root/wmi -Class WmiMonitorBrightnessMethods).WmiSetBrightness(1,100)");
    assert_eq!(cache, Some(100));
    assert_eq!(read_brightness(&mut cache, &Some("42".to_string())), Some(100));
    let mut empty = None;
    assert_eq!(read_brightness(&mut empty, &Some(" 42\r\n".to_string())), Some(42));
    assert_eq!(empty, Some(42));
    let mut bad = None;
    assert_eq!(read_brightness(&mut bad, &Some("n/a".to_string())), None);
    assert_eq!(bad, None);
    assert_eq!(read_brightness(&mut bad, &None), None);
}

#[test]
fn brightness_is_read_only_without_a_remembered_value() {
    assert_eq!(brightness_query(&Some(40)), None);
    assert_eq!(
        brightness_query(&None),
        Some("(Get-WmiObject -Namespace root/wmi -Class WmiMonitorBrightness).CurrentBrightness".to_string())
    );
}

#[test]
fn parse_u8_like_from_str() {
    assert_eq!(parse_u8("255"), Some(255));
    assert_eq!(parse_u8("+7"), Some(7));
    assert_eq!(parse_u8("007"), Some(7));
    assert_eq!(parse_u8("256"), None);
    assert_eq!(parse_u8(""), None);
    assert_eq!(parse_u8("+"), None);
    assert_eq!(parse_u8("-1"), None);
    assert_eq!(parse_u8("1 "), None);
}

#[test]
fn wifi_ssid_from_netsh_output() {
    let out = "\r\nThere is 1 interface on the system:\r\n\r\n    Name                   : Wi-Fi\r\n    SSID                   : HomeNet 5G\r\n    BSSID                  : aa:bb:cc:dd:ee:ff\r\n";
    assert_eq!(wifi_info(out), ("HomeNet 5G".to_string(), true));
    let bssid_first = "    BSSID : 11:22\n    SSID : Cafe\n";
    assert_eq!(wifi_info(bssid_first), ("Cafe".to_string(), true));
    assert_eq!(wifi_info("    SSID :   \n    State : disconnected\n"), (String::new(), false));
    assert_eq!(wifi_info("SSIDs: 3\n"), (String::new(), false));
    assert_eq!(wifi_info(""), (String::new(), false));
}

#[test]
fn pty_sessions_lifecycle() {
    let mut s = PtySessions::new();
    let a = s.register();
    let b = s.register();
    assert_eq!((a, b), (1, 2));
    assert!(s.contains(a));
    assert_eq!(s.write(a), Ok(()));
    assert_eq!(s.resize(b), Ok(()));
    assert_eq!(s.kill(a), Ok(()));
    assert!(!s.contains(a));
    assert_eq!(s.write(a), Err("no pty session 1".to_string()));
    assert_eq!(s.resize(7), Err("no pty session 7".to_string()));
}

#[test]
fn terminal_output_is_base64() {
    assert_eq!(encode_output(b"hi"), "aGk=");
    assert_eq!(encode_output(b""), "");
    assert_eq!(encode_output(&[0xff, 0xfe, 0xfd]), "//79");
    assert_eq!(encode_output(b"Man"), "TWFu");
    assert_eq!(encode_output(b"M"), "TQ==");
    assert_eq!(encode_output(b"hello world"), "aGVsbG8gd29ybGQ=");
}

#[test]
fn shortcuts_names_and_extensions() {
    assert!(is_lnk("C:\\Users\\me\\Desktop\\Notepad.LNK"));
    assert!(!is_lnk("C:\\Users\\me\\Desktop\\readme.txt"));
    assert!(!is_lnk("C:\\Users\\me\\Desktop\\.lnk"));
    assert_eq!(shortcut_name("C:\\Users\\me\\Desktop\\My App.lnk"), "My App");
    assert_eq!(shortcut_name("C:\\Desktop\\archive.tar.lnk"), "archive.tar");
    assert_eq!(shortcut_name("C:\\Desktop\\.hidden"), ".hidden");
    let mut t = utf16("C:\\Windows\\notepad.exe");
    t.push(0);
    let mut a = utf16("/A");
    a.push(0);
    let s = make_shortcut("C:\\Desktop\\Notepad.lnk", &t, &a, String::new());
    assert_eq!(s.name, "Notepad");
    assert_eq!(s.target, "C:\\Windows\\notepad.exe");
    assert_eq!(s.args, "/A");
    assert_eq!(
        desktop_dirs(&Some("C:\\Users\\me".to_string())),
        vec!["C:\\Users\\me\\Desktop".to_string(), "C:\\Users\\Public\\Desktop".to_string()]
    );
    assert_eq!(desktop_dirs(&None), vec!["C:\\Users\\Public\\Desktop".to_string()]);
}

#[test]
fn icon_pixels_and_png() {
    let mut px = vec![1, 2, 3, 4, 5, 6, 7, 8];
    bgra_to_rgba(&mut px);
    assert_eq!(px, vec![3, 2, 1, 4, 7, 6, 5, 8]);
    assert_eq!(icon_buffer_len(32, 32), Some(4096));
    assert_eq!(icon_buffer_len(0, 32), None);
    assert_eq!(icon_buffer_len(-1, 5), None);
    let url = icon_data_url(1, 1, vec![0, 0, 255, 255]).unwrap();
    assert!(url.starts_with("data:image/png;base64,iVBORw0KGgo"));
    assert!(url.len() > "data:image/png;base64,".len() + 40);
}

#[test]
fn directory_listing_order() {
    let e = |name: &str, is_dir: bool| DirEntry { name: name.to_string(), path: format!("C:\\x\\{name}"), is_dir };
    let sorted = sort_entries(vec![e("b.txt", false), e("Zeta", true), e("A.txt", false), e("alpha", true)]);
    let names: Vec<String> = sorted.iter().map(|d| d.name.clone()).collect();
    assert_eq!(names, vec!["alpha", "Zeta", "A.txt", "b.txt"]);
    assert!(sort_entries(vec![]).is_empty());
}

#[test]
fn saved_pages_roundtrip() {
    let saved = vec![
        SavedPage { name: "Trae".to_string(), exe: "C:\\Trae\\Trae.exe".to_string(), args: String::new() },
        SavedPage { name: "Mail".to_string(), exe: "mail.exe".to_string(), args: "-x".to_string() },
    ];
    let pages = load(saved);
    assert_eq!(pages.iter().map(|p| p.id).collect::<Vec<u8>>(), vec![5, 6]);
    assert_eq!(pages[1].args, "-x");
    let back = save(&pages);
    assert_eq!(back.len(), 2);
    assert_eq!(back[0].name, "Trae");
    assert_eq!(back[1].exe, "mail.exe");
    let again = load(back);
    assert_eq!(again[0].exe, pages[0].exe);
    assert_eq!(again[1].id, 6);
    let p: &CustomPage = &again[1];
    assert_eq!(p.name, "Mail");
}

#[test]
fn messenger_kinds() {
    let k = im_kind_info("wechat").unwrap();
    assert_eq!(k.names, vec!["Weixin.exe".to_string(), "WeChat.exe".to_string()]);
    assert_eq!(k.base, "wechat");
    assert_eq!(k.kind, SlotKind::WeChat);
    assert_eq!(im_kind_info("qq").unwrap().kind, SlotKind::Qq);
    assert_eq!(im_kind_info("wecom").unwrap().names, vec!["WXWork.exe".to_string()]);
    assert_eq!(im_kind_info("slack").err(), Some("unknown im kind: slack".to_string()));
    assert_eq!(im_process_names("qq"), Some(vec!["QQ.exe".to_string()]));
    assert_eq!(im_process_names("x"), None);
    assert_eq!(im_exe_candidates("wechat"), vec!["Weixin.exe".to_string(), "WeChat.exe".to_string()]);
    assert!(im_exe_candidates("x").is_empty());
    assert!(detect_im("qq", false, true, false));
    assert!(!detect_im("qq", false, false, false));
    assert!(!detect_im("slack", true, true, true));
}

#[test]
fn vscode_detection_and_launch_args() {
    let c = vscode_candidates(Some("C:\\Users\\me\\AppData\\Local".to_string()));
    assert_eq!(
        c,
        vec![
            "C:\\Users\\me\\AppData\\Local\\Programs\\Microsoft VS Code\\Code.exe".to_string(),
            "C:\\Program Files\\Microsoft VS Code\\Code.exe".to_string(),
            "C:\\Program Files (x86)\\Microsoft VS Code\\Code.exe".to_string(),
        ]
    );
    assert_eq!(vscode_candidates(None).len(), 2);
    assert_eq!(locate_vscode(&c, &vec![false, true, true]), Some(c[1].clone()));
    assert_eq!(locate_vscode(&c, &vec![false, false, false]), None);
    assert_eq!(vscode_exe(&Some(c[1].clone())), Ok(c[1].clone()));
    assert_eq!(vscode_exe(&None), Err("VSCode (Code.exe) not found".to_string()));
    assert!(detect_vscode(&c, &vec![false, false, true]));
    assert!(!detect_vscode(&c, &vec![false, false, false]));
    assert_eq!(vscode_args(&None), vec!["--new-window".to_string()]);
    assert_eq!(
        vscode_args(&Some("C:\\src".to_string())),
        vec!["--new-window".to_string(), "C:\\src".to_string()]
    );
    assert_eq!(launch_args(" --a  b "), vec!["--a".to_string(), "b".to_string()]);
    assert_eq!(process_name(&"C:\\Apps\\Trae.exe".to_string()), "Trae.exe");
    assert_eq!(
        install_roots(Some("L".to_string())),
        vec![
            "C:\\Program Files\\Tencent".to_string(),
            "C:\\Program Files (x86)\\Tencent".to_string(),
            "C:\\Program Files\\WXWork".to_string(),
            "C:\\Program Files (x86)\\WXWork".to_string(),
            "L\\Programs".to_string(),
            "L\\Tencent".to_string(),
        ]
    );
}

#[test]
fn directory_listing_is_stable_for_equal_keys() {
    let e = |name: &str, is_dir: bool| DirEntry { name: name.to_string(), path: format!("C:\\x\\{name}"), is_dir };
    let sorted = sort_entries(vec![e("readme", false), e("B", true), e("README", false), e("b", true)]);
    let names: Vec<String> = sorted.iter().map(|d| d.name.clone()).collect();
    assert_eq!(names, vec!["B", "b", "readme", "README"]);
}

#[test]
fn installed_shell_value_reads_back() {
    let path = "C:\\Program Files\\Kate\\kate.exe";
    let bytes = install_as_shell(path, 0).unwrap();
    let units: Vec<u16> = bytes.chunks(2).map(|c| u16::from_le_bytes([c[0], c[1]])).collect();
    assert_eq!(registry_shell_value(&units, bytes.len() as u32), path);
    let back = uninstall_shell(0).unwrap();
    let units: Vec<u16> = back.chunks(2).map(|c| u16::from_le_bytes([c[0], c[1]])).collect();
    assert_eq!(registry_shell_value(&units, back.len() as u32), "explorer.exe");
}
