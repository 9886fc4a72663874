//! The external applications the shell embeds: where the IDE and the
//! messenger clients are looked for, which process names identify them,
//! and how launch arguments are formed.

use vstd::prelude::*;
use crate::state::SlotKind;
use crate::seqs::{first_not_in, first_not_in_copy};
use crate::text::{file_name, spec_file_name, split_whitespace, words};

verus! {

/// Which of the supported applications were found.
#[derive(Debug)]
pub struct AppDetection {
    pub vscode: bool,
    pub wechat: bool,
    pub qq: bool,
    pub wecom: bool,
}

/// A messenger client: its process image names, the base of its slot
/// names, and its slot kind.
#[derive(Debug)]
pub struct ImKind {
    pub names: Vec<String>,
    pub base: String,
    pub kind: SlotKind,
}

/// The process image names of messenger `kind`, if it is one.
pub open spec fn im_names(kind: Seq<char>) -> Option<Seq<Seq<char>>> {
    if kind == "wechat"@ {
        Some(seq!["Weixin.exe"@, "WeChat.exe"@])
    } else if kind == "qq"@ {
        Some(seq!["QQ.exe"@])
    } else if kind == "wecom"@ {
        Some(seq!["WXWork.exe"@])
    } else {
        None
    }
}

/// The slot kind of messenger `kind`.
pub open spec fn im_slot_kind(kind: Seq<char>) -> SlotKind {
    if kind == "wechat"@ {
        SlotKind::WeChat
    } else if kind == "qq"@ {
        SlotKind::Qq
    } else {
        SlotKind::WeCom
    }
}

/// The message for an unknown messenger kind.
pub open spec fn unknown_im_error(kind: Seq<char>) -> Seq<char> {
    "unknown im kind: "@ + kind
}

/// The executable file names searched for messenger `kind`, in order (the
/// current WeChat name first, then the older one).
pub open spec fn im_exe_names(kind: Seq<char>) -> Seq<Seq<char>> {
    if kind == "wechat"@ {
        seq!["Weixin.exe"@, "WeChat.exe"@]
    } else if kind == "qq"@ {
        seq!["QQ.exe"@]
    } else if kind == "wecom"@ {
        seq!["WXWork.exe"@]
    } else {
        Seq::empty()
    }
}

/// The places the IDE executable is looked for, in order.
pub open spec fn vscode_paths(local: Option<Seq<char>>) -> Seq<Seq<char>> {
    let fixed = seq![
        "C:\\Program Files\\Microsoft VS Code\\Code.exe"@,
        "C:\\Program Files (x86)\\Microsoft VS Code\\Code.exe"@,
    ];
    match local {
        Some(l) => seq![l + "\\Programs\\Microsoft VS Code\\Code.exe"@] + fixed,
        None => fixed,
    }
}

/// The directories searched for messenger executables, in order.
pub open spec fn install_root_paths(local: Option<Seq<char>>) -> Seq<Seq<char>> {
    let fixed = seq![
        "C:\\Program Files\\Tencent"@,
        "C:\\Program Files (x86)\\Tencent"@,
        "C:\\Program Files\\WXWork"@,
        "C:\\Program Files (x86)\\WXWork"@,
    ];
    match local {
        Some(l) => fixed + seq![l + "\\Programs"@, l + "\\Tencent"@],
        None => fixed,
    }
}

/// The process name of an executable path: its file name, or the whole
/// path when it has none.
pub open spec fn spec_process_name(exe: Seq<char>) -> Seq<char> {
    match spec_file_name(exe) {
        Some(n) => n,
        None => exe,
    }
}

fn strs(v: &Vec<&str>) -> (r: Vec<String>)
    ensures
        r@.map_values(|s: String| s@) == v@.map_values(|s: &str| s@),
{
    let mut r: Vec<String> = Vec::new();
    let mut i: usize = 0;
    while i < v.len()
        invariant
            i <= v@.len(),
            r@.map_values(|s: String| s@) == v@.map_values(|s: &str| s@).take(i as int),
        decreases v@.len() - i,
    {
        let ghost before = r@;
        let x = String::from_str(v[i]);
        r.push(x);
        proof {
            assert(r@ == before.push(x));
            assert(x@ == v@[i as int]@);
            assert(r@.map_values(|s: String| s@) =~= before.map_values(|s: String| s@).push(x@));
            assert(v@.map_values(|s: &str| s@).take(i + 1) =~= v@.map_values(|s: &str| s@).take(i as int).push(v@[i as int]@));
        }
        i = i + 1;
        proof {
            assert(r@.map_values(|s: String| s@) =~= v@.map_values(|s: &str| s@).take(i as int));
        }
    }
    proof {
        assert(v@.map_values(|s: &str| s@).take(i as int) =~= v@.map_values(|s: &str| s@));
    }
    r
}

fn str_eq(a: &str, b: &str) -> (r: bool)
    ensures
        r == (a@ == b@),
{
    let x = String::from_str(a);
    let y = String::from_str(b);
    x == y
}

/// The messenger client `kind` ("wechat", "qq" or "wecom").
pub fn im_kind_info(kind: &str) -> (r: Result<ImKind, String>)
    ensures
        match im_names(kind@) {
            Some(names) => r matches Ok(k) && k.names@.map_values(|s: String| s@) == names && k.base@ == kind@
                && k.kind == im_slot_kind(kind@),
            None => r matches Err(e) && e@ == unknown_im_error(kind@),
        },
{
    proof {
        reveal_strlit("wechat");
        reveal_strlit("qq");
        reveal_strlit("wecom");
        reveal_strlit("Weixin.exe");
        reveal_strlit("WeChat.exe");
        reveal_strlit("QQ.exe");
        reveal_strlit("WXWork.exe");
        reveal_strlit("unknown im kind: ");
    }
    if str_eq(kind, "wechat") {
        let names = strs(&vec!["Weixin.exe", "WeChat.exe"]);
        proof {
            assert(names@.map_values(|s: String| s@) =~= seq!["Weixin.exe"@, "WeChat.exe"@]);
        }
        Ok(ImKind { names, base: String::from_str("wechat"), kind: SlotKind::WeChat })
    } else if str_eq(kind, "qq") {
        let names = strs(&vec!["QQ.exe"]);
        proof {
            assert(names@.map_values(|s: String| s@) =~= seq!["QQ.exe"@]);
        }
        Ok(ImKind { names, base: String::from_str("qq"), kind: SlotKind::Qq })
    } else if str_eq(kind, "wecom") {
        let names = strs(&vec!["WXWork.exe"]);
        proof {
            assert(names@.map_values(|s: String| s@) =~= seq!["WXWork.exe"@]);
        }
        Ok(ImKind { names, base: String::from_str("wecom"), kind: SlotKind::WeCom })
    } else {
        let mut e = String::from_str("unknown im kind: ");
        e.append(kind);
        Err(e)
    }
}

/// The process image names of messenger `kind`, or `None` for an unknown
/// kind.
pub fn im_process_names(kind: &str) -> (r: Option<Vec<String>>)
    ensures
        match im_names(kind@) {
            Some(names) => r matches Some(v) && v@.map_values(|s: String| s@) == names,
            None => r is None,
        },
{
    match im_kind_info(kind) {
        Ok(k) => Some(k.names),
        Err(_) => None,
    }
}

/// The executable file names to search for messenger `kind`, in order.
pub fn im_exe_candidates(kind: &str) -> (r: Vec<String>)
    ensures
        r@.map_values(|s: String| s@) == im_exe_names(kind@),
{
    match im_process_names(kind) {
        Some(v) => v,
        None => {
            let v: Vec<String> = Vec::new();
            proof {
                assert(v@.map_values(|s: String| s@) =~= Seq::<Seq<char>>::empty());
            }
            v
        },
    }
}

/// Whether messenger `kind` is available: a window of it is running, a path
/// was configured, or an executable was found; always false for an unknown
/// kind.
pub fn detect_im(kind: &str, window_found: bool, path_configured: bool, path_found: bool) -> (r: bool)
    ensures
        r == (im_names(kind@) is Some && (window_found || path_configured || path_found)),
{
    match im_process_names(kind) {
        Some(_) => window_found || path_configured || path_found,
        None => false,
    }
}

/// The places the IDE executable is looked for, given the user's local
/// application-data directory.
pub fn vscode_candidates(local_app_data: Option<String>) -> (r: Vec<String>)
    ensures
        r@.map_values(|s: String| s@) == vscode_paths(match local_app_data {
            Some(l) => Some(l@),
            None => None,
        }),
{
    proof {
        reveal_strlit("\\Programs\\Microsoft VS Code\\Code.exe");
    }
    let mut r: Vec<String> = Vec::new();
    match local_app_data {
        Some(l) => {
            let mut p = l;
            p.append("\\Programs\\Microsoft VS Code\\Code.exe");
            r.push(p);
        },
        None => {},
    }
    r.push(String::from_str("C:\\Program Files\\Microsoft VS Code\\Code.exe"));
    r.push(String::from_str("C:\\Program Files (x86)\\Microsoft VS Code\\Code.exe"));
    proof {
        assert(r@.map_values(|s: String| s@) =~= vscode_paths(match local_app_data {
            Some(l) => Some(l@),
            None => None,
        }));
    }
    r
}

/// The error when no IDE executable was found.
pub open spec fn vscode_missing_error() -> Seq<char> {
    "VSCode (Code.exe) not found"@
}

/// The IDE executable to launch: the one found, or the error that none was.
pub fn vscode_exe(found: &Option<String>) -> (r: Result<String, String>)
    ensures
        match found {
            Some(p) => r matches Ok(e) && e@ == p@,
            None => r matches Err(m) && m@ == vscode_missing_error(),
        },
{
    match found {
        Some(p) => Ok(p.clone()),
        None => Err(String::from_str("VSCode (Code.exe) not found")),
    }
}

/// The first candidate that exists (`exists[i]` tells whether
/// `candidates[i]` exists).
pub fn locate_vscode(candidates: &Vec<String>, exists: &Vec<bool>) -> (r: Option<String>)
    requires
        exists@.len() == candidates@.len(),
    ensures
        match crate::seqs::first_flagged(candidates@, exists@) {
            Some(c) => r matches Some(s) && s@ == c@,
            None => r is None,
        },
{
    let mut i: usize = 0;
    proof {
        assert(candidates@.skip(0) =~= candidates@);
        assert(exists@.skip(0) =~= exists@);
    }
    while i < candidates.len()
        invariant
            i <= candidates@.len(),
            exists@.len() == candidates@.len(),
            crate::seqs::first_flagged(candidates@, exists@) == crate::seqs::first_flagged(
                candidates@.skip(i as int),
                exists@.skip(i as int),
            ),
        decreases candidates@.len() - i,
    {
        proof {
            assert(candidates@.skip(i as int).drop_first() =~= candidates@.skip(i + 1));
            assert(exists@.skip(i as int).drop_first() =~= exists@.skip(i + 1));
        }
        if exists[i] {
            return Some(candidates[i].clone());
        }
        i = i + 1;
    }
    None
}

/// Whether the IDE is installed: some candidate path exists.
pub fn detect_vscode(candidates: &Vec<String>, exists: &Vec<bool>) -> (r: bool)
    requires
        exists@.len() == candidates@.len(),
    ensures
        r == crate::seqs::first_flagged(candidates@, exists@) is Some,
{
    locate_vscode(candidates, exists).is_some()
}

/// The directories searched for messenger executables.
pub fn install_roots(local_app_data: Option<String>) -> (r: Vec<String>)
    ensures
        r@.map_values(|s: String| s@) == install_root_paths(match local_app_data {
            Some(l) => Some(l@),
            None => None,
        }),
{
    let mut r: Vec<String> = Vec::new();
    r.push(String::from_str("C:\\Program Files\\Tencent"));
    r.push(String::from_str("C:\\Program Files (x86)\\Tencent"));
    r.push(String::from_str("C:\\Program Files\\WXWork"));
    r.push(String::from_str("C:\\Program Files (x86)\\WXWork"));
    proof {
        reveal_strlit("\\Programs");
        reveal_strlit("\\Tencent");
    }
    match local_app_data {
        Some(l) => {
            let mut a = l.clone();
            a.append("\\Programs");
            r.push(a);
            let mut b = l;
            b.append("\\Tencent");
            r.push(b);
        },
        None => {},
    }
    proof {
        assert(r@.map_values(|s: String| s@) =~= install_root_paths(match local_app_data {
            Some(l) => Some(l@),
            None => None,
        }));
    }
    r
}

/// The process name of an executable path (its file name, or the path).
pub fn process_name(exe: &String) -> (r: String)
    ensures
        r@ == spec_process_name(exe@),
{
    match file_name(exe.as_str()) {
        Some(n) => n,
        None => exe.clone(),
    }
}

/// The arguments of a launch: the white-space separated words of `args`.
pub fn launch_args(args: &str) -> (r: Vec<String>)
    ensures
        r@.map_values(|s: String| s@) == words(args@),
{
    split_whitespace(args)
}

/// What a request for a new instance of a custom page does.
#[derive(Debug)]
pub enum NewInstance {
    /// Take over this window of the page's program, which no instance holds.
    Adopt(usize),
    /// Start the program with these arguments and wait for its window.
    Launch(Vec<String>),
}

/// Decides a request for a new instance of a custom page: `candidates` are
/// the top-level windows of the page's program in the order they were found,
/// `held` the windows of the page's live instances, `args` the page's
/// launch arguments. The first candidate that no instance holds is adopted;
/// with none, the program is started.
pub fn new_instance_step(candidates: &Vec<usize>, held: &Vec<usize>, args: &str) -> (r: NewInstance)
    ensures
        match r {
            NewInstance::Adopt(h) => first_not_in(candidates@, held@) == Some(h),
            NewInstance::Launch(a) => first_not_in(candidates@, held@) is None
                && a@.map_values(|s: String| s@) == words(args@),
        },
{
    match first_not_in_copy(candidates, held) {
        Some(h) => NewInstance::Adopt(h),
        None => NewInstance::Launch(launch_args(args)),
    }
}

/// The arguments that open a new IDE window, on `folder` if given.
pub fn vscode_args(folder: &Option<String>) -> (r: Vec<String>)
    ensures
        r@.map_values(|s: String| s@) == seq!["--new-window"@] + match folder {
            Some(f) => seq![f@],
            None => Seq::empty(),
        },
{
    let mut r: Vec<String> = Vec::new();
    r.push(String::from_str("--new-window"));
    match folder {
        Some(f) => {
            r.push(f.clone());
        },
        None => {},
    }
    proof {
        assert(r@.map_values(|s: String| s@) =~= seq!["--new-window"@] + match folder {
            Some(f) => seq![f@],
            None => Seq::<Seq<char>>::empty(),
        });
    }
    r
}

} // verus!
