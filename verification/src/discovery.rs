//! Finding windows to embed in a snapshot of the desktop: top-level windows
//! with their owning process, and the process table (name and parent of each
//! process id).

use vstd::prelude::*;
use crate::text::{
    blank, eq_ignore_ascii_case, is_blank, is_ime_title, lowercase, spec_eq_ignore_ascii_case,
    spec_is_ime_title, to_lowercase,
};

verus! {

/// One process of the snapshot.
#[derive(Clone, Debug)]
pub struct ProcInfo {
    pub pid: u32,
    pub name: String,
    pub parent: u32,
}

/// One top-level window of the snapshot.
#[derive(Clone, Debug)]
pub struct WindowInfo {
    pub hwnd: usize,
    pub pid: u32,
    pub visible: bool,
    pub is_window: bool,
    pub title: String,
    pub ex_style: u32,
}

/// Extended style bit marking tool windows (set on every embedded window).
pub const WS_EX_TOOLWINDOW: u32 = 0x0000_0080;

/// How many parent links `is_descendant` follows at most.
pub const MAX_TREE_DEPTH: u32 = 64;

/// Index of the process entry for `pid` (the last one, as a map built by
/// inserting the snapshot in order keeps it), or -1.
pub open spec fn proc_index(procs: Seq<ProcInfo>, pid: u32) -> int
    decreases procs.len(),
{
    if procs.len() == 0 {
        -1
    } else if procs.last().pid == pid {
        procs.len() - 1
    } else {
        proc_index(procs.drop_last(), pid)
    }
}

/// Whether `pid` is `root` or reaches it within `n` parent links.
pub open spec fn descends(procs: Seq<ProcInfo>, pid: u32, root: u32, n: nat) -> bool
    decreases n,
{
    if n == 0 {
        false
    } else if pid == root {
        true
    } else {
        let i = proc_index(procs, pid);
        if i >= 0 { descends(procs, procs[i].parent, root, (n - 1) as nat) } else { false }
    }
}

/// The root process itself counts as its own descendant at any depth bound
/// of at least one link.
pub proof fn lemma_descends_root(procs: Seq<ProcInfo>, root: u32, n: nat)
    requires
        n >= 1,
    ensures
        descends(procs, root, root, n),
{
}

/// Descent goes up one parent link at a time: a listed process whose parent
/// descends from `root` within `n` links descends from it within `n + 1`;
/// and conversely a process other than `root` descends within `n + 1` links
/// only if it is listed and its parent descends within `n`.
pub proof fn lemma_descends_step(procs: Seq<ProcInfo>, pid: u32, root: u32, n: nat)
    ensures
        proc_index(procs, pid) >= 0 && descends(procs, procs[proc_index(procs, pid)].parent, root, n) ==> descends(
            procs,
            pid,
            root,
            n + 1,
        ),
        pid != root && descends(procs, pid, root, n + 1) ==> proc_index(procs, pid) >= 0 && descends(
            procs,
            procs[proc_index(procs, pid)].parent,
            root,
            n,
        ),
        pid != root && proc_index(procs, pid) < 0 ==> !descends(procs, pid, root, n),
{
}

/// A larger depth bound keeps every descendant.
pub proof fn lemma_descends_mono(procs: Seq<ProcInfo>, pid: u32, root: u32, n: nat, m: nat)
    requires
        n <= m,
        descends(procs, pid, root, n),
    ensures
        descends(procs, pid, root, m),
    decreases n,
{
    if pid != root {
        let i = proc_index(procs, pid);
        lemma_descends_mono(procs, procs[i].parent, root, (n - 1) as nat, (m - 1) as nat);
    }
}

/// A grandchild of `root` (found through the parent links of the process
/// list) descends from it within the bound the process-tree search uses.
pub proof fn lemma_grandchild_descends(procs: Seq<ProcInfo>, pid: u32, root: u32)
    requires
        proc_index(procs, pid) >= 0,
        proc_index(procs, procs[proc_index(procs, pid)].parent) >= 0,
        procs[proc_index(procs, procs[proc_index(procs, pid)].parent)].parent == root,
    ensures
        descends(procs, pid, root, MAX_TREE_DEPTH as nat),
{
    let p = procs[proc_index(procs, pid)].parent;
    lemma_descends_root(procs, root, 62);
    lemma_descends_step(procs, p, root, 62);
    lemma_descends_step(procs, pid, root, 63);
}

/// Whether the process of `pid` has one of `names` (ASCII case ignored).
pub open spec fn proc_named(procs: Seq<ProcInfo>, names: Seq<Seq<char>>, pid: u32) -> bool {
    let i = proc_index(procs, pid);
    i >= 0 && exists|k: int| 0 <= k < names.len() && spec_eq_ignore_ascii_case(procs[i].name@, names[k])
}

/// Whether a window is a genuine application window: alive, visible,
/// titled, and not a system input-method window.
pub open spec fn spec_is_real(w: WindowInfo) -> bool {
    w.is_window && w.visible && !is_blank(w.title@) && !spec_is_ime_title(w.title@)
}

/// The first window of `s` satisfying `p`.
pub open spec fn first_where(s: Seq<WindowInfo>, p: spec_fn(WindowInfo) -> bool) -> Option<usize>
    decreases s.len(),
{
    if s.len() == 0 {
        None
    } else if p(s[0]) {
        Some(s[0].hwnd)
    } else {
        first_where(s.drop_first(), p)
    }
}

/// The handles of the windows of `s` satisfying `p`, in order.
pub open spec fn all_where(s: Seq<WindowInfo>, p: spec_fn(WindowInfo) -> bool) -> Seq<usize> {
    s.filter(p).map_values(|w: WindowInfo| w.hwnd)
}

/// Whether the window may be adopted onto the desktop page.
pub open spec fn spec_adoptable(
    procs: Seq<ProcInfo>,
    exclude: Seq<usize>,
    own_pid: u32,
    blocked: Seq<Seq<char>>,
    w: WindowInfo,
) -> bool {
    let i = proc_index(procs, w.pid);
    &&& w.visible
    &&& !exclude.contains(w.hwnd)
    &&& w.ex_style & WS_EX_TOOLWINDOW == 0
    &&& w.pid != own_pid
    &&& (i >= 0 ==> !descends(procs, w.pid, own_pid, MAX_TREE_DEPTH as nat) && !blocked.contains(
        lowercase(procs[i].name@),
    ))
    &&& !is_blank(w.title@)
    &&& !spec_is_ime_title(w.title@)
}

pub proof fn lemma_proc_index(procs: Seq<ProcInfo>, pid: u32)
    ensures
        -1 <= proc_index(procs, pid) < procs.len(),
        proc_index(procs, pid) >= 0 ==> procs[proc_index(procs, pid)].pid == pid,
    decreases procs.len(),
{
    if procs.len() > 0 && procs.last().pid != pid {
        lemma_proc_index(procs.drop_last(), pid);
    }
}

/// The process entry for `pid`.
pub fn find_proc(procs: &Vec<ProcInfo>, pid: u32) -> (r: Option<usize>)
    ensures
        r matches Some(i) ==> i as int == proc_index(procs@, pid),
        r is None ==> proc_index(procs@, pid) < 0,
{
    let mut i = procs.len();
    proof {
        assert(procs@.take(i as int) =~= procs@);
    }
    while i > 0
        invariant
            i <= procs@.len(),
            proc_index(procs@, pid) == proc_index(procs@.take(i as int), pid),
        decreases i,
    {
        proof {
            assert(procs@.take(i as int).drop_last() =~= procs@.take(i - 1));
        }
        if procs[i - 1].pid == pid {
            return Some(i - 1);
        }
        i = i - 1;
    }
    None
}

/// Whether `pid` is `root` or a descendant of it in the process tree
/// (following at most 64 parent links).
pub fn is_descendant(pid: u32, root: u32, procs: &Vec<ProcInfo>) -> (r: bool)
    ensures
        r == descends(procs@, pid, root, MAX_TREE_DEPTH as nat),
{
    let mut cur = pid;
    let mut n: u32 = MAX_TREE_DEPTH;
    while n > 0
        invariant
            n <= MAX_TREE_DEPTH,
            descends(procs@, pid, root, MAX_TREE_DEPTH as nat) == descends(procs@, cur, root, n as nat),
        decreases n,
    {
        if cur == root {
            return true;
        }
        proof {
            lemma_proc_index(procs@, cur);
        }
        match find_proc(procs, cur) {
            Some(i) => {
                cur = procs[i].parent;
            },
            None => {
                return false;
            },
        }
        n = n - 1;
    }
    false
}

/// Whether some name of `names` equals `name` up to ASCII case.
pub fn name_in(name: &String, names: &Vec<String>) -> (r: bool)
    ensures
        r == exists|k: int| 0 <= k < names@.len() && spec_eq_ignore_ascii_case(name@, names@[k]@),
{
    let mut k: usize = 0;
    while k < names.len()
        invariant
            k <= names@.len(),
            forall|j: int| 0 <= j < k ==> !spec_eq_ignore_ascii_case(name@, names@[j]@),
        decreases names@.len() - k,
    {
        if eq_ignore_ascii_case(name.as_str(), names[k].as_str()) {
            return true;
        }
        k = k + 1;
    }
    false
}

/// Whether the process of `pid` has one of `names`.
pub fn process_named(procs: &Vec<ProcInfo>, names: &Vec<String>, pid: u32) -> (r: bool)
    ensures
        r == proc_named(procs@, names@.map_values(|n: String| n@), pid),
{
    proof {
        lemma_proc_index(procs@, pid);
    }
    match find_proc(procs, pid) {
        Some(i) => {
            let r = name_in(&procs[i].name, names);
            proof {
                let nv = names@.map_values(|n: String| n@);
                if r {
                    let k = choose|k: int| 0 <= k < names@.len() && spec_eq_ignore_ascii_case(procs@[i as int].name@, names@[k]@);
                    assert(nv[k] == names@[k]@);
                } else {
                    assert forall|k: int| 0 <= k < nv.len() implies !spec_eq_ignore_ascii_case(procs@[i as int].name@, nv[k]) by {
                        assert(nv[k] == names@[k]@);
                    }
                }
            }
            r
        },
        None => false,
    }
}

/// Whether a window is a genuine application window (alive, visible,
/// titled, not an input-method window).
pub fn is_real_app_window(w: &WindowInfo) -> (r: bool)
    ensures
        r == spec_is_real(*w),
{
    if !w.is_window || !w.visible {
        return false;
    }
    if blank(w.title.as_str()) {
        return false;
    }
    !is_ime_title(w.title.as_str())
}

/// The first visible window whose process has one of `names` (an already
/// running messenger client).
pub fn find_window_by_processes(windows: &Vec<WindowInfo>, procs: &Vec<ProcInfo>, names: &Vec<String>) -> (r: Option<usize>)
    ensures
        r == first_where(windows@, |w: WindowInfo| w.visible && proc_named(procs@, names@.map_values(|n: String| n@), w.pid)),
{
    let ghost p = |w: WindowInfo| w.visible && proc_named(procs@, names@.map_values(|n: String| n@), w.pid);
    let mut i: usize = 0;
    proof {
        assert(windows@.skip(0) =~= windows@);
    }
    while i < windows.len()
        invariant
            i <= windows@.len(),
            p == (|w: WindowInfo| w.visible && proc_named(procs@, names@.map_values(|n: String| n@), w.pid)),
            first_where(windows@, p) == first_where(windows@.skip(i as int), p),
        decreases windows@.len() - i,
    {
        proof {
            assert(windows@.skip(i as int).drop_first() =~= windows@.skip(i + 1));
            assert(windows@.skip(i as int)[0] == windows@[i as int]);
        }
        let w = &windows[i];
        if w.visible && process_named(procs, names, w.pid) {
            return Some(w.hwnd);
        }
        i = i + 1;
    }
    None
}

/// Every window (visible or not) whose process has one of `names` and that
/// is a genuine application window.
pub fn find_all_windows_by_processes(windows: &Vec<WindowInfo>, procs: &Vec<ProcInfo>, names: &Vec<String>) -> (r: Vec<usize>)
    ensures
        r@ == all_where(windows@, |w: WindowInfo| proc_named(procs@, names@.map_values(|n: String| n@), w.pid) && spec_is_real(w)),
{
    let ghost p = |w: WindowInfo| proc_named(procs@, names@.map_values(|n: String| n@), w.pid) && spec_is_real(w);
    let mut r: Vec<usize> = Vec::new();
    let mut i: usize = 0;
    while i < windows.len()
        invariant
            i <= windows@.len(),
            p == (|w: WindowInfo| proc_named(procs@, names@.map_values(|n: String| n@), w.pid) && spec_is_real(w)),
            r@ == all_where(windows@.take(i as int), p),
        decreases windows@.len() - i,
    {
        let w = &windows[i];
        let ok = process_named(procs, names, w.pid) && is_real_app_window(w);
        if ok {
            r.push(w.hwnd);
        }
        proof {
            reveal_with_fuel(Seq::<_>::filter, 1);
            let t = windows@.take(i + 1);
            assert(t.drop_last() =~= windows@.take(i as int));
            assert(t.last() == windows@[i as int]);
            assert(p(windows@[i as int]) == ok);
            assert(t.filter(p) == if p(t.last()) { t.drop_last().filter(p).push(t.last()) } else { t.drop_last().filter(p) });
            assert(r@ =~= all_where(t, p));
        }
        i = i + 1;
    }
    proof {
        assert(windows@.take(i as int) =~= windows@);
    }
    r
}

/// The first visible window, not in `exclude`, of the process tree rooted
/// at `root`.
pub fn find_window_in_tree(windows: &Vec<WindowInfo>, procs: &Vec<ProcInfo>, root: u32, exclude: &Vec<usize>) -> (r: Option<usize>)
    ensures
        r == first_where(windows@, |w: WindowInfo| w.visible && !exclude@.contains(w.hwnd) && (w.pid == root || descends(procs@, w.pid, root, MAX_TREE_DEPTH as nat))),
{
    let ghost p = |w: WindowInfo| w.visible && !exclude@.contains(w.hwnd) && (w.pid == root || descends(procs@, w.pid, root, MAX_TREE_DEPTH as nat));
    let mut i: usize = 0;
    proof {
        assert(windows@.skip(0) =~= windows@);
    }
    while i < windows.len()
        invariant
            i <= windows@.len(),
            p == (|w: WindowInfo| w.visible && !exclude@.contains(w.hwnd) && (w.pid == root || descends(procs@, w.pid, root, MAX_TREE_DEPTH as nat))),
            first_where(windows@, p) == first_where(windows@.skip(i as int), p),
        decreases windows@.len() - i,
    {
        proof {
            assert(windows@.skip(i as int).drop_first() =~= windows@.skip(i + 1));
            assert(windows@.skip(i as int)[0] == windows@[i as int]);
        }
        let w = &windows[i];
        if w.visible && !crate::seqs::contains_usize(exclude, w.hwnd) && (w.pid == root || is_descendant(w.pid, root, procs)) {
            return Some(w.hwnd);
        }
        i = i + 1;
    }
    None
}

/// The first window (visible or not), not in `exclude`, whose process has
/// one of `names` and that is a genuine application window.
pub fn find_new_window_by_processes(windows: &Vec<WindowInfo>, procs: &Vec<ProcInfo>, names: &Vec<String>, exclude: &Vec<usize>) -> (r: Option<usize>)
    ensures
        r == first_where(windows@, |w: WindowInfo| !exclude@.contains(w.hwnd) && proc_named(procs@, names@.map_values(|n: String| n@), w.pid) && spec_is_real(w)),
{
    let ghost p = |w: WindowInfo| !exclude@.contains(w.hwnd) && proc_named(procs@, names@.map_values(|n: String| n@), w.pid) && spec_is_real(w);
    let mut i: usize = 0;
    proof {
        assert(windows@.skip(0) =~= windows@);
    }
    while i < windows.len()
        invariant
            i <= windows@.len(),
            p == (|w: WindowInfo| !exclude@.contains(w.hwnd) && proc_named(procs@, names@.map_values(|n: String| n@), w.pid) && spec_is_real(w)),
            first_where(windows@, p) == first_where(windows@.skip(i as int), p),
        decreases windows@.len() - i,
    {
        proof {
            assert(windows@.skip(i as int).drop_first() =~= windows@.skip(i + 1));
            assert(windows@.skip(i as int)[0] == windows@[i as int]);
        }
        let w = &windows[i];
        if !crate::seqs::contains_usize(exclude, w.hwnd) && process_named(procs, names, w.pid) && is_real_app_window(w) {
            return Some(w.hwnd);
        }
        i = i + 1;
    }
    None
}

/// Whether `name` is one of `list` (exact comparison).
fn string_in(name: &String, list: &Vec<String>) -> (r: bool)
    ensures
        r == list@.map_values(|s: String| s@).contains(name@),
{
    let mut k: usize = 0;
    while k < list.len()
        invariant
            k <= list@.len(),
            forall|j: int| 0 <= j < k ==> list@[j]@ != name@,
        decreases list@.len() - k,
    {
        if list[k] == *name {
            proof {
                assert(list@.map_values(|s: String| s@)[k as int] == name@);
            }
            return true;
        }
        k = k + 1;
    }
    proof {
        let lv = list@.map_values(|s: String| s@);
        assert forall|j: int| 0 <= j < lv.len() implies lv[j] != name@ by {
            assert(lv[j] == list@[j]@);
        }
    }
    false
}

/// The windows that may be adopted onto the desktop page, with their titles:
/// visible, not excluded, not already embedded (tool windows), not of this
/// process or its process tree, not of a custom-page application (lowercased
/// executable names in `blocked`), titled, and not input-method windows.
pub fn adoptable_windows_filtered(
    windows: &Vec<WindowInfo>,
    procs: &Vec<ProcInfo>,
    exclude: &Vec<usize>,
    own_pid: u32,
    blocked: &Vec<String>,
) -> (r: Vec<(usize, String)>)
    ensures
        r@.map_values(|x: (usize, String)| (x.0, x.1@)) == windows@.filter(
            |w: WindowInfo| spec_adoptable(procs@, exclude@, own_pid, blocked@.map_values(|s: String| s@), w),
        ).map_values(|w: WindowInfo| (w.hwnd, w.title@)),
{
    let ghost bv = blocked@.map_values(|s: String| s@);
    let ghost p = |w: WindowInfo| spec_adoptable(procs@, exclude@, own_pid, bv, w);
    let mut r: Vec<(usize, String)> = Vec::new();
    let mut i: usize = 0;
    while i < windows.len()
        invariant
            i <= windows@.len(),
            bv == blocked@.map_values(|s: String| s@),
            p == (|w: WindowInfo| spec_adoptable(procs@, exclude@, own_pid, bv, w)),
            r@.map_values(|x: (usize, String)| (x.0, x.1@)) == windows@.take(i as int).filter(p).map_values(
                |w: WindowInfo| (w.hwnd, w.title@),
            ),
        decreases windows@.len() - i,
    {
        let w = &windows[i];
        let mut ok = w.visible && !crate::seqs::contains_usize(exclude, w.hwnd)
            && w.ex_style & WS_EX_TOOLWINDOW == 0 && w.pid != own_pid;
        if ok {
            proof {
                lemma_proc_index(procs@, w.pid);
            }
            match find_proc(procs, w.pid) {
                Some(k) => {
                    if is_descendant(w.pid, own_pid, procs) {
                        ok = false;
                    } else {
                        let lower = to_lowercase(procs[k].name.as_str());
                        if string_in(&lower, blocked) {
                            ok = false;
                        }
                    }
                },
                None => {},
            }
        }
        if ok {
            if blank(w.title.as_str()) || is_ime_title(w.title.as_str()) {
                ok = false;
            }
        }
        let ghost before = r@;
        if ok {
            let tcopy = w.title.clone();
            r.push((w.hwnd, tcopy));
            proof {
                assert(r@ == before.push((w.hwnd, tcopy)));
                assert(r@.map_values(|x: (usize, String)| (x.0, x.1@)) =~= before.map_values(|x: (usize, String)| (x.0, x.1@)).push((w.hwnd, w.title@)));
            }
        }
        proof {
            reveal_with_fuel(Seq::<_>::filter, 1);
            let t = windows@.take(i + 1);
            assert(t.drop_last() =~= windows@.take(i as int));
            assert(t.last() == windows@[i as int]);
            assert(p(windows@[i as int]) == ok);
            assert(t.filter(p) == if p(t.last()) { t.drop_last().filter(p).push(t.last()) } else { t.drop_last().filter(p) });
            assert(r@.map_values(|x: (usize, String)| (x.0, x.1@)) =~= t.filter(p).map_values(|w: WindowInfo| (w.hwnd, w.title@)));
        }
        i = i + 1;
    }
    proof {
        assert(windows@.take(i as int) =~= windows@);
    }
    r
}

} // verus!
