//! Replacing the Windows shell: the registry value that names the shell,
//! whether this process is (or should act as) the shell, and the outcome of
//! writing the value.

use vstd::prelude::*;
use crate::discovery::ProcInfo;
use crate::text::{eq_ignore_ascii_case, spec_eq_ignore_ascii_case};
use crate::utf16::{decode16, decode_units, encode16, le_bytes, registry_string_bytes};

verus! {

/// The message when the Winlogon key cannot be opened for writing.
pub open spec fn open_key_error() -> Seq<char> {
    "failed to open Winlogon registry key (admin required)"@
}

/// The message when the Shell value cannot be written.
pub open spec fn write_value_error() -> Seq<char> {
    "failed to write Shell registry value"@
}

/// The registry data that names `value` as the shell: its UTF-16 units and
/// a NUL, little-endian.
pub open spec fn shell_value_data(value: Seq<char>) -> Seq<u8> {
    le_bytes(encode16(value).push(0))
}

/// Installing `exe_path` as the shell, once the Winlogon key was opened for
/// writing with status `open_status` (0 is success): without the key (the
/// process is not elevated) the install fails with the admin-required error,
/// else the data to write as the Shell value is returned; the outcome of that
/// write is `shell_set_result`.
pub fn install_as_shell(exe_path: &str, open_status: u32) -> (r: Result<Vec<u8>, String>)
    ensures
        open_status != 0 ==> (r matches Err(e) && e@ == open_key_error()),
        open_status == 0 ==> (r matches Ok(b) && b@ == shell_value_data(exe_path@)),
{
    if open_status != 0 {
        proof {
            reveal_strlit("failed to open Winlogon registry key (admin required)");
        }
        return Err(String::from_str("failed to open Winlogon registry key (admin required)"));
    }
    Ok(registry_string_bytes(exe_path))
}

/// Restoring Explorer as the shell, once the Winlogon key was opened with
/// status `open_status`: the admin-required error without the key, else the
/// data to write.
pub fn uninstall_shell(open_status: u32) -> (r: Result<Vec<u8>, String>)
    ensures
        open_status != 0 ==> (r matches Err(e) && e@ == open_key_error()),
        open_status == 0 ==> (r matches Ok(b) && b@ == shell_value_data("explorer.exe"@)),
{
    install_as_shell("explorer.exe", open_status)
}

/// The outcome of writing the Shell value with status `set_status` (0 is
/// success).
pub fn shell_set_result(set_status: u32) -> (r: Result<(), String>)
    ensures
        set_status == 0 ==> r is Ok,
        set_status != 0 ==> (r matches Err(e) && e@ == write_value_error()),
{
    if set_status == 0 {
        Ok(())
    } else {
        proof {
            reveal_strlit("failed to write Shell registry value");
        }
        Err(String::from_str("failed to write Shell registry value"))
    }
}

/// The executable to install as shell: the given one, else the running
/// executable, else the empty path.
pub fn shell_path(exe: Option<String>, current_exe: Option<String>) -> (p: String)
    ensures
        p@ == match exe {
            Some(e) => e@,
            None => match current_exe {
                Some(c) => c@,
                None => Seq::empty(),
            },
        },
{
    match exe {
        Some(e) => e,
        None => match current_exe {
            Some(c) => c,
            None => String::new(),
        },
    }
}

/// Whether to take over the shell role: the `--shell` argument was given or
/// the mode variable is "1".
pub fn should_take_over_shell(args: &Vec<String>, mode_var: &Option<String>) -> (r: bool)
    ensures
        r == ((exists|i: int| 0 <= i < args@.len() && args@[i]@ == "--shell"@) || (match mode_var {
            Some(v) => v@ == "1"@,
            None => false,
        })),
{
    let flag = String::from_str("--shell");
    let mut i: usize = 0;
    while i < args.len()
        invariant
            i <= args@.len(),
            flag@ == "--shell"@,
            forall|j: int| 0 <= j < i ==> args@[j]@ != "--shell"@,
        decreases args@.len() - i,
    {
        if args[i] == flag {
            return true;
        }
        i = i + 1;
    }
    match mode_var {
        Some(v) => {
            let one = String::from_str("1");
            *v == one
        },
        None => false,
    }
}

/// Whether the parent process named `parent` makes this process the system
/// shell (it was started by winlogon.exe).
pub fn is_running_as_shell(parent: &Option<String>) -> (r: bool)
    ensures
        r == match parent {
            Some(p) => spec_eq_ignore_ascii_case(p@, "winlogon.exe"@),
            None => false,
        },
{
    match parent {
        Some(p) => eq_ignore_ascii_case(p.as_str(), "winlogon.exe"),
        None => false,
    }
}

/// Whether some process is named explorer.exe (ASCII case ignored).
pub fn explorer_running(names: &Vec<String>) -> (r: bool)
    ensures
        r == exists|i: int| 0 <= i < names@.len() && spec_eq_ignore_ascii_case(names@[i]@, "explorer.exe"@),
{
    let mut i: usize = 0;
    while i < names.len()
        invariant
            i <= names@.len(),
            forall|j: int| 0 <= j < i ==> !spec_eq_ignore_ascii_case(names@[j]@, "explorer.exe"@),
        decreases names@.len() - i,
    {
        if eq_ignore_ascii_case(names[i].as_str(), "explorer.exe") {
            return true;
        }
        i = i + 1;
    }
    false
}

/// The first process entry with id `pid`, or -1.
pub open spec fn first_proc(procs: Seq<ProcInfo>, pid: u32) -> int
    decreases procs.len(),
{
    if procs.len() == 0 {
        -1
    } else if procs[0].pid == pid {
        0
    } else {
        let r = first_proc(procs.drop_first(), pid);
        if r < 0 { -1 } else { r + 1 }
    }
}

proof fn lemma_first_proc(procs: Seq<ProcInfo>, pid: u32)
    ensures
        -1 <= first_proc(procs, pid) < procs.len(),
        first_proc(procs, pid) >= 0 ==> procs[first_proc(procs, pid)].pid == pid,
    decreases procs.len(),
{
    if procs.len() > 0 && procs[0].pid != pid {
        lemma_first_proc(procs.drop_first(), pid);
    }
}

fn find_first_proc(procs: &Vec<ProcInfo>, pid: u32) -> (r: Option<usize>)
    ensures
        r matches Some(i) ==> i as int == first_proc(procs@, pid),
        r is None ==> first_proc(procs@, pid) < 0,
{
    let mut i: usize = 0;
    proof {
        assert(procs@.skip(0) =~= procs@);
    }
    while i < procs.len()
        invariant
            i <= procs@.len(),
            first_proc(procs@, pid) == if first_proc(procs@.skip(i as int), pid) < 0 {
                -1
            } else {
                first_proc(procs@.skip(i as int), pid) + i
            },
        decreases procs@.len() - i,
    {
        proof {
            assert(procs@.skip(i as int).drop_first() =~= procs@.skip(i + 1));
            assert(procs@.skip(i as int)[0] == procs@[i as int]);
        }
        if procs[i].pid == pid {
            return Some(i);
        }
        i = i + 1;
    }
    None
}

/// The name of the parent process of `pid` in the snapshot: the parent id
/// of the first entry for `pid`, then the name of the first entry for that
/// parent.
pub fn parent_process_name(procs: &Vec<ProcInfo>, pid: u32) -> (r: Option<String>)
    ensures
        ({
            let i = first_proc(procs@, pid);
            if i < 0 {
                r is None
            } else {
                let j = first_proc(procs@, procs@[i].parent);
                if j < 0 { r is None } else { r matches Some(n) && n@ == procs@[j].name@ }
            }
        }),
{
    proof {
        lemma_first_proc(procs@, pid);
    }
    match find_first_proc(procs, pid) {
        None => None,
        Some(i) => {
            let parent = procs[i].parent;
            proof {
                lemma_first_proc(procs@, parent);
            }
            match find_first_proc(procs, parent) {
                None => None,
                Some(j) => Some(procs[j].name.clone()),
            }
        },
    }
}

/// `s` without its trailing NUL characters.
pub open spec fn strip_trailing_nuls(s: Seq<char>) -> Seq<char>
    decreases s.len(),
{
    if s.len() > 0 && s.last() == '\0' { strip_trailing_nuls(s.drop_last()) } else { s }
}

/// The Shell value read back from the registry: the first `byte_len / 2`
/// UTF-16 units of the buffer, decoded, without trailing NULs.
pub fn registry_shell_value(buf: &[u16], byte_len: u32) -> (s: String)
    requires
        byte_len as int / 2 <= buf@.len(),
    ensures
        s@ == strip_trailing_nuls(decode16(buf@.subrange(0, byte_len as int / 2))),
{
    let d = decode_units(buf, (byte_len / 2) as usize);
    let v = crate::text::chars_of(d.as_str());
    let mut end = v.len();
    proof {
        assert(v@.subrange(0, end as int) =~= v@);
    }
    while end > 0 && v[end - 1] == '\0'
        invariant
            end <= v@.len(),
            strip_trailing_nuls(v@) == strip_trailing_nuls(v@.subrange(0, end as int)),
        decreases end,
    {
        proof {
            assert(v@.subrange(0, end as int).drop_last() =~= v@.subrange(0, end - 1));
        }
        end = end - 1;
    }
    crate::text::string_of(&v, 0, end)
}

/// The Shell value written by `install_as_shell` reads back as the path
/// (for a path that does not itself end in NUL characters, which reading
/// strips): the NUL-terminated units decode to the path and its NUL.
pub proof fn lemma_shell_value_reads_back(path: Seq<char>)
    requires
        path.len() == 0 || path.last() != '\0',
    ensures
        strip_trailing_nuls(decode16(encode16(path).push(0))) == path,
{
    reveal_with_fuel(decode16, 2);
    reveal_with_fuel(strip_trailing_nuls, 2);
    crate::utf16::lemma_decode_encode_append(path, seq![0u16]);
    assert(encode16(path).push(0) =~= encode16(path) + seq![0u16]);
    assert(decode16(seq![0u16]) =~= seq!['\0']) by {
        assert(seq![0u16].skip(1) =~= Seq::<u16>::empty());
        assert((0u16 as char) == '\0');
    }
    assert(path + seq!['\0'] =~= path.push('\0'));
    assert(path.push('\0').drop_last() =~= path);
}

} // verus!
