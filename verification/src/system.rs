//! System status read from command output: display brightness (cached,
//! set through a WMI script) and the connected Wi-Fi network's name.

use vstd::prelude::*;
use crate::text::{chars_of, decimal, is_ws, push_decimal, trim_range, trimmed};

verus! {

/// The largest brightness the display accepts.
pub const MAX_BRIGHTNESS: u8 = 100;

/// The value of a run of decimal digits.
pub open spec fn digits_value(d: Seq<char>) -> nat
    decreases d.len(),
{
    if d.len() == 0 {
        0
    } else {
        (digits_value(d.drop_last()) * 10 + (d.last() as int - '0' as int)) as nat
    }
}

/// Whether every character is an ASCII digit.
pub open spec fn all_digits(d: Seq<char>) -> bool {
    forall|i: int| 0 <= i < d.len() ==> '0' <= #[trigger] d[i] && d[i] <= '9'
}

/// `u8::from_str`: an optional `+`, then at least one digit, with a value
/// of at most 255.
pub open spec fn parse_u8_spec(s: Seq<char>) -> Option<u8> {
    let d = if s.len() > 0 && s[0] == '+' { s.skip(1) } else { s };
    if d.len() == 0 || !all_digits(d) || digits_value(d) > 255 {
        None
    } else {
        Some(digits_value(d) as u8)
    }
}

/// The script that sets the display brightness to `v`.
pub open spec fn brightness_script(v: u8) -> Seq<char> {
    "(Get-WmiObject -Namespace root/wmi -Class WmiMonitorBrightnessMethods).WmiSetBrightness(1,"@
        + decimal(v as nat) + ")"@
}

/// Index of the first line feed at or after `i` (or the length).
pub open spec fn next_lf(s: Seq<char>, i: int) -> int
    decreases s.len() - i,
{
    if i < 0 || i >= s.len() || s[i] == '\n' { i } else { next_lf(s, i + 1) }
}

/// The line from `i` up to the line feed at `e`, without a carriage return
/// that precedes the line feed.
pub open spec fn line_at(s: Seq<char>, i: int, e: int) -> Seq<char> {
    if e < s.len() && e > i && s[e - 1] == '\r' { s.subrange(i, e - 1) } else { s.subrange(i, e) }
}

/// The lines of `s` from position `i` on (`str::lines`: split at `\n` or
/// `\r\n`, with no empty last line after a final line ending).
pub open spec fn lines_from(s: Seq<char>, i: int) -> Seq<Seq<char>>
    decreases s.len() + 1 - i,
{
    if i < 0 || i >= s.len() {
        Seq::empty()
    } else {
        let e = next_lf(s, i);
        proof {
            lemma_next_lf(s, i);
        }
        if e < i {
            Seq::empty()
        } else {
            seq![line_at(s, i, e)] + lines_from(s, e + 1)
        }
    }
}

/// The SSID a (trimmed) line of `netsh wlan show interfaces` names, if any:
/// a line starting with `SSID` (not `BSSID`), then a space or colon, whose
/// text after the first colon is not blank once trimmed.
pub open spec fn ssid_of_line(t: Seq<char>) -> Option<Seq<char>> {
    if t.len() >= 5 && t.subrange(0, 5) == "BSSID"@ {
        None
    } else if t.len() >= 5 && t.subrange(0, 4) == "SSID"@ && (t[4] == ' ' || t[4] == ':') {
        match first_colon(t) {
            Some(k) => {
                let v = trimmed(t.skip(k + 1));
                if v.len() > 0 { Some(v) } else { None }
            },
            None => None,
        }
    } else {
        None
    }
}

/// Index of the first colon.
pub open spec fn first_colon(t: Seq<char>) -> Option<int>
    decreases t.len(),
{
    if t.len() == 0 {
        None
    } else if t[0] == ':' {
        Some(0)
    } else {
        match first_colon(t.drop_first()) {
            Some(k) => Some(k + 1),
            None => None,
        }
    }
}

/// The first SSID named by the lines.
pub open spec fn ssid_of_lines(ls: Seq<Seq<char>>) -> Option<Seq<char>>
    decreases ls.len(),
{
    if ls.len() == 0 {
        None
    } else {
        match ssid_of_line(trimmed(ls[0])) {
            Some(v) => Some(v),
            None => ssid_of_lines(ls.drop_first()),
        }
    }
}

pub proof fn lemma_next_lf(s: Seq<char>, i: int)
    requires
        0 <= i <= s.len(),
    ensures
        i <= next_lf(s, i) <= s.len(),
    decreases s.len() - i,
{
    if i < s.len() && s[i] != '\n' {
        lemma_next_lf(s, i + 1);
    }
}

proof fn lemma_digits_value_mono(d: Seq<char>, n: int)
    requires
        0 <= n <= d.len(),
        all_digits(d),
    ensures
        digits_value(d.subrange(0, n)) <= digits_value(d),
    decreases d.len() - n,
{
    if n < d.len() {
        lemma_digits_value_mono(d, n + 1);
        let t = d.subrange(0, n + 1);
        assert(t.drop_last() =~= d.subrange(0, n));
        assert(t.last() == d[n]);
        assert('0' <= d[n] <= '9');
        assert(d[n] as int - '0' as int >= 0);
        assert(digits_value(t) == digits_value(d.subrange(0, n)) * 10 + (d[n] as int - '0' as int));
    } else {
        assert(d.subrange(0, n) =~= d);
    }
}

/// Parses a decimal `u8` as `u8::from_str` does.
pub fn parse_u8(s: &str) -> (r: Option<u8>)
    ensures
        r == parse_u8_spec(s@),
{
    let v = chars_of(s);
    let start: usize = if v.len() > 0 && v[0] == '+' { 1 } else { 0 };
    let ghost d = if s@.len() > 0 && s@[0] == '+' { s@.skip(1) } else { s@ };
    proof {
        assert(d =~= v@.subrange(start as int, v@.len() as int));
    }
    if start >= v.len() {
        return None;
    }
    let mut acc: u32 = 0;
    let mut i = start;
    while i < v.len()
        invariant
            v@ == s@,
            start <= i <= v@.len(),
            d == (if s@.len() > 0 && s@[0] == '+' { s@.skip(1) } else { s@ }),
            d == v@.subrange(start as int, v@.len() as int),
            all_digits(d.subrange(0, i - start)),
            acc as nat == digits_value(d.subrange(0, i - start)),
            acc <= 255,
        decreases v@.len() - i,
    {
        let c = v[i];
        proof {
            assert(d.subrange(0, i + 1 - start).drop_last() =~= d.subrange(0, i - start));
            assert(d.subrange(0, i + 1 - start).last() == c);
        }
        if c < '0' || c > '9' {
            proof {
                assert(d[i - start] == c);
            }
            return None;
        }
        let dig = (c as u32) - ('0' as u32);
        acc = acc * 10 + dig;
        if acc > 255 {
            proof {
                assert(all_digits(d.subrange(0, i + 1 - start)));
                if all_digits(d) {
                    lemma_digits_value_mono(d, i + 1 - start);
                }
            }
            return None;
        }
        i = i + 1;
    }
    proof {
        assert(d.subrange(0, i - start) =~= d);
    }
    Some(acc as u8)
}

/// Sets the display brightness: the value is capped at 100 and remembered;
/// returns the script that applies it.
pub fn set_brightness(cache: &mut Option<u8>, v: u8) -> (script: String)
    ensures
        *final(cache) == Some(if v > MAX_BRIGHTNESS { MAX_BRIGHTNESS } else { v }),
        script@ == brightness_script(if v > MAX_BRIGHTNESS { MAX_BRIGHTNESS } else { v }),
{
    let v = if v > MAX_BRIGHTNESS { MAX_BRIGHTNESS } else { v };
    let mut script = String::from_str(
        "(Get-WmiObject -Namespace root/wmi -Class WmiMonitorBrightnessMethods).WmiSetBrightness(1,",
    );
    push_decimal(&mut script, v as u64);
    script.append(")");
    proof {
        reveal_strlit("(Get-WmiObject -Namespace root/wmi -Class WmiMonitorBrightnessMethods).WmiSetBrightness(1,");
        reveal_strlit(")");
    }
    *cache = Some(v);
    script
}

/// The script that reads the display brightness.
pub open spec fn brightness_read_script_text() -> Seq<char> {
    "(Get-WmiObject -Namespace root/wmi -Class WmiMonitorBrightness).CurrentBrightness"@
}

/// The script to run before `read_brightness`: none while a value is
/// remembered, else the one that reads the brightness.
pub fn brightness_query(cache: &Option<u8>) -> (r: Option<String>)
    ensures
        cache is Some ==> r is None,
        cache is None ==> (r matches Some(q) && q@ == brightness_read_script_text()),
{
    match cache {
        Some(_) => None,
        None => {
            let q = String::from_str(
                "(Get-WmiObject -Namespace root/wmi -Class WmiMonitorBrightness).CurrentBrightness",
            );
            Some(q)
        },
    }
}

/// The brightness: the remembered value, else the value printed by the
/// read script (`output`, its standard output), which is then remembered.
pub fn read_brightness(cache: &mut Option<u8>, output: &Option<String>) -> (r: Option<u8>)
    ensures
        match *old(cache) {
            Some(b) => r == Some(b) && *final(cache) == *old(cache),
            None => match output {
                Some(o) => r == parse_u8_spec(trimmed(o@)) && *final(cache) == r,
                None => r is None && *final(cache) == *old(cache),
            },
        },
{
    match *cache {
        Some(b) => Some(b),
        None => match output {
            Some(o) => {
                let chars = chars_of(o.as_str());
                let t = trim_range(&chars, 0, chars.len());
                proof {
                    assert(chars@.subrange(0, chars@.len() as int) =~= o@);
                }
                let r = parse_u8(t.as_str());
                *cache = r;
                r
            },
            None => None,
        },
    }
}

fn starts_with_at(v: &Vec<char>, p: &str) -> (r: bool)
    ensures
        r == (v@.len() >= p@.len() && v@.subrange(0, p@.len() as int) == p@),
{
    let pv = chars_of(p);
    if pv.len() > v.len() {
        return false;
    }
    let mut i: usize = 0;
    while i < pv.len()
        invariant
            pv@ == p@,
            pv@.len() <= v@.len(),
            i <= pv@.len(),
            forall|j: int| 0 <= j < i ==> v@[j] == pv@[j],
        decreases pv@.len() - i,
    {
        if v[i] != pv[i] {
            proof {
                assert(v@.subrange(0, p@.len() as int)[i as int] != p@[i as int]);
            }
            return false;
        }
        i = i + 1;
    }
    proof {
        assert(v@.subrange(0, p@.len() as int) =~= p@);
    }
    true
}

/// The SSID named by one trimmed line.
fn ssid_in_line(t: &Vec<char>) -> (r: Option<String>)
    ensures
        match ssid_of_line(t@) {
            Some(v) => r matches Some(s) && s@ == v,
            None => r is None,
        },
{
    proof {
        reveal_strlit("BSSID");
        reveal_strlit("SSID");
    }
    if starts_with_at(t, "BSSID") {
        return None;
    }
    if t.len() >= 5 && starts_with_at(t, "SSID") && (t[4] == ' ' || t[4] == ':') {
        let mut k: usize = 0;
        proof {
            assert(t@.skip(0) =~= t@);
        }
        while k < t.len() && t[k] != ':'
            invariant
                k <= t@.len(),
                first_colon(t@) == match first_colon(t@.skip(k as int)) {
                    Some(j) => Some(j + k),
                    None => None,
                },
            decreases t@.len() - k,
        {
            proof {
                assert(t@.skip(k as int).drop_first() =~= t@.skip(k + 1));
                assert(t@.skip(k as int)[0] == t@[k as int]);
            }
            k = k + 1;
        }
        proof {
            if k == 0 {
                assert(t@.skip(0) =~= t@);
            }
        }
        if k >= t.len() {
            proof {
                assert(t@.skip(k as int) =~= Seq::<char>::empty());
            }
            return None;
        }
        proof {
            assert(t@.skip(k as int)[0] == ':');
        }
        let v = trim_range(t, k + 1, t.len());
        proof {
            assert(t@.subrange(k + 1, t@.len() as int) =~= t@.skip(k + 1));
        }
        if v.as_str().unicode_len() > 0 {
            Some(v)
        } else {
            None
        }
    } else {
        None
    }
}

/// The connected Wi-Fi network from the output of `netsh wlan show
/// interfaces`: the first SSID line's value, with `true`; or an empty name
/// and `false` when there is none.
pub fn wifi_info(output: &str) -> (r: (String, bool))
    ensures
        match ssid_of_lines(lines_from(output@, 0)) {
            Some(v) => r.0@ == v && r.1,
            None => r.0@ == Seq::<char>::empty() && !r.1,
        },
{
    let s = chars_of(output);
    let n = s.len();
    let mut i: usize = 0;
    while i < n
        invariant
            s@ == output@,
            n == s@.len(),
            i <= n,
            ssid_of_lines(lines_from(output@, 0)) == ssid_of_lines(lines_from(output@, i as int)),
        decreases n - i,
    {
        let mut e = i;
        while e < n && s[e] != '\n'
            invariant
                s@ == output@,
                n == s@.len(),
                i <= e <= n,
                next_lf(s@, i as int) == next_lf(s@, e as int),
            decreases n - e,
        {
            e = e + 1;
        }
        let end = if e < n && e > i && s[e - 1] == '\r' { e - 1 } else { e };
        let t = trim_range(&s, i, end);
        let tv = chars_of(t.as_str());
        proof {
            assert(line_at(s@, i as int, e as int) =~= s@.subrange(i as int, end as int));
            assert(lines_from(s@, i as int) == seq![line_at(s@, i as int, e as int)] + lines_from(s@, e + 1));
            let ls = lines_from(s@, i as int);
            assert(ls[0] == s@.subrange(i as int, end as int));
            assert(ls.drop_first() =~= lines_from(s@, e + 1));
        }
        match ssid_in_line(&tv) {
            Some(v) => {
                return (v, true);
            },
            None => {},
        }
        if e >= n {
            proof {
                assert(lines_from(s@, e + 1) =~= Seq::<Seq<char>>::empty());
            }
            i = n;
        } else {
            i = e + 1;
        }
    }
    proof {
        assert(lines_from(output@, i as int) =~= Seq::<Seq<char>>::empty());
    }
    (String::new(), false)
}

} // verus!
