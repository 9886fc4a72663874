//! Desktop shortcuts: which files are shortcuts, their display names and
//! resolved targets, and their icons as PNG data URLs.

use vstd::prelude::*;
use crate::pty::{base64_encode, base64_standard};
use crate::text::{chars_of, eq_ignore_ascii_case, file_name, spec_eq_ignore_ascii_case, spec_file_name, string_of};
use crate::utf16::{before_nul, decode16, utf16_to_string};

verus! {

/// A desktop shortcut: display name, target executable, arguments and icon
/// (a PNG data URL, or empty).
#[derive(Clone, Debug)]
pub struct Shortcut {
    pub name: String,
    pub target: String,
    pub args: String,
    pub icon: String,
}

/// The PNG encoding of an RGBA image with 8 bits per channel, as the
/// `image` crate's PNG encoder writes it (`None` if it reports an error).
pub uninterp spec fn png_rgba8(width: u32, height: u32, pixels: Seq<u8>) -> Option<Seq<u8>>;

/// Encodes an RGBA image as PNG.
///
/// Trusted wrapper around `image::write_buffer_with_format` with the PNG
/// format and 8-bit RGBA pixels, which `ImageBuffer::write_to` calls on the
/// buffer's pixels; the result is named by `png_rgba8`. The encoder asserts
/// that the buffer holds exactly four bytes per pixel, which the
/// precondition guarantees.
#[verifier::external_body]
fn encode_png(width: u32, height: u32, pixels: &[u8]) -> (r: Option<Vec<u8>>)
    requires
        pixels@.len() == 4 * width * height,
    ensures
        r matches Some(b) ==> png_rgba8(width, height, pixels@) == Some(b@),
        r is None ==> png_rgba8(width, height, pixels@) is None,
{
    let mut out = std::io::Cursor::new(Vec::new());
    match image::write_buffer_with_format(
        &mut out,
        pixels,
        width,
        height,
        image::ExtendedColorType::Rgba8,
        image::ImageFormat::Png,
    ) {
        Ok(()) => Some(out.into_inner()),
        Err(_) => None,
    }
}

/// Pixels with the first and third byte of each four swapped (BGRA to
/// RGBA).
pub open spec fn swapped_rb(p: Seq<u8>) -> Seq<u8> {
    Seq::new(p.len(), |i: int| if i % 4 == 0 { p[i + 2] } else if i % 4 == 2 { p[i - 2] } else { p[i] })
}

/// The data URL of a PNG image.
pub open spec fn png_data_url(png: Seq<u8>) -> Seq<char> {
    "data:image/png;base64,"@ + base64_standard(png)
}

/// Converts BGRA pixels to RGBA in place.
pub fn bgra_to_rgba(pixels: &mut Vec<u8>)
    requires
        old(pixels)@.len() % 4 == 0,
    ensures
        final(pixels)@ == swapped_rb(old(pixels)@),
{
    let ghost p = pixels@;
    let n = pixels.len();
    let mut i: usize = 0;
    while i < n
        invariant
            n == p.len(),
            n % 4 == 0,
            i % 4 == 0,
            i <= n,
            pixels@.len() == n,
            forall|j: int| 0 <= j < i ==> pixels@[j] == swapped_rb(p)[j],
            forall|j: int| i <= j < n ==> pixels@[j] == p[j],
        decreases n - i,
    {
        let a = pixels[i];
        let c = pixels[i + 2];
        pixels.set(i, c);
        pixels.set(i + 2, a);
        proof {
            assert forall|j: int| 0 <= j < i + 4 implies pixels@[j] == swapped_rb(p)[j] by {
                if j >= i {
                    assert(j - i < 4);
                    assert(j % 4 == (j - i) % 4) by {
                        vstd::arithmetic::div_mod::lemma_mod_sub_multiples_vanish(j, 4);
                        assert(i % 4 == 0);
                        vstd::arithmetic::div_mod::lemma_fundamental_div_mod(i as int, 4);
                        vstd::arithmetic::div_mod::lemma_mod_multiples_vanish(i as int / 4, j - i, 4);
                    }
                }
            }
        }
        i = i + 4;
    }
    proof {
        assert(pixels@ =~= swapped_rb(p));
    }
}

/// The size in bytes of a 32-bit image of `w` x `h` pixels, or `None` for
/// an empty or negative size.
pub fn icon_buffer_len(w: i32, h: i32) -> (r: Option<usize>)
    requires
        w > 0 && h > 0 ==> w * h * 4 <= usize::MAX,
    ensures
        (w <= 0 || h <= 0) ==> r is None,
        (w > 0 && h > 0) ==> r == Some((w * h * 4) as usize),
{
    if w <= 0 || h <= 0 {
        return None;
    }
    proof {
        assert(0 <= (w as usize) * (h as usize) <= usize::MAX) by (nonlinear_arith)
            requires w > 0, h > 0, w * h * 4 <= usize::MAX;
    }
    Some((w as usize) * (h as usize) * 4)
}

/// The icon of a `width` x `height` image given as BGRA pixels, as a PNG
/// data URL (`None` when encoding fails).
pub fn icon_data_url(width: u32, height: u32, bgra: Vec<u8>) -> (r: Option<String>)
    requires
        bgra@.len() == 4 * width * height,
        bgra@.len() <= usize::MAX / 2,
    ensures
        match png_rgba8(width, height, swapped_rb(bgra@)) {
            Some(png) => png.len() <= usize::MAX / 2 ==> (r matches Some(s) && s@ == png_data_url(png)),
            None => r is None,
        },
{
    let mut px = bgra;
    proof {
        let k: int = width as int * height as int;
        assert(4 * width * height == 4 * k) by (nonlinear_arith)
            requires k == width as int * height as int;
        assert(px@.len() % 4 == 0);
    }
    bgra_to_rgba(&mut px);
    match encode_png(width, height, px.as_slice()) {
        Some(png) => {
            if png.len() > usize::MAX / 2 {
                return None;
            }
            let b64 = base64_encode(png.as_slice());
            let mut url = String::from_str("data:image/png;base64,");
            url.append(b64.as_str());
            proof {
                reveal_strlit("data:image/png;base64,");
            }
            Some(url)
        },
        None => None,
    }
}

/// Index of the last `.` in `n`, or -1.
pub open spec fn last_dot(n: Seq<char>) -> int
    decreases n.len(),
{
    if n.len() == 0 {
        -1
    } else if n.last() == '.' {
        n.len() - 1
    } else {
        last_dot(n.drop_last())
    }
}

/// The extension of a file name (`Path::extension`): the text after the
/// last dot, when that dot is not the first character.
pub open spec fn spec_extension(name: Seq<char>) -> Option<Seq<char>> {
    let k = last_dot(name);
    if k > 0 { Some(name.skip(k + 1)) } else { None }
}

/// The stem of a file name (`Path::file_stem`): the text before the last
/// dot, or the whole name when that dot is absent or first.
pub open spec fn spec_stem(name: Seq<char>) -> Seq<char> {
    let k = last_dot(name);
    if k > 0 { name.take(k) } else { name }
}

/// Whether a path names a shortcut: its extension is `lnk`, ASCII case
/// ignored.
pub open spec fn spec_is_lnk(path: Seq<char>) -> bool {
    match spec_file_name(path) {
        Some(n) => match spec_extension(n) {
            Some(e) => spec_eq_ignore_ascii_case(e, "lnk"@),
            None => false,
        },
        None => false,
    }
}

/// The display name of a shortcut at `path`: its file stem (empty when the
/// path has no file name).
pub open spec fn spec_shortcut_name(path: Seq<char>) -> Seq<char> {
    match spec_file_name(path) {
        Some(n) => spec_stem(n),
        None => Seq::empty(),
    }
}

proof fn lemma_last_dot(n: Seq<char>)
    ensures
        -1 <= last_dot(n) < n.len(),
    decreases n.len(),
{
    if n.len() > 0 && n.last() != '.' {
        lemma_last_dot(n.drop_last());
    }
}

fn find_last_dot(v: &Vec<char>) -> (k: Option<usize>)
    ensures
        k matches Some(i) ==> i as int == last_dot(v@),
        k is None ==> last_dot(v@) < 0,
{
    let mut i = v.len();
    proof {
        assert(v@.take(i as int) =~= v@);
    }
    while i > 0
        invariant
            i <= v@.len(),
            last_dot(v@) == last_dot(v@.take(i as int)),
        decreases i,
    {
        proof {
            assert(v@.take(i as int).drop_last() =~= v@.take(i - 1));
        }
        if v[i - 1] == '.' {
            return Some(i - 1);
        }
        i = i - 1;
    }
    None
}

/// Whether a path names a shortcut file.
pub fn is_lnk(path: &str) -> (r: bool)
    ensures
        r == spec_is_lnk(path@),
{
    match file_name(path) {
        Some(n) => {
            let v = chars_of(n.as_str());
            proof {
                lemma_last_dot(v@);
            }
            match find_last_dot(&v) {
                Some(k) => {
                    if k > 0 {
                        let e = string_of(&v, k + 1, v.len());
                        proof {
                            assert(e@ =~= v@.skip(k + 1));
                        }
                        eq_ignore_ascii_case(e.as_str(), "lnk")
                    } else {
                        false
                    }
                },
                None => false,
            }
        },
        None => false,
    }
}

/// The display name of the shortcut at `path`.
pub fn shortcut_name(path: &str) -> (r: String)
    ensures
        r@ == spec_shortcut_name(path@),
{
    match file_name(path) {
        Some(n) => {
            let v = chars_of(n.as_str());
            proof {
                lemma_last_dot(v@);
            }
            match find_last_dot(&v) {
                Some(k) => {
                    if k > 0 {
                        let s = string_of(&v, 0, k);
                        proof {
                            assert(s@ =~= v@.take(k as int));
                        }
                        s
                    } else {
                        n
                    }
                },
                None => n,
            }
        },
        None => String::new(),
    }
}

/// The shortcut at `path` whose link resolved to the NUL-terminated
/// `target` and `args` buffers, with the given icon.
pub fn make_shortcut(path: &str, target: &[u16], args: &[u16], icon: String) -> (s: Shortcut)
    ensures
        s.name@ == spec_shortcut_name(path@),
        s.target@ == decode16(before_nul(target@)),
        s.args@ == decode16(before_nul(args@)),
        s.icon == icon,
{
    Shortcut {
        name: shortcut_name(path),
        target: utf16_to_string(target),
        args: utf16_to_string(args),
        icon,
    }
}

/// The directories whose shortcuts are listed: the user's desktop (when
/// the profile directory is known) and the public desktop.
pub fn desktop_dirs(user_profile: &Option<String>) -> (v: Vec<String>)
    ensures
        v@.map_values(|s: String| s@) == match user_profile {
            Some(p) => seq![p@ + "\\Desktop"@, "C:\\Users\\Public\\Desktop"@],
            None => seq!["C:\\Users\\Public\\Desktop"@],
        },
{
    let mut v: Vec<String> = Vec::new();
    match user_profile {
        Some(p) => {
            let mut d = p.clone();
            d.append("\\Desktop");
            v.push(d);
        },
        None => {},
    }
    v.push(String::from_str("C:\\Users\\Public\\Desktop"));
    proof {
        assert(v@.map_values(|s: String| s@) =~= match user_profile {
            Some(p) => seq![p@ + "\\Desktop"@, "C:\\Users\\Public\\Desktop"@],
            None => seq!["C:\\Users\\Public\\Desktop"@],
        });
    }
    v
}

} // verus!
