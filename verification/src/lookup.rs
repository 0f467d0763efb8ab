//! What the icon lookup tries for an application: the icon names, in
//! order, and how an image file found for it is decoded.
use vstd::prelude::*;

use crate::model::ostr;
use crate::text::{chars_of, string_from_chars};

verus! {

/// The full Unicode lowercase mapping of `s`, as `str::to_lowercase`
/// computes it.
pub uninterp spec fn lowercase(s: Seq<char>) -> Seq<char>;

/// Lowercases `s` with `str::to_lowercase`.
#[verifier::external_body]
fn to_lowercase(s: &str) -> (r: String)
    ensures
        r@ == lowercase(s@),
{
    s.to_lowercase()
}

/// Position of the last `.` of `s`, -1 when there is none.
pub open spec fn last_dot(s: Seq<char>) -> int
    decreases s.len(),
{
    if s.len() == 0 {
        -1
    } else if s.last() == '.' {
        s.len() - 1
    } else {
        last_dot(s.drop_last())
    }
}

/// The part of `s` after its last `.`; all of `s` when it has none.
pub open spec fn after_last_dot(s: Seq<char>) -> Seq<char> {
    s.subrange(last_dot(s) + 1, s.len() as int)
}

proof fn lemma_last_dot(s: Seq<char>, k: int)
    requires
        0 <= k <= s.len(),
        forall|j: int| k <= j < s.len() ==> s[j] != '.',
        k == 0 || s[k - 1] == '.',
    ensures
        last_dot(s) == k - 1,
    decreases s.len() - k,
{
    if k < s.len() {
        let t = s.drop_last();
        assert forall|j: int| k <= j < t.len() implies t[j] != '.' by {
            assert(t[j] == s[j]);
        }
        lemma_last_dot(t, k);
    }
}

/// The search variants of an application id already lowercased: that id,
/// and its part after the last `.`.
pub fn variants_of_lowercase(lower: String) -> (r: (String, String))
    ensures
        r.0@ == lower@,
        r.1@ == after_last_dot(lower@),
{
    let cs = chars_of(lower.as_str());
    let mut k: usize = cs.len();
    while k > 0 && cs[k - 1] != '.'
        invariant
            k <= cs@.len(),
            cs@ == lower@,
            forall|j: int| k <= j < cs@.len() ==> cs@[j] != '.',
        decreases k,
    {
        k = k - 1;
    }
    proof {
        lemma_last_dot(cs@, k as int);
    }
    let short = string_from_chars(&cs, k, cs.len());
    (lower, short)
}

/// The lowercase and short (after the last `.`) variants of an
/// application id, tried when looking its icon up.
pub fn generate_search_variants(app_id: &str) -> (r: (String, String))
    ensures
        r.0@ == lowercase(app_id@),
        r.1@ == after_last_dot(lowercase(app_id@)),
{
    variants_of_lowercase(to_lowercase(app_id))
}

/// `s` with `x` appended unless it already holds it.
pub open spec fn push_new(s: Seq<Seq<char>>, x: Seq<char>) -> Seq<Seq<char>> {
    if s.contains(x) {
        s
    } else {
        s.push(x)
    }
}

/// The icon names to try, in order: the name from the application's
/// `.desktop` entry, if any, then the application id, its lowercase and
/// its short variant, each unless already listed.
pub open spec fn names_spec(desktop: Option<Seq<char>>, app: Seq<char>, lower: Seq<char>, short: Seq<char>) -> Seq<Seq<char>> {
    let init = match desktop {
        Some(d) => seq![d],
        None => Seq::empty(),
    };
    push_new(push_new(push_new(init, app), lower), short)
}

/// The characters of each string of `v`.
pub open spec fn views(v: Seq<String>) -> Seq<Seq<char>> {
    v.map_values(|s: String| s@)
}

/// Appends `x` to `v` unless `v` already holds a string with the same
/// characters.
fn push_if_absent(v: &mut Vec<String>, x: String)
    ensures
        views(final(v)@) == push_new(views(old(v)@), x@),
{
    let ghost before = views(v@);
    let mut i: usize = 0;
    while i < v.len()
        invariant
            i <= v@.len(),
            before == views(v@),
            forall|j: int| 0 <= j < i ==> #[trigger] v@[j]@ != x@,
        decreases v@.len() - i,
    {
        if v[i].eq(&x) {
            proof {
                assert(before[i as int] == x@);
            }
            return;
        }
        i = i + 1;
    }
    proof {
        if before.contains(x@) {
            let j = choose|j: int| 0 <= j < before.len() && before[j] == x@;
            assert(v@[j]@ == x@);
        }
    }
    v.push(x);
    proof {
        assert(views(v@) =~= before.push(x@));
    }
}

/// The icon names to try given the application id, its variants and the
/// name from its `.desktop` entry, if any.
pub fn names_from_variants(desktop: Option<String>, app_id: &String, lower: String, short: String) -> (r: Vec<String>)
    ensures
        views(r@) == names_spec(ostr(desktop), app_id@, lower@, short@),
{
    let mut names: Vec<String> = Vec::new();
    let ghost init = match ostr(desktop) {
        Some(d) => seq![d],
        None => Seq::<Seq<char>>::empty(),
    };
    match desktop {
        Some(d) => {
            names.push(d);
        },
        None => {},
    }
    assert(views(names@) =~= init);
    push_if_absent(&mut names, app_id.clone());
    push_if_absent(&mut names, lower);
    push_if_absent(&mut names, short);
    names
}

/// The icon names to try for the application `app_id`, with `desktop` the
/// icon name of its `.desktop` entry, if one was found.
pub fn icon_names_to_try(desktop: Option<String>, app_id: &String) -> (r: Vec<String>)
    ensures
        views(r@) == names_spec(
            ostr(desktop),
            app_id@,
            lowercase(app_id@),
            after_last_dot(lowercase(app_id@)),
        ),
{
    let (lower, short) = generate_search_variants(app_id.as_str());
    names_from_variants(desktop, app_id, lower, short)
}

/// How an image file is turned into pixels.
#[derive(Debug, Clone, Copy, PartialEq, Eq, Structural)]
pub enum ImageKind {
    /// Rasterized as SVG.
    Svg,
    /// Decoded as PNG or JPEG and resized.
    Raster,
    /// Not an image the dock reads.
    Unsupported,
}

/// The decoding of a file with extension `ext`: `svg` files are
/// rasterized, `png`, `jpg` and `jpeg` files decoded; any other extension,
/// or none, is not read.
pub open spec fn image_kind(ext: Option<Seq<char>>) -> ImageKind {
    match ext {
        Some(e) => if e == seq!['s', 'v', 'g'] {
            ImageKind::Svg
        } else if e == seq!['p', 'n', 'g'] || e == seq!['j', 'p', 'g'] || e == seq!['j', 'p', 'e', 'g'] {
            ImageKind::Raster
        } else {
            ImageKind::Unsupported
        },
        None => ImageKind::Unsupported,
    }
}

/// The extension of the path `path`, as `Path::extension` reads it.
pub uninterp spec fn path_extension(path: Seq<char>) -> Option<Seq<char>>;

/// The extension of `path`, by `Path::extension`.
#[verifier::external_body]
fn extension_of(path: &str) -> (r: Option<String>)
    ensures
        ostr(r) == path_extension(path@),
{
    match std::path::Path::new(path).extension() {
        Some(e) => Some(e.to_string_lossy().into_owned()),
        None => None,
    }
}

/// Whether `a` and `b` hold the same characters.
fn same_chars(a: &Vec<char>, b: &Vec<char>) -> (r: bool)
    ensures
        r == (a@ == b@),
{
    if a.len() != b.len() {
        return false;
    }
    let mut i: usize = 0;
    while i < a.len()
        invariant
            a@.len() == b@.len(),
            i <= a@.len(),
            forall|j: int| 0 <= j < i ==> a@[j] == b@[j],
        decreases a@.len() - i,
    {
        if a[i] != b[i] {
            return false;
        }
        i = i + 1;
    }
    assert(a@ =~= b@);
    true
}

/// The decoding of a file whose extension is `ext`.
pub fn image_kind_of(ext: &Option<String>) -> (k: ImageKind)
    ensures
        k == image_kind(ostr(*ext)),
{
    match ext {
        Some(e) => {
            let cs = chars_of(e.as_str());
            let svg: Vec<char> = vec!['s', 'v', 'g'];
            let png: Vec<char> = vec!['p', 'n', 'g'];
            let jpg: Vec<char> = vec!['j', 'p', 'g'];
            let jpeg: Vec<char> = vec!['j', 'p', 'e', 'g'];
            assert(svg@ =~= seq!['s', 'v', 'g']);
            assert(png@ =~= seq!['p', 'n', 'g']);
            assert(jpg@ =~= seq!['j', 'p', 'g']);
            assert(jpeg@ =~= seq!['j', 'p', 'e', 'g']);
            if same_chars(&cs, &svg) {
                ImageKind::Svg
            } else if same_chars(&cs, &png) || same_chars(&cs, &jpg) || same_chars(&cs, &jpeg) {
                ImageKind::Raster
            } else {
                ImageKind::Unsupported
            }
        },
        None => ImageKind::Unsupported,
    }
}

/// How the image file at `path` is processed, by its extension.
pub fn process_image_file(path: &str) -> (k: ImageKind)
    ensures
        k == image_kind(path_extension(path@)),
{
    let ext = extension_of(path);
    image_kind_of(&ext)
}

} // verus!
