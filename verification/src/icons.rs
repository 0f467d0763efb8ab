use vstd::prelude::*;

verus! {

/// The icon sizes of the freedesktop icon theme specification that the
/// lookup tries, in increasing order.
pub open spec fn standard_sizes() -> Seq<u16> {
    seq![8u16, 16, 20, 22, 24, 28, 32, 36, 42, 44, 48, 64, 72, 96, 128, 150, 192, 256, 384, 512, 1024]
}

/// Number of leading elements of `s` that are below `t`
/// (the partition point of `s` for the predicate `x < t`).
pub open spec fn count_below(s: Seq<u16>, t: u32) -> nat
    decreases s.len(),
{
    if s.len() == 0 {
        0
    } else if s[0] < t {
        1 + count_below(s.drop_first(), t)
    } else {
        0
    }
}

/// The order in which icon sizes are tried for a target size `t`:
/// the standard sizes from the first one not below `t` upwards, then the
/// smaller ones from the largest down.
pub open spec fn ordered_sizes(t: u32) -> Seq<u16> {
    let p = count_below(standard_sizes(), t) as int;
    standard_sizes().subrange(p, 21) + standard_sizes().subrange(0, p).reverse()
}

fn standard_sizes_vec() -> (v: Vec<u16>)
    ensures
        v@ == standard_sizes(),
{
    let v: Vec<u16> = vec![8u16, 16, 20, 22, 24, 28, 32, 36, 42, 44, 48, 64, 72, 96, 128, 150, 192, 256, 384, 512, 1024];
    assert(v@ =~= standard_sizes());
    v
}

proof fn lemma_count_below_split(s: Seq<u16>, t: u32, i: int)
    requires
        0 <= i <= s.len(),
        forall|j: int| 0 <= j < i ==> s[j] < t,
    ensures
        i == s.len() || s[i] >= t ==> count_below(s, t) == i,
        i < s.len() && s[i] < t ==> count_below(s, t) > i,
    decreases i,
{
    if i > 0 {
        lemma_count_below_split(s.drop_first(), t, i - 1);
    } else if s.len() > 0 {
        if s[0] < t {
        }
    }
}

/// Generates the ordered list of standard icon sizes to try for
/// `target_size`: first the sizes not below it in increasing order, then
/// the smaller ones in decreasing order. A target above every standard
/// size gives them all, from the largest down.
pub fn generate_ordered_sizes(target_size: u32) -> (r: Vec<u16>)
    ensures
        r@ == ordered_sizes(target_size),
{
    let sizes = standard_sizes_vec();
    let t = target_size;
    let mut p: usize = 0;
    while p < sizes.len() && (sizes[p] as u32) < t
        invariant
            sizes@ == standard_sizes(),
            p <= sizes.len(),
            forall|j: int| 0 <= j < p ==> sizes@[j] < t,
        decreases sizes.len() - p,
    {
        p = p + 1;
    }
    proof {
        lemma_count_below_split(sizes@, t, p as int);
    }
    let mut r: Vec<u16> = Vec::new();
    let mut i: usize = p;
    while i < sizes.len()
        invariant
            sizes@ == standard_sizes(),
            p <= i <= sizes.len(),
            r@ == sizes@.subrange(p as int, i as int),
        decreases sizes.len() - i,
    {
        r.push(sizes[i]);
        i = i + 1;
        assert(r@ =~= sizes@.subrange(p as int, i as int));
    }
    let ghost head = r@;
    let mut k: usize = p;
    while k > 0
        invariant
            sizes@ == standard_sizes(),
            k <= p <= sizes.len(),
            head == sizes@.subrange(p as int, 21),
            r@ == head + sizes@.subrange(k as int, p as int).reverse(),
        decreases k,
    {
        k = k - 1;
        r.push(sizes[k]);
        assert(sizes@.subrange(k as int, p as int).reverse() =~= sizes@.subrange(k + 1, p as int).reverse().push(sizes@[k as int]));
        assert(r@ =~= head + sizes@.subrange(k as int, p as int).reverse());
    }
    r
}

} // verus!

verus! {

/// What identifies an icon in the cache: application id (or image path),
/// pixel size, icon theme and fallback.
#[derive(Debug)]
pub struct IconKey {
    pub app_id: String,
    pub size: u32,
    pub theme: Option<String>,
    pub fallback: Option<String>,
}

/// The characters of an icon key's parts.
pub struct IconKeyView {
    pub app_id: Seq<char>,
    pub size: u32,
    pub theme: Option<Seq<char>>,
    pub fallback: Option<Seq<char>>,
}

impl IconKey {
    pub open spec fn view(self) -> IconKeyView {
        IconKeyView {
            app_id: self.app_id@,
            size: self.size,
            theme: crate::model::ostr(self.theme),
            fallback: crate::model::ostr(self.fallback),
        }
    }

    /// A copy of this key.
    pub fn duplicate(&self) -> (r: Self)
        ensures
            r == *self,
    {
        IconKey {
            app_id: self.app_id.clone(),
            size: self.size,
            theme: crate::model::clone_opt_str(&self.theme),
            fallback: crate::model::clone_opt_str(&self.fallback),
        }
    }

    /// Whether `self` and `other` name the same icon.
    pub fn same_as(&self, other: &IconKey) -> (r: bool)
        ensures
            r == (self.view() == other.view()),
    {
        self.app_id.eq(&other.app_id) && self.size == other.size && crate::model::opt_str_eq(&self.theme, &other.theme)
            && crate::model::opt_str_eq(&self.fallback, &other.fallback)
    }
}

} // verus!

verus! {

/// `p` with the first and third byte of each complete group of four
/// swapped: RGBA pixels turned into BGRA ones. Bytes after the last
/// complete group stay.
pub open spec fn swizzled(p: Seq<u8>) -> Seq<u8> {
    let n = p.len() - p.len() % 4;
    Seq::new(
        p.len(),
        |i: int|
            if i < n && i % 4 == 0 {
                p[i + 2]
            } else if i < n && i % 4 == 2 {
                p[i - 2]
            } else {
                p[i]
            },
    )
}

/// Converts RGBA pixel data to BGRA, the byte order of Cairo's ARGB32
/// format on little-endian machines.
pub fn swizzle_rgba_to_bgra(pixels: &mut Vec<u8>)
    ensures
        final(pixels)@ == swizzled(old(pixels)@),
{
    let ghost orig = pixels@;
    let len = pixels.len();
    let n = len - len % 4;
    let mut i: usize = 0;
    while i < n
        invariant
            len == orig.len(),
            n == len - len % 4,
            pixels@.len() == len,
            i % 4 == 0,
            i <= n,
            forall|j: int| 0 <= j < i ==> #[trigger] pixels@[j] == swizzled(orig)[j],
            forall|j: int| i <= j < len ==> #[trigger] pixels@[j] == orig[j],
        decreases n - i,
    {
        let r = pixels[i];
        let b = pixels[i + 2];
        pixels.set(i, b);
        pixels.set(i + 2, r);
        proof {
            assert forall|j: int| 0 <= j < i + 4 implies #[trigger] pixels@[j] == swizzled(orig)[j] by {
                if j >= i {
                    assert(j - i == 0 || j - i == 1 || j - i == 2 || j - i == 3);
                    assert((j == i) == (j % 4 == 0)) by (nonlinear_arith)
                        requires i % 4 == 0, i <= j < i + 4;
                    assert((j == i + 2) == (j % 4 == 2)) by (nonlinear_arith)
                        requires i % 4 == 0, i <= j < i + 4;
                }
            }
        }
        i = i + 4;
    }
    proof {
        assert(pixels@ =~= swizzled(orig));
    }
}

} // verus!
