//! The dock settings that its logic reads.
use vstd::prelude::*;

use crate::desktop::trim_bounds;
use crate::text::{chars_of, ends_with, string_from_chars, trim};

verus! {

/// When window titles are shown next to the icons.
#[derive(Debug, Clone, Copy, PartialEq, Eq, Structural)]
pub enum ShowTitles {
    Always,
    Focused,
    Never,
    /// Titles only: no icons.
    Only,
}

impl Default for ShowTitles {
    fn default() -> (r: Self)
        ensures
            r == ShowTitles::Always,
    {
        ShowTitles::Always
    }
}

/// The settings of a workspace indicator on niri that its data depends on.
#[derive(Debug, Clone, Copy, PartialEq, Eq, Structural)]
pub struct NiriConf {
    /// List empty, unnamed, unfocused workspaces too.
    pub preserve_empty: bool,
}

/// The title setting of window buttons when none is configured.
pub fn default_show_titles() -> (r: ShowTitles)
    ensures
        r == ShowTitles::Focused,
{
    ShowTitles::Focused
}

/// A configured icon fallback that is neither an image path nor a single
/// character; it holds the value, trimmed.
#[derive(Debug)]
pub struct InvalidIconFallback {
    pub value: String,
}

/// The icon fallback configured as `value`, trimmed of white space: an
/// image path ending in `.png` or `.svg`, or a single character (a
/// symbol or emoji); anything else is refused.
pub open spec fn icon_fallback_ok(value: Seq<char>) -> bool {
    let t = trim(value);
    ends_with(t, seq!['.', 'p', 'n', 'g']) || ends_with(t, seq!['.', 's', 'v', 'g']) || t.len() == 1
}

/// Whether `cs[a..b]` ends with the four characters `suffix`.
fn ends_with4(cs: &Vec<char>, a: usize, b: usize, suffix: [char; 4]) -> (r: bool)
    requires
        a <= b <= cs@.len(),
    ensures
        r == ends_with(cs@.subrange(a as int, b as int), suffix@),
{
    if b - a < 4 {
        return false;
    }
    let r = cs[b - 4] == suffix[0] && cs[b - 3] == suffix[1] && cs[b - 2] == suffix[2] && cs[b - 1] == suffix[3];
    proof {
        let s = cs@.subrange(a as int, b as int);
        let tail = s.subrange(s.len() - 4, s.len() as int);
        assert(tail[0] == cs@[b - 4] && tail[1] == cs@[b - 3] && tail[2] == cs@[b - 2] && tail[3] == cs@[b - 1]);
        if r {
            assert(tail =~= suffix@);
        } else if tail == suffix@ {
            assert(tail[0] == suffix@[0] && tail[1] == suffix@[1] && tail[2] == suffix@[2] && tail[3] == suffix@[3]);
        }
    }
    r
}

/// Checks the configured icon fallback `value` and gives it trimmed: an
/// image path ending in `.png` or `.svg`, or a single character.
pub fn validate_icon_fallback(value: &str) -> (r: Result<String, InvalidIconFallback>)
    ensures
        match r {
            Ok(v) => icon_fallback_ok(value@) && v@ == trim(value@),
            Err(e) => !icon_fallback_ok(value@) && e.value@ == trim(value@),
        },
{
    let cs = chars_of(value);
    let (a, b) = trim_bounds(&cs, 0, cs.len());
    let trimmed = string_from_chars(&cs, a, b);
    proof {
        assert(cs@.subrange(0, cs@.len() as int) =~= value@);
    }
    let png = ends_with4(&cs, a, b, ['.', 'p', 'n', 'g']);
    let svg = ends_with4(&cs, a, b, ['.', 's', 'v', 'g']);
    proof {
        assert(['.', 'p', 'n', 'g']@ =~= seq!['.', 'p', 'n', 'g']);
        assert(['.', 's', 'v', 'g']@ =~= seq!['.', 's', 'v', 'g']);
    }
    if png || svg || b - a == 1 {
        Ok(trimmed)
    } else {
        Err(InvalidIconFallback { value: trimmed })
    }
}

} // verus!
