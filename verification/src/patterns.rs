//! Pattern matching through the outside regex engine: the trusted wrapper
//! around it, the fixed patterns the features use, and the verified reading
//! of the capture groups it hands back.

use vstd::prelude::*;

verus! {

/// Capture groups of the first match of `pattern` on `text`, as the engine
/// reports them: `None` when nothing matches; group 0 is the whole match; a
/// group that took no part in the match is `None`.
pub uninterp spec fn spec_captures(pattern: Seq<char>, text: Seq<char>) -> Option<
    Seq<Option<Seq<char>>>,
>;

/// View of the capture groups a wrapper call hands back.
pub open spec fn captures_view(c: Option<Vec<Option<String>>>) -> Option<Seq<Option<Seq<char>>>> {
    match c {
        Some(v) => Some(
            v@.map_values(
                |o: Option<String>|
                    match o {
                        Some(s) => Some(s@),
                        None => None::<Seq<char>>,
                    },
            ),
        ),
        None => None,
    }
}

/// The engine refuses the pattern or gives up while matching this text:
/// with the default backtrack limit this too depends on the pattern and the
/// text alone.
pub uninterp spec fn spec_regex_fault(pattern: Seq<char>, text: Seq<char>) -> bool;

/// The engine refused the pattern or gave up while matching.
#[derive(Debug, Clone, Copy, PartialEq, Eq, Structural)]
pub struct RegexFault;

/// Relies on `fancy_regex::Regex::new` and `fancy_regex::Regex::captures`:
/// the capture groups of a pattern on a text depend on the pattern and the
/// text alone, and a reported match always carries group 0, the whole match.
#[verifier::external_body]
pub(crate) fn regex_captures(pattern: &str, text: &str) -> (r: Result<
    Option<Vec<Option<String>>>,
    RegexFault,
>)
    ensures
        r is Err <==> spec_regex_fault(pattern@, text@),
        r matches Ok(c) ==> captures_view(c) == spec_captures(pattern@, text@),
        r matches Ok(c) && c matches Some(groups) ==> groups@.len() >= 1,
{
    let compiled = match fancy_regex::Regex::new(pattern) {
        Ok(re) => re,
        Err(_) => {
            return Err(RegexFault);
        },
    };
    match compiled.captures(text) {
        Ok(Some(caps)) => Ok(Some(caps.iter().map(|m| m.map(|g| g.as_str().to_string())).collect())),
        Ok(None) => Ok(None),
        Err(_) => Err(RegexFault),
    }
}

/// Clones one capture group out of a reported match; `None` when the group
/// is absent or took no part in the match.
pub fn capture_group(groups: &Vec<Option<String>>, idx: usize) -> (r: Option<String>)
    ensures
        match r {
            Some(s) => idx < groups@.len() && (groups@[idx as int] matches Some(g) && g@ == s@),
            None => idx >= groups@.len() || groups@[idx as int] is None,
        },
{
    if idx < groups.len() {
        match &groups[idx] {
            Some(s) => Some(s.clone()),
            None => None,
        }
    } else {
        None
    }
}

/// Link pattern of the audio feature: a video id on one of the known hosts.
pub open spec fn youtube_pattern() -> Seq<char> {
    "https?:\\/\\/(?:youtu\\.be|(?:www\\.|music\\.)?youtube\\.com)\\/(?:watch\\?v=)?([\\w-]+)"@
}

pub(crate) fn youtube_pattern_str() -> (r: &'static str)
    ensures
        r@ == youtube_pattern(),
{
    "https?:\\/\\/(?:youtu\\.be|(?:www\\.|music\\.)?youtube\\.com)\\/(?:watch\\?v=)?([\\w-]+)"
}

/// Link pattern of the subscription commands: a beatmapset id in a site URL.
pub open spec fn osu_link_pattern() -> Seq<char> {
    "(?:https:\\/\\/osu\\.ppy\\.sh/beatmapsets/)(\\d+)"@
}

pub(crate) fn osu_link_pattern_str() -> (r: &'static str)
    ensures
        r@ == osu_link_pattern(),
{
    "(?:https:\\/\\/osu\\.ppy\\.sh/beatmapsets/)(\\d+)"
}

} // verus!
