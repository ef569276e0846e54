//! Verified text helpers: substring search and trimming over byte slices,
//! digit parsing for ids carried inside links and control identifiers, and
//! decimal rendering of counters for status output.

use vstd::prelude::*;

use crate::models::ExtractError;
use vstd::string::{StrSliceExecFns, StringExecFns};

verus! {

/// `needle` occurs in `hay` starting at position `i`.
pub open spec fn occurs_at(hay: Seq<u8>, needle: Seq<u8>, i: int) -> bool {
    &&& 0 <= i
    &&& i + needle.len() <= hay.len()
    &&& hay.subrange(i, i + needle.len() as int) == needle
}

fn eq_at(hay: &[u8], needle: &[u8], i: usize) -> (r: bool)
    requires
        i + needle@.len() <= hay@.len(),
    ensures
        r == occurs_at(hay@, needle@, i as int),
{
    let n = needle.len();
    let hn = hay.len();
    let mut k: usize = 0;
    while k < n
        invariant
            n == needle@.len(),
            hn == hay@.len(),
            i + n <= hn,
            k <= n,
            forall|j: int| 0 <= j < k ==> hay@[i + j] == needle@[j],
        decreases n - k,
    {
        if hay[i + k] != needle[k] {
            proof {
                assert(hay@.subrange(i as int, i + needle@.len())[k as int] == hay@[i + k]);
            }
            return false;
        }
        k += 1;
    }
    proof {
        assert(hay@.subrange(i as int, i + needle@.len()) =~= needle@);
    }
    true
}

/// First position at or after `from` where `needle` occurs in `hay`.
pub fn find_subrange(hay: &[u8], needle: &[u8], from: usize) -> (r: Option<usize>)
    ensures
        match r {
            Some(i) => {
                &&& from <= i
                &&& occurs_at(hay@, needle@, i as int)
                &&& forall|j: int| from <= j < i ==> !occurs_at(hay@, needle@, j)
            },
            None => forall|j: int| from <= j ==> !occurs_at(hay@, needle@, j),
        },
{
    if needle.is_empty() {
        if from <= hay.len() {
            proof {
                assert(hay@.subrange(from as int, from as int) =~= needle@);
            }
            return Some(from);
        }
        return None;
    }
    if needle.len() > hay.len() {
        return None;
    }
    let limit = hay.len() - needle.len();
    if from > limit {
        return None;
    }
    let mut i = from;
    while i <= limit
        invariant
            1 <= needle@.len() <= hay@.len(),
            limit == hay@.len() - needle@.len(),
            limit < usize::MAX,
            from <= i <= limit + 1,
            forall|j: int| from <= j < i ==> !occurs_at(hay@, needle@, j),
        decreases limit + 1 - i,
    {
        if eq_at(hay, needle, i) {
            return Some(i);
        }
        i += 1;
    }
    None
}

/// ASCII whitespace, as trimmed from scraped content.
pub open spec fn is_ascii_ws(b: u8) -> bool {
    b == 32 || b == 9 || b == 10 || b == 13 || b == 12
}

fn is_ws_byte(b: u8) -> (r: bool)
    ensures
        r == is_ascii_ws(b),
{
    b == 32 || b == 9 || b == 10 || b == 13 || b == 12
}

pub open spec fn ltrim_spec(s: Seq<u8>) -> Seq<u8>
    decreases s.len(),
{
    if s.len() > 0 && is_ascii_ws(s[0]) {
        ltrim_spec(s.drop_first())
    } else {
        s
    }
}

pub open spec fn rtrim_spec(s: Seq<u8>) -> Seq<u8>
    decreases s.len(),
{
    if s.len() > 0 && is_ascii_ws(s.last()) {
        rtrim_spec(s.drop_last())
    } else {
        s
    }
}

/// `s` with ASCII whitespace removed from both ends.
pub open spec fn trim_spec(s: Seq<u8>) -> Seq<u8> {
    rtrim_spec(ltrim_spec(s))
}

/// Copies `v` with ASCII whitespace removed from both ends.
pub fn trim_ascii(v: &[u8]) -> (r: Vec<u8>)
    ensures
        r@ == trim_spec(v@),
{
    let n = v.len();
    proof {
        assert(v@.subrange(0, n as int) =~= v@);
    }
    let mut start: usize = 0;
    while start < n && is_ws_byte(v[start])
        invariant
            n == v@.len(),
            start <= n,
            ltrim_spec(v@) == ltrim_spec(v@.subrange(start as int, n as int)),
        decreases n - start,
    {
        proof {
            let cur = v@.subrange(start as int, n as int);
            assert(cur.drop_first() =~= v@.subrange(start + 1, n as int));
        }
        start += 1;
    }
    proof {
        assert(ltrim_spec(v@) == v@.subrange(start as int, n as int));
    }
    let mut end: usize = n;
    while end > start && is_ws_byte(v[end - 1])
        invariant
            n == v@.len(),
            start <= end <= n,
            rtrim_spec(v@.subrange(start as int, n as int)) == rtrim_spec(
                v@.subrange(start as int, end as int),
            ),
        decreases end,
    {
        proof {
            let cur = v@.subrange(start as int, end as int);
            assert(cur.last() == v@[end - 1]);
            assert(cur.drop_last() =~= v@.subrange(start as int, end - 1));
        }
        end -= 1;
    }
    proof {
        assert(trim_spec(v@) == v@.subrange(start as int, end as int));
    }
    let piece: &[u8] = &v[start..end];
    vstd::slice::slice_to_vec(piece)
}

/// `needle` occurs nowhere in `hay` at or after `from`.
pub open spec fn absent_from(hay: Seq<u8>, needle: Seq<u8>, from: int) -> bool {
    forall|j: int| from <= j ==> !occurs_at(hay, needle, j)
}

/// Cuts out the bytes between the first occurrence of `start_tag` and the
/// next `end_tag` after it, trimmed of ASCII whitespace. Tells data without
/// the opening marker apart from data where the marker is never closed.
pub fn extract_between(data: &[u8], start_tag: &[u8], end_tag: &[u8]) -> (r: Result<
    Vec<u8>,
    ExtractError,
>)
    ensures
        match r {
            Ok(v) => exists|i: int, e: int|
                {
                    &&& #[trigger] occurs_at(data@, start_tag@, i)
                    &&& forall|j: int| 0 <= j < i ==> !occurs_at(data@, start_tag@, j)
                    &&& i + start_tag@.len() <= e
                    &&& #[trigger] occurs_at(data@, end_tag@, e)
                    &&& forall|j: int|
                        i + start_tag@.len() <= j < e ==> !occurs_at(data@, end_tag@, j)
                    &&& v@ == trim_spec(data@.subrange(i + start_tag@.len() as int, e))
                },
            Err(ExtractError::MissingStartTag) => absent_from(data@, start_tag@, 0),
            Err(ExtractError::MissingEndTag) => exists|i: int|
                {
                    &&& #[trigger] occurs_at(data@, start_tag@, i)
                    &&& absent_from(data@, end_tag@, i + start_tag@.len() as int)
                },
        },
{
    let hn = data.len();
    let start_idx = match find_subrange(data, start_tag, 0) {
        Some(i) => i,
        None => {
            return Err(ExtractError::MissingStartTag);
        },
    };
    proof {
        assert(occurs_at(data@, start_tag@, start_idx as int));
        assert(start_idx + start_tag@.len() <= hn);
    }
    let content = start_idx + start_tag.len();
    let end_idx = match find_subrange(data, end_tag, content) {
        Some(e) => e,
        None => {
            proof {
                assert(occurs_at(data@, start_tag@, start_idx as int));
            }
            return Err(ExtractError::MissingEndTag);
        },
    };
    proof {
        assert(occurs_at(data@, end_tag@, end_idx as int));
    }
    let piece: &[u8] = &data[content..end_idx];
    Ok(trim_ascii(piece))
}

/// Decimal digit characters.
pub open spec fn is_digit_char(c: char) -> bool {
    '0' <= c && c <= '9'
}

pub open spec fn digit_val(c: char) -> int {
    c as int - '0' as int
}

pub open spec fn all_digits(s: Seq<char>) -> bool {
    forall|i: int| 0 <= i < s.len() ==> is_digit_char(#[trigger] s[i])
}

/// Value of a decimal digit string, most significant digit first.
pub open spec fn digits_value(s: Seq<char>) -> int
    decreases s.len(),
{
    if s.len() == 0 {
        0
    } else {
        digits_value(s.drop_last()) * 10 + digit_val(s.last())
    }
}

proof fn lemma_digits_value_nonneg(s: Seq<char>)
    requires
        all_digits(s),
    ensures
        digits_value(s) >= 0,
    decreases s.len(),
{
    if s.len() > 0 {
        assert(all_digits(s.drop_last())) by {
            assert(forall|i: int|
                0 <= i < s.drop_last().len() ==> #[trigger] s.drop_last()[i] == s[i]);
        }
        lemma_digits_value_nonneg(s.drop_last());
    }
}

proof fn lemma_digits_prefix_le(s: Seq<char>, i: int)
    requires
        all_digits(s),
        0 <= i <= s.len(),
    ensures
        digits_value(s.subrange(0, i)) <= digits_value(s),
    decreases s.len() - i,
{
    if i == s.len() {
        assert(s.subrange(0, i) =~= s);
    } else {
        let a = s.subrange(0, i);
        let b = s.subrange(0, i + 1);
        assert(b.drop_last() =~= a);
        assert(all_digits(a)) by {
            assert(forall|j: int| 0 <= j < a.len() ==> #[trigger] a[j] == s[j]);
        }
        lemma_digits_value_nonneg(a);
        assert(digits_value(b) == digits_value(a) * 10 + digit_val(b.last()));
        assert(is_digit_char(b.last()));
        lemma_digits_prefix_le(s, i + 1);
    }
}

/// Parses a non-empty all-digit string as a 32-bit integer; rejects empty
/// input, any non-digit character, and values past `i32::MAX`.
pub fn parse_i32_digits(s: &str) -> (r: Option<i32>)
    ensures
        match r {
            Some(v) => s@.len() > 0 && all_digits(s@) && v as int == digits_value(s@),
            None => s@.len() == 0 || !all_digits(s@) || digits_value(s@) > i32::MAX as int,
        },
{
    let n = s.unicode_len();
    if n == 0 {
        return None;
    }
    let mut acc: u64 = 0;
    let mut i: usize = 0;
    while i < n
        invariant
            n == s@.len(),
            0 < n,
            i <= n,
            forall|j: int| 0 <= j < i ==> is_digit_char(#[trigger] s@[j]),
            acc as int == digits_value(s@.subrange(0, i as int)),
            acc <= i32::MAX as u64,
        decreases n - i,
    {
        let c = s.get_char(i);
        if !(c >= '0' && c <= '9') {
            assert(!all_digits(s@)) by {
                assert(!is_digit_char(s@[i as int]));
            }
            return None;
        }
        let d: u64 = (c as u32 - '0' as u32) as u64;
        let next: u64 = acc * 10 + d;
        proof {
            let a = s@.subrange(0, i as int);
            let b = s@.subrange(0, i + 1);
            assert(b.drop_last() =~= a);
            assert(b.last() == s@[i as int]);
            assert(digits_value(b) == digits_value(a) * 10 + digit_val(s@[i as int]));
        }
        if next > i32::MAX as u64 {
            proof {
                if all_digits(s@) {
                    lemma_digits_prefix_le(s@, i + 1);
                }
            }
            return None;
        }
        acc = next;
        i += 1;
    }
    proof {
        assert(s@.subrange(0, n as int) =~= s@);
    }
    Some(acc as i32)
}

/// Parses a non-empty all-digit string as a 64-bit integer; rejects empty
/// input, any non-digit character, and values past `u64::MAX`.
pub fn parse_u64_digits(s: &str) -> (r: Option<u64>)
    ensures
        match r {
            Some(v) => s@.len() > 0 && all_digits(s@) && v as int == digits_value(s@),
            None => s@.len() == 0 || !all_digits(s@) || digits_value(s@) > u64::MAX as int,
        },
{
    let n = s.unicode_len();
    if n == 0 {
        return None;
    }
    let mut acc: u64 = 0;
    let mut i: usize = 0;
    while i < n
        invariant
            n == s@.len(),
            0 < n,
            i <= n,
            forall|j: int| 0 <= j < i ==> is_digit_char(#[trigger] s@[j]),
            acc as int == digits_value(s@.subrange(0, i as int)),
        decreases n - i,
    {
        let c = s.get_char(i);
        if !(c >= '0' && c <= '9') {
            assert(!all_digits(s@)) by {
                assert(!is_digit_char(s@[i as int]));
            }
            return None;
        }
        let d: u64 = (c as u32 - '0' as u32) as u64;
        let wide: u128 = acc as u128 * 10 + d as u128;
        proof {
            let a = s@.subrange(0, i as int);
            let b = s@.subrange(0, i + 1);
            assert(b.drop_last() =~= a);
            assert(b.last() == s@[i as int]);
            assert(digits_value(b) == digits_value(a) * 10 + digit_val(s@[i as int]));
        }
        if wide > u64::MAX as u128 {
            proof {
                if all_digits(s@) {
                    lemma_digits_prefix_le(s@, i + 1);
                }
            }
            return None;
        }
        acc = wide as u64;
        i += 1;
    }
    proof {
        assert(s@.subrange(0, n as int) =~= s@);
    }
    Some(acc)
}

/// View of one decimal digit as a string.
pub open spec fn digit_seq(d: nat) -> Seq<char> {
    if d == 0 {
        "0"@
    } else if d == 1 {
        "1"@
    } else if d == 2 {
        "2"@
    } else if d == 3 {
        "3"@
    } else if d == 4 {
        "4"@
    } else if d == 5 {
        "5"@
    } else if d == 6 {
        "6"@
    } else if d == 7 {
        "7"@
    } else if d == 8 {
        "8"@
    } else {
        "9"@
    }
}

fn digit_str(d: u64) -> (r: &'static str)
    requires
        d < 10,
    ensures
        r@ == digit_seq(d as nat),
{
    if d == 0 {
        "0"
    } else if d == 1 {
        "1"
    } else if d == 2 {
        "2"
    } else if d == 3 {
        "3"
    } else if d == 4 {
        "4"
    } else if d == 5 {
        "5"
    } else if d == 6 {
        "6"
    } else if d == 7 {
        "7"
    } else if d == 8 {
        "8"
    } else {
        "9"
    }
}

/// Decimal rendering of a non-negative number, no leading zeroes except for
/// zero itself.
pub open spec fn spec_dec(n: nat) -> Seq<char>
    decreases n,
{
    if n < 10 {
        digit_seq(n)
    } else {
        spec_dec(n / 10) + digit_seq(n % 10)
    }
}

/// Renders `n` in decimal.
pub fn u64_to_dec(n: u64) -> (r: String)
    ensures
        r@ == spec_dec(n as nat),
    decreases n,
{
    if n < 10 {
        digit_str(n).to_string()
    } else {
        let mut s = u64_to_dec(n / 10);
        s.append(digit_str(n % 10));
        s
    }
}

/// Size units of the status display.
pub const KILOBYTE: u64 = 1024;

pub const MEGABYTE: u64 = 1024 * 1024;

pub const GIGABYTE: u64 = 1024 * 1024 * 1024;

/// Two-digit zero-padded rendering of a fraction under one hundred.
pub open spec fn two_frac_digits(frac: nat) -> Seq<char> {
    if frac < 10 {
        "0"@ + spec_dec(frac)
    } else {
        spec_dec(frac)
    }
}

/// The unit a byte count is displayed in.
pub open spec fn byte_unit(bytes: u64) -> u64 {
    if bytes >= GIGABYTE {
        GIGABYTE
    } else if bytes >= MEGABYTE {
        MEGABYTE
    } else if bytes >= KILOBYTE {
        KILOBYTE
    } else {
        1
    }
}

pub open spec fn byte_unit_name(bytes: u64) -> Seq<char> {
    if bytes >= GIGABYTE {
        "GB"@
    } else if bytes >= MEGABYTE {
        "MB"@
    } else if bytes >= KILOBYTE {
        "KB"@
    } else {
        "B"@
    }
}

/// A byte count scaled to its display unit with two decimals, rounded to
/// the nearest hundredth: "1.50 KB".
pub open spec fn spec_format_bytes(bytes: u64) -> Seq<char> {
    let unit = byte_unit(bytes) as int;
    let scaled = (bytes * 100 + unit / 2) / unit;
    spec_dec((scaled / 100) as nat) + "."@ + two_frac_digits((scaled % 100) as nat) + " "@
        + byte_unit_name(bytes)
}

/// Renders a byte count in its display unit with two decimals.
pub fn format_bytes(bytes: u64) -> (r: String)
    ensures
        r@ == spec_format_bytes(bytes),
{
    let unit: u64 = if bytes >= GIGABYTE {
        GIGABYTE
    } else if bytes >= MEGABYTE {
        MEGABYTE
    } else if bytes >= KILOBYTE {
        KILOBYTE
    } else {
        1
    };
    let wide: u128 = (bytes as u128 * 100 + (unit / 2) as u128) / unit as u128;
    proof {
        assert((bytes as u128 * 100 + ((unit / 2) as u128)) < 0x800_0000_0000_0000_0000) by {
            assert(bytes as u128 <= u64::MAX as u128);
        }
        assert(wide <= bytes as u128 * 100 + ((unit / 2) as u128));
    }
    let scaled: u64 = wide as u64;
    let whole: u64 = scaled / 100;
    let frac: u64 = scaled % 100;
    let mut out = u64_to_dec(whole);
    out.append(".");
    if frac < 10 {
        out.append("0");
    }
    let frac_str = u64_to_dec(frac);
    out.append(frac_str.as_str());
    out.append(" ");
    let name: &str = if bytes >= GIGABYTE {
        "GB"
    } else if bytes >= MEGABYTE {
        "MB"
    } else if bytes >= KILOBYTE {
        "KB"
    } else {
        "B"
    };
    out.append(name);
    proof {
        if frac < 10 {
            assert(two_frac_digits(frac as nat) == "0"@ + spec_dec(frac as nat));
        }
    }
    out
}

/// An uptime, spelled out from its largest non-zero unit down.
pub open spec fn spec_format_duration(days: u64, hours: u64, minutes: u64, seconds: u64) -> Seq<
    char,
> {
    if days == 0 && hours == 0 && minutes == 0 {
        spec_dec(seconds as nat) + " seconds"@
    } else if days == 0 && hours == 0 {
        spec_dec(minutes as nat) + " minutes, "@ + spec_dec(seconds as nat) + " seconds"@
    } else if days == 0 {
        spec_dec(hours as nat) + " hours, "@ + spec_dec(minutes as nat) + " minutes, "@ + spec_dec(
            seconds as nat,
        ) + " seconds"@
    } else {
        spec_dec(days as nat) + " days, "@ + spec_dec(hours as nat) + " hours, "@ + spec_dec(
            minutes as nat,
        ) + " minutes, "@ + spec_dec(seconds as nat) + " seconds"@
    }
}

/// Renders a duration split into days, hours, minutes and seconds, starting
/// at its largest non-zero unit.
pub fn format_duration(days: u64, hours: u64, minutes: u64, seconds: u64) -> (r: String)
    ensures
        r@ == spec_format_duration(days, hours, minutes, seconds),
{
    let mut out = String::new();
    if days > 0 {
        let d = u64_to_dec(days);
        out.append(d.as_str());
        out.append(" days, ");
    }
    if days > 0 || hours > 0 {
        let h = u64_to_dec(hours);
        out.append(h.as_str());
        out.append(" hours, ");
    }
    if days > 0 || hours > 0 || minutes > 0 {
        let m = u64_to_dec(minutes);
        out.append(m.as_str());
        out.append(" minutes, ");
    }
    let s = u64_to_dec(seconds);
    out.append(s.as_str());
    out.append(" seconds");
    out
}

/// Renders a total number of seconds the way the status command shows its
/// uptime.
pub fn format_uptime(total_seconds: u64) -> (r: String)
    ensures
        r@ == spec_format_duration(
            total_seconds / 86400,
            (total_seconds % 86400) / 3600,
            (total_seconds % 3600) / 60,
            total_seconds % 60,
        ),
{
    let days = total_seconds / 86400;
    let hours = (total_seconds % 86400) / 3600;
    let minutes = (total_seconds % 3600) / 60;
    let seconds = total_seconds % 60;
    format_duration(days, hours, minutes, seconds)
}

} // verus!
