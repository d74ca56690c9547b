//! The decisions of `sm update`: which release asset fits this machine and
//! which version the latest release holds.
use vstd::prelude::*;

use super::text::{all_ascii, chars_of, compare_keys, push_char, push_str, string_of_range, KeyOrder};

verus! {

/// What `str::to_lowercase` gives for `s`.
pub uninterp spec fn lowercase(s: Seq<char>) -> Seq<char>;

/// `c` with `A`-`Z` made `a`-`z`; any other character unchanged.
pub open spec fn ascii_lower(c: char) -> char {
    if 65 <= (c as int) <= 90 {
        ((c as int) + 32) as char
    } else {
        c
    }
}

/// Calls `str::to_lowercase`. Trusted: the result is `lowercase(s)`; for an
/// ASCII string it is the string with `A`-`Z` made `a`-`z` and every other
/// character unchanged (the Unicode mapping of ASCII letters). The mapping
/// of other characters is not stated.
#[verifier::external_body]
fn to_lowercase(s: &str) -> (r: String)
    ensures
        r@ == lowercase(s@),
        all_ascii(s@) ==> r@ == s@.map_values(|c: char| ascii_lower(c)),
{
    s.to_lowercase()
}

/// The Unicode `White_Space` property, which `char::is_whitespace` and
/// `str::trim` use.
pub open spec fn white_space(c: char) -> bool {
    let x = c as int;
    ||| 0x9 <= x <= 0xD
    ||| x == 0x20
    ||| x == 0x85
    ||| x == 0xA0
    ||| x == 0x1680
    ||| 0x2000 <= x <= 0x200A
    ||| x == 0x2028
    ||| x == 0x2029
    ||| x == 0x202F
    ||| x == 0x205F
    ||| x == 0x3000
}

fn is_white_space(c: char) -> (r: bool)
    ensures
        r == white_space(c),
{
    ('\u{9}' <= c && c <= '\u{D}') || c == ' ' || c == '\u{85}' || c == '\u{A0}' || c
        == '\u{1680}' || ('\u{2000}' <= c && c <= '\u{200A}') || c == '\u{2028}' || c
        == '\u{2029}' || c == '\u{202F}' || c == '\u{205F}' || c == '\u{3000}'
}

/// The end of the leading white space from `i` on.
pub open spec fn ws_prefix_end(s: Seq<char>, i: int) -> int
    decreases s.len() - i,
{
    if 0 <= i < s.len() && white_space(s[i]) {
        ws_prefix_end(s, i + 1)
    } else {
        i
    }
}

/// The start of the trailing white space before `j`.
pub open spec fn ws_suffix_start(s: Seq<char>, j: int) -> int
    decreases j,
{
    if 0 < j <= s.len() && white_space(s[j - 1]) {
        ws_suffix_start(s, j - 1)
    } else {
        j
    }
}

/// `s` without leading and trailing white space (`str::trim`).
pub open spec fn trimmed(s: Seq<char>) -> Seq<char> {
    let a = ws_prefix_end(s, 0);
    let b = ws_suffix_start(s, s.len() as int);
    if a >= b {
        Seq::empty()
    } else {
        s.subrange(a, b)
    }
}

/// `s` without leading and trailing white space.
pub fn trim(s: &str) -> (r: String)
    ensures
        r@ == trimmed(s@),
{
    let v = chars_of(s);
    let n = v.len();
    let mut a: usize = 0;
    while a < n && is_white_space(v[a])
        invariant
            v@ == s@,
            n == v@.len(),
            a <= n,
            ws_prefix_end(s@, 0) == ws_prefix_end(s@, a as int),
        decreases n - a,
    {
        a = a + 1;
    }
    let mut b: usize = n;
    while b > 0 && is_white_space(v[b - 1])
        invariant
            v@ == s@,
            n == v@.len(),
            b <= n,
            ws_suffix_start(s@, n as int) == ws_suffix_start(s@, b as int),
        decreases b,
    {
        b = b - 1;
    }
    if a >= b {
        String::new()
    } else {
        string_of_range(&v, a, b)
    }
}

/// The name of the release asset for an architecture and an operating
/// system, as `uname -m` and `uname -s` print them.
pub open spec fn asset_name_of(arch: Seq<char>, os: Seq<char>) -> Seq<char> {
    "secrets-machine-"@ + trimmed(lowercase(arch)) + "-"@ + trimmed(lowercase(os))
}

/// `secrets-machine-ARCH-OS`, with both lowercased and trimmed.
pub fn asset_name(arch: &str, os: &str) -> (r: String)
    ensures
        r@ == asset_name_of(arch@, os@),
        all_ascii(arch@) && all_ascii(os@) ==> r@ == "secrets-machine-"@ + trimmed(
            arch@.map_values(|c: char| ascii_lower(c)),
        ) + "-"@ + trimmed(os@.map_values(|c: char| ascii_lower(c))),
{
    let arch_lower = to_lowercase(arch);
    let os_lower = to_lowercase(os);
    let arch_part = trim(arch_lower.as_str());
    let os_part = trim(os_lower.as_str());
    let mut r = String::new();
    push_str(&mut r, "secrets-machine-");
    push_str(&mut r, arch_part.as_str());
    push_str(&mut r, "-");
    push_str(&mut r, os_part.as_str());
    r
}

/// `s` without any `v`.
pub open spec fn without_v(s: Seq<char>) -> Seq<char> {
    s.filter(|c: char| c != 'v')
}

/// The version of a release tag: the tag with every `v` removed.
pub fn latest_version(tag: &str) -> (r: String)
    ensures
        r@ == without_v(tag@),
{
    let v = chars_of(tag);
    let mut r = String::new();
    let mut i: usize = 0;
    while i < v.len()
        invariant
            v@ == tag@,
            i <= v@.len(),
            r@ == without_v(tag@.take(i as int)),
        decreases v.len() - i,
    {
        proof {
            assert(tag@.take(i + 1).drop_last() =~= tag@.take(i as int));
            reveal(Seq::filter);
        }
        if v[i] != 'v' {
            push_char(&mut r, v[i]);
        }
        i = i + 1;
    }
    assert(tag@.take(v@.len() as int) =~= tag@);
    r
}

/// Whether the running version `current` is the version of the latest
/// release tag `tag` (the tag without its `v`s).
pub fn is_latest(current: &str, tag: &str) -> (r: bool)
    ensures
        r == (current@ == without_v(tag@)),
{
    let latest = latest_version(tag);
    compare_keys(current, latest.as_str()) == KeyOrder::Equal
}

/// `needle` occurs in `s` at position `i`.
pub open spec fn occurs_at(s: Seq<char>, needle: Seq<char>, i: int) -> bool {
    0 <= i && i + needle.len() <= s.len() && s.subrange(i, i + needle.len()) == needle
}

/// `needle` occurs somewhere in `s` (`str::contains`).
pub open spec fn has_substring(s: Seq<char>, needle: Seq<char>) -> bool {
    exists|i: int| occurs_at(s, needle, i)
}

/// Whether `needle` occurs in `s`.
pub fn contains(s: &str, needle: &str) -> (r: bool)
    ensures
        r == has_substring(s@, needle@),
{
    let sv = chars_of(s);
    let nv = chars_of(needle);
    if nv.len() > sv.len() {
        assert forall|i: int| !occurs_at(s@, needle@, i) by {}
        return false;
    }
    let slen = sv.len();
    let last = slen - nv.len();
    let mut i: usize = 0;
    loop
        invariant
            slen == sv@.len(),
            sv@ == s@,
            nv@ == needle@,
            last == sv@.len() - nv@.len(),
            nv@.len() <= sv@.len(),
            i <= last,
            forall|k: int| 0 <= k < i ==> !occurs_at(s@, needle@, k),
        decreases last - i,
    {
        let mut j: usize = 0;
        let mut same = true;
        while same && j < nv.len()
            invariant
                slen == sv@.len(),
                sv@ == s@,
                nv@ == needle@,
                i <= last,
                last == sv@.len() - nv@.len(),
                nv@.len() <= sv@.len(),
                j <= nv@.len(),
                forall|m: int| 0 <= m < j ==> sv@[i + m] == nv@[m],
                !same ==> j < nv@.len() && sv@[i + j] != nv@[j as int],
            decreases nv.len() - j + if same { 1int } else { 0int },
        {
            if sv[i + j] == nv[j] {
                j = j + 1;
            } else {
                same = false;
            }
        }
        if j == nv.len() {
            assert(s@.subrange(i as int, i + needle@.len()) =~= needle@);
            assert(occurs_at(s@, needle@, i as int));
            return true;
        }
        assert(s@.subrange(i as int, i + needle@.len())[j as int] != needle@[j as int]);
        assert(!occurs_at(s@, needle@, i as int));
        if i == last {
            assert forall|k: int| !occurs_at(s@, needle@, k) by {
                if 0 <= k <= last {
                }
            }
            return false;
        }
        i = i + 1;
    }
}

/// The asset name `name` (`None` when the asset has none) contains `asset_name`.
pub open spec fn asset_matches(name: Option<String>, asset_name: Seq<char>) -> bool {
    name matches Some(n) && has_substring(n@, asset_name)
}

/// The position of the first asset whose name (`None` when the asset has
/// no name) contains `asset_name`.
pub fn find_asset(names: &Vec<Option<String>>, asset_name: &str) -> (r: Option<usize>)
    ensures
        match r {
            Some(i) => i < names@.len() && asset_matches(names@[i as int], asset_name@) && forall|
                j: int,
            | 0 <= j < i ==> !asset_matches(#[trigger] names@[j], asset_name@),
            None => forall|j: int|
                0 <= j < names@.len() ==> !asset_matches(#[trigger] names@[j], asset_name@),
        },
{
    let mut i: usize = 0;
    while i < names.len()
        invariant
            i <= names@.len(),
            forall|j: int| 0 <= j < i ==> !asset_matches(#[trigger] names@[j], asset_name@),
        decreases names.len() - i,
    {
        match &names[i] {
            Some(n) => {
                if contains(n.as_str(), asset_name) {
                    return Some(i);
                }
            },
            None => {},
        }
        i = i + 1;
    }
    None
}

} // verus!
