//! Small verified string helpers shared by the identifier, store and
//! presentation code.

use vstd::prelude::*;
use vstd::string::StrSliceExecFns;

verus! {

/// Relies on `String::push`: appends the given character to the end of
/// the string.
#[verifier::external_body]
pub fn push_char(s: &mut String, c: char)
    ensures
        final(s)@ == old(s)@.push(c),
{
    s.push(c)
}

/// Whether `p` is a prefix of `s`, compared character by character.
pub fn str_starts_with(s: &str, p: &str) -> (r: bool)
    ensures
        r == p@.is_prefix_of(s@),
{
    let slen = s.unicode_len();
    let plen = p.unicode_len();
    if plen > slen {
        return false;
    }
    let mut i: usize = 0;
    while i < plen
        invariant
            plen == p@.len(),
            slen == s@.len(),
            plen <= slen,
            0 <= i <= plen,
            forall|j: int| 0 <= j < i ==> s@[j] == p@[j],
        decreases plen - i,
    {
        if s.get_char(i) != p.get_char(i) {
            return false;
        }
        i = i + 1;
    }
    proof {
        assert(p@ =~= s@.subrange(0, p@.len() as int));
    }
    true
}

/// Whitespace characters stripped from the ends of recognized text.
pub open spec fn is_space(c: char) -> bool {
    c == ' ' || c == '\t' || c == '\n' || c == '\r'
}

/// Number of whitespace characters at the start of a text.
pub open spec fn leading_spaces(s: Seq<char>) -> int
    decreases s.len(),
{
    if s.len() == 0 {
        0
    } else if !is_space(s[0]) {
        0
    } else {
        1 + leading_spaces(s.drop_first())
    }
}

/// Number of whitespace characters at the end of a text.
pub open spec fn trailing_spaces(s: Seq<char>) -> int
    decreases s.len(),
{
    if s.len() == 0 {
        0
    } else if !is_space(s.last()) {
        0
    } else {
        1 + trailing_spaces(s.drop_last())
    }
}

/// The text with leading and trailing whitespace removed.
pub open spec fn trim_spec(s: Seq<char>) -> Seq<char> {
    let a = leading_spaces(s);
    if a == s.len() {
        Seq::<char>::empty()
    } else {
        s.subrange(a, s.len() - trailing_spaces(s))
    }
}

/// What `leading_spaces` counts.
pub proof fn lemma_leading_spaces(s: Seq<char>)
    ensures
        0 <= leading_spaces(s) <= s.len(),
        forall|j: int| 0 <= j < leading_spaces(s) ==> is_space(#[trigger] s[j]),
        leading_spaces(s) < s.len() ==> !is_space(s[leading_spaces(s)]),
    decreases s.len(),
{
    if s.len() > 0 && is_space(s[0]) {
        let rest = s.drop_first();
        lemma_leading_spaces(rest);
        let a = leading_spaces(s);
        assert forall|j: int| 0 <= j < a implies is_space(#[trigger] s[j]) by {
            if j > 0 {
                assert(rest[j - 1] == s[j]);
            }
        }
        if a < s.len() {
            assert(s[a] == rest[a - 1]);
        }
    }
}

/// What `trailing_spaces` counts.
pub proof fn lemma_trailing_spaces(s: Seq<char>)
    ensures
        0 <= trailing_spaces(s) <= s.len(),
        forall|j: int| s.len() - trailing_spaces(s) <= j < s.len() ==> is_space(#[trigger] s[j]),
        trailing_spaces(s) < s.len() ==> !is_space(s[s.len() - trailing_spaces(s) - 1]),
    decreases s.len(),
{
    if s.len() > 0 && is_space(s.last()) {
        let rest = s.drop_last();
        lemma_trailing_spaces(rest);
        let t = trailing_spaces(s);
        assert forall|j: int| s.len() - t <= j < s.len() implies is_space(#[trigger] s[j]) by {
            if j < s.len() - 1 {
                assert(rest[j] == s[j]);
            }
        }
        if t < s.len() {
            assert(s[s.len() - t - 1] == rest[rest.len() - (t - 1) - 1]);
        }
    }
}

/// Whether a character counts as whitespace.
pub fn is_space_char(c: char) -> (r: bool)
    ensures
        r == is_space(c),
{
    c == ' ' || c == '\t' || c == '\n' || c == '\r'
}

/// Strips leading and trailing whitespace from a text.
pub fn trim_str(s: &str) -> (r: String)
    ensures
        r@ == trim_spec(s@),
{
    let n = s.unicode_len();
    let mut a: usize = 0;
    while a < n && is_space_char(s.get_char(a))
        invariant
            n == s@.len(),
            0 <= a <= n,
            forall|j: int| 0 <= j < a ==> is_space(#[trigger] s@[j]),
        decreases n - a,
    {
        a = a + 1;
    }
    proof {
        lemma_leading_spaces(s@);
        let l = leading_spaces(s@);
        if l < a {
            assert(is_space(s@[l]));
        }
        if l > a {
            assert(is_space(s@[a as int]));
        }
        assert(l == a);
    }
    if a == n {
        return String::new();
    }
    let mut b: usize = n;
    while b > a && is_space_char(s.get_char(b - 1))
        invariant
            n == s@.len(),
            a < n,
            !is_space(s@[a as int]),
            a <= b <= n,
            forall|j: int| b <= j < n ==> is_space(#[trigger] s@[j]),
        decreases b,
    {
        b = b - 1;
    }
    proof {
        if b == a {
            assert(is_space(s@[a as int]));
        }
        lemma_trailing_spaces(s@);
        let t = trailing_spaces(s@);
        if t < n - b {
            assert(is_space(s@[n - t - 1]));
        }
        if t > n - b {
            assert(is_space(s@[b - 1]));
        }
        assert(t == n - b);
    }
    let piece = s.substring_char(a, b);
    piece.to_owned()
}

/// The values of a run of strings.
pub open spec fn str_views(ss: Seq<String>) -> Seq<Seq<char>> {
    ss.map_values(|s: String| s@)
}

/// Recognized segments joined: each segment followed by one space.
pub open spec fn joined(segs: Seq<Seq<char>>) -> Seq<char>
    decreases segs.len(),
{
    if segs.len() == 0 {
        Seq::<char>::empty()
    } else {
        joined(segs.drop_last()) + segs.last() + seq![' ']
    }
}

/// Joins recognized segments with single spaces and strips the
/// whitespace left at the ends.
pub fn join_segments(segments: &Vec<String>) -> (r: String)
    ensures
        r@ == trim_spec(joined(str_views(segments@))),
{
    let mut acc = String::new();
    proof {
        assert(joined(str_views(segments@).take(0)) =~= Seq::<char>::empty());
        assert(acc@ =~= joined(str_views(segments@).take(0)));
    }
    let mut i: usize = 0;
    while i < segments.len()
        invariant
            0 <= i <= segments@.len(),
            acc@ == joined(str_views(segments@).take(i as int)),
        decreases segments@.len() - i,
    {
        acc.append(segments[i].as_str());
        push_char(&mut acc, ' ');
        proof {
            assert(str_views(segments@).take(i + 1).drop_last() =~= str_views(segments@).take(
                i as int,
            ));
            assert(str_views(segments@).take(i + 1).last() == segments@[i as int]@);
            assert(acc@ =~= joined(str_views(segments@).take(i + 1)));
        }
        i = i + 1;
    }
    proof {
        assert(str_views(segments@).take(segments@.len() as int) =~= str_views(segments@));
    }
    trim_str(acc.as_str())
}

/// Longest preview shown for a transcript in a history listing.
pub const PREVIEW_CHARS: usize = 60;

/// One-line preview of a text: the text itself when it is short, else
/// its first characters with an ellipsis.
pub open spec fn preview_spec(s: Seq<char>) -> Seq<char> {
    if s.len() <= PREVIEW_CHARS {
        s
    } else {
        s.take(PREVIEW_CHARS as int) + seq!['.', '.', '.']
    }
}

/// Renders the one-line preview of a text.
pub fn preview_line(text: &str) -> (r: String)
    ensures
        r@ == preview_spec(text@),
{
    let n = text.unicode_len();
    if n <= PREVIEW_CHARS {
        text.to_owned()
    } else {
        let head = text.substring_char(0, PREVIEW_CHARS);
        let mut r = head.to_owned();
        push_char(&mut r, '.');
        push_char(&mut r, '.');
        push_char(&mut r, '.');
        proof {
            assert(r@ =~= preview_spec(text@));
        }
        r
    }
}

} // verus!
