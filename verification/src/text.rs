//! Characters and strings: the few std operations the notes logic relies on,
//! and the spec functions that describe them.
use vstd::prelude::*;

verus! {

/// What `str::to_lowercase` returns for a string: the Unicode lowercase mapping.
pub uninterp spec fn lowercase(s: Seq<char>) -> Seq<char>;

/// What `char::is_alphanumeric` returns for a character (Unicode `Alphabetic` or `Numeric`).
pub uninterp spec fn alphanumeric(c: char) -> bool;

/// ASCII letters and digits.
pub open spec fn ascii_alphanumeric(c: char) -> bool {
    ('a' <= c && c <= 'z') || ('A' <= c && c <= 'Z') || ('0' <= c && c <= '9')
}

/// The Unicode `White_Space` property, which `char::is_whitespace` tests.
pub open spec fn whitespace(c: char) -> bool {
    ||| ('\u{9}' <= c && c <= '\u{d}')
    ||| c == ' '
    ||| c == '\u{85}'
    ||| c == '\u{a0}'
    ||| c == '\u{1680}'
    ||| ('\u{2000}' <= c && c <= '\u{200a}')
    ||| c == '\u{2028}'
    ||| c == '\u{2029}'
    ||| c == '\u{202f}'
    ||| c == '\u{205f}'
    ||| c == '\u{3000}'
}

/// `String::push` appends one character.
pub assume_specification[ String::push ](s: &mut String, ch: char)
    ensures
        final(s)@ == old(s)@.push(ch),
;

/// `String::pop` removes and returns the last character, or returns `None` on an empty string.
pub assume_specification[ String::pop ](s: &mut String) -> (r: Option<char>)
    ensures
        old(s)@.len() == 0 ==> r is None && final(s)@ == old(s)@,
        old(s)@.len() > 0 ==> r == Some(old(s)@.last()) && final(s)@ == old(s)@.drop_last(),
;

/// `String::clear` empties the string.
pub assume_specification[ String::clear ](s: &mut String)
    ensures
        final(s)@ == Seq::<char>::empty(),
;

/// `char::is_alphanumeric`: named by `alphanumeric`; for ASCII characters it is exactly
/// "letter or digit".
pub assume_specification[ char::is_alphanumeric ](c: char) -> (r: bool)
    ensures
        r == alphanumeric(c),
        (c as u32) < 128 ==> (r <==> ascii_alphanumeric(c)),
;

/// Whether `c` has the Unicode `White_Space` property (what `char::is_whitespace` tests).
pub fn is_white_space(c: char) -> (r: bool)
    ensures
        r == whitespace(c),
{
    ('\u{9}' <= c && c <= '\u{d}') || c == ' ' || c == '\u{85}' || c == '\u{a0}' || c == '\u{1680}'
        || ('\u{2000}' <= c && c <= '\u{200a}') || c == '\u{2028}' || c == '\u{2029}' || c
        == '\u{202f}' || c == '\u{205f}' || c == '\u{3000}'
}

/// All characters of `s` are ASCII.
pub open spec fn all_ascii(s: Seq<char>) -> bool {
    forall|i: int| 0 <= i < s.len() ==> (#[trigger] s[i] as u32) < 128
}

/// The ASCII lowercase of a character: `A`..`Z` become `a`..`z`, others stay.
pub open spec fn ascii_lower(c: char) -> char {
    if 'A' <= c && c <= 'Z' {
        ((c as u32) + 32) as char
    } else {
        c
    }
}

/// The ASCII lowercase of a text.
pub open spec fn ascii_lowercase(s: Seq<char>) -> Seq<char> {
    s.map_values(|c: char| ascii_lower(c))
}

/// `str::to_lowercase`: the Unicode lowercase of the text, named by `lowercase`; for an
/// all-ASCII text that is the ASCII lowercase, `A`..`Z` to `a`..`z`, as std documents.
#[verifier::external_body]
pub(crate) fn to_lowercase(s: &str) -> (r: String)
    ensures
        r@ == lowercase(s@),
        all_ascii(s@) ==> r@ == ascii_lowercase(s@),
{
    s.to_lowercase()
}

/// The characters of a string slice, in order.
pub fn chars_of(s: &str) -> (v: Vec<char>)
    ensures
        v@ == s@,
{
    broadcast use vstd::string::group_string_axioms;
    let mut v: Vec<char> = Vec::new();
    for c in it: s.chars()
        invariant
            it.seq() == s@,
            v@ == it.seq().take(it.index()),
    {
        v.push(c);
    }
    v
}

/// The views of a sequence of strings.
pub open spec fn views(v: Seq<String>) -> Seq<Seq<char>> {
    v.map_values(|x: String| x@)
}

/// `s` without its leading whitespace.
pub open spec fn trim_start(s: Seq<char>) -> Seq<char>
    decreases s.len(),
{
    if s.len() > 0 && whitespace(s[0]) {
        trim_start(s.drop_first())
    } else {
        s
    }
}

/// `s` without its trailing whitespace.
pub open spec fn trim_end(s: Seq<char>) -> Seq<char>
    decreases s.len(),
{
    if s.len() > 0 && whitespace(s.last()) {
        trim_end(s.drop_last())
    } else {
        s
    }
}

/// `s` without leading and trailing whitespace, as `str::trim` gives it.
pub open spec fn trimmed(s: Seq<char>) -> Seq<char> {
    trim_end(trim_start(s))
}

/// A new `String` holding `chars[from..to]`.
pub fn string_from_chars(chars: &Vec<char>, from: usize, to: usize) -> (r: String)
    requires
        from <= to <= chars.len(),
    ensures
        r@ == chars@.subrange(from as int, to as int),
{
    let mut r = String::new();
    let mut i = from;
    while i < to
        invariant
            from <= i <= to <= chars.len(),
            r@ == chars@.subrange(from as int, i as int),
        decreases to - i,
    {
        r.push(chars[i]);
        assert(chars@.subrange(from as int, i + 1) == chars@.subrange(from as int, i as int).push(chars@[i as int]));
        i = i + 1;
    }
    r
}

/// The text with leading and trailing whitespace removed.
pub fn trim_text(s: &str) -> (r: String)
    ensures
        r@ == trimmed(s@),
{
    let chars = chars_of(s);
    let n = chars.len();
    let mut i: usize = 0;
    assert(chars@.subrange(0, n as int) == chars@);
    while i < n && is_white_space(chars[i])
        invariant
            i <= n == chars@.len(),
            chars@ == s@,
            trim_start(s@) == trim_start(chars@.subrange(i as int, n as int)),
        decreases n - i,
    {
        assert(chars@.subrange(i as int, n as int).drop_first() == chars@.subrange(i + 1, n as int));
        i = i + 1;
    }
    assert(trim_start(chars@.subrange(i as int, n as int)) == chars@.subrange(i as int, n as int));
    let mut j: usize = n;
    while j > i && is_white_space(chars[j - 1])
        invariant
            i <= j <= n == chars@.len(),
            trim_end(trim_start(s@)) == trim_end(chars@.subrange(i as int, j as int)),
        decreases j - i,
    {
        assert(chars@.subrange(i as int, j as int).drop_last() == chars@.subrange(i as int, j - 1));
        j = j - 1;
    }
    assert(trim_end(chars@.subrange(i as int, j as int)) == chars@.subrange(i as int, j as int));
    string_from_chars(&chars, i, j)
}

/// Whether some string in `v` has the same characters as `s`.
pub fn contains_string(v: &Vec<String>, s: &String) -> (r: bool)
    ensures
        r == views(v@).contains(s@),
{
    let mut i: usize = 0;
    while i < v.len()
        invariant
            i <= v.len(),
            forall|k: int| 0 <= k < i ==> v@[k]@ != s@,
        decreases v.len() - i,
    {
        if v[i] == *s {
            assert(views(v@)[i as int] == s@);
            return true;
        }
        i = i + 1;
    }
    assert(!views(v@).contains(s@)) by {
        if views(v@).contains(s@) {
            let k = choose|k: int| 0 <= k < views(v@).len() && views(v@)[k] == s@;
            assert(v@[k]@ == s@);
        }
    }
    false
}

} // verus!
