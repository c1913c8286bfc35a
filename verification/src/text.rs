//! Text operations of the standard library that the rules of the scheduler
//! are stated with: trimming, lower-casing and substring search.

use vstd::prelude::*;

verus! {

/// Whether a character is whitespace: whether it has the Unicode property
/// `White_Space`. These are the tabulator and the line endings, the blank,
/// the next-line sign, the no-break blank, the Ogham space mark, the
/// blanks of fixed width, the line and the paragraph separator, the narrow
/// no-break blank, the mathematical blank and the ideographic blank.
pub open spec fn is_space(c: char) -> bool {
    let n = c as u32;
    ||| 0x09 <= n <= 0x0D
    ||| n == 0x20
    ||| n == 0x85
    ||| n == 0xA0
    ||| n == 0x1680
    ||| 0x2000 <= n <= 0x200A
    ||| n == 0x2028
    ||| n == 0x2029
    ||| n == 0x202F
    ||| n == 0x205F
    ||| n == 0x3000
}

/// The lower-case form that the standard library gives a text.
pub uninterp spec fn lowercase_text(s: Seq<char>) -> Seq<char>;

/// A text without its leading whitespace.
pub open spec fn strip_front(s: Seq<char>) -> Seq<char>
    decreases s.len(),
{
    if s.len() > 0 && is_space(s.first()) {
        strip_front(s.drop_first())
    } else {
        s
    }
}

/// A text without its trailing whitespace.
pub open spec fn strip_back(s: Seq<char>) -> Seq<char>
    decreases s.len(),
{
    if s.len() > 0 && is_space(s.last()) {
        strip_back(s.drop_last())
    } else {
        s
    }
}

/// A text without leading and trailing whitespace.
pub open spec fn trimmed(s: Seq<char>) -> Seq<char> {
    strip_back(strip_front(s))
}

/// A text that holds nothing but whitespace.
pub open spec fn is_blank(s: Seq<char>) -> bool {
    trimmed(s).len() == 0
}

/// Whether `needle` occurs in `hay` as a run of consecutive characters.
pub open spec fn has_subtext(hay: Seq<char>, needle: Seq<char>) -> bool {
    exists|i: int|
        0 <= i && i + needle.len() <= hay.len() && #[trigger] hay.subrange(i, i + needle.len())
            == needle
}

/// `str::trim` returns the slice between the first and the last character
/// that is not whitespace, where whitespace is what has the Unicode
/// property `White_Space`.
pub assume_specification[ str::trim ](s: &str) -> (r: &str)
    ensures
        r@ == trimmed(s@),
;

/// `str::to_lowercase` returns the lower-case form of the text; which
/// characters change is given by the Unicode tables and only named here.
pub assume_specification[ str::to_lowercase ](s: &str) -> (r: String)
    ensures
        r@ == lowercase_text(s@),
;

/// Collecting characters into a `String` (`String::from_iter`) gives the
/// text that holds exactly these characters, in their order.
#[verifier::external_body]
pub(crate) fn text_from(chars: &Vec<char>, from: usize, to: usize) -> (r: String)
    requires
        from <= to <= chars@.len(),
    ensures
        r@ == chars@.subrange(from as int, to as int),
{
    String::from_iter(chars[from..to].iter())
}

/// `str::contains` with a string pattern: true exactly when the pattern
/// occurs as a substring.
#[verifier::external_body]
pub(crate) fn contains_text(hay: &str, needle: &str) -> (r: bool)
    ensures
        r == has_subtext(hay@, needle@),
{
    hay.contains(needle)
}

/// Whether a character is whitespace, told by its code point.
pub fn white_space(c: char) -> (r: bool)
    ensures
        r == is_space(c),
{
    let n = c as u32;
    (0x09 <= n && n <= 0x0D) || n == 0x20 || n == 0x85 || n == 0xA0 || n == 0x1680 || (0x2000 <= n
        && n <= 0x200A) || n == 0x2028 || n == 0x2029 || n == 0x202F || n == 0x205F || n
        == 0x3000
}

/// Whether two texts hold the same characters.
pub fn same_text(a: &str, b: &str) -> (r: bool)
    ensures
        r == (a@ == b@),
{
    a.to_owned() == b.to_owned()
}

/// The characters of a text.
pub fn chars_of(s: &str) -> (r: Vec<char>)
    ensures
        r@ == s@,
{
    let mut out: Vec<char> = Vec::new();
    for c in it: s.chars()
        invariant
            out@ == s@.take(it.index() as int),
            it.seq() == s@,
    {
        out.push(c);
    }
    out
}

/// Whether a text is empty once trimmed.
pub fn blank(s: &str) -> (r: bool)
    ensures
        r == is_blank(s@),
{
    s.trim().is_empty()
}

/// An owned copy of a text without leading and trailing whitespace.
pub fn trim_owned(s: &str) -> (r: String)
    ensures
        r@ == trimmed(s@),
{
    s.trim().to_owned()
}

} // verus!
