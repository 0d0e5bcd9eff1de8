//! Characters and runs of characters: the classes the line format is cut by,
//! the length of a run at either end of a sequence, and the conversions
//! between strings and vectors of characters.

use vstd::prelude::*;
use vstd::slice::slice_subrange;

verus! {

/// Whether `char::is_alphabetic` holds of a character beyond ASCII.
pub uninterp spec fn unicode_alphabetic(c: char) -> bool;

/// Whether `char::is_whitespace` holds of a character beyond ASCII.
pub uninterp spec fn unicode_whitespace(c: char) -> bool;

/// The characters up to U+007F.
pub open spec fn ascii(c: char) -> bool {
    c <= '\u{7f}'
}

/// The Latin letters of ASCII.
pub open spec fn ascii_letter(c: char) -> bool {
    ('a' <= c && c <= 'z') || ('A' <= c && c <= 'Z')
}

/// The whitespace of ASCII: the space and U+0009 to U+000D.
pub open spec fn ascii_space(c: char) -> bool {
    c == ' ' || ('\u{9}' <= c && c <= '\u{d}')
}

/// The characters with Unicode's `Alphabetic` property. Within ASCII these
/// are the fifty-two Latin letters; beyond it the property is left to the
/// standard library's tables.
pub open spec fn alphabetic(c: char) -> bool {
    if ascii(c) {
        ascii_letter(c)
    } else {
        unicode_alphabetic(c)
    }
}

/// The characters with Unicode's `White_Space` property. Within ASCII these
/// are the space and U+0009 to U+000D; beyond it the property is left to the
/// standard library's tables.
pub open spec fn whitespace(c: char) -> bool {
    if ascii(c) {
        ascii_space(c)
    } else {
        unicode_whitespace(c)
    }
}

/// `char::is_alphabetic` of the standard library, which is not verified
/// here. Assumed: it decides Unicode's `Alphabetic` property, which within
/// ASCII holds of the Latin letters and of nothing else.
pub assume_specification[ char::is_alphabetic ](c: char) -> (b: bool)
    ensures
        b == if ascii(c) {
            ascii_letter(c)
        } else {
            unicode_alphabetic(c)
        },
;

/// `char::is_whitespace` of the standard library, which is not verified
/// here. Assumed: it decides Unicode's `White_Space` property, which within
/// ASCII holds of the space, of U+0009 to U+000D and of nothing else.
pub assume_specification[ char::is_whitespace ](c: char) -> (b: bool)
    ensures
        b == if ascii(c) {
            ascii_space(c)
        } else {
            unicode_whitespace(c)
        },
;

/// `String::push` of the standard library, which is not verified here.
/// Assumed: it appends the one character to the end of the string.
pub assume_specification[ String::push ](s: &mut String, c: char)
    ensures
        final(s)@ == old(s)@.push(c),
;

/// A set of characters that a run is made of.
#[derive(Clone, Copy, Debug)]
pub enum CharClass {
    /// What surrounds a priority: `x`, the space and the two parentheses.
    Marker,
    /// The alphabetic characters.
    Alphabetic,
    /// The whitespace characters.
    Whitespace,
    /// Every character that is not whitespace.
    Word,
    /// The one character `+`.
    Plus,
    /// Every character but the line feed.
    Line,
}

impl CharClass {
    /// Whether `c` belongs to the class.
    pub open spec fn has(self, c: char) -> bool {
        match self {
            CharClass::Marker => c == 'x' || c == ' ' || c == '(' || c == ')',
            CharClass::Alphabetic => alphabetic(c),
            CharClass::Whitespace => whitespace(c),
            CharClass::Word => !whitespace(c),
            CharClass::Plus => c == '+',
            CharClass::Line => c != '\n',
        }
    }

    /// Decides membership.
    pub fn contains(&self, c: char) -> (b: bool)
        ensures
            b == self.has(c),
    {
        match self {
            CharClass::Marker => c == 'x' || c == ' ' || c == '(' || c == ')',
            CharClass::Alphabetic => c.is_alphabetic(),
            CharClass::Whitespace => c.is_whitespace(),
            CharClass::Word => !c.is_whitespace(),
            CharClass::Plus => c == '+',
            CharClass::Line => c != '\n',
        }
    }
}

/// The length of the longest prefix of `s` made of characters of `class`.
pub open spec fn leading(s: Seq<char>, class: CharClass) -> nat
    decreases s.len(),
{
    if s.len() > 0 && class.has(s[0]) {
        1 + leading(s.drop_first(), class)
    } else {
        0
    }
}

/// The length of the longest suffix of `s` made of characters of `class`.
pub open spec fn trailing(s: Seq<char>, class: CharClass) -> nat
    decreases s.len(),
{
    if s.len() > 0 && class.has(s.last()) {
        1 + trailing(s.drop_last(), class)
    } else {
        0
    }
}

/// `s` without its leading run of `class`.
pub open spec fn trim_start(s: Seq<char>, class: CharClass) -> Seq<char> {
    s.skip(leading(s, class) as int)
}

/// `s` without its trailing run of `class`.
pub open spec fn trim_end(s: Seq<char>, class: CharClass) -> Seq<char> {
    s.take(s.len() - trailing(s, class))
}

/// `s` without its leading and its trailing run of `class`.
pub open spec fn trim(s: Seq<char>, class: CharClass) -> Seq<char> {
    trim_end(trim_start(s, class), class)
}

/// Whether `needle` stands in `hay` at index `i`.
pub open spec fn occurs_at(hay: Seq<char>, needle: Seq<char>, i: int) -> bool {
    &&& 0 <= i
    &&& i + needle.len() <= hay.len()
    &&& hay.subrange(i, i + needle.len()) == needle
}

/// Whether `needle` stands somewhere in `hay`.
pub open spec fn has_substring(hay: Seq<char>, needle: Seq<char>) -> bool {
    exists|i: int| occurs_at(hay, needle, i)
}

/// A leading run is what its first `k` characters and the one after say.
pub proof fn lemma_leading_is(s: Seq<char>, class: CharClass, k: int)
    requires
        0 <= k <= s.len(),
        forall|i: int| 0 <= i < k ==> class.has(#[trigger] s[i]),
        k < s.len() ==> !class.has(s[k]),
    ensures
        leading(s, class) == k,
    decreases k,
{
    if k > 0 {
        let t = s.drop_first();
        assert forall|i: int| 0 <= i < k - 1 implies class.has(#[trigger] t[i]) by {
            assert(t[i] == s[i + 1]);
        }
        lemma_leading_is(t, class, k - 1);
    }
}

/// A leading run lies within the sequence, holds only characters of the
/// class, and ends before a character that is not of it.
pub proof fn lemma_leading(s: Seq<char>, class: CharClass)
    ensures
        leading(s, class) <= s.len(),
        forall|i: int| 0 <= i < leading(s, class) ==> class.has(#[trigger] s[i]),
        leading(s, class) < s.len() ==> !class.has(s[leading(s, class) as int]),
    decreases s.len(),
{
    if s.len() > 0 && class.has(s[0]) {
        let t = s.drop_first();
        lemma_leading(t, class);
        assert forall|i: int| 0 <= i < leading(s, class) implies class.has(#[trigger] s[i]) by {
            if i > 0 {
                assert(s[i] == t[i - 1]);
            }
        }
        if leading(s, class) < s.len() {
            assert(s[leading(s, class) as int] == t[leading(t, class) as int]);
        }
    }
}

/// A trailing run is what its last `k` characters and the one before say.
pub proof fn lemma_trailing_is(s: Seq<char>, class: CharClass, k: int)
    requires
        0 <= k <= s.len(),
        forall|i: int| s.len() - k <= i < s.len() ==> class.has(#[trigger] s[i]),
        k < s.len() ==> !class.has(s[s.len() - k - 1]),
    ensures
        trailing(s, class) == k,
    decreases k,
{
    if k > 0 {
        let t = s.drop_last();
        assert forall|i: int| t.len() - (k - 1) <= i < t.len() implies class.has(
            #[trigger] t[i],
        ) by {
            assert(t[i] == s[i]);
        }
        if k - 1 < t.len() {
            assert(t[t.len() - (k - 1) - 1] == s[s.len() - k - 1]);
        }
        lemma_trailing_is(t, class, k - 1);
    }
}

/// A trailing run lies within the sequence, holds only characters of the
/// class, and begins after a character that is not of it.
pub proof fn lemma_trailing(s: Seq<char>, class: CharClass)
    ensures
        trailing(s, class) <= s.len(),
        forall|i: int| s.len() - trailing(s, class) <= i < s.len() ==> class.has(#[trigger] s[i]),
        trailing(s, class) < s.len() ==> !class.has(s[s.len() - trailing(s, class) - 1]),
    decreases s.len(),
{
    if s.len() > 0 && class.has(s.last()) {
        let t = s.drop_last();
        lemma_trailing(t, class);
        assert forall|i: int| s.len() - trailing(s, class) <= i < s.len() implies class.has(
            #[trigger] s[i],
        ) by {
            if i < s.len() - 1 {
                assert(s[i] == t[i]);
            }
        }
        if trailing(s, class) < s.len() {
            assert(s[s.len() - trailing(s, class) - 1] == t[t.len() - trailing(t, class) - 1]);
        }
    }
}

/// Counts the leading run of `class` in `s`.
pub fn count_leading(s: &[char], class: CharClass) -> (n: usize)
    ensures
        n == leading(s@, class),
        n <= s@.len(),
{
    let mut n: usize = 0;
    while n < s.len() && class.contains(s[n])
        invariant
            n <= s@.len(),
            forall|i: int| 0 <= i < n ==> class.has(#[trigger] s@[i]),
        decreases s@.len() - n,
    {
        n += 1;
    }
    proof {
        lemma_leading_is(s@, class, n as int);
    }
    n
}

/// Counts the trailing run of `class` in `s`.
pub fn count_trailing(s: &[char], class: CharClass) -> (n: usize)
    ensures
        n == trailing(s@, class),
        n <= s@.len(),
{
    let len: usize = s.len();
    let mut n: usize = 0;
    while n < len && class.contains(s[len - n - 1])
        invariant
            len == s@.len(),
            n <= len,
            forall|i: int| len - n <= i < len ==> class.has(#[trigger] s@[i]),
        decreases len - n,
    {
        n += 1;
    }
    proof {
        lemma_trailing_is(s@, class, n as int);
    }
    n
}

/// `s` from the end of its leading run of `class` on.
pub fn skip_leading<'a>(s: &'a [char], class: CharClass) -> (r: &'a [char])
    ensures
        r@ == trim_start(s@, class),
{
    let n: usize = count_leading(s, class);
    slice_subrange(s, n, s.len())
}

/// `s` up to the start of its trailing run of `class`.
pub fn skip_trailing<'a>(s: &'a [char], class: CharClass) -> (r: &'a [char])
    ensures
        r@ == trim_end(s@, class),
{
    let n: usize = count_trailing(s, class);
    slice_subrange(s, 0, s.len() - n)
}

/// Whether `needle` stands somewhere in `hay`.
pub fn contains_slice(hay: &[char], needle: &[char]) -> (b: bool)
    ensures
        b == has_substring(hay@, needle@),
{
    let n: usize = hay.len();
    let m: usize = needle.len();
    if m > n {
        assert forall|i: int| !occurs_at(hay@, needle@, i) by {}
        return false;
    }
    let mut i: usize = 0;
    while i <= n - m
        invariant
            n == hay@.len(),
            m == needle@.len(),
            m <= n,
            i <= n - m + 1,
            forall|k: int| 0 <= k < i ==> !occurs_at(hay@, needle@, k),
        decreases n - m + 1 - i,
    {
        let mut j: usize = 0;
        while j < m && hay[i + j] == needle[j]
            invariant
                n == hay@.len(),
                m == needle@.len(),
                i + m <= n,
                j <= m,
                forall|k: int| 0 <= k < j ==> hay@[i + k] == needle@[k],
            decreases m - j,
        {
            j += 1;
        }
        if j == m {
            assert(hay@.subrange(i as int, i + m) =~= needle@);
            assert(occurs_at(hay@, needle@, i as int));
            return true;
        }
        assert(!occurs_at(hay@, needle@, i as int)) by {
            if occurs_at(hay@, needle@, i as int) {
                assert(hay@.subrange(i as int, i + m)[j as int] == hay@[i + j]);
            }
        }
        i += 1;
    }
    assert forall|k: int| !occurs_at(hay@, needle@, k) by {}
    false
}

/// The characters of `s`, in order.
pub fn to_chars(s: &str) -> (v: Vec<char>)
    ensures
        v@ == s@,
{
    let mut v: Vec<char> = Vec::new();
    for c in it: s.chars()
        invariant
            v@ == it.seq().take(it.index() as int),
            it.seq() == s@,
    {
        v.push(c);
    }
    v
}

/// Appends the characters of `chars` to `s`.
pub fn push_chars(s: &mut String, chars: &[char])
    ensures
        final(s)@ == old(s)@ + chars@,
{
    let mut i: usize = 0;
    while i < chars.len()
        invariant
            i <= chars@.len(),
            s@ == old(s)@ + chars@.take(i as int),
        decreases chars@.len() - i,
    {
        s.push(chars[i]);
        i += 1;
    }
}

/// The string made of `chars`.
pub fn to_string(chars: &[char]) -> (s: String)
    ensures
        s@ == chars@,
{
    let mut s = String::new();
    push_chars(&mut s, chars);
    s
}

} // verus!
