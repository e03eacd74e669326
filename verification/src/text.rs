//! Character-level text primitives shared by the request decoder and the
//! response encoder. Every executable function here works on a slice of
//! characters and is specified over `Seq<char>`.

use vstd::prelude::*;

verus! {

/// `String::push` appends one character to the end of the string.
pub assume_specification[ String::push ](s: &mut String, c: char)
    ensures
        final(s)@ == old(s)@.push(c),
;

/// The characters with the Unicode `White_Space` property.
pub open spec fn is_whitespace(c: char) -> bool {
    ||| '\u{0009}' <= c <= '\u{000D}'
    ||| c == ' '
    ||| c == '\u{0085}'
    ||| c == '\u{00A0}'
    ||| c == '\u{1680}'
    ||| '\u{2000}' <= c <= '\u{200A}'
    ||| c == '\u{2028}'
    ||| c == '\u{2029}'
    ||| c == '\u{202F}'
    ||| c == '\u{205F}'
    ||| c == '\u{3000}'
}

/// A set of characters that a scan can run over.
#[derive(Debug, PartialEq, Eq, Clone, Copy, Structural)]
pub enum CharClass {
    /// The whitespace characters.
    Whitespace,
    /// Every character that is not whitespace.
    NonWhitespace,
    /// Every character except the given one.
    Except(char),
}

impl CharClass {
    /// Whether `c` belongs to the class.
    pub open spec fn has(self, c: char) -> bool {
        match self {
            CharClass::Whitespace => is_whitespace(c),
            CharClass::NonWhitespace => !is_whitespace(c),
            CharClass::Except(x) => c != x,
        }
    }

    /// Tests whether `c` belongs to the class.
    pub fn contains(&self, c: char) -> (r: bool)
        ensures
            r == self.has(c),
    {
        match self {
            CharClass::Whitespace => char_is_whitespace(c),
            CharClass::NonWhitespace => !char_is_whitespace(c),
            CharClass::Except(x) => c != *x,
        }
    }
}

/// Tests whether `c` is a whitespace character.
pub fn char_is_whitespace(c: char) -> (r: bool)
    ensures
        r == is_whitespace(c),
{
    ('\u{0009}' <= c && c <= '\u{000D}') || c == ' ' || c == '\u{0085}' || c == '\u{00A0}' || c
        == '\u{1680}' || ('\u{2000}' <= c && c <= '\u{200A}') || c == '\u{2028}' || c
        == '\u{2029}' || c == '\u{202F}' || c == '\u{205F}' || c == '\u{3000}'
}

/// The length of the longest prefix of `s` whose characters all belong to `class`.
pub open spec fn span(s: Seq<char>, class: CharClass) -> int
    decreases s.len(),
{
    if s.len() > 0 && class.has(s[0]) {
        1 + span(s.drop_first(), class)
    } else {
        0
    }
}

/// `span` stops at the first character outside the class, or at the end.
pub proof fn lemma_span_bounds(s: Seq<char>, class: CharClass)
    ensures
        0 <= span(s, class) <= s.len(),
        forall|i: int| 0 <= i < span(s, class) ==> class.has(#[trigger] s[i]),
        span(s, class) < s.len() ==> !class.has(s[span(s, class)]),
    decreases s.len(),
{
    if s.len() > 0 && class.has(s[0]) {
        let t = s.drop_first();
        lemma_span_bounds(t, class);
        assert forall|i: int| 0 <= i < span(s, class) implies class.has(#[trigger] s[i]) by {
            if i > 0 {
                assert(s[i] == t[i - 1]);
            }
        }
        if span(s, class) < s.len() {
            assert(s[span(s, class)] == t[span(t, class)]);
        }
    }
}

/// A position that ends a run of class members is the span.
pub proof fn lemma_span_is(s: Seq<char>, class: CharClass, k: int)
    requires
        0 <= k <= s.len(),
        forall|i: int| 0 <= i < k ==> class.has(#[trigger] s[i]),
        k < s.len() ==> !class.has(s[k]),
    ensures
        span(s, class) == k,
    decreases s.len(),
{
    if k > 0 {
        let t = s.drop_first();
        assert forall|i: int| 0 <= i < k - 1 implies class.has(#[trigger] t[i]) by {
            assert(t[i] == s[i + 1]);
        }
        if k - 1 < t.len() {
            assert(t[k - 1] == s[k]);
        }
        lemma_span_is(t, class, k - 1);
    }
}

/// Scans `cs` from `from` over the members of `class` and returns where the run ends.
pub fn scan(cs: &[char], from: usize, class: CharClass) -> (end: usize)
    requires
        from <= cs.len(),
    ensures
        end == from + span(cs@.skip(from as int), class),
        from <= end <= cs.len(),
{
    let mut i: usize = from;
    while i < cs.len() && class.contains(cs[i])
        invariant
            from <= i <= cs.len(),
            forall|j: int| from <= j < i ==> class.has(#[trigger] cs@[j]),
        decreases cs.len() - i,
    {
        i += 1;
    }
    proof {
        let s = cs@.skip(from as int);
        assert forall|j: int| 0 <= j < i - from implies class.has(#[trigger] s[j]) by {
            assert(s[j] == cs@[from + j]);
        }
        lemma_span_is(s, class, i - from);
    }
    i
}

/// Whether `pat` occurs in `s` starting at index `i`.
pub open spec fn occurs_at(s: Seq<char>, pat: Seq<char>, i: int) -> bool {
    0 <= i && i + pat.len() <= s.len() && s.subrange(i, i + pat.len()) == pat
}

/// Whether `pat` occurs somewhere in `s` as a contiguous run of characters.
pub open spec fn contains(s: Seq<char>, pat: Seq<char>) -> bool {
    exists|i: int| occurs_at(s, pat, i)
}

/// Tests whether `pat` occurs in `cs` starting at index `at`.
fn matches_at(cs: &[char], pat: &[char], at: usize) -> (r: bool)
    requires
        at + pat.len() <= cs.len(),
    ensures
        r == occurs_at(cs@, pat@, at as int),
{
    let mut j: usize = 0;
    while j < pat.len()
        invariant
            j <= pat.len(),
            at + pat.len() <= cs.len(),
            forall|k: int| 0 <= k < j ==> cs@[at + k] == pat@[k],
        decreases pat.len() - j,
    {
        if cs[at + j] != pat[j] {
            proof {
                let w = cs@.subrange(at as int, at + pat.len());
                assert(w[j as int] == cs@[at + j]);
            }
            return false;
        }
        j += 1;
    }
    assert(cs@.subrange(at as int, at + pat.len()) =~= pat@);
    true
}

/// Tests whether `pat` occurs somewhere in `cs`.
pub fn find(cs: &[char], pat: &[char]) -> (r: bool)
    ensures
        r == contains(cs@, pat@),
{
    if pat.len() == 0 {
        assert(occurs_at(cs@, pat@, 0)) by {
            assert(cs@.subrange(0, 0) =~= pat@);
        }
        return true;
    }
    if pat.len() > cs.len() {
        return false;
    }
    let last: usize = cs.len() - pat.len();
    let mut i: usize = 0;
    while i <= last
        invariant
            i <= last + 1,
            0 < pat.len() <= cs.len(),
            last == cs.len() - pat.len(),
            forall|k: int| 0 <= k < i ==> !occurs_at(cs@, pat@, k),
        decreases last + 1 - i,
    {
        if matches_at(cs, pat, i) {
            return true;
        }
        i += 1;
    }
    false
}

/// `s` without one trailing carriage return, if it ends in one.
pub open spec fn without_cr(s: Seq<char>) -> Seq<char> {
    if s.len() > 0 && s.last() == '\r' {
        s.drop_last()
    } else {
        s
    }
}

/// The lines of `s`. A line ends at a line feed; the line feed, and a carriage
/// return directly before it, are not part of the line. What follows the last
/// line feed is a line of its own unless it is empty.
pub open spec fn lines(s: Seq<char>) -> Seq<Seq<char>>
    decreases s.len(),
{
    let n = span(s, CharClass::Except('\n'));
    if n < s.len() {
        proof {
            lemma_span_bounds(s, CharClass::Except('\n'));
        }
        seq![without_cr(s.take(n))] + lines(s.skip(n + 1))
    } else if s.len() > 0 {
        seq![s]
    } else {
        Seq::empty()
    }
}

/// Finds the first line of `cs[from..]`, which must not be empty: returns
/// where the content of the line ends and where the text after it starts.
pub fn next_line(cs: &[char], from: usize) -> (r: (usize, usize))
    requires
        from < cs.len(),
    ensures
        from <= r.0 <= r.1 <= cs.len(),
        from < r.1,
        lines(cs@.skip(from as int)) == seq![cs@.subrange(from as int, r.0 as int)] + lines(
            cs@.skip(r.1 as int),
        ),
{
    let feed = scan(cs, from, CharClass::Except('\n'));
    let ghost s = cs@.skip(from as int);
    if feed == cs.len() {
        proof {
            assert(cs@.skip(feed as int).len() == 0);
            assert(cs@.subrange(from as int, feed as int) =~= s);
            assert(seq![s] + Seq::<Seq<char>>::empty() =~= seq![s]);
        }
        (feed, feed)
    } else {
        let end = if feed > from && cs[feed - 1] == '\r' {
            feed - 1
        } else {
            feed
        };
        proof {
            let n = feed - from;
            let head = s.take(n);
            assert(head =~= cs@.subrange(from as int, feed as int));
            assert(without_cr(head) =~= cs@.subrange(from as int, end as int)) by {
                if n > 0 {
                    assert(head.last() == cs@[feed - 1]);
                }
            }
            assert(s.skip(n + 1) =~= cs@.skip(feed + 1));
        }
        (end, feed + 1)
    }
}

/// The words of `s`: its maximal runs of characters that are not whitespace,
/// in order.
pub open spec fn words(s: Seq<char>) -> Seq<Seq<char>>
    decreases s.len(),
{
    let start = span(s, CharClass::Whitespace);
    let end = start + span(s.skip(start), CharClass::NonWhitespace);
    if start < s.len() {
        proof {
            lemma_span_bounds(s, CharClass::Whitespace);
            lemma_span_bounds(s.skip(start), CharClass::NonWhitespace);
        }
        seq![s.subrange(start, end)] + words(s.skip(end))
    } else {
        Seq::empty()
    }
}

/// Whether `s` can stand as a word: it is not empty and holds no whitespace.
pub open spec fn is_word(s: Seq<char>) -> bool {
    s.len() > 0 && forall|i: int| 0 <= i < s.len() ==> !is_whitespace(#[trigger] s[i])
}

/// A word that is followed by nothing or by whitespace is the first word, and
/// the other words are those of what follows it.
pub proof fn lemma_words_after_word(word: Seq<char>, rest: Seq<char>)
    requires
        is_word(word),
        rest.len() > 0 ==> is_whitespace(rest[0]),
    ensures
        words(word + rest) == seq![word] + words(rest),
{
    let s = word + rest;
    lemma_span_is(s, CharClass::Whitespace, 0);
    assert(s.skip(0) =~= s);
    assert forall|i: int| 0 <= i < word.len() implies CharClass::NonWhitespace.has(
        #[trigger] s[i],
    ) by {
        assert(s[i] == word[i]);
    }
    if word.len() < s.len() {
        assert(s[word.len() as int] == rest[0]);
    }
    lemma_span_is(s, CharClass::NonWhitespace, word.len() as int);
    assert(s.subrange(0, word.len() as int) =~= word);
    assert(s.skip(word.len() as int) =~= rest);
}

/// Whitespace in front of a text does not change its words.
pub proof fn lemma_words_after_blank(blank: char, rest: Seq<char>)
    requires
        is_whitespace(blank),
    ensures
        words(seq![blank] + rest) == words(rest),
{
    let s = seq![blank] + rest;
    assert(s.drop_first() =~= rest);
    let start = span(rest, CharClass::Whitespace);
    lemma_span_bounds(rest, CharClass::Whitespace);
    assert(span(s, CharClass::Whitespace) == start + 1);
    assert(s.skip(start + 1) =~= rest.skip(start));
    if start < rest.len() {
        let end = start + span(rest.skip(start), CharClass::NonWhitespace);
        lemma_span_bounds(rest.skip(start), CharClass::NonWhitespace);
        assert(s.subrange(start + 1, end + 1) =~= rest.subrange(start, end));
        assert(s.skip(end + 1) =~= rest.skip(end));
    }
}

/// Finds the first word of `cs[from..]`, if there is one, and returns where it
/// starts and ends.
pub fn next_word(cs: &[char], from: usize) -> (r: Option<(usize, usize)>)
    requires
        from <= cs.len(),
    ensures
        match r {
            Some((a, b)) => {
                &&& from <= a < b <= cs.len()
                &&& words(cs@.skip(from as int)) == seq![cs@.subrange(a as int, b as int)] + words(
                    cs@.skip(b as int),
                )
            },
            None => words(cs@.skip(from as int)) == Seq::<Seq<char>>::empty(),
        },
{
    let a = scan(cs, from, CharClass::Whitespace);
    if a == cs.len() {
        return None;
    }
    let b = scan(cs, a, CharClass::NonWhitespace);
    proof {
        let s = cs@.skip(from as int);
        let start = a - from;
        assert(s.skip(start) =~= cs@.skip(a as int));
        lemma_span_bounds(s, CharClass::Whitespace);
        assert(span(s.skip(start), CharClass::NonWhitespace) > 0) by {
            assert(s.skip(start)[0] == s[start]);
            lemma_span_bounds(s.skip(start), CharClass::NonWhitespace);
        }
        assert(s.subrange(start, start + (b - a)) =~= cs@.subrange(a as int, b as int));
        assert(s.skip(start + (b - a)) =~= cs@.skip(b as int));
    }
    Some((a, b))
}

/// The characters of `s`, in order.
pub fn chars_of(s: &str) -> (cs: Vec<char>)
    ensures
        cs@ == s@,
{
    let mut cs: Vec<char> = Vec::new();
    for c in it: s.chars()
        invariant
            it.seq() == s@,
            cs@ == it.seq().take(it.index() as int),
    {
        cs.push(c);
    }
    cs
}

/// The string made of the characters of `cs`, in order.
pub fn string_of(cs: &[char]) -> (s: String)
    ensures
        s@ == cs@,
{
    let mut s = String::new();
    let mut i: usize = 0;
    while i < cs.len()
        invariant
            i <= cs.len(),
            s@ == cs@.take(i as int),
        decreases cs.len() - i,
    {
        s.push(cs[i]);
        i += 1;
        assert(cs@.take(i as int) =~= cs@.take(i - 1).push(cs@[i - 1]));
    }
    assert(cs@.take(cs.len() as int) =~= cs@);
    s
}

/// Tests whether two strings hold the same characters.
pub fn str_eq(a: &str, b: &str) -> (r: bool)
    ensures
        r == (a@ == b@),
{
    let x = a.as_bytes();
    let y = b.as_bytes();
    proof {
        // Two strings with the same encoding decode to the same characters.
        vstd::utf8::encode_utf8_decode_utf8(a@);
        vstd::utf8::encode_utf8_decode_utf8(b@);
        assert(a@ == b@ ==> x@ == y@);
    }
    if x.len() != y.len() {
        return false;
    }
    let mut i: usize = 0;
    while i < x.len()
        invariant
            i <= x.len(),
            x.len() == y.len(),
            a@ == b@ ==> x@ == y@,
            forall|j: int| 0 <= j < i ==> x@[j] == y@[j],
        decreases x.len() - i,
    {
        if x[i] != y[i] {
            return false;
        }
        i += 1;
    }
    assert(x@ =~= y@);
    true
}

/// The character that writes the decimal digit `d`: `'0'` for 0 up to `'9'`
/// for 9.
pub open spec fn digit(d: nat) -> char
    recommends
        d < 10,
{
    (('0' as u8 + d) as u8) as char
}

/// The decimal numeral of `n`, without leading zeros.
pub open spec fn decimal(n: nat) -> Seq<char>
    decreases n,
{
    if n < 10 {
        seq![digit(n)]
    } else {
        decimal(n / 10).push(digit(n % 10))
    }
}

/// Appends the decimal numeral of `n` to `out`.
pub fn push_decimal(out: &mut String, n: usize)
    ensures
        final(out)@ == old(out)@ + decimal(n as nat),
    decreases n,
{
    if n >= 10 {
        push_decimal(out, n / 10);
    }
    let d: u8 = (n % 10) as u8;
    out.push(('0' as u8 + d) as char);
    assert(out@ =~= old(out)@ + decimal(n as nat));
}

} // verus!
