//! Text cleanup: trimming of white space and removal of the boilerplate
//! phrases that an engine emits on near-silent input.
//!
//! Strings are modelled by their sequence of characters.

use vstd::prelude::*;

verus! {

/// `String::push` appends one character at the end of the string.
pub assume_specification[ String::push ](s: &mut String, ch: char)
    ensures
        final(s)@ == old(s)@.push(ch),
;

/// Whether `c` is white space: one of the code points that Unicode lists
/// under the property `White_Space`.
pub open spec fn is_space(c: char) -> bool {
    let n = c as u32;
    ||| 0x09 <= n <= 0x0D
    ||| n == 0x20
    ||| n == 0x85
    ||| n == 0xA0
    ||| n == 0x1680
    ||| 0x2000 <= n <= 0x200A
    ||| n == 0x2028
    ||| n == 0x2029
    ||| n == 0x202F
    ||| n == 0x205F
    ||| n == 0x3000
}

/// `s` without the white space at its start.
pub open spec fn trim_start(s: Seq<char>) -> Seq<char>
    decreases s.len(),
{
    if s.len() > 0 && is_space(s[0]) {
        trim_start(s.subrange(1, s.len() as int))
    } else {
        s
    }
}

/// `s` without the white space at its end.
pub open spec fn trim_end(s: Seq<char>) -> Seq<char>
    decreases s.len(),
{
    if s.len() > 0 && is_space(s.last()) {
        trim_end(s.drop_last())
    } else {
        s
    }
}

/// `s` without the white space at either end.
pub open spec fn trimmed(s: Seq<char>) -> Seq<char> {
    trim_end(trim_start(s))
}

/// Whether `s` begins with `p`.
pub open spec fn starts_with(s: Seq<char>, p: Seq<char>) -> bool {
    p.len() <= s.len() && s.subrange(0, p.len() as int) == p
}

/// `s` with every occurrence of `p` taken out. Occurrences are found from
/// left to right and do not overlap; an empty `p` takes nothing out.
pub open spec fn without(s: Seq<char>, p: Seq<char>) -> Seq<char>
    decreases s.len(),
{
    if p.len() == 0 || s.len() < p.len() {
        s
    } else if starts_with(s, p) {
        without(s.subrange(p.len() as int, s.len() as int), p)
    } else {
        seq![s[0]] + without(s.subrange(1, s.len() as int), p)
    }
}

/// The cleaned form of a transcribed text: the known boilerplate phrases
/// are taken out one after the other, then the rest is trimmed.
pub open spec fn cleaned(s: Seq<char>) -> Seq<char> {
    trimmed(
        without(
            without(without(without(s, "Start using a trial version of"@), "Unicorn"@), "Amara.org"@),
            "Subtitle by"@,
        ),
    )
}

/// Whether `c` is white space.
pub fn is_whitespace(c: char) -> (b: bool)
    ensures
        b == is_space(c),
{
    let n: u32 = c as u32;
    (0x09 <= n && n <= 0x0D) || n == 0x20 || n == 0x85 || n == 0xA0 || n == 0x1680 || (0x2000 <= n
        && n <= 0x200A) || n == 0x2028 || n == 0x2029 || n == 0x202F || n == 0x205F || n == 0x3000
}

/// The characters of `s`, in order.
pub fn chars_of(s: &str) -> (out: Vec<char>)
    ensures
        out@ == s@,
{
    let mut out: Vec<char> = Vec::new();
    for c in it: s.chars()
        invariant
            out@ == it.seq().take(it.index() as int),
            it.seq() == s@,
    {
        out.push(c);
    }
    out
}

/// The string made of the characters `chars[from..to]`.
pub fn string_of(chars: &Vec<char>, from: usize, to: usize) -> (out: String)
    requires
        from <= to <= chars@.len(),
    ensures
        out@ == chars@.subrange(from as int, to as int),
{
    let mut out: String = String::new();
    let mut i: usize = from;
    while i < to
        invariant
            from <= i <= to <= chars@.len(),
            out@ == chars@.subrange(from as int, i as int),
        decreases to - i,
    {
        out.push(chars[i]);
        i += 1;
    }
    out
}

/// The bounds of what is left of `chars` once it is trimmed.
pub fn trim_bounds(chars: &Vec<char>) -> (bounds: (usize, usize))
    ensures
        bounds.0 <= bounds.1 <= chars@.len(),
        chars@.subrange(bounds.0 as int, bounds.1 as int) == trimmed(chars@),
{
    let n: usize = chars.len();
    let mut from: usize = 0;
    assert(chars@.subrange(0, n as int) == chars@);
    while from < n && is_whitespace(chars[from])
        invariant
            from <= n == chars@.len(),
            trim_start(chars@) == trim_start(chars@.subrange(from as int, n as int)),
        decreases n - from,
    {
        assert(chars@.subrange(from as int, n as int).subrange(1, n - from) == chars@.subrange(
            from + 1,
            n as int,
        ));
        from += 1;
    }
    let mut to: usize = n;
    while to > from && is_whitespace(chars[to - 1])
        invariant
            from <= to <= n == chars@.len(),
            trimmed(chars@) == trim_end(chars@.subrange(from as int, to as int)),
        decreases to,
    {
        assert(chars@.subrange(from as int, to as int).drop_last() == chars@.subrange(
            from as int,
            to - 1,
        ));
        to -= 1;
    }
    (from, to)
}

/// `text` with every occurrence of `pattern` taken out.
pub fn remove_all(text: &Vec<char>, pattern: &Vec<char>) -> (out: Vec<char>)
    ensures
        out@ == without(text@, pattern@),
{
    let n: usize = text.len();
    let m: usize = pattern.len();
    let mut out: Vec<char> = Vec::new();
    let mut i: usize = 0;
    assert(text@.subrange(0, n as int) == text@);
    while i < n
        invariant
            i <= n == text@.len(),
            m == pattern@.len(),
            out@ + without(text@.subrange(i as int, n as int), pattern@) == without(
                text@,
                pattern@,
            ),
        decreases n - i,
    {
        let ghost rest = text@.subrange(i as int, n as int);
        if m > 0 && n - i >= m && matches_at(text, i, pattern) {
            assert(rest.subrange(m as int, rest.len() as int) == text@.subrange(
                i + m,
                n as int,
            ));
            i += m;
        } else {
            assert(rest.subrange(1, rest.len() as int) == text@.subrange(i + 1, n as int));
            out.push(text[i]);
            proof {
                if m == 0 || n - i < m {
                    lemma_short_rest(text@.subrange(i + 1, n as int), pattern@);
                }
            }
            i += 1;
        }
    }
    out
}

/// Nothing is taken out of a text that is shorter than the pattern, nor by
/// an empty pattern.
proof fn lemma_short_rest(s: Seq<char>, p: Seq<char>)
    requires
        p.len() == 0 || s.len() < p.len(),
    ensures
        without(s, p) == s,
{
}

/// Whether `pattern` occurs in `text` at position `at`.
pub fn matches_at(text: &Vec<char>, at: usize, pattern: &Vec<char>) -> (found: bool)
    requires
        at + pattern@.len() <= text@.len(),
    ensures
        found == starts_with(text@.subrange(at as int, text@.len() as int), pattern@),
{
    let m: usize = pattern.len();
    let n: usize = text.len();
    let ghost rest = text@.subrange(at as int, text@.len() as int);
    let mut j: usize = 0;
    while j < m
        invariant
            j <= m == pattern@.len(),
            at + m <= n == text@.len(),
            rest == text@.subrange(at as int, text@.len() as int),
            forall|k: int| 0 <= k < j ==> text@[at + k] == pattern@[k],
        decreases m - j,
    {
        if text[at + j] != pattern[j] {
            return false;
        }
        j += 1;
    }
    assert(rest.subrange(0, m as int) =~= pattern@);
    true
}

/// `s` without the white space at either end.
pub fn trim(s: &str) -> (out: String)
    ensures
        out@ == trimmed(s@),
{
    let chars: Vec<char> = chars_of(s);
    let bounds: (usize, usize) = trim_bounds(&chars);
    string_of(&chars, bounds.0, bounds.1)
}

/// Cleans a transcribed text: takes out the phrases `Start using a trial
/// version of`, `Unicorn`, `Amara.org` and `Subtitle by`, in this order,
/// and trims what is left.
pub fn cleanup_text(text: &str) -> (out: String)
    ensures
        out@ == cleaned(text@),
{
    let chars: Vec<char> = chars_of(text);
    let chars: Vec<char> = remove_all(&chars, &chars_of("Start using a trial version of"));
    let chars: Vec<char> = remove_all(&chars, &chars_of("Unicorn"));
    let chars: Vec<char> = remove_all(&chars, &chars_of("Amara.org"));
    let chars: Vec<char> = remove_all(&chars, &chars_of("Subtitle by"));
    let bounds: (usize, usize) = trim_bounds(&chars);
    string_of(&chars, bounds.0, bounds.1)
}


/// Whether `s` has no white space at either end.
pub open spec fn is_trimmed(s: Seq<char>) -> bool {
    s.len() == 0 || (!is_space(s[0]) && !is_space(s.last()))
}

/// What is left without the white space at the start does not begin with
/// white space, and it is the end of the text.
pub proof fn lemma_trim_start(s: Seq<char>)
    ensures
        trim_start(s).len() <= s.len(),
        trim_start(s) == s.subrange(s.len() - trim_start(s).len(), s.len() as int),
        trim_start(s).len() > 0 ==> !is_space(trim_start(s)[0]),
    decreases s.len(),
{
    if s.len() > 0 && is_space(s[0]) {
        let rest = s.subrange(1, s.len() as int);
        lemma_trim_start(rest);
        assert(trim_start(s) =~= s.subrange(s.len() - trim_start(s).len(), s.len() as int));
    } else {
        assert(s =~= s.subrange(0, s.len() as int));
    }
}

/// What is left without the white space at the end does not end with white
/// space, and it is the start of the text.
pub proof fn lemma_trim_end(s: Seq<char>)
    ensures
        trim_end(s).len() <= s.len(),
        trim_end(s) == s.subrange(0, trim_end(s).len() as int),
        trim_end(s).len() > 0 ==> !is_space(trim_end(s).last()),
    decreases s.len(),
{
    if s.len() > 0 && is_space(s.last()) {
        lemma_trim_end(s.drop_last());
        assert(trim_end(s) =~= s.subrange(0, trim_end(s).len() as int));
    } else {
        assert(s =~= s.subrange(0, s.len() as int));
    }
}

/// A trimmed text has no white space at either end, and trimming it again
/// changes nothing.
pub proof fn lemma_trimmed_is_trimmed(s: Seq<char>)
    ensures
        is_trimmed(trimmed(s)),
        trimmed(trimmed(s)) == trimmed(s),
{
    lemma_trim_start(s);
    lemma_trim_end(trim_start(s));
    let t = trimmed(s);
    lemma_trimming_keeps_trimmed(t);
}

/// Trimming changes nothing of a text without white space at either end.
pub proof fn lemma_trimming_keeps_trimmed(s: Seq<char>)
    requires
        is_trimmed(s),
    ensures
        trimmed(s) == s,
{
}

/// A cleaned text is trimmed.
pub proof fn lemma_cleaned_is_trimmed(s: Seq<char>)
    ensures
        is_trimmed(cleaned(s)),
        trimmed(cleaned(s)) == cleaned(s),
{
    lemma_trimmed_is_trimmed(
        without(
            without(without(without(s, "Start using a trial version of"@), "Unicorn"@), "Amara.org"@),
            "Subtitle by"@,
        ),
    );
}

} // verus!
