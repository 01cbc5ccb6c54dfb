//! Text helpers over characters.
use vstd::prelude::*;

verus! {

/// `String::push` appends one character.
pub assume_specification[ String::push ](s: &mut String, ch: char)
    ensures
        final(s)@ == old(s)@.push(ch),
;

/// What `str::to_lowercase` gives for a text: its lowercase form by Unicode's rules.
pub uninterp spec fn lowercase_of(text: Seq<char>) -> Seq<char>;

/// Calls std's `str::to_lowercase`. Claimed: the result depends on the text alone.
#[verifier::external_body]
pub(crate) fn lowercase(text: &str) -> (r: String)
    ensures
        r@ == lowercase_of(text@),
{
    text.to_lowercase()
}

/// Unicode's White_Space property, which `char::is_whitespace` goes by.
pub open spec fn is_white_space(c: char) -> bool {
    ||| '\u{9}' <= c <= '\u{d}'
    ||| c == '\u{20}'
    ||| c == '\u{85}'
    ||| c == '\u{a0}'
    ||| c == '\u{1680}'
    ||| '\u{2000}' <= c <= '\u{200a}'
    ||| c == '\u{2028}'
    ||| c == '\u{2029}'
    ||| c == '\u{202f}'
    ||| c == '\u{205f}'
    ||| c == '\u{3000}'
}

/// Is `c` white space?
pub fn white_space(c: char) -> (r: bool)
    ensures
        r == is_white_space(c),
{
    ('\u{9}' <= c && c <= '\u{d}') || c == '\u{20}' || c == '\u{85}' || c == '\u{a0}' || c
        == '\u{1680}' || ('\u{2000}' <= c && c <= '\u{200a}') || c == '\u{2028}' || c
        == '\u{2029}' || c == '\u{202f}' || c == '\u{205f}' || c == '\u{3000}'
}

/// Do two texts hold the same characters?
pub fn same_text(a: &str, b: &str) -> (r: bool)
    ensures
        r == (a@ == b@),
{
    a.to_owned() == b.to_owned()
}

/// The characters of a text.
pub fn chars_of(text: &str) -> (r: Vec<char>)
    ensures
        r@ == text@,
{
    let mut out: Vec<char> = Vec::new();
    for c in it: text.chars()
        invariant
            it.seq() == text@,
            out@ == it.seq().take(it.index() as int),
    {
        out.push(c);
    }
    out
}

/// The text made of characters `from` to `to`.
pub fn text_of(chars: &[char], from: usize, to: usize) -> (r: String)
    requires
        from <= to <= chars@.len(),
    ensures
        r@ == chars@.subrange(from as int, to as int),
{
    let mut out = String::new();
    let mut i: usize = from;
    while i < to
        invariant
            from <= i <= to <= chars@.len(),
            out@ == chars@.subrange(from as int, i as int),
        decreases to - i,
    {
        out.push(chars[i]);
        i = i + 1;
        assert(out@ =~= chars@.subrange(from as int, i as int));
    }
    out
}

/// `text` is `r` between two runs of white space, and `r` neither starts nor ends with any.
pub open spec fn is_trimmed(text: Seq<char>, r: Seq<char>) -> bool {
    exists|i: int, j: int| is_trimmed_at(text, r, i, j)
}

/// See [`is_trimmed`]: `r` is what stands from `i` to `j`.
pub open spec fn is_trimmed_at(text: Seq<char>, r: Seq<char>, i: int, j: int) -> bool {
    &&& 0 <= i <= j <= text.len()
    &&& r == text.subrange(i, j)
    &&& forall|k: int| 0 <= k < i ==> is_white_space(#[trigger] text[k])
    &&& forall|k: int| j <= k < text.len() ==> is_white_space(#[trigger] text[k])
    &&& i < j ==> !is_white_space(text[i]) && !is_white_space(text[j - 1])
}

/// `text` without white space at either end.
pub open spec fn trimmed(text: Seq<char>) -> Seq<char> {
    choose|r: Seq<char>| is_trimmed(text, r)
}

/// There is only one way to trim a text.
pub proof fn trimmed_is_unique(text: Seq<char>, a: Seq<char>, b: Seq<char>)
    requires
        is_trimmed(text, a),
        is_trimmed(text, b),
    ensures
        a == b,
{
    let (i, j) = choose|i: int, j: int| is_trimmed_at(text, a, i, j);
    let (m, n) = choose|m: int, n: int| is_trimmed_at(text, b, m, n);
    if i < j {
        assert(!is_white_space(text[i]));
        assert(!is_white_space(text[j - 1]));
        if m < n {
            assert(!is_white_space(text[m]));
            assert(!is_white_space(text[n - 1]));
            assert(i == m && j == n);
        } else {
            assert(is_white_space(text[i]));
        }
    } else {
        if m < n {
            assert(!is_white_space(text[m]));
            assert(is_white_space(text[m]));
        }
    }
    assert(a =~= b);
}

/// The text without white space at either end, as `str::trim` gives it.
pub fn trim(text: &str) -> (r: String)
    ensures
        r@ == trimmed(text@),
        is_trimmed(text@, r@),
{
    let chars = chars_of(text);
    let mut i: usize = 0;
    while i < chars.len() && white_space(chars[i])
        invariant
            i <= chars@.len(),
            forall|k: int| 0 <= k < i ==> is_white_space(#[trigger] chars@[k]),
        decreases chars@.len() - i,
    {
        i = i + 1;
    }
    let mut j: usize = chars.len();
    while i < j && white_space(chars[j - 1])
        invariant
            i <= j <= chars@.len(),
            forall|k: int| j <= k < chars@.len() ==> is_white_space(#[trigger] chars@[k]),
        decreases j,
    {
        j = j - 1;
    }
    let r = text_of(&chars, i, j);
    proof {
        assert(is_trimmed_at(text@, r@, i as int, j as int));
        trimmed_is_unique(text@, r@, trimmed(text@));
    }
    r
}

/// Does `needle` occur in `text`?
pub open spec fn occurs_in(needle: Seq<char>, text: Seq<char>) -> bool {
    exists|i: int|
        0 <= i <= text.len() - needle.len() && #[trigger] text.subrange(i, i + needle.len())
            == needle
}

/// Does `needle` occur in `text`? An empty needle occurs in every text.
pub fn contains_text(text: &str, needle: &str) -> (r: bool)
    ensures
        r == occurs_in(needle@, text@),
{
    let hay = chars_of(text);
    let pat = chars_of(needle);
    if pat.len() > hay.len() {
        return false;
    }
    let total: usize = hay.len();
    let last: usize = total - pat.len();
    let mut i: usize = 0;
    while i <= last
        invariant
            hay@ == text@,
            pat@ == needle@,
            total == hay@.len(),
            last == total - pat@.len(),
            i <= last + 1,
            last < usize::MAX || i <= last,
            forall|k: int|
                0 <= k < i ==> #[trigger] hay@.subrange(k, k + pat@.len()) != pat@,
        decreases last + 1 - i,
    {
        let mut j: usize = 0;
        while j < pat.len() && hay[i + j] == pat[j]
            invariant
                j <= pat@.len(),
                i <= last,
                total == hay@.len(),
                last == total - pat@.len(),
                forall|k: int| 0 <= k < j ==> hay@[i + k] == #[trigger] pat@[k],
            decreases pat@.len() - j,
        {
            j = j + 1;
        }
        if j == pat.len() {
            assert(hay@.subrange(i as int, i + pat@.len()) =~= pat@);
            return true;
        }
        proof {
            let s = hay@.subrange(i as int, i + pat@.len());
            assert(s[j as int] != pat@[j as int]);
        }
        if i == last {
            assert forall|k: int| 0 <= k <= text@.len() - needle@.len() implies
                #[trigger] text@.subrange(k, k + needle@.len()) != needle@ by {
                assert(k <= i);
            }
            return false;
        }
        i = i + 1;
    }
    false
}

/// `c` with an ASCII capital turned into its small letter.
pub open spec fn ascii_small(c: char) -> char {
    if 'A' <= c <= 'Z' {
        (c as u8 + 32) as char
    } else {
        c
    }
}

/// `text` with every ASCII capital turned into its small letter.
pub open spec fn ascii_lowercase_of(text: Seq<char>) -> Seq<char> {
    text.map_values(|c: char| ascii_small(c))
}

/// The text with every ASCII capital turned into its small letter.
pub fn ascii_lowercase(text: &str) -> (r: String)
    ensures
        r@ == ascii_lowercase_of(text@),
{
    let chars = chars_of(text);
    let mut out = String::new();
    let mut i: usize = 0;
    while i < chars.len()
        invariant
            i <= chars@.len(),
            chars@ == text@,
            out@ == ascii_lowercase_of(text@).take(i as int),
        decreases chars@.len() - i,
    {
        let c = chars[i];
        let small = if 'A' <= c && c <= 'Z' {
            (c as u8 + 32) as char
        } else {
            c
        };
        out.push(small);
        i = i + 1;
        assert(out@ =~= ascii_lowercase_of(text@).take(i as int));
    }
    assert(out@ =~= ascii_lowercase_of(text@));
    out
}

/// The values of a list of texts.
pub open spec fn text_views(texts: Seq<String>) -> Seq<Seq<char>> {
    texts.map_values(|t: String| t@)
}

/// The parts of `text` between occurrences of `sep`: one more than there are occurrences.
pub open spec fn split_of(text: Seq<char>, sep: char) -> Seq<Seq<char>>
    decreases text.len(),
{
    if text.len() == 0 {
        seq![Seq::empty()]
    } else {
        let parts = split_of(text.drop_last(), sep);
        if text.last() == sep {
            parts.push(Seq::empty())
        } else {
            parts.update(parts.len() - 1, parts.last().push(text.last()))
        }
    }
}

/// A text always has at least one part.
pub proof fn split_not_empty(text: Seq<char>, sep: char)
    ensures
        split_of(text, sep).len() >= 1,
    decreases text.len(),
{
    if text.len() > 0 {
        split_not_empty(text.drop_last(), sep);
    }
}

/// Cuts a text at every occurrence of `sep`.
pub fn split_on(text: &str, sep: char) -> (r: Vec<String>)
    ensures
        text_views(r@) == split_of(text@, sep),
        r@.len() >= 1,
{
    let chars = chars_of(text);
    let mut done: Vec<String> = Vec::new();
    let mut current = String::new();
    let mut i: usize = 0;
    assert(text_views(done@).push(current@) =~= split_of(chars@.take(0), sep));
    while i < chars.len()
        invariant
            i <= chars@.len(),
            text_views(done@).push(current@) == split_of(chars@.take(i as int), sep),
        decreases chars@.len() - i,
    {
        let c = chars[i];
        let ghost before = text_views(done@).push(current@);
        let ghost views = text_views(done@);
        proof {
            assert(chars@.take(i + 1).drop_last() =~= chars@.take(i as int));
            assert(chars@.take(i + 1).last() == c);
        }
        if c == sep {
            let ghost part = current@;
            done.push(current);
            current = String::new();
            assert(text_views(done@) =~= views.push(part));
            assert(text_views(done@).push(current@) =~= before.push(Seq::empty()));
        } else {
            current.push(c);
            assert(text_views(done@).push(current@) =~= before.update(
                before.len() - 1,
                before.last().push(c),
            ));
        }
        i = i + 1;
    }
    assert(chars@.take(i as int) =~= text@);
    let ghost views = text_views(done@);
    let ghost part = current@;
    done.push(current);
    assert(text_views(done@) =~= views.push(part));
    done
}

/// Is `c` an ASCII digit or letter?
pub open spec fn is_ascii_alnum(c: char) -> bool {
    ('0' <= c <= '9') || ('A' <= c <= 'Z') || ('a' <= c <= 'z')
}

/// Is `c` an ASCII digit or letter?
pub fn ascii_alnum(c: char) -> (r: bool)
    ensures
        r == is_ascii_alnum(c),
{
    ('0' <= c && c <= '9') || ('A' <= c && c <= 'Z') || ('a' <= c && c <= 'z')
}

/// `c` with an ASCII small letter turned into its capital.
pub open spec fn ascii_big(c: char) -> char {
    if 'a' <= c <= 'z' {
        (c as u8 - 32) as char
    } else {
        c
    }
}

/// The character with an ASCII small letter turned into its capital.
pub fn ascii_uppercase(c: char) -> (r: char)
    ensures
        r == ascii_big(c),
{
    if 'a' <= c && c <= 'z' {
        (c as u8 - 32) as char
    } else {
        c
    }
}

/// The digit that stands for `d`.
pub open spec fn digit_char(d: int) -> char {
    (48 + d) as u8 as char
}

/// `n` in decimal.
pub open spec fn decimal_of(n: nat) -> Seq<char>
    decreases n,
{
    if n < 10 {
        seq![digit_char(n as int)]
    } else {
        decimal_of(n / 10).push(digit_char((n % 10) as int))
    }
}

/// Writes `n` in decimal.
pub fn decimal(n: u64) -> (r: String)
    ensures
        r@ == decimal_of(n as nat),
    decreases n,
{
    let d: u8 = 48 + (n % 10) as u8;
    let mut out = if n < 10 {
        String::new()
    } else {
        decimal(n / 10)
    };
    out.push(d as char);
    assert(n < 10 ==> out@ =~= seq![digit_char(n as int)]);
    out
}

/// Appends one text to another.
pub fn join(a: &str, b: &str) -> (r: String)
    ensures
        r@ == a@ + b@,
{
    let mut out = a.to_owned();
    out.append(b);
    out
}

} // verus!
