//! What the text helpers promise, said of characters alone.
use crate::text::{
    ascii_big, ascii_lowercase_of, decimal_of, is_ascii_alnum, is_trimmed, is_trimmed_at,
    is_white_space, occurs_in, split_of, trimmed, trimmed_is_unique,
};
use vstd::prelude::*;

verus! {

// ---- splitting ----------------------------------------------------------

/// The parts with `sep` between every two of them.
pub open spec fn put_together(parts: Seq<Seq<char>>, sep: char) -> Seq<char>
    decreases parts.len(),
{
    if parts.len() == 0 {
        Seq::empty()
    } else if parts.len() == 1 {
        parts[0]
    } else {
        put_together(parts.drop_last(), sep).push(sep) + parts.last()
    }
}

proof fn put_together_grows(parts: Seq<Seq<char>>, sep: char, c: char)
    requires
        parts.len() >= 1,
    ensures
        put_together(parts.push(Seq::empty()), sep) == put_together(parts, sep).push(sep),
        put_together(parts.update(parts.len() - 1, parts.last().push(c)), sep) == put_together(
            parts,
            sep,
        ).push(c),
{
    let more = parts.push(Seq::empty());
    assert(more.drop_last() =~= parts);
    assert(put_together(more, sep) =~= put_together(parts, sep).push(sep));
    let longer = parts.update(parts.len() - 1, parts.last().push(c));
    assert(longer.drop_last() =~= parts.drop_last());
    assert(longer.last() == parts.last().push(c));
    assert(put_together(longer, sep) =~= put_together(parts, sep).push(c));
}

/// Law: cutting a text at a separator loses nothing. The parts hold no separator, and with
/// one between every two of them they are the text again.
pub proof fn splitting_loses_nothing(text: Seq<char>, sep: char)
    ensures
        split_of(text, sep).len() >= 1,
        put_together(split_of(text, sep), sep) == text,
        forall|i: int, k: int|
            0 <= i < split_of(text, sep).len() && 0 <= k < split_of(text, sep)[i].len()
                ==> #[trigger] split_of(text, sep)[i][k] != sep,
    decreases text.len(),
{
    if text.len() == 0 {
        assert(put_together(split_of(text, sep), sep) =~= text);
    } else {
        let head = text.drop_last();
        splitting_loses_nothing(head, sep);
        let parts = split_of(head, sep);
        put_together_grows(parts, sep, text.last());
        assert(head.push(text.last()) =~= text);
        assert forall|i: int, k: int|
            0 <= i < split_of(text, sep).len() && 0 <= k < split_of(text, sep)[i].len() implies
            #[trigger] split_of(text, sep)[i][k] != sep by {
            if i < parts.len() && k < parts[i].len() {
                assert(parts[i][k] != sep);
            }
        }
    }
}

/// Law: a separator between two texts is a cut between their parts, and a text without one is
/// its only part.
pub proof fn a_separator_is_a_cut(a: Seq<char>, b: Seq<char>, sep: char)
    ensures
        split_of(a.push(sep) + b, sep) == split_of(a, sep) + split_of(b, sep),
        (forall|i: int| 0 <= i < b.len() ==> #[trigger] b[i] != sep) ==> split_of(b, sep)
            == seq![b],
    decreases b.len(),
{
    let whole = a.push(sep) + b;
    splitting_loses_nothing(a, sep);
    splitting_loses_nothing(b, sep);
    if b.len() == 0 {
        assert(whole =~= a.push(sep));
        assert(whole.drop_last() =~= a);
        assert(split_of(whole, sep) =~= split_of(a, sep) + split_of(b, sep));
        assert(split_of(b, sep) =~= seq![b]);
    } else {
        let head = b.drop_last();
        a_separator_is_a_cut(a, head, sep);
        splitting_loses_nothing(head, sep);
        assert(whole.drop_last() =~= a.push(sep) + head);
        assert(whole.last() == b.last());
        assert(split_of(whole, sep) =~= split_of(a, sep) + split_of(b, sep));
        if forall|i: int| 0 <= i < b.len() ==> #[trigger] b[i] != sep {
            assert forall|i: int| 0 <= i < head.len() implies #[trigger] head[i] != sep by {
                assert(head[i] == b[i]);
            }
            assert(head.push(b.last()) =~= b);
            assert(split_of(b, sep) =~= seq![b]);
        }
    }
}

// ---- ends ---------------------------------------------------------------

/// The characters that count as white space, by their numbers.
pub proof fn white_space_by_number(c: char)
    ensures
        is_white_space(c) <==> {
            let n = c as u32;
            9 <= n <= 13 || n == 32 || n == 133 || n == 160 || n == 5760 || 8192 <= n <= 8202 || n
                == 8232 || n == 8233 || n == 8239 || n == 8287 || n == 12288
        },
{
}

/// Law: trimming takes away white space at the ends, all of it, and nothing else.
pub proof fn trimming_takes_the_ends(text: Seq<char>)
    ensures
        exists|i: int, j: int|
            0 <= i <= j <= text.len() && trimmed(text) == #[trigger] text.subrange(i, j) && (
            forall|k: int| 0 <= k < i ==> is_white_space(#[trigger] text[k])) && (forall|k: int|
                j <= k < text.len() ==> is_white_space(#[trigger] text[k])) && (i < j
                ==> !is_white_space(text[i]) && !is_white_space(text[j - 1])),
{
    trimming_is_possible(text, text.len() as int);
    let r = trimmed(text);
    assert(is_trimmed(text, r));
    let (i, j) = choose|i: int, j: int| is_trimmed_at(text, r, i, j);
    assert(r == text.subrange(i, j));
}

/// Law: a text that has no white space at its ends stays as it is.
pub proof fn nothing_to_trim(text: Seq<char>)
    requires
        text.len() > 0 ==> !is_white_space(text[0]) && !is_white_space(text.last()),
    ensures
        trimmed(text) == text,
{
    assert(text.subrange(0, text.len() as int) =~= text);
    assert(is_trimmed_at(text, text, 0, text.len() as int));
    assert(is_trimmed(text, text));
    trimmed_is_unique(text, trimmed(text), text);
}

proof fn trimming_is_possible(text: Seq<char>, j: int)
    requires
        0 <= j <= text.len(),
        forall|k: int| j <= k < text.len() ==> is_white_space(#[trigger] text[k]),
    ensures
        exists|r: Seq<char>| is_trimmed(text, r),
    decreases j,
{
    if j > 0 && is_white_space(text[j - 1]) {
        trimming_is_possible(text, j - 1);
    } else {
        trimming_is_possible_from(text, 0, j);
    }
}

proof fn trimming_is_possible_from(text: Seq<char>, i: int, j: int)
    requires
        0 <= i <= j <= text.len(),
        j > 0 ==> !is_white_space(text[j - 1]),
        forall|k: int| 0 <= k < i ==> is_white_space(#[trigger] text[k]),
        forall|k: int| j <= k < text.len() ==> is_white_space(#[trigger] text[k]),
    ensures
        exists|r: Seq<char>| is_trimmed(text, r),
    decreases j - i,
{
    if i < j && is_white_space(text[i]) {
        trimming_is_possible_from(text, i + 1, j);
    } else {
        assert(is_trimmed_at(text, text.subrange(i, j), i, j));
        assert(is_trimmed(text, text.subrange(i, j)));
    }
}

// ---- letters ------------------------------------------------------------

/// Law: lowering a text moves each of the 26 capitals to its small letter and leaves every
/// other character where and what it is.
pub proof fn lowering_moves_capitals_only(text: Seq<char>, k: int)
    requires
        0 <= k < text.len(),
    ensures
        ascii_lowercase_of(text).len() == text.len(),
        65 <= text[k] as u32 <= 90 ==> ascii_lowercase_of(text)[k] as u32 == text[k] as u32 + 32,
        !(65 <= text[k] as u32 <= 90) ==> ascii_lowercase_of(text)[k] == text[k],
{
}

/// Law: raising a character moves each of the 26 small letters to its capital and leaves every
/// other character what it is. The digits and the letters of both cases count as alphanumeric.
pub proof fn raising_moves_small_letters_only(c: char)
    ensures
        97 <= c as u32 <= 122 ==> ascii_big(c) as u32 == c as u32 - 32,
        !(97 <= c as u32 <= 122) ==> ascii_big(c) == c,
        is_ascii_alnum(c) <==> 48 <= c as u32 <= 57 || 65 <= c as u32 <= 90 || 97 <= c as u32
            <= 122,
{
}

// ---- searching ----------------------------------------------------------

/// Law: a needle occurs in a text exactly if the text is something, the needle, and something.
pub proof fn an_occurrence_parts_the_text(needle: Seq<char>, text: Seq<char>)
    ensures
        occurs_in(needle, text) <==> exists|before: Seq<char>, after: Seq<char>|
            #![trigger before + needle + after]
            text == before + needle + after,
{
    if occurs_in(needle, text) {
        let i = choose|i: int|
            0 <= i <= text.len() - needle.len() && #[trigger] text.subrange(i, i + needle.len())
                == needle;
        let before = text.take(i);
        let after = text.skip(i + needle.len());
        let mid = text.subrange(i, i + needle.len());
        assert(text =~= before + mid + after);
    }
    if exists|before: Seq<char>, after: Seq<char>|
        #![trigger before + needle + after]
        text == before + needle + after {
        let (before, after) = choose|before: Seq<char>, after: Seq<char>|
            #![trigger before + needle + after]
            text == before + needle + after;
        let i = before.len() as int;
        assert(text.subrange(i, i + needle.len()) =~= needle);
    }
}

// ---- numbers ------------------------------------------------------------

/// What a row of decimal digits stands for.
pub open spec fn number_read(digits: Seq<char>) -> int
    decreases digits.len(),
{
    if digits.len() == 0 {
        0
    } else {
        10 * number_read(digits.drop_last()) + (digits.last() as u32 - 48)
    }
}

/// Law: a number written in decimal reads back as the number, is made of digits only, and has
/// no needless zero in front.
pub proof fn decimals_read_back(n: nat)
    ensures
        number_read(decimal_of(n)) == n,
        decimal_of(n).len() >= 1,
        forall|k: int|
            0 <= k < decimal_of(n).len() ==> 48 <= #[trigger] decimal_of(n)[k] as u32 <= 57,
        decimal_of(n).len() > 1 ==> decimal_of(n)[0] as u32 != 48,
        n > 0 ==> decimal_of(n)[0] as u32 != 48,
    decreases n,
{
    reveal_with_fuel(number_read, 2);
    let d = decimal_of(n);
    if n < 10 {
        assert(d.drop_last() =~= Seq::<char>::empty());
    } else {
        decimals_read_back(n / 10);
        assert(d.drop_last() =~= decimal_of(n / 10));
        assert(d[0] == decimal_of(n / 10)[0]);
    }
}

} // verus!
