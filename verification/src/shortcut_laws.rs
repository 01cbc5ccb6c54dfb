//! What reading a shortcut is for: the words before the key are the modifiers that have to be
//! held, and the last word is the key.
use crate::key_names::{kernel_name_of_alias, virtual_key_of_alias};
use crate::text::{
    ascii_big, ascii_lowercase_of, decimal_of, is_ascii_alnum, is_white_space, split_not_empty,
    split_of, trimmed,
};
use crate::text_laws::{a_separator_is_a_cut, nothing_to_trim, raising_moves_small_letters_only};
use crate::windows_hotkey::{accelerator_of, modifier_flag, modifier_flags, vk_of, Accelerator};
use crate::x11::{
    kernel_code_of, key_name_of, modifier_bit, modifier_bits, parsed_sequence, server_code_of,
    ModifierLayout,
};
use vstd::prelude::*;

verus! {

/// Is `word` among the first `n` parts, whatever the case of its letters and the blanks around
/// it?
pub open spec fn names_word(parts: Seq<Seq<char>>, n: int, word: Seq<char>) -> bool {
    exists|i: int| 0 <= i < n && ascii_lowercase_of(trimmed(#[trigger] parts[i])) == word
}

proof fn names_word_grows(parts: Seq<Seq<char>>, n: int, word: Seq<char>)
    requires
        0 <= n,
    ensures
        names_word(parts, n + 1, word) <==> names_word(parts, n, word) || ascii_lowercase_of(
            trimmed(parts[n]),
        ) == word,
{
    if names_word(parts, n + 1, word) {
        let i = choose|i: int|
            0 <= i < n + 1 && ascii_lowercase_of(trimmed(#[trigger] parts[i])) == word;
        if i < n {
            assert(names_word(parts, n, word));
        }
    }
    if names_word(parts, n, word) {
        let i = choose|i: int|
            0 <= i < n && ascii_lowercase_of(trimmed(#[trigger] parts[i])) == word;
        assert(names_word(parts, n + 1, word));
    }
    if ascii_lowercase_of(trimmed(parts[n])) == word {
        assert(names_word(parts, n + 1, word));
    }
}

/// The modifier words are seven different ones.
proof fn modifier_words_differ()
    ensures
        "ctrl"@ != "shift"@,
        "ctrl"@ != "alt"@,
        "ctrl"@ != "super"@,
        "ctrl"@ != "meta"@,
        "ctrl"@ != "win"@,
        "control"@ != "shift"@,
        "control"@ != "alt"@,
        "control"@ != "super"@,
        "control"@ != "meta"@,
        "control"@ != "win"@,
        "shift"@ != "alt"@,
        "shift"@ != "super"@,
        "shift"@ != "meta"@,
        "shift"@ != "win"@,
        "alt"@ != "super"@,
        "alt"@ != "meta"@,
        "alt"@ != "win"@,
{
    reveal_strlit("ctrl");
    reveal_strlit("control");
    reveal_strlit("shift");
    reveal_strlit("alt");
    reveal_strlit("super");
    reveal_strlit("meta");
    reveal_strlit("win");
    assert("ctrl"@[0] == 'c' && "control"@[0] == 'c' && "shift"@[0] == 's' && "alt"@[0] == 'a'
        && "super"@[0] == 's' && "meta"@[0] == 'm' && "win"@[0] == 'w');
    assert("shift"@[1] == 'h' && "super"@[1] == 'u');
}

// ---- Windows ------------------------------------------------------------

/// Law: the flag of a modifier word, in the numbers that `RegisterHotKey` takes.
pub proof fn flag_of_each_word(word: Seq<char>)
    ensures
        ({
            let lower = ascii_lowercase_of(word);
            &&& modifier_flag(word) == Some(1u32) <==> lower == "alt"@
            &&& modifier_flag(word) == Some(2u32) <==> lower == "ctrl"@ || lower == "control"@
            &&& modifier_flag(word) == Some(4u32) <==> lower == "shift"@
            &&& modifier_flag(word) == Some(8u32) <==> lower == "super"@ || lower == "meta"@
                || lower == "win"@
            &&& modifier_flag(word) is Some ==> {
                let flag = modifier_flag(word)->0;
                flag == 1 || flag == 2 || flag == 4 || flag == 8
            }
        }),
{
    modifier_words_differ();
}

proof fn bits_of_an_or(a: u32, b: u32)
    by (bit_vector)
    ensures
        (a | b) & 1 != 0 <==> a & 1 != 0 || b & 1 != 0,
        (a | b) & 2 != 0 <==> a & 2 != 0 || b & 2 != 0,
        (a | b) & 4 != 0 <==> a & 4 != 0 || b & 4 != 0,
        (a | b) & 8 != 0 <==> a & 8 != 0 || b & 8 != 0,
        (a | b) & 0xffff_fff0 == 0 <==> a & 0xffff_fff0 == 0 && b & 0xffff_fff0 == 0,
        a | b == 0 <==> a == 0 && b == 0,
{
}

proof fn bits_of_a_flag()
    by (bit_vector)
    ensures
        0u32 & 1 == 0 && 0u32 & 2 == 0 && 0u32 & 4 == 0 && 0u32 & 8 == 0 && 0u32 & 0xffff_fff0 == 0,
        1u32 & 1 == 1 && 1u32 & 2 == 0 && 1u32 & 4 == 0 && 1u32 & 8 == 0 && 1u32 & 0xffff_fff0 == 0,
        2u32 & 1 == 0 && 2u32 & 2 == 2 && 2u32 & 4 == 0 && 2u32 & 8 == 0 && 2u32 & 0xffff_fff0 == 0,
        4u32 & 1 == 0 && 4u32 & 2 == 0 && 4u32 & 4 == 4 && 4u32 & 8 == 0 && 4u32 & 0xffff_fff0 == 0,
        8u32 & 1 == 0 && 8u32 & 2 == 0 && 8u32 & 4 == 0 && 8u32 & 8 == 8 && 8u32 & 0xffff_fff0 == 0,
{
}

proof fn bits_with_norepeat(a: u32)
    by (bit_vector)
    ensures
        (a | 0x4000) & 1 != 0 <==> a & 1 != 0,
        (a | 0x4000) & 2 != 0 <==> a & 2 != 0,
        (a | 0x4000) & 4 != 0 <==> a & 4 != 0,
        (a | 0x4000) & 8 != 0 <==> a & 8 != 0,
        (a | 0x4000) & 0x4000 == 0x4000,
        a & 0xffff_fff0 == 0 ==> (a | 0x4000) & 0xffff_bff0 == 0,
{
}

proof fn flags_follow_the_words(parts: Seq<Seq<char>>, n: int)
    requires
        0 <= n,
    ensures
        modifier_flags(parts, n) is Some <==> forall|i: int|
            0 <= i < n ==> modifier_flag(trimmed(#[trigger] parts[i])) is Some,
        modifier_flags(parts, n) matches Some(flags) ==> {
            &&& flags & 1 != 0 <==> names_word(parts, n, "alt"@)
            &&& flags & 2 != 0 <==> names_word(parts, n, "ctrl"@) || names_word(
                parts,
                n,
                "control"@,
            )
            &&& flags & 4 != 0 <==> names_word(parts, n, "shift"@)
            &&& flags & 8 != 0 <==> names_word(parts, n, "super"@) || names_word(
                parts,
                n,
                "meta"@,
            ) || names_word(parts, n, "win"@)
            &&& flags & 0xffff_fff0 == 0
            &&& flags == 0 <==> n == 0
        },
    decreases n,
{
    bits_of_a_flag();
    if n > 0 {
        let m = n - 1;
        flags_follow_the_words(parts, m);
        let word = trimmed(parts[m]);
        flag_of_each_word(word);
        names_word_grows(parts, m, "alt"@);
        names_word_grows(parts, m, "ctrl"@);
        names_word_grows(parts, m, "control"@);
        names_word_grows(parts, m, "shift"@);
        names_word_grows(parts, m, "super"@);
        names_word_grows(parts, m, "meta"@);
        names_word_grows(parts, m, "win"@);
        if modifier_flags(parts, m) is Some && modifier_flag(word) is Some {
            bits_of_an_or(modifier_flags(parts, m)->0, modifier_flag(word)->0);
            modifier_words_differ();
            assert forall|i: int| 0 <= i < n implies modifier_flag(
                trimmed(#[trigger] parts[i]),
            ) is Some by {
                if i < m {
                    assert(modifier_flag(trimmed(parts[i])) is Some);
                }
            }
        } else {
            assert(modifier_flags(parts, n) is None);
            if modifier_flag(word) is Some {
                let i = choose|i: int|
                    0 <= i < m && !(modifier_flag(trimmed(#[trigger] parts[i])) is Some);
                assert(0 <= i < n && !(modifier_flag(trimmed(parts[i])) is Some));
            }
        }
    }
}

/// Law: a shortcut that is read asks for Alt exactly if one of the words before its key is
/// `alt`, for Control exactly if one is `ctrl` or `control`, for Shift exactly if one is
/// `shift`, and for the Windows key exactly if one is `super`, `meta` or `win`, in any case.
/// Besides that it asks not to be repeated, and for nothing else.
pub proof fn an_accelerator_holds_its_modifiers(seq: Seq<char>)
    requires
        accelerator_of(seq) is Some,
    ensures
        ({
            let parts = split_of(seq, '+');
            let n = parts.len() - 1;
            let m = (accelerator_of(seq)->0).modifiers;
            &&& m & 0x1 != 0 <==> names_word(parts, n, "alt"@)
            &&& m & 0x2 != 0 <==> names_word(parts, n, "ctrl"@) || names_word(parts, n, "control"@)
            &&& m & 0x4 != 0 <==> names_word(parts, n, "shift"@)
            &&& m & 0x8 != 0 <==> names_word(parts, n, "super"@) || names_word(parts, n, "meta"@)
                || names_word(parts, n, "win"@)
            &&& m & 0x4000 == 0x4000
            &&& m & 0xffff_bff0 == 0
        }),
{
    let parts = split_of(seq, '+');
    split_not_empty(seq, '+');
    let n = parts.len() - 1;
    flags_follow_the_words(parts, n);
    bits_with_norepeat(modifier_flags(parts, n)->0);
}

/// Law: a shortcut is read exactly if it has a word before its key, each of them is one of the
/// seven modifier words, and the key is known. The code is the key's.
pub proof fn what_is_an_accelerator(seq: Seq<char>)
    ensures
        ({
            let parts = split_of(seq, '+');
            let n = parts.len() - 1;
            let key = trimmed(parts.last());
            &&& accelerator_of(seq) is Some <==> {
                &&& n >= 1
                &&& vk_of(key) is Some
                &&& forall|i: int|
                    0 <= i < n ==> {
                        let lower = ascii_lowercase_of(trimmed(#[trigger] parts[i]));
                        lower == "ctrl"@ || lower == "control"@ || lower == "shift"@ || lower
                            == "alt"@ || lower == "super"@ || lower == "meta"@ || lower == "win"@
                    }
            }
            &&& accelerator_of(seq) is Some ==> vk_of(key) == Some((accelerator_of(seq)->0).vk)
        }),
{
    let parts = split_of(seq, '+');
    split_not_empty(seq, '+');
    let n = parts.len() - 1;
    flags_follow_the_words(parts, n);
    assert forall|i: int| 0 <= i < n implies (modifier_flag(trimmed(#[trigger] parts[i])) is Some
        <==> {
        let lower = ascii_lowercase_of(trimmed(parts[i]));
        lower == "ctrl"@ || lower == "control"@ || lower == "shift"@ || lower == "alt"@ || lower
            == "super"@ || lower == "meta"@ || lower == "win"@
    }) by {
        flag_of_each_word(trimmed(parts[i]));
    }
}

/// Law: two modifier words and a key, with a plus sign between them, are read as these two
/// modifiers and this key, in whatever case they are typed.
pub proof fn two_words_and_a_key(one: Seq<char>, two: Seq<char>, key: Seq<char>)
    requires
        one.len() > 0 && two.len() > 0 && key.len() > 0,
        forall|i: int|
            0 <= i < one.len() ==> (#[trigger] one[i]) != '+' && !is_white_space(one[i]),
        forall|i: int|
            0 <= i < two.len() ==> (#[trigger] two[i]) != '+' && !is_white_space(two[i]),
        forall|i: int|
            0 <= i < key.len() ==> (#[trigger] key[i]) != '+' && !is_white_space(key[i]),
    ensures
        accelerator_of(one.push('+') + two.push('+') + key) == (match (
            modifier_flag(one),
            modifier_flag(two),
            vk_of(key),
        ) {
            (Some(a), Some(b), Some(vk)) => Some(Accelerator { modifiers: a | b | 0x4000, vk }),
            _ => None,
        }),
{
    let seq = one.push('+') + two.push('+') + key;
    let tail = two.push('+') + key;
    a_separator_is_a_cut(two, key, '+');
    a_separator_is_a_cut(key, two, '+');
    a_separator_is_a_cut(key, one, '+');
    a_separator_is_a_cut(one, tail, '+');
    assert(one.push('+') + tail =~= seq);
    let parts = split_of(seq, '+');
    assert(parts =~= seq![one, two, key]);
    nothing_to_trim(one);
    nothing_to_trim(two);
    nothing_to_trim(key);
    reveal_with_fuel(modifier_flags, 3);
    flags_follow_the_words(parts, 2);
    if modifier_flag(one) is Some && modifier_flag(two) is Some {
        or_with_nothing(modifier_flag(one)->0);
    }
}

proof fn or_with_nothing(a: u32)
    by (bit_vector)
    ensures
        0u32 | a == a,
        2u32 | 1 | 0x4000 == 0x4003,
{
}

/// The default shortcut of the selection dialog.
pub proof fn the_default_shortcut()
    ensures
        accelerator_of("Ctrl+Alt+V"@) == Some(Accelerator { modifiers: 0x4003, vk: 0x56 }),
{
    reveal_strlit("Ctrl+Alt+V");
    reveal_strlit("Ctrl");
    reveal_strlit("Alt");
    reveal_strlit("V");
    reveal_strlit("ctrl");
    reveal_strlit("alt");
    let one = "Ctrl"@;
    let two = "Alt"@;
    let key = "V"@;
    assert("Ctrl+Alt+V"@ =~= one.push('+') + two.push('+') + key);
    two_words_and_a_key(one, two, key);
    assert(ascii_lowercase_of(one) =~= "ctrl"@);
    assert(ascii_lowercase_of(two) =~= "alt"@);
    flag_of_each_word(one);
    flag_of_each_word(two);
    letters_and_function_keys(key, 0);
    or_with_nothing(0);
}

/// Law: a letter or digit has the code of its capital, whichever case it is typed in; the
/// twelve function keys have the codes from 0x70 on.
pub proof fn letters_and_function_keys(key: Seq<char>, n: nat)
    ensures
        key.len() == 1 && (65 <= key[0] as u32 <= 90 || 48 <= key[0] as u32 <= 57) ==> vk_of(key)
            == Some(key[0] as u32) && key_name_of(key) == Some("KEY_"@.push(key[0])),
        key.len() == 1 && 97 <= key[0] as u32 <= 122 ==> vk_of(key) == Some(
            (key[0] as u32 - 32) as u32,
        ) && key_name_of(key) == Some("KEY_"@.push((key[0] as u32 - 32) as char)),
        1 <= n <= 12 ==> virtual_key_of_alias("f"@ + decimal_of(n)) == Some((0x6f + n) as u32)
            && kernel_name_of_alias("f"@ + decimal_of(n)) == Some("KEY_F"@ + decimal_of(n)),
{
    raising_moves_small_letters_only(key[0]);
    if key.len() == 1 && is_ascii_alnum(key[0]) {
        signs_are_no_letters(ascii_lowercase_of(key));
        assert(virtual_key_of_alias(ascii_lowercase_of(key)) is None);
        assert(is_ascii_alnum(ascii_big(key[0])));
        assert(vk_of(key) == Some(ascii_big(key[0]) as u32));
        assert(key_name_of(key) == Some("KEY_"@.push(ascii_big(key[0]))));
    }
    if 1 <= n <= 12 {
        function_key_names(n);
    }
}

/// Law: a key is first looked up by its name, in whatever case it is typed, on both platforms;
/// one that is no name is known only if it is a single letter or digit.
pub proof fn keys_are_found_by_name(key: Seq<char>)
    ensures
        ({
            let lower = ascii_lowercase_of(key);
            let single = key.len() == 1 && is_ascii_alnum(key[0]);
            &&& virtual_key_of_alias(lower) is Some ==> vk_of(key) == virtual_key_of_alias(lower)
            &&& kernel_name_of_alias(lower) is Some ==> key_name_of(key) == kernel_name_of_alias(
                lower,
            )
            &&& virtual_key_of_alias(lower) is None && !single ==> vk_of(key) is None
            &&& kernel_name_of_alias(lower) is None && !single ==> key_name_of(key) is None
        }),
{
    if key.len() == 1 {
        raising_moves_small_letters_only(key[0]);
        raising_moves_small_letters_only(ascii_big(key[0]));
    }
}

/// A text of one letter or digit is no word of the tables.
proof fn signs_are_no_letters(one: Seq<char>)
    requires
        one.len() == 1,
        is_ascii_alnum(one[0]),
    ensures
        kernel_name_of_alias(one) is None,
        virtual_key_of_alias(one) is None,
{
    long_words();
    reveal_strlit("-");
    reveal_strlit("=");
    reveal_strlit(",");
    reveal_strlit(".");
    reveal_strlit("/");
    reveal_strlit(";");
    reveal_strlit("`");
    reveal_strlit("[");
    reveal_strlit("]");
    assert("-"@[0] == '-' && "="@[0] == '=' && ","@[0] == ',' && "."@[0] == '.' && "/"@[0] == '/'
        && ";"@[0] == ';' && "`"@[0] == '`' && "["@[0] == '[' && "]"@[0] == ']');
}

/// The words of the tables have more than one character.
proof fn long_words()
    ensures
        "f1"@.len() > 1 && "f2"@.len() > 1 && "f3"@.len() > 1 && "f4"@.len() > 1,
        "f5"@.len() > 1 && "f6"@.len() > 1 && "f7"@.len() > 1 && "f8"@.len() > 1,
        "f9"@.len() > 1 && "f10"@.len() > 1 && "f11"@.len() > 1 && "f12"@.len() > 1,
        "space"@.len() > 1 && "tab"@.len() > 1 && "esc"@.len() > 1 && "escape"@.len() > 1,
        "enter"@.len() > 1 && "return"@.len() > 1 && "backspace"@.len() > 1,
        "insert"@.len() > 1 && "delete"@.len() > 1 && "home"@.len() > 1 && "end"@.len() > 1,
        "pageup"@.len() > 1 && "pagedown"@.len() > 1 && "up"@.len() > 1 && "down"@.len() > 1,
        "left"@.len() > 1 && "right"@.len() > 1 && "minus"@.len() > 1 && "equal"@.len() > 1,
        "comma"@.len() > 1 && "period"@.len() > 1 && "slash"@.len() > 1,
        "semicolon"@.len() > 1 && "apostrophe"@.len() > 1 && "grave"@.len() > 1,
        "backslash"@.len() > 1 && "leftbracket"@.len() > 1 && "rightbracket"@.len() > 1,
{
    reveal_strlit("f1");
    reveal_strlit("f2");
    reveal_strlit("f3");
    reveal_strlit("f4");
    reveal_strlit("f5");
    reveal_strlit("f6");
    reveal_strlit("f7");
    reveal_strlit("f8");
    reveal_strlit("f9");
    reveal_strlit("f10");
    reveal_strlit("f11");
    reveal_strlit("f12");
    reveal_strlit("space");
    reveal_strlit("tab");
    reveal_strlit("esc");
    reveal_strlit("escape");
    reveal_strlit("enter");
    reveal_strlit("return");
    reveal_strlit("backspace");
    reveal_strlit("insert");
    reveal_strlit("delete");
    reveal_strlit("home");
    reveal_strlit("end");
    reveal_strlit("pageup");
    reveal_strlit("pagedown");
    reveal_strlit("up");
    reveal_strlit("down");
    reveal_strlit("left");
    reveal_strlit("right");
    reveal_strlit("minus");
    reveal_strlit("equal");
    reveal_strlit("comma");
    reveal_strlit("period");
    reveal_strlit("slash");
    reveal_strlit("semicolon");
    reveal_strlit("apostrophe");
    reveal_strlit("grave");
    reveal_strlit("backslash");
    reveal_strlit("leftbracket");
    reveal_strlit("rightbracket");
}

proof fn function_key_names(n: nat)
    requires
        1 <= n <= 12,
    ensures
        virtual_key_of_alias("f"@ + decimal_of(n)) == Some((0x6f + n) as u32),
        kernel_name_of_alias("f"@ + decimal_of(n)) == Some("KEY_F"@ + decimal_of(n)),
{
    reveal_with_fuel(decimal_of, 3);
    reveal_strlit("f");
    reveal_strlit("KEY_F");
    reveal_strlit("f1");
    reveal_strlit("f2");
    reveal_strlit("f3");
    reveal_strlit("f4");
    reveal_strlit("f5");
    reveal_strlit("f6");
    reveal_strlit("f7");
    reveal_strlit("f8");
    reveal_strlit("f9");
    reveal_strlit("f10");
    reveal_strlit("f11");
    reveal_strlit("f12");
    reveal_strlit("KEY_F1");
    reveal_strlit("KEY_F2");
    reveal_strlit("KEY_F3");
    reveal_strlit("KEY_F4");
    reveal_strlit("KEY_F5");
    reveal_strlit("KEY_F6");
    reveal_strlit("KEY_F7");
    reveal_strlit("KEY_F8");
    reveal_strlit("KEY_F9");
    reveal_strlit("KEY_F10");
    reveal_strlit("KEY_F11");
    reveal_strlit("KEY_F12");
    let name = "f"@ + decimal_of(n);
    let kernel = "KEY_F"@ + decimal_of(n);
    assert("f1"@[1] == '1' && "f2"@[1] == '2' && "f3"@[1] == '3' && "f4"@[1] == '4' && "f5"@[1]
        == '5' && "f6"@[1] == '6' && "f7"@[1] == '7' && "f8"@[1] == '8' && "f9"@[1] == '9');
    assert("f10"@[2] == '0' && "f11"@[2] == '1' && "f12"@[2] == '2');
    if n == 1 {
        assert(name =~= "f1"@ && kernel =~= "KEY_F1"@);
    } else if n == 2 {
        assert(name =~= "f2"@ && kernel =~= "KEY_F2"@);
    } else if n == 3 {
        assert(name =~= "f3"@ && kernel =~= "KEY_F3"@);
    } else if n == 4 {
        assert(name =~= "f4"@ && kernel =~= "KEY_F4"@);
    } else if n == 5 {
        assert(name =~= "f5"@ && kernel =~= "KEY_F5"@);
    } else if n == 6 {
        assert(name =~= "f6"@ && kernel =~= "KEY_F6"@);
    } else if n == 7 {
        assert(name =~= "f7"@ && kernel =~= "KEY_F7"@);
    } else if n == 8 {
        assert(name =~= "f8"@ && kernel =~= "KEY_F8"@);
    } else if n == 9 {
        assert(name =~= "f9"@ && kernel =~= "KEY_F9"@);
    } else if n == 10 {
        assert(name =~= "f10"@ && kernel =~= "KEY_F10"@);
    } else if n == 11 {
        assert(name =~= "f11"@ && kernel =~= "KEY_F11"@);
    } else {
        assert(name =~= "f12"@ && kernel =~= "KEY_F12"@);
    }
}

/// A number by which the kernel's names are told apart.
spec fn mark(name: Seq<char>) -> int {
    name.len() + 1000 * (name[4] as int) + 1000000 * (name[5] as int) + 1000000000 * (
    name.last() as int)
}

proof fn kernel_names_differ()
    ensures
        mark("KEY_F1"@) == 49049070006,
        mark("KEY_F2"@) == 50050070006,
        mark("KEY_F3"@) == 51051070006,
        mark("KEY_F4"@) == 52052070006,
        mark("KEY_F5"@) == 53053070006,
        mark("KEY_F6"@) == 54054070006,
        mark("KEY_F7"@) == 55055070006,
        mark("KEY_F8"@) == 56056070006,
        mark("KEY_F9"@) == 57057070006,
        mark("KEY_F10"@) == 48049070007,
        mark("KEY_F11"@) == 49049070007,
        mark("KEY_F12"@) == 50049070007,
        mark("KEY_SPACE"@) == 69080083009,
        mark("KEY_TAB"@) == 66065084007,
        mark("KEY_ESC"@) == 67083069007,
        mark("KEY_ENTER"@) == 82078069009,
        mark("KEY_BACKSPACE"@) == 69065066013,
        mark("KEY_INSERT"@) == 84078073010,
        mark("KEY_DELETE"@) == 69069068010,
        mark("KEY_HOME"@) == 69079072008,
        mark("KEY_END"@) == 68078069007,
        mark("KEY_PAGEUP"@) == 80065080010,
        mark("KEY_PAGEDOWN"@) == 78065080012,
        mark("KEY_UP"@) == 80080085006,
        mark("KEY_DOWN"@) == 78079068008,
        mark("KEY_LEFT"@) == 84069076008,
        mark("KEY_RIGHT"@) == 84073082009,
        mark("KEY_MINUS"@) == 83073077009,
        mark("KEY_EQUAL"@) == 76081069009,
        mark("KEY_COMMA"@) == 65079067009,
        mark("KEY_DOT"@) == 84079068007,
        mark("KEY_SLASH"@) == 72076083009,
        mark("KEY_SEMICOLON"@) == 78069083013,
        mark("KEY_APOSTROPHE"@) == 69080065014,
        mark("KEY_GRAVE"@) == 69082071009,
        mark("KEY_BACKSLASH"@) == 72065066013,
        mark("KEY_LEFTBRACE"@) == 69069076013,
        mark("KEY_RIGHTBRACE"@) == 69073082014,
{
    reveal_strlit("KEY_F1");
    reveal_strlit("KEY_F2");
    reveal_strlit("KEY_F3");
    reveal_strlit("KEY_F4");
    reveal_strlit("KEY_F5");
    reveal_strlit("KEY_F6");
    reveal_strlit("KEY_F7");
    reveal_strlit("KEY_F8");
    reveal_strlit("KEY_F9");
    reveal_strlit("KEY_F10");
    reveal_strlit("KEY_F11");
    reveal_strlit("KEY_F12");
    reveal_strlit("KEY_SPACE");
    reveal_strlit("KEY_TAB");
    reveal_strlit("KEY_ESC");
    reveal_strlit("KEY_ENTER");
    reveal_strlit("KEY_BACKSPACE");
    reveal_strlit("KEY_INSERT");
    reveal_strlit("KEY_DELETE");
    reveal_strlit("KEY_HOME");
    reveal_strlit("KEY_END");
    reveal_strlit("KEY_PAGEUP");
    reveal_strlit("KEY_PAGEDOWN");
    reveal_strlit("KEY_UP");
    reveal_strlit("KEY_DOWN");
    reveal_strlit("KEY_LEFT");
    reveal_strlit("KEY_RIGHT");
    reveal_strlit("KEY_MINUS");
    reveal_strlit("KEY_EQUAL");
    reveal_strlit("KEY_COMMA");
    reveal_strlit("KEY_DOT");
    reveal_strlit("KEY_SLASH");
    reveal_strlit("KEY_SEMICOLON");
    reveal_strlit("KEY_APOSTROPHE");
    reveal_strlit("KEY_GRAVE");
    reveal_strlit("KEY_BACKSLASH");
    reveal_strlit("KEY_LEFTBRACE");
    reveal_strlit("KEY_RIGHTBRACE");
}

/// Law: a word or sign stands for the same key on both platforms. The codes are those that
/// Windows gives to the keys that the kernel has under these names.
pub proof fn a_word_names_one_key(alias: Seq<char>)
    ensures
        ({
            let name = kernel_name_of_alias(alias);
            let vk = virtual_key_of_alias(alias);
            &&& name is Some <==> vk is Some
            &&& name == Some("KEY_BACKSPACE"@) ==> vk == Some(0x08u32)
            &&& name == Some("KEY_TAB"@) ==> vk == Some(0x09u32)
            &&& name == Some("KEY_ENTER"@) ==> vk == Some(0x0du32)
            &&& name == Some("KEY_ESC"@) ==> vk == Some(0x1bu32)
            &&& name == Some("KEY_SPACE"@) ==> vk == Some(0x20u32)
            &&& name == Some("KEY_PAGEUP"@) ==> vk == Some(0x21u32)
            &&& name == Some("KEY_PAGEDOWN"@) ==> vk == Some(0x22u32)
            &&& name == Some("KEY_END"@) ==> vk == Some(0x23u32)
            &&& name == Some("KEY_HOME"@) ==> vk == Some(0x24u32)
            &&& name == Some("KEY_LEFT"@) ==> vk == Some(0x25u32)
            &&& name == Some("KEY_UP"@) ==> vk == Some(0x26u32)
            &&& name == Some("KEY_RIGHT"@) ==> vk == Some(0x27u32)
            &&& name == Some("KEY_DOWN"@) ==> vk == Some(0x28u32)
            &&& name == Some("KEY_INSERT"@) ==> vk == Some(0x2du32)
            &&& name == Some("KEY_DELETE"@) ==> vk == Some(0x2eu32)
            &&& name == Some("KEY_SEMICOLON"@) ==> vk == Some(0xbau32)
            &&& name == Some("KEY_EQUAL"@) ==> vk == Some(0xbbu32)
            &&& name == Some("KEY_COMMA"@) ==> vk == Some(0xbcu32)
            &&& name == Some("KEY_MINUS"@) ==> vk == Some(0xbdu32)
            &&& name == Some("KEY_DOT"@) ==> vk == Some(0xbeu32)
            &&& name == Some("KEY_SLASH"@) ==> vk == Some(0xbfu32)
            &&& name == Some("KEY_GRAVE"@) ==> vk == Some(0xc0u32)
            &&& name == Some("KEY_LEFTBRACE"@) ==> vk == Some(0xdbu32)
            &&& name == Some("KEY_BACKSLASH"@) ==> vk == Some(0xdcu32)
            &&& name == Some("KEY_RIGHTBRACE"@) ==> vk == Some(0xddu32)
            &&& name == Some("KEY_APOSTROPHE"@) ==> vk == Some(0xdeu32)
        }),
{
    kernel_names_differ();
}

// ---- X11 ----------------------------------------------------------------

/// Law: the bit of a modifier word. Control and Shift have the bits that the protocol gives
/// them; Alt and Super have those of the layout.
pub proof fn bit_of_each_word(word: Seq<char>, layout: ModifierLayout)
    ensures
        ({
            let lower = ascii_lowercase_of(word);
            &&& lower == "ctrl"@ || lower == "control"@ ==> modifier_bit(word, layout) == Some(4u16)
            &&& lower == "shift"@ ==> modifier_bit(word, layout) == Some(1u16)
            &&& lower == "alt"@ ==> modifier_bit(word, layout) == Some(layout.alt_mod)
            &&& lower == "super"@ || lower == "meta"@ ==> modifier_bit(word, layout) == Some(
                layout.super_mod,
            )
            &&& modifier_bit(word, layout) is Some <==> lower == "ctrl"@ || lower == "control"@
                || lower == "shift"@ || lower == "alt"@ || lower == "super"@ || lower == "meta"@
        }),
{
    modifier_words_differ();
}

/// The bits of the modifiers that are asked for.
pub open spec fn bits_asked_for(
    control: bool,
    shift: bool,
    alt: bool,
    windows: bool,
    layout: ModifierLayout,
) -> u16 {
    (if control {
        4u16
    } else {
        0
    }) | (if shift {
        1u16
    } else {
        0
    }) | (if alt {
        layout.alt_mod
    } else {
        0
    }) | (if windows {
        layout.super_mod
    } else {
        0
    })
}

proof fn one_more_bit(c: u16, s: u16, a: u16, w: u16)
    by (bit_vector)
    ensures
        c | s | a | w | 4 == 4 | s | a | w || (c != 0 && c != 4),
        c | s | a | w | 1 == c | 1 | a | w || (s != 0 && s != 1),
        c | s | 0 | w | a == c | s | a | w,
        c | s | a | w | a == c | s | a | w,
        c | s | a | 0 | w == c | s | a | w,
        c | s | a | w | w == c | s | a | w,
        0u16 | 0 | 0 | 0 == 0,
{
}

proof fn bits_follow_the_words(parts: Seq<Seq<char>>, n: int, layout: ModifierLayout)
    requires
        0 <= n,
    ensures
        modifier_bits(parts, n, layout) is Some <==> forall|i: int|
            0 <= i < n ==> modifier_bit(trimmed(#[trigger] parts[i]), layout) is Some,
        modifier_bits(parts, n, layout) matches Some(bits) ==> bits == bits_asked_for(
            names_word(parts, n, "ctrl"@) || names_word(parts, n, "control"@),
            names_word(parts, n, "shift"@),
            names_word(parts, n, "alt"@),
            names_word(parts, n, "super"@) || names_word(parts, n, "meta"@),
            layout,
        ),
    decreases n,
{
    one_more_bit(0, 0, 0, 0);
    if n > 0 {
        let m = n - 1;
        bits_follow_the_words(parts, m, layout);
        let word = trimmed(parts[m]);
        bit_of_each_word(word, layout);
        modifier_words_differ();
        names_word_grows(parts, m, "alt"@);
        names_word_grows(parts, m, "ctrl"@);
        names_word_grows(parts, m, "control"@);
        names_word_grows(parts, m, "shift"@);
        names_word_grows(parts, m, "super"@);
        names_word_grows(parts, m, "meta"@);
        if modifier_bits(parts, m, layout) is Some && modifier_bit(word, layout) is Some {
            let control = names_word(parts, m, "ctrl"@) || names_word(parts, m, "control"@);
            let c: u16 = if control {
                4
            } else {
                0
            };
            let s: u16 = if names_word(parts, m, "shift"@) {
                1
            } else {
                0
            };
            let a: u16 = if names_word(parts, m, "alt"@) {
                layout.alt_mod
            } else {
                0
            };
            let w: u16 = if names_word(parts, m, "super"@) || names_word(parts, m, "meta"@) {
                layout.super_mod
            } else {
                0
            };
            one_more_bit(c, s, a, w);
            one_more_bit(c, s, layout.alt_mod, w);
            one_more_bit(c, s, a, layout.super_mod);
            assert forall|i: int| 0 <= i < n implies modifier_bit(
                trimmed(#[trigger] parts[i]),
                layout,
            ) is Some by {
                if i < m {
                    assert(modifier_bit(trimmed(parts[i]), layout) is Some);
                }
            }
        } else {
            assert(modifier_bits(parts, n, layout) is None);
            if modifier_bit(word, layout) is Some {
                let i = choose|i: int|
                    0 <= i < m && !(modifier_bit(trimmed(#[trigger] parts[i]), layout) is Some);
                assert(0 <= i < n && !(modifier_bit(trimmed(parts[i]), layout) is Some));
            }
        }
    }
}

/// Law: a shortcut that is read on X11 asks for just the modifiers that are named before its
/// key, by the bits of the layout, and its code is eight more than the kernel's.
pub proof fn a_parsed_shortcut_holds_its_modifiers(seq: Seq<char>, layout: ModifierLayout)
    requires
        parsed_sequence(seq, layout) is Some,
    ensures
        ({
            let parts = split_of(seq, '+');
            let n = parts.len() - 1;
            let (keycode, mods) = parsed_sequence(seq, layout)->0;
            &&& n >= 1
            &&& mods == bits_asked_for(
                names_word(parts, n, "ctrl"@) || names_word(parts, n, "control"@),
                names_word(parts, n, "shift"@),
                names_word(parts, n, "alt"@),
                names_word(parts, n, "super"@) || names_word(parts, n, "meta"@),
                layout,
            )
            &&& mods != 0
            &&& key_name_of(trimmed(parts.last())) is Some
            &&& kernel_code_of(key_name_of(trimmed(parts.last()))->0) == Some(
                (keycode - 8) as u16,
            )
            &&& keycode >= 8
        }),
{
    let parts = split_of(seq, '+');
    split_not_empty(seq, '+');
    bits_follow_the_words(parts, parts.len() - 1, layout);
}

/// Law: a shortcut is read on X11 exactly if every word before its key is a modifier, one of
/// them has a bit, and the key is known and has a code that the server can name.
pub proof fn what_is_a_shortcut(seq: Seq<char>, layout: ModifierLayout)
    ensures
        ({
            let parts = split_of(seq, '+');
            let n = parts.len() - 1;
            let name = key_name_of(trimmed(parts.last()));
            parsed_sequence(seq, layout) is Some <==> {
                &&& forall|i: int|
                    0 <= i < n ==> {
                        let lower = ascii_lowercase_of(trimmed(#[trigger] parts[i]));
                        lower == "ctrl"@ || lower == "control"@ || lower == "shift"@ || lower
                            == "alt"@ || lower == "super"@ || lower == "meta"@
                    }
                &&& bits_asked_for(
                    names_word(parts, n, "ctrl"@) || names_word(parts, n, "control"@),
                    names_word(parts, n, "shift"@),
                    names_word(parts, n, "alt"@),
                    names_word(parts, n, "super"@) || names_word(parts, n, "meta"@),
                    layout,
                ) != 0
                &&& name is Some
                &&& kernel_code_of(name->0) is Some
                &&& kernel_code_of(name->0)->0 <= 247
            }
        }),
{
    let parts = split_of(seq, '+');
    split_not_empty(seq, '+');
    let n = parts.len() - 1;
    bits_follow_the_words(parts, n, layout);
    assert forall|i: int| 0 <= i < n implies (modifier_bit(
        trimmed(#[trigger] parts[i]),
        layout,
    ) is Some <==> {
        let lower = ascii_lowercase_of(trimmed(parts[i]));
        lower == "ctrl"@ || lower == "control"@ || lower == "shift"@ || lower == "alt"@ || lower
            == "super"@ || lower == "meta"@
    }) by {
        bit_of_each_word(trimmed(parts[i]), layout);
    }
}

/// Law: the display server's code of a key is the kernel's and eight, as far as that takes one
/// byte.
pub proof fn server_codes_are_eight_more(code: u16)
    ensures
        code + 8 <= 255 ==> server_code_of(code) == Some((code + 8) as u8),
        code + 8 > 255 ==> server_code_of(code) is None,
{
}

} // verus!
