//! Key names in a shortcut, and what they stand for on each platform.
use crate::text::same_text;
use vstd::prelude::*;

verus! {

/// The kernel's name for a key that a shortcut names by a word or a sign.
pub open spec fn kernel_name_of_alias(alias: Seq<char>) -> Option<Seq<char>> {
    if alias == "f1"@ {
        Some("KEY_F1"@)
    } else if alias == "f2"@ {
        Some("KEY_F2"@)
    } else if alias == "f3"@ {
        Some("KEY_F3"@)
    } else if alias == "f4"@ {
        Some("KEY_F4"@)
    } else if alias == "f5"@ {
        Some("KEY_F5"@)
    } else if alias == "f6"@ {
        Some("KEY_F6"@)
    } else if alias == "f7"@ {
        Some("KEY_F7"@)
    } else if alias == "f8"@ {
        Some("KEY_F8"@)
    } else if alias == "f9"@ {
        Some("KEY_F9"@)
    } else if alias == "f10"@ {
        Some("KEY_F10"@)
    } else if alias == "f11"@ {
        Some("KEY_F11"@)
    } else if alias == "f12"@ {
        Some("KEY_F12"@)
    } else if alias == "space"@ {
        Some("KEY_SPACE"@)
    } else if alias == "tab"@ {
        Some("KEY_TAB"@)
    } else if alias == "esc"@ {
        Some("KEY_ESC"@)
    } else if alias == "escape"@ {
        Some("KEY_ESC"@)
    } else if alias == "enter"@ {
        Some("KEY_ENTER"@)
    } else if alias == "return"@ {
        Some("KEY_ENTER"@)
    } else if alias == "backspace"@ {
        Some("KEY_BACKSPACE"@)
    } else if alias == "insert"@ {
        Some("KEY_INSERT"@)
    } else if alias == "delete"@ {
        Some("KEY_DELETE"@)
    } else if alias == "home"@ {
        Some("KEY_HOME"@)
    } else if alias == "end"@ {
        Some("KEY_END"@)
    } else if alias == "pageup"@ {
        Some("KEY_PAGEUP"@)
    } else if alias == "pagedown"@ {
        Some("KEY_PAGEDOWN"@)
    } else if alias == "up"@ {
        Some("KEY_UP"@)
    } else if alias == "down"@ {
        Some("KEY_DOWN"@)
    } else if alias == "left"@ {
        Some("KEY_LEFT"@)
    } else if alias == "right"@ {
        Some("KEY_RIGHT"@)
    } else if alias == "minus"@ {
        Some("KEY_MINUS"@)
    } else if alias == "-"@ {
        Some("KEY_MINUS"@)
    } else if alias == "equal"@ {
        Some("KEY_EQUAL"@)
    } else if alias == "="@ {
        Some("KEY_EQUAL"@)
    } else if alias == "comma"@ {
        Some("KEY_COMMA"@)
    } else if alias == ","@ {
        Some("KEY_COMMA"@)
    } else if alias == "period"@ {
        Some("KEY_DOT"@)
    } else if alias == "."@ {
        Some("KEY_DOT"@)
    } else if alias == "slash"@ {
        Some("KEY_SLASH"@)
    } else if alias == "/"@ {
        Some("KEY_SLASH"@)
    } else if alias == "semicolon"@ {
        Some("KEY_SEMICOLON"@)
    } else if alias == ";"@ {
        Some("KEY_SEMICOLON"@)
    } else if alias == "apostrophe"@ {
        Some("KEY_APOSTROPHE"@)
    } else if alias == "grave"@ {
        Some("KEY_GRAVE"@)
    } else if alias == "`"@ {
        Some("KEY_GRAVE"@)
    } else if alias == "backslash"@ {
        Some("KEY_BACKSLASH"@)
    } else if alias == "leftbracket"@ {
        Some("KEY_LEFTBRACE"@)
    } else if alias == "["@ {
        Some("KEY_LEFTBRACE"@)
    } else if alias == "rightbracket"@ {
        Some("KEY_RIGHTBRACE"@)
    } else if alias == "]"@ {
        Some("KEY_RIGHTBRACE"@)
    } else {
        None
    }
}

/// The kernel's name for a key that a shortcut names by a word or a sign.
pub fn kernel_name(alias: &str) -> (r: Option<&'static str>)
    ensures
        match r {
            Some(name) => kernel_name_of_alias(alias@) == Some(name@),
            None => kernel_name_of_alias(alias@) is None,
        },
{
    if same_text(alias, "f1") {
        Some("KEY_F1")
    } else if same_text(alias, "f2") {
        Some("KEY_F2")
    } else if same_text(alias, "f3") {
        Some("KEY_F3")
    } else if same_text(alias, "f4") {
        Some("KEY_F4")
    } else if same_text(alias, "f5") {
        Some("KEY_F5")
    } else if same_text(alias, "f6") {
        Some("KEY_F6")
    } else if same_text(alias, "f7") {
        Some("KEY_F7")
    } else if same_text(alias, "f8") {
        Some("KEY_F8")
    } else if same_text(alias, "f9") {
        Some("KEY_F9")
    } else if same_text(alias, "f10") {
        Some("KEY_F10")
    } else if same_text(alias, "f11") {
        Some("KEY_F11")
    } else if same_text(alias, "f12") {
        Some("KEY_F12")
    } else if same_text(alias, "space") {
        Some("KEY_SPACE")
    } else if same_text(alias, "tab") {
        Some("KEY_TAB")
    } else if same_text(alias, "esc") {
        Some("KEY_ESC")
    } else if same_text(alias, "escape") {
        Some("KEY_ESC")
    } else if same_text(alias, "enter") {
        Some("KEY_ENTER")
    } else if same_text(alias, "return") {
        Some("KEY_ENTER")
    } else if same_text(alias, "backspace") {
        Some("KEY_BACKSPACE")
    } else if same_text(alias, "insert") {
        Some("KEY_INSERT")
    } else if same_text(alias, "delete") {
        Some("KEY_DELETE")
    } else if same_text(alias, "home") {
        Some("KEY_HOME")
    } else if same_text(alias, "end") {
        Some("KEY_END")
    } else if same_text(alias, "pageup") {
        Some("KEY_PAGEUP")
    } else if same_text(alias, "pagedown") {
        Some("KEY_PAGEDOWN")
    } else if same_text(alias, "up") {
        Some("KEY_UP")
    } else if same_text(alias, "down") {
        Some("KEY_DOWN")
    } else if same_text(alias, "left") {
        Some("KEY_LEFT")
    } else if same_text(alias, "right") {
        Some("KEY_RIGHT")
    } else if same_text(alias, "minus") {
        Some("KEY_MINUS")
    } else if same_text(alias, "-") {
        Some("KEY_MINUS")
    } else if same_text(alias, "equal") {
        Some("KEY_EQUAL")
    } else if same_text(alias, "=") {
        Some("KEY_EQUAL")
    } else if same_text(alias, "comma") {
        Some("KEY_COMMA")
    } else if same_text(alias, ",") {
        Some("KEY_COMMA")
    } else if same_text(alias, "period") {
        Some("KEY_DOT")
    } else if same_text(alias, ".") {
        Some("KEY_DOT")
    } else if same_text(alias, "slash") {
        Some("KEY_SLASH")
    } else if same_text(alias, "/") {
        Some("KEY_SLASH")
    } else if same_text(alias, "semicolon") {
        Some("KEY_SEMICOLON")
    } else if same_text(alias, ";") {
        Some("KEY_SEMICOLON")
    } else if same_text(alias, "apostrophe") {
        Some("KEY_APOSTROPHE")
    } else if same_text(alias, "grave") {
        Some("KEY_GRAVE")
    } else if same_text(alias, "`") {
        Some("KEY_GRAVE")
    } else if same_text(alias, "backslash") {
        Some("KEY_BACKSLASH")
    } else if same_text(alias, "leftbracket") {
        Some("KEY_LEFTBRACE")
    } else if same_text(alias, "[") {
        Some("KEY_LEFTBRACE")
    } else if same_text(alias, "rightbracket") {
        Some("KEY_RIGHTBRACE")
    } else if same_text(alias, "]") {
        Some("KEY_RIGHTBRACE")
    } else {
        None
    }
}

/// The virtual-key code of a key that a shortcut names by a word or a sign.
pub open spec fn virtual_key_of_alias(alias: Seq<char>) -> Option<u32> {
    if alias == "f1"@ {
        Some(0x70u32)
    } else if alias == "f2"@ {
        Some(0x71u32)
    } else if alias == "f3"@ {
        Some(0x72u32)
    } else if alias == "f4"@ {
        Some(0x73u32)
    } else if alias == "f5"@ {
        Some(0x74u32)
    } else if alias == "f6"@ {
        Some(0x75u32)
    } else if alias == "f7"@ {
        Some(0x76u32)
    } else if alias == "f8"@ {
        Some(0x77u32)
    } else if alias == "f9"@ {
        Some(0x78u32)
    } else if alias == "f10"@ {
        Some(0x79u32)
    } else if alias == "f11"@ {
        Some(0x7au32)
    } else if alias == "f12"@ {
        Some(0x7bu32)
    } else if alias == "space"@ {
        Some(0x20u32)
    } else if alias == "tab"@ {
        Some(0x9u32)
    } else if alias == "esc"@ {
        Some(0x1bu32)
    } else if alias == "escape"@ {
        Some(0x1bu32)
    } else if alias == "enter"@ {
        Some(0xdu32)
    } else if alias == "return"@ {
        Some(0xdu32)
    } else if alias == "backspace"@ {
        Some(0x8u32)
    } else if alias == "insert"@ {
        Some(0x2du32)
    } else if alias == "delete"@ {
        Some(0x2eu32)
    } else if alias == "home"@ {
        Some(0x24u32)
    } else if alias == "end"@ {
        Some(0x23u32)
    } else if alias == "pageup"@ {
        Some(0x21u32)
    } else if alias == "pagedown"@ {
        Some(0x22u32)
    } else if alias == "up"@ {
        Some(0x26u32)
    } else if alias == "down"@ {
        Some(0x28u32)
    } else if alias == "left"@ {
        Some(0x25u32)
    } else if alias == "right"@ {
        Some(0x27u32)
    } else if alias == "minus"@ {
        Some(0xbdu32)
    } else if alias == "-"@ {
        Some(0xbdu32)
    } else if alias == "equal"@ {
        Some(0xbbu32)
    } else if alias == "="@ {
        Some(0xbbu32)
    } else if alias == "comma"@ {
        Some(0xbcu32)
    } else if alias == ","@ {
        Some(0xbcu32)
    } else if alias == "period"@ {
        Some(0xbeu32)
    } else if alias == "."@ {
        Some(0xbeu32)
    } else if alias == "slash"@ {
        Some(0xbfu32)
    } else if alias == "/"@ {
        Some(0xbfu32)
    } else if alias == "semicolon"@ {
        Some(0xbau32)
    } else if alias == ";"@ {
        Some(0xbau32)
    } else if alias == "apostrophe"@ {
        Some(0xdeu32)
    } else if alias == "grave"@ {
        Some(0xc0u32)
    } else if alias == "`"@ {
        Some(0xc0u32)
    } else if alias == "backslash"@ {
        Some(0xdcu32)
    } else if alias == "leftbracket"@ {
        Some(0xdbu32)
    } else if alias == "["@ {
        Some(0xdbu32)
    } else if alias == "rightbracket"@ {
        Some(0xddu32)
    } else if alias == "]"@ {
        Some(0xddu32)
    } else {
        None
    }
}

/// The virtual-key code of a key that a shortcut names by a word or a sign.
pub fn virtual_key_by_name(alias: &str) -> (r: Option<u32>)
    ensures
        r == virtual_key_of_alias(alias@),
{
    if same_text(alias, "f1") {
        Some(0x70)
    } else if same_text(alias, "f2") {
        Some(0x71)
    } else if same_text(alias, "f3") {
        Some(0x72)
    } else if same_text(alias, "f4") {
        Some(0x73)
    } else if same_text(alias, "f5") {
        Some(0x74)
    } else if same_text(alias, "f6") {
        Some(0x75)
    } else if same_text(alias, "f7") {
        Some(0x76)
    } else if same_text(alias, "f8") {
        Some(0x77)
    } else if same_text(alias, "f9") {
        Some(0x78)
    } else if same_text(alias, "f10") {
        Some(0x79)
    } else if same_text(alias, "f11") {
        Some(0x7a)
    } else if same_text(alias, "f12") {
        Some(0x7b)
    } else if same_text(alias, "space") {
        Some(0x20)
    } else if same_text(alias, "tab") {
        Some(0x9)
    } else if same_text(alias, "esc") {
        Some(0x1b)
    } else if same_text(alias, "escape") {
        Some(0x1b)
    } else if same_text(alias, "enter") {
        Some(0xd)
    } else if same_text(alias, "return") {
        Some(0xd)
    } else if same_text(alias, "backspace") {
        Some(0x8)
    } else if same_text(alias, "insert") {
        Some(0x2d)
    } else if same_text(alias, "delete") {
        Some(0x2e)
    } else if same_text(alias, "home") {
        Some(0x24)
    } else if same_text(alias, "end") {
        Some(0x23)
    } else if same_text(alias, "pageup") {
        Some(0x21)
    } else if same_text(alias, "pagedown") {
        Some(0x22)
    } else if same_text(alias, "up") {
        Some(0x26)
    } else if same_text(alias, "down") {
        Some(0x28)
    } else if same_text(alias, "left") {
        Some(0x25)
    } else if same_text(alias, "right") {
        Some(0x27)
    } else if same_text(alias, "minus") {
        Some(0xbd)
    } else if same_text(alias, "-") {
        Some(0xbd)
    } else if same_text(alias, "equal") {
        Some(0xbb)
    } else if same_text(alias, "=") {
        Some(0xbb)
    } else if same_text(alias, "comma") {
        Some(0xbc)
    } else if same_text(alias, ",") {
        Some(0xbc)
    } else if same_text(alias, "period") {
        Some(0xbe)
    } else if same_text(alias, ".") {
        Some(0xbe)
    } else if same_text(alias, "slash") {
        Some(0xbf)
    } else if same_text(alias, "/") {
        Some(0xbf)
    } else if same_text(alias, "semicolon") {
        Some(0xba)
    } else if same_text(alias, ";") {
        Some(0xba)
    } else if same_text(alias, "apostrophe") {
        Some(0xde)
    } else if same_text(alias, "grave") {
        Some(0xc0)
    } else if same_text(alias, "`") {
        Some(0xc0)
    } else if same_text(alias, "backslash") {
        Some(0xdc)
    } else if same_text(alias, "leftbracket") {
        Some(0xdb)
    } else if same_text(alias, "[") {
        Some(0xdb)
    } else if same_text(alias, "rightbracket") {
        Some(0xdd)
    } else if same_text(alias, "]") {
        Some(0xdd)
    } else {
        None
    }
}

/// Both platforms know the same key names.
pub proof fn same_key_names(alias: Seq<char>)
    ensures
        kernel_name_of_alias(alias) is Some <==> virtual_key_of_alias(alias) is Some,
{
}

} // verus!
