//! The keys that call the panel: what the user types, such as `Ctrl+Shift+V`.

use crate::numbers::{dec, parse_unsigned, read_unsigned};
use crate::text::{
    ascii_lower, chars_of, lower, lowercase, same, slice_of, split, split_chars, string_of, texts,
    trim, trimmed,
};
use vstd::prelude::*;
use vstd::string::*;
use vstd::utf8::*;

verus! {

/// A key.
#[derive(Clone, Copy, PartialEq, Eq, Structural, Debug)]
pub enum KeyCode {
    /// The key of a small letter.
    Letter(char),
    /// The key of a digit.
    Digit(char),
    /// A function key, by its number.
    Function(u32),
    Backquote,
    Space,
    Tab,
    Enter,
    Escape,
    ArrowUp,
    ArrowDown,
    ArrowLeft,
    ArrowRight,
    Backspace,
    Delete,
    Home,
    End,
    PageUp,
    PageDown,
    Minus,
    Equal,
    Comma,
    Period,
    Slash,
    Backslash,
    Semicolon,
    Quote,
    BracketLeft,
    BracketRight,
}

/// The key that has a name of its own.
pub open spec fn named_key(n: Seq<char>) -> Option<KeyCode> {
    if n == "`"@ || n == "~"@ || n == "backquote"@ {
        Some(KeyCode::Backquote)
    } else if n == "space"@ {
        Some(KeyCode::Space)
    } else if n == "tab"@ {
        Some(KeyCode::Tab)
    } else if n == "enter"@ || n == "return"@ {
        Some(KeyCode::Enter)
    } else if n == "esc"@ || n == "escape"@ {
        Some(KeyCode::Escape)
    } else if n == "up"@ || n == "arrowup"@ {
        Some(KeyCode::ArrowUp)
    } else if n == "down"@ || n == "arrowdown"@ {
        Some(KeyCode::ArrowDown)
    } else if n == "left"@ || n == "arrowleft"@ {
        Some(KeyCode::ArrowLeft)
    } else if n == "right"@ || n == "arrowright"@ {
        Some(KeyCode::ArrowRight)
    } else if n == "backspace"@ {
        Some(KeyCode::Backspace)
    } else if n == "delete"@ || n == "del"@ {
        Some(KeyCode::Delete)
    } else if n == "home"@ {
        Some(KeyCode::Home)
    } else if n == "end"@ {
        Some(KeyCode::End)
    } else if n == "pageup"@ {
        Some(KeyCode::PageUp)
    } else if n == "pagedown"@ {
        Some(KeyCode::PageDown)
    } else if n == "-"@ || n == "minus"@ {
        Some(KeyCode::Minus)
    } else if n == "="@ || n == "equal"@ {
        Some(KeyCode::Equal)
    } else if n == ","@ || n == "comma"@ {
        Some(KeyCode::Comma)
    } else if n == "."@ || n == "period"@ {
        Some(KeyCode::Period)
    } else if n == "/"@ || n == "slash"@ {
        Some(KeyCode::Slash)
    } else if n == "\\"@ || n == "backslash"@ {
        Some(KeyCode::Backslash)
    } else if n == ";"@ || n == "semicolon"@ {
        Some(KeyCode::Semicolon)
    } else if n == "'"@ || n == "quote"@ {
        Some(KeyCode::Quote)
    } else if n == "["@ || n == "bracketleft"@ {
        Some(KeyCode::BracketLeft)
    } else if n == "]"@ || n == "bracketright"@ {
        Some(KeyCode::BracketRight)
    } else {
        None
    }
}

/// The key that a name in small letters means: by its own name, a letter, a
/// digit, or one of the function keys up to the twelfth.
pub open spec fn key_of(n: Seq<char>) -> Option<KeyCode> {
    match named_key(n) {
        Some(k) => Some(k),
        None => if n.len() == 1 && 'a' <= n[0] && n[0] <= 'z' {
            Some(KeyCode::Letter(n[0]))
        } else if n.len() == 1 && '0' <= n[0] && n[0] <= '9' {
            Some(KeyCode::Digit(n[0]))
        } else if n.len() >= 2 && n[0] == 'f' {
            match parse_unsigned(n.skip(1), 10, u32::MAX as nat) {
                Some(k) => if 1 <= k <= 12 {
                    Some(KeyCode::Function(k as u32))
                } else {
                    None
                },
                None => None,
            }
        } else {
            None
        },
    }
}

fn key_by_name(n: &str) -> (r: Option<KeyCode>)
    ensures
        r == named_key(n@),
{
    if same(n, "`") || same(n, "~") || same(n, "backquote") {
        Some(KeyCode::Backquote)
    } else if same(n, "space") {
        Some(KeyCode::Space)
    } else if same(n, "tab") {
        Some(KeyCode::Tab)
    } else if same(n, "enter") || same(n, "return") {
        Some(KeyCode::Enter)
    } else if same(n, "esc") || same(n, "escape") {
        Some(KeyCode::Escape)
    } else if same(n, "up") || same(n, "arrowup") {
        Some(KeyCode::ArrowUp)
    } else if same(n, "down") || same(n, "arrowdown") {
        Some(KeyCode::ArrowDown)
    } else if same(n, "left") || same(n, "arrowleft") {
        Some(KeyCode::ArrowLeft)
    } else if same(n, "right") || same(n, "arrowright") {
        Some(KeyCode::ArrowRight)
    } else if same(n, "backspace") {
        Some(KeyCode::Backspace)
    } else if same(n, "delete") || same(n, "del") {
        Some(KeyCode::Delete)
    } else if same(n, "home") {
        Some(KeyCode::Home)
    } else if same(n, "end") {
        Some(KeyCode::End)
    } else if same(n, "pageup") {
        Some(KeyCode::PageUp)
    } else if same(n, "pagedown") {
        Some(KeyCode::PageDown)
    } else if same(n, "-") || same(n, "minus") {
        Some(KeyCode::Minus)
    } else if same(n, "=") || same(n, "equal") {
        Some(KeyCode::Equal)
    } else if same(n, ",") || same(n, "comma") {
        Some(KeyCode::Comma)
    } else if same(n, ".") || same(n, "period") {
        Some(KeyCode::Period)
    } else if same(n, "/") || same(n, "slash") {
        Some(KeyCode::Slash)
    } else if same(n, "\\") || same(n, "backslash") {
        Some(KeyCode::Backslash)
    } else if same(n, ";") || same(n, "semicolon") {
        Some(KeyCode::Semicolon)
    } else if same(n, "'") || same(n, "quote") {
        Some(KeyCode::Quote)
    } else if same(n, "[") || same(n, "bracketleft") {
        Some(KeyCode::BracketLeft)
    } else if same(n, "]") || same(n, "bracketright") {
        Some(KeyCode::BracketRight)
    } else {
        None
    }
}

/// The key that a name means, in any mixture of letters.
pub fn code_from_name(name: &str) -> (r: Option<KeyCode>)
    ensures
        r == key_of(lowercase(trim(name@))),
{
    let low = lower(trimmed(name).as_str());
    match key_by_name(low.as_str()) {
        Some(k) => {
            return Some(k);
        },
        None => {},
    }
    let v = chars_of(low.as_str());
    if v.len() == 1 && 'a' <= v[0] && v[0] <= 'z' {
        Some(KeyCode::Letter(v[0]))
    } else if v.len() == 1 && '0' <= v[0] && v[0] <= '9' {
        Some(KeyCode::Digit(v[0]))
    } else if v.len() >= 2 && v[0] == 'f' {
        let rest = slice_of(&v, 1, v.len());
        assert(rest@ =~= v@.skip(1));
        match read_unsigned(&rest, 10, 4294967295) {
            Some(k) => if 1 <= k && k <= 12 {
                Some(KeyCode::Function(k as u32))
            } else {
                None
            },
            None => None,
        }
    } else {
        None
    }
}

/// A key with the keys that are held down with it.
#[derive(Clone, Copy, PartialEq, Eq, Structural, Debug)]
pub struct Hotkey {
    pub ctrl: bool,
    pub shift: bool,
    pub alt: bool,
    pub meta: bool,
    pub code: KeyCode,
}

/// What the parts of a hotkey have given so far.
#[derive(Clone, Copy, PartialEq, Eq, Structural, Debug)]
pub struct Held {
    pub ctrl: bool,
    pub shift: bool,
    pub alt: bool,
    pub meta: bool,
    pub code: Option<KeyCode>,
}

/// What one more part of a hotkey gives: a key to hold down, or the key itself.
pub open spec fn with_part(h: Held, part: Seq<char>) -> Held {
    let p = lowercase(trim(part));
    if p == "ctrl"@ || p == "control"@ {
        Held { ctrl: true, ..h }
    } else if p == "shift"@ {
        Held { shift: true, ..h }
    } else if p == "alt"@ {
        Held { alt: true, ..h }
    } else if p == "win"@ || p == "super"@ || p == "meta"@ || p == "cmd"@ {
        Held { meta: true, ..h }
    } else {
        Held { code: key_of(lowercase(trim(p))), ..h }
    }
}

/// What all parts of a hotkey give.
pub open spec fn all_parts(parts: Seq<Seq<char>>) -> Held
    decreases parts.len(),
{
    if parts.len() == 0 {
        Held { ctrl: false, shift: false, alt: false, meta: false, code: None }
    } else {
        with_part(all_parts(parts.drop_last()), parts.last())
    }
}

/// The hotkey that a text means: the part behind the last plus sign that is no
/// key to hold down decides.
pub open spec fn hotkey_of(s: Seq<char>) -> Option<Hotkey> {
    let h = all_parts(split(s, '+'));
    match h.code {
        Some(c) => Some(
            Hotkey { ctrl: h.ctrl, shift: h.shift, alt: h.alt, meta: h.meta, code: c },
        ),
        None => None,
    }
}

fn add_part(h: Held, part: &str) -> (r: Held)
    ensures
        r == with_part(h, part@),
{
    let low = lower(trimmed(part).as_str());
    let p = low.as_str();
    let mut h = h;
    if same(p, "ctrl") || same(p, "control") {
        h.ctrl = true;
    } else if same(p, "shift") {
        h.shift = true;
    } else if same(p, "alt") {
        h.alt = true;
    } else if same(p, "win") || same(p, "super") || same(p, "meta") || same(p, "cmd") {
        h.meta = true;
    } else {
        h.code = code_from_name(p);
    }
    h
}

/// The hotkey that a text means; none where it names no key.
pub fn parse_hotkey(s: &str) -> (r: Option<Hotkey>)
    ensures
        r == hotkey_of(s@),
{
    let parts = split_chars(&chars_of(s), '+');
    let ghost all = texts(parts@);
    let mut h = Held { ctrl: false, shift: false, alt: false, meta: false, code: None };
    let mut i: usize = 0;
    while i < parts.len()
        invariant
            i <= parts@.len(),
            all == texts(parts@),
            h == all_parts(all.take(i as int)),
        decreases parts@.len() - i,
    {
        assert(all.take(i + 1).drop_last() =~= all.take(i as int));
        assert(all.take(i + 1).last() == parts@[i as int]@);
        h = add_part(h, string_of(&parts[i]).as_str());
        i = i + 1;
    }
    assert(all.take(i as int) =~= all);
    match h.code {
        Some(c) => Some(
            Hotkey { ctrl: h.ctrl, shift: h.shift, alt: h.alt, meta: h.meta, code: c },
        ),
        None => None,
    }
}

/// The hotkey to register, or what the user is told.
pub fn register_hotkey(s: &str) -> (r: Result<Hotkey, String>)
    ensures
        match r {
            Ok(h) => hotkey_of(s@) == Some(h),
            Err(e) => hotkey_of(s@) is None && e@ == "无法识别的快捷键: "@ + s@,
        },
{
    match parse_hotkey(s) {
        Some(h) => Ok(h),
        None => {
            let mut t = "无法识别的快捷键: ".to_string();
            t.append(s);
            Err(t)
        },
    }
}

/// What the user is told where the system does not give the hotkey away.
pub fn hotkey_refused(e: &str) -> (r: String)
    ensures
        r@ == "注册快捷键失败（可能与其他软件冲突）: "@ + e@,
{
    let mut t = "注册快捷键失败（可能与其他软件冲突）: ".to_string();
    t.append(e);
    t
}

/// A function key has a number from one to twelve, a letter key a small letter,
/// and a digit key a digit.
pub proof fn keys_are_in_range(n: Seq<char>)
    ensures
        key_of(n) matches Some(KeyCode::Function(k)) ==> 1 <= k <= 12,
        key_of(n) matches Some(KeyCode::Letter(c)) ==> 'a' <= c <= 'z',
        key_of(n) matches Some(KeyCode::Digit(c)) ==> '0' <= c <= '9',
{
}

/// Whether a part of a hotkey is a key to hold down.
pub open spec fn is_held_key(part: Seq<char>) -> bool {
    let p = lowercase(trim(part));
    p == "ctrl"@ || p == "control"@ || p == "shift"@ || p == "alt"@ || p == "win"@ || p == "super"@
        || p == "meta"@ || p == "cmd"@
}

/// It does not matter where among the other parts a key to hold down is named.
pub proof fn held_keys_commute(h: Held, a: Seq<char>, b: Seq<char>)
    requires
        is_held_key(a),
    ensures
        with_part(with_part(h, a), b) == with_part(with_part(h, b), a),
{
}

// ---------- laws of keys ----------

proof fn lemma_key_names()
    ensures
        "`"@.len() == 1,
        "`"@[0] == '`',
        "~"@.len() == 1,
        "~"@[0] == '~',
        "backquote"@.len() == 9,
        "backquote"@[0] == 'b',
        "backquote"@[1] == 'a',
        "backquote"@[2] == 'c',
        "backquote"@[3] == 'k',
        "backquote"@[4] == 'q',
        "backquote"@[5] == 'u',
        "backquote"@[6] == 'o',
        "backquote"@[7] == 't',
        "backquote"@[8] == 'e',
        "space"@.len() == 5,
        "space"@[0] == 's',
        "space"@[1] == 'p',
        "space"@[2] == 'a',
        "space"@[3] == 'c',
        "space"@[4] == 'e',
        "tab"@.len() == 3,
        "tab"@[0] == 't',
        "tab"@[1] == 'a',
        "tab"@[2] == 'b',
        "enter"@.len() == 5,
        "enter"@[0] == 'e',
        "enter"@[1] == 'n',
        "enter"@[2] == 't',
        "enter"@[3] == 'e',
        "enter"@[4] == 'r',
        "return"@.len() == 6,
        "return"@[0] == 'r',
        "return"@[1] == 'e',
        "return"@[2] == 't',
        "return"@[3] == 'u',
        "return"@[4] == 'r',
        "return"@[5] == 'n',
        "esc"@.len() == 3,
        "esc"@[0] == 'e',
        "esc"@[1] == 's',
        "esc"@[2] == 'c',
        "escape"@.len() == 6,
        "escape"@[0] == 'e',
        "escape"@[1] == 's',
        "escape"@[2] == 'c',
        "escape"@[3] == 'a',
        "escape"@[4] == 'p',
        "escape"@[5] == 'e',
        "up"@.len() == 2,
        "up"@[0] == 'u',
        "up"@[1] == 'p',
        "arrowup"@.len() == 7,
        "arrowup"@[0] == 'a',
        "arrowup"@[1] == 'r',
        "arrowup"@[2] == 'r',
        "arrowup"@[3] == 'o',
        "arrowup"@[4] == 'w',
        "arrowup"@[5] == 'u',
        "arrowup"@[6] == 'p',
        "down"@.len() == 4,
        "down"@[0] == 'd',
        "down"@[1] == 'o',
        "down"@[2] == 'w',
        "down"@[3] == 'n',
        "arrowdown"@.len() == 9,
        "arrowdown"@[0] == 'a',
        "arrowdown"@[1] == 'r',
        "arrowdown"@[2] == 'r',
        "arrowdown"@[3] == 'o',
        "arrowdown"@[4] == 'w',
        "arrowdown"@[5] == 'd',
        "arrowdown"@[6] == 'o',
        "arrowdown"@[7] == 'w',
        "arrowdown"@[8] == 'n',
        "left"@.len() == 4,
        "left"@[0] == 'l',
        "left"@[1] == 'e',
        "left"@[2] == 'f',
        "left"@[3] == 't',
        "arrowleft"@.len() == 9,
        "arrowleft"@[0] == 'a',
        "arrowleft"@[1] == 'r',
        "arrowleft"@[2] == 'r',
        "arrowleft"@[3] == 'o',
        "arrowleft"@[4] == 'w',
        "arrowleft"@[5] == 'l',
        "arrowleft"@[6] == 'e',
        "arrowleft"@[7] == 'f',
        "arrowleft"@[8] == 't',
        "right"@.len() == 5,
        "right"@[0] == 'r',
        "right"@[1] == 'i',
        "right"@[2] == 'g',
        "right"@[3] == 'h',
        "right"@[4] == 't',
        "arrowright"@.len() == 10,
        "arrowright"@[0] == 'a',
        "arrowright"@[1] == 'r',
        "arrowright"@[2] == 'r',
        "arrowright"@[3] == 'o',
        "arrowright"@[4] == 'w',
        "arrowright"@[5] == 'r',
        "arrowright"@[6] == 'i',
        "arrowright"@[7] == 'g',
        "arrowright"@[8] == 'h',
        "arrowright"@[9] == 't',
        "backspace"@.len() == 9,
        "backspace"@[0] == 'b',
        "backspace"@[1] == 'a',
        "backspace"@[2] == 'c',
        "backspace"@[3] == 'k',
        "backspace"@[4] == 's',
        "backspace"@[5] == 'p',
        "backspace"@[6] == 'a',
        "backspace"@[7] == 'c',
        "backspace"@[8] == 'e',
        "delete"@.len() == 6,
        "delete"@[0] == 'd',
        "delete"@[1] == 'e',
        "delete"@[2] == 'l',
        "delete"@[3] == 'e',
        "delete"@[4] == 't',
        "delete"@[5] == 'e',
        "del"@.len() == 3,
        "del"@[0] == 'd',
        "del"@[1] == 'e',
        "del"@[2] == 'l',
        "home"@.len() == 4,
        "home"@[0] == 'h',
        "home"@[1] == 'o',
        "home"@[2] == 'm',
        "home"@[3] == 'e',
        "end"@.len() == 3,
        "end"@[0] == 'e',
        "end"@[1] == 'n',
        "end"@[2] == 'd',
        "pageup"@.len() == 6,
        "pageup"@[0] == 'p',
        "pageup"@[1] == 'a',
        "pageup"@[2] == 'g',
        "pageup"@[3] == 'e',
        "pageup"@[4] == 'u',
        "pageup"@[5] == 'p',
        "pagedown"@.len() == 8,
        "pagedown"@[0] == 'p',
        "pagedown"@[1] == 'a',
        "pagedown"@[2] == 'g',
        "pagedown"@[3] == 'e',
        "pagedown"@[4] == 'd',
        "pagedown"@[5] == 'o',
        "pagedown"@[6] == 'w',
        "pagedown"@[7] == 'n',
        "-"@.len() == 1,
        "-"@[0] == '-',
        "minus"@.len() == 5,
        "minus"@[0] == 'm',
        "minus"@[1] == 'i',
        "minus"@[2] == 'n',
        "minus"@[3] == 'u',
        "minus"@[4] == 's',
        "="@.len() == 1,
        "="@[0] == '=',
        "equal"@.len() == 5,
        "equal"@[0] == 'e',
        "equal"@[1] == 'q',
        "equal"@[2] == 'u',
        "equal"@[3] == 'a',
        "equal"@[4] == 'l',
        ","@.len() == 1,
        ","@[0] == ',',
        "comma"@.len() == 5,
        "comma"@[0] == 'c',
        "comma"@[1] == 'o',
        "comma"@[2] == 'm',
        "comma"@[3] == 'm',
        "comma"@[4] == 'a',
        "."@.len() == 1,
        "."@[0] == '.',
        "period"@.len() == 6,
        "period"@[0] == 'p',
        "period"@[1] == 'e',
        "period"@[2] == 'r',
        "period"@[3] == 'i',
        "period"@[4] == 'o',
        "period"@[5] == 'd',
        "/"@.len() == 1,
        "/"@[0] == '/',
        "slash"@.len() == 5,
        "slash"@[0] == 's',
        "slash"@[1] == 'l',
        "slash"@[2] == 'a',
        "slash"@[3] == 's',
        "slash"@[4] == 'h',
        "\\"@.len() == 1,
        "\\"@[0] == '\\',
        "backslash"@.len() == 9,
        "backslash"@[0] == 'b',
        "backslash"@[1] == 'a',
        "backslash"@[2] == 'c',
        "backslash"@[3] == 'k',
        "backslash"@[4] == 's',
        "backslash"@[5] == 'l',
        "backslash"@[6] == 'a',
        "backslash"@[7] == 's',
        "backslash"@[8] == 'h',
        ";"@.len() == 1,
        ";"@[0] == ';',
        "semicolon"@.len() == 9,
        "semicolon"@[0] == 's',
        "semicolon"@[1] == 'e',
        "semicolon"@[2] == 'm',
        "semicolon"@[3] == 'i',
        "semicolon"@[4] == 'c',
        "semicolon"@[5] == 'o',
        "semicolon"@[6] == 'l',
        "semicolon"@[7] == 'o',
        "semicolon"@[8] == 'n',
        "'"@.len() == 1,
        "'"@[0] == '\'',
        "quote"@.len() == 5,
        "quote"@[0] == 'q',
        "quote"@[1] == 'u',
        "quote"@[2] == 'o',
        "quote"@[3] == 't',
        "quote"@[4] == 'e',
        "["@.len() == 1,
        "["@[0] == '[',
        "bracketleft"@.len() == 11,
        "bracketleft"@[0] == 'b',
        "bracketleft"@[1] == 'r',
        "bracketleft"@[2] == 'a',
        "bracketleft"@[3] == 'c',
        "bracketleft"@[4] == 'k',
        "bracketleft"@[5] == 'e',
        "bracketleft"@[6] == 't',
        "bracketleft"@[7] == 'l',
        "bracketleft"@[8] == 'e',
        "bracketleft"@[9] == 'f',
        "bracketleft"@[10] == 't',
        "]"@.len() == 1,
        "]"@[0] == ']',
        "bracketright"@.len() == 12,
        "bracketright"@[0] == 'b',
        "bracketright"@[1] == 'r',
        "bracketright"@[2] == 'a',
        "bracketright"@[3] == 'c',
        "bracketright"@[4] == 'k',
        "bracketright"@[5] == 'e',
        "bracketright"@[6] == 't',
        "bracketright"@[7] == 'r',
        "bracketright"@[8] == 'i',
        "bracketright"@[9] == 'g',
        "bracketright"@[10] == 'h',
        "bracketright"@[11] == 't',
{
    reveal_strlit("`");
    reveal_strlit("~");
    reveal_strlit("backquote");
    reveal_strlit("space");
    reveal_strlit("tab");
    reveal_strlit("enter");
    reveal_strlit("return");
    reveal_strlit("esc");
    reveal_strlit("escape");
    reveal_strlit("up");
    reveal_strlit("arrowup");
    reveal_strlit("down");
    reveal_strlit("arrowdown");
    reveal_strlit("left");
    reveal_strlit("arrowleft");
    reveal_strlit("right");
    reveal_strlit("arrowright");
    reveal_strlit("backspace");
    reveal_strlit("delete");
    reveal_strlit("del");
    reveal_strlit("home");
    reveal_strlit("end");
    reveal_strlit("pageup");
    reveal_strlit("pagedown");
    reveal_strlit("-");
    reveal_strlit("minus");
    reveal_strlit("=");
    reveal_strlit("equal");
    reveal_strlit(",");
    reveal_strlit("comma");
    reveal_strlit(".");
    reveal_strlit("period");
    reveal_strlit("/");
    reveal_strlit("slash");
    reveal_strlit("\\");
    reveal_strlit("backslash");
    reveal_strlit(";");
    reveal_strlit("semicolon");
    reveal_strlit("'");
    reveal_strlit("quote");
    reveal_strlit("[");
    reveal_strlit("bracketleft");
    reveal_strlit("]");
    reveal_strlit("bracketright");
}

/// Each key has its names, and these are all that are not letters, digits or function
/// keys.
#[verifier::spinoff_prover]
pub proof fn keys_have_names(n: Seq<char>)
    ensures
        key_of("`"@) == Some(KeyCode::Backquote),
        key_of("~"@) == Some(KeyCode::Backquote),
        key_of("backquote"@) == Some(KeyCode::Backquote),
        key_of("space"@) == Some(KeyCode::Space),
        key_of("tab"@) == Some(KeyCode::Tab),
        key_of("enter"@) == Some(KeyCode::Enter),
        key_of("return"@) == Some(KeyCode::Enter),
        key_of("esc"@) == Some(KeyCode::Escape),
        key_of("escape"@) == Some(KeyCode::Escape),
        key_of("up"@) == Some(KeyCode::ArrowUp),
        key_of("arrowup"@) == Some(KeyCode::ArrowUp),
        key_of("down"@) == Some(KeyCode::ArrowDown),
        key_of("arrowdown"@) == Some(KeyCode::ArrowDown),
        key_of("left"@) == Some(KeyCode::ArrowLeft),
        key_of("arrowleft"@) == Some(KeyCode::ArrowLeft),
        key_of("right"@) == Some(KeyCode::ArrowRight),
        key_of("arrowright"@) == Some(KeyCode::ArrowRight),
        key_of("backspace"@) == Some(KeyCode::Backspace),
        key_of("delete"@) == Some(KeyCode::Delete),
        key_of("del"@) == Some(KeyCode::Delete),
        key_of("home"@) == Some(KeyCode::Home),
        key_of("end"@) == Some(KeyCode::End),
        key_of("pageup"@) == Some(KeyCode::PageUp),
        key_of("pagedown"@) == Some(KeyCode::PageDown),
        key_of("-"@) == Some(KeyCode::Minus),
        key_of("minus"@) == Some(KeyCode::Minus),
        key_of("="@) == Some(KeyCode::Equal),
        key_of("equal"@) == Some(KeyCode::Equal),
        key_of(","@) == Some(KeyCode::Comma),
        key_of("comma"@) == Some(KeyCode::Comma),
        key_of("."@) == Some(KeyCode::Period),
        key_of("period"@) == Some(KeyCode::Period),
        key_of("/"@) == Some(KeyCode::Slash),
        key_of("slash"@) == Some(KeyCode::Slash),
        key_of("\\"@) == Some(KeyCode::Backslash),
        key_of("backslash"@) == Some(KeyCode::Backslash),
        key_of(";"@) == Some(KeyCode::Semicolon),
        key_of("semicolon"@) == Some(KeyCode::Semicolon),
        key_of("'"@) == Some(KeyCode::Quote),
        key_of("quote"@) == Some(KeyCode::Quote),
        key_of("["@) == Some(KeyCode::BracketLeft),
        key_of("bracketleft"@) == Some(KeyCode::BracketLeft),
        key_of("]"@) == Some(KeyCode::BracketRight),
        key_of("bracketright"@) == Some(KeyCode::BracketRight),
        n != "`"@ && n != "~"@ && n != "backquote"@ && n != "space"@ && n != "tab"@ && n != "enter"@ && n != "return"@ && n != "esc"@ && n != "escape"@ && n != "up"@ && n != "arrowup"@ && n != "down"@ && n != "arrowdown"@ && n != "left"@ && n != "arrowleft"@ && n != "right"@ && n != "arrowright"@ && n != "backspace"@ && n != "delete"@ && n != "del"@ && n != "home"@ && n != "end"@ && n != "pageup"@ && n != "pagedown"@ && n != "-"@ && n != "minus"@ && n != "="@ && n != "equal"@ && n != ","@ && n != "comma"@ && n != "."@ && n != "period"@ && n != "/"@ && n != "slash"@ && n != "\\"@ && n != "backslash"@ && n != ";"@ && n != "semicolon"@ && n != "'"@ && n != "quote"@ && n != "["@ && n != "bracketleft"@ && n != "]"@ && n != "bracketright"@ ==> named_key(n) is None,
{
    lemma_key_names();
}

proof fn lemma_short_is_unnamed(n: Seq<char>)
    requires
        n.len() == 1,
        ('a' <= n[0] && n[0] <= 'z') || ('0' <= n[0] && n[0] <= '9'),
    ensures
        named_key(n) is None,
{
    lemma_key_names();
}

proof fn lemma_function_is_unnamed(n: Seq<char>)
    requires
        n.len() >= 2,
        n[0] == 'f',
    ensures
        named_key(n) is None,
{
    lemma_key_names();
}

/// Every letter and every digit is its own key, and the function keys are those from
/// `f1` to `f12`; a longer number is none.
pub proof fn letters_digits_and_functions_are_keys(c: char, k: nat)
    ensures
        'a' <= c && c <= 'z' ==> key_of(seq![c]) == Some(KeyCode::Letter(c)),
        '0' <= c && c <= '9' ==> key_of(seq![c]) == Some(KeyCode::Digit(c)),
        1 <= k && k <= 12 ==> key_of(seq!['f'] + dec(k)) == Some(KeyCode::Function(k as u32)),
        k == 0 || k > 12 ==> key_of(seq!['f'] + dec(k)) is None,
{
    let one = seq![c];
    if ('a' <= c && c <= 'z') || ('0' <= c && c <= '9') {
        lemma_short_is_unnamed(one);
    }
    let f = seq!['f'] + dec(k);
    crate::numbers::lemma_dec_value(k);
    assert(f[0] == 'f');
    assert(f.skip(1) =~= dec(k));
    lemma_function_is_unnamed(f);
    assert(dec(k)[0] != '+');
}

proof fn lemma_held_first(p: Seq<char>, parts: Seq<Seq<char>>)
    requires
        is_held_key(p),
    ensures
        all_parts(seq![p] + parts) == with_part(all_parts(parts), p),
    decreases parts.len(),
{
    let all = seq![p] + parts;
    if parts.len() == 0 {
        assert(all.drop_last() =~= parts);
        assert(all.last() == p);
    } else {
        lemma_held_first(p, parts.drop_last());
        assert(all.drop_last() =~= seq![p] + parts.drop_last());
        assert(all.last() == parts.last());
        held_keys_commute(all_parts(parts.drop_last()), p, parts.last());
    }
}

proof fn lemma_held_names()
    ensures
        "ctrl"@.len() == 4,
        "ctrl"@[0] == 'c',
        "control"@.len() == 7,
        "control"@[0] == 'c',
        "shift"@.len() == 5,
        "shift"@[1] == 'h',
        "alt"@.len() == 3,
        "alt"@[0] == 'a',
        "win"@.len() == 3,
        "win"@[0] == 'w',
        "super"@.len() == 5,
        "super"@[1] == 'u',
        "meta"@.len() == 4,
        "meta"@[0] == 'm',
        "cmd"@.len() == 3,
        "cmd"@[0] == 'c',
{
    reveal_strlit("ctrl");
    reveal_strlit("control");
    reveal_strlit("shift");
    reveal_strlit("alt");
    reveal_strlit("win");
    reveal_strlit("super");
    reveal_strlit("meta");
    reveal_strlit("cmd");
}

/// A key that is held, in capitals or not and with blanks around it, and a plus before
/// the rest, adds that key to the rest and changes nothing else of it.
pub proof fn held_keys_add_up(p: Seq<char>, s: Seq<char>)
    requires
        forall|i: int| 0 <= i < p.len() ==> p[i] != '+',
    ensures
        ({
            let n = lowercase(trim(p));
            let whole = hotkey_of(p + seq!['+'] + s);
            let rest = hotkey_of(s);
            &&& n == "ctrl"@ || n == "control"@ ==> {
                &&& rest is None ==> whole is None
                &&& rest matches Some(h) ==> whole == Some((Hotkey { ctrl: true, ..h }))
            }
            &&& n == "shift"@ ==> {
                &&& rest is None ==> whole is None
                &&& rest matches Some(h) ==> whole == Some((Hotkey { shift: true, ..h }))
            }
            &&& n == "alt"@ ==> {
                &&& rest is None ==> whole is None
                &&& rest matches Some(h) ==> whole == Some((Hotkey { alt: true, ..h }))
            }
            &&& n == "win"@ || n == "super"@ || n == "meta"@ || n == "cmd"@ ==> {
                &&& rest is None ==> whole is None
                &&& rest matches Some(h) ==> whole == Some((Hotkey { meta: true, ..h }))
            }
        }),
{
    crate::text::splitting_goes_by_separators(p, s, '+');
    lemma_held_names();
    if is_held_key(p) {
        lemma_held_first(p, split(s, '+'));
    }
}

/// A letter alone, small or capital, calls by its own key, with nothing held; held
/// keys alone call nothing.
pub proof fn letters_call_alone(c: char, p: Seq<char>)
    requires
        forall|i: int| 0 <= i < p.len() ==> p[i] != '+',
    ensures
        'a' <= c && c <= 'z' ==> hotkey_of(seq![c]) == Some(
            (Hotkey {
                ctrl: false,
                shift: false,
                alt: false,
                meta: false,
                code: KeyCode::Letter(c),
            }),
        ),
        'A' <= c && c <= 'Z' ==> hotkey_of(seq![c]) == Some(
            (Hotkey {
                ctrl: false,
                shift: false,
                alt: false,
                meta: false,
                code: KeyCode::Letter((c as u32 + 32) as char),
            }),
        ),
        is_held_key(p) ==> hotkey_of(p) is None,
{
    let none = Seq::<Seq<char>>::empty();
    lemma_held_names();
    assert(all_parts(none).code is None);
    if ('a' <= c && c <= 'z') || ('A' <= c && c <= 'Z') {
        let s = seq![c];
        crate::text::splitting_goes_by_separators(s, s, '+');
        assert(seq![s].drop_last() =~= none);
        crate::text::trimmed_stays(s);
        let d = ascii_lower(c);
        assert(is_ascii_chars(s)) by {
            assert forall|i: int| 0 <= i < s.len() implies (s[i] as u32) < 128 by {}
        }
        assert(lowercase(s) =~= seq![d]);
        let t = seq![d];
        crate::text::trimmed_stays(t);
        assert(is_ascii_chars(t)) by {
            assert forall|i: int| 0 <= i < t.len() implies (t[i] as u32) < 128 by {}
        }
        assert(lowercase(t) =~= t);
        assert(lowercase(trim(t)) == t);
        lemma_short_is_unnamed(t);
        assert(key_of(t) == Some(KeyCode::Letter(d)));
        assert(all_parts(seq![s]) == with_part(all_parts(none), s));
    }
    if is_held_key(p) {
        crate::text::splitting_goes_by_separators(p, p, '+');
        assert(seq![p].drop_last() =~= none);
        assert(all_parts(seq![p]) == with_part(all_parts(none), p));
    }
}

} // verus!
