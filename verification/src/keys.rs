//! Names of the keys that can toggle the settings editor: canonical names,
//! accepted aliases, and case- and space-insensitive parsing.

use vstd::prelude::*;
use crate::text::{chars_of, trim_chars, ascii_lower_chars, spec_trim, spec_ascii_lower_seq};

verus! {

/// A key that can be bound to the settings-editor toggle.
#[derive(Clone, Copy, PartialEq, Eq, Debug, Structural)]
pub enum ToggleKey {
    KeyA,
    KeyB,
    KeyC,
    KeyD,
    KeyE,
    KeyF,
    KeyG,
    KeyH,
    KeyI,
    KeyJ,
    KeyK,
    KeyL,
    KeyM,
    KeyN,
    KeyO,
    KeyP,
    KeyQ,
    KeyR,
    KeyS,
    KeyT,
    KeyU,
    KeyV,
    KeyW,
    KeyX,
    KeyY,
    KeyZ,
    Digit0,
    Digit1,
    Digit2,
    Digit3,
    Digit4,
    Digit5,
    Digit6,
    Digit7,
    Digit8,
    Digit9,
    F1,
    F2,
    F3,
    F4,
    F5,
    F6,
    F7,
    F8,
    F9,
    F10,
    F11,
    F12,
    Backquote,
    Tab,
    Insert,
    Space,
    Escape,
    Enter,
    Backslash,
    Minus,
    Equal,
    Comma,
    Period,
    Slash,
    Semicolon,
}

/// The canonical (lower-case) name of a key, used when writing it back.
pub open spec fn spec_key_name(k: ToggleKey) -> Seq<char> {
    match k {
        ToggleKey::KeyA => seq!['a'],
        ToggleKey::KeyB => seq!['b'],
        ToggleKey::KeyC => seq!['c'],
        ToggleKey::KeyD => seq!['d'],
        ToggleKey::KeyE => seq!['e'],
        ToggleKey::KeyF => seq!['f'],
        ToggleKey::KeyG => seq!['g'],
        ToggleKey::KeyH => seq!['h'],
        ToggleKey::KeyI => seq!['i'],
        ToggleKey::KeyJ => seq!['j'],
        ToggleKey::KeyK => seq!['k'],
        ToggleKey::KeyL => seq!['l'],
        ToggleKey::KeyM => seq!['m'],
        ToggleKey::KeyN => seq!['n'],
        ToggleKey::KeyO => seq!['o'],
        ToggleKey::KeyP => seq!['p'],
        ToggleKey::KeyQ => seq!['q'],
        ToggleKey::KeyR => seq!['r'],
        ToggleKey::KeyS => seq!['s'],
        ToggleKey::KeyT => seq!['t'],
        ToggleKey::KeyU => seq!['u'],
        ToggleKey::KeyV => seq!['v'],
        ToggleKey::KeyW => seq!['w'],
        ToggleKey::KeyX => seq!['x'],
        ToggleKey::KeyY => seq!['y'],
        ToggleKey::KeyZ => seq!['z'],
        ToggleKey::Digit0 => seq!['0'],
        ToggleKey::Digit1 => seq!['1'],
        ToggleKey::Digit2 => seq!['2'],
        ToggleKey::Digit3 => seq!['3'],
        ToggleKey::Digit4 => seq!['4'],
        ToggleKey::Digit5 => seq!['5'],
        ToggleKey::Digit6 => seq!['6'],
        ToggleKey::Digit7 => seq!['7'],
        ToggleKey::Digit8 => seq!['8'],
        ToggleKey::Digit9 => seq!['9'],
        ToggleKey::F1 => seq!['f', '1'],
        ToggleKey::F2 => seq!['f', '2'],
        ToggleKey::F3 => seq!['f', '3'],
        ToggleKey::F4 => seq!['f', '4'],
        ToggleKey::F5 => seq!['f', '5'],
        ToggleKey::F6 => seq!['f', '6'],
        ToggleKey::F7 => seq!['f', '7'],
        ToggleKey::F8 => seq!['f', '8'],
        ToggleKey::F9 => seq!['f', '9'],
        ToggleKey::F10 => seq!['f', '1', '0'],
        ToggleKey::F11 => seq!['f', '1', '1'],
        ToggleKey::F12 => seq!['f', '1', '2'],
        ToggleKey::Backquote => seq!['b', 'a', 'c', 'k', 'q', 'u', 'o', 't', 'e'],
        ToggleKey::Tab => seq!['t', 'a', 'b'],
        ToggleKey::Insert => seq!['i', 'n', 's', 'e', 'r', 't'],
        ToggleKey::Space => seq!['s', 'p', 'a', 'c', 'e'],
        ToggleKey::Escape => seq!['e', 's', 'c', 'a', 'p', 'e'],
        ToggleKey::Enter => seq!['e', 'n', 't', 'e', 'r'],
        ToggleKey::Backslash => seq!['b', 'a', 'c', 'k', 's', 'l', 'a', 's', 'h'],
        ToggleKey::Minus => seq!['m', 'i', 'n', 'u', 's'],
        ToggleKey::Equal => seq!['e', 'q', 'u', 'a', 'l'],
        ToggleKey::Comma => seq!['c', 'o', 'm', 'm', 'a'],
        ToggleKey::Period => seq!['p', 'e', 'r', 'i', 'o', 'd'],
        ToggleKey::Slash => seq!['s', 'l', 'a', 's', 'h'],
        ToggleKey::Semicolon => seq!['s', 'e', 'm', 'i', 'c', 'o', 'l', 'o', 'n'],
    }
}

/// Accepted alias names besides the canonical ones.
pub open spec fn spec_alias(n: Seq<char>) -> Option<ToggleKey> {
    if n == seq!['g', 'r', 'a', 'v', 'e'] {
        Some(ToggleKey::Backquote)
    } else if n == seq!['t', 'i', 'l', 'd', 'e'] {
        Some(ToggleKey::Backquote)
    } else if n == seq!['e', 's', 'c'] {
        Some(ToggleKey::Escape)
    } else if n == seq!['r', 'e', 't', 'u', 'r', 'n'] {
        Some(ToggleKey::Enter)
    } else {
        None
    }
}

/// A cheap fingerprint of a name: its length, first and last character.
/// It tells every canonical key name apart.
pub open spec fn spec_sig(s: Seq<char>) -> (nat, char, char) {
    (s.len(), s[0], s[s.len() - 1])
}

/// The key whose canonical name has this fingerprint, if any.
pub open spec fn spec_key_of_sig(len: nat, first: char, last: char) -> Option<ToggleKey> {
    if len == 1 && first == 'a' && last == 'a' {
        Some(ToggleKey::KeyA)
    } else if len == 1 && first == 'b' && last == 'b' {
        Some(ToggleKey::KeyB)
    } else if len == 1 && first == 'c' && last == 'c' {
        Some(ToggleKey::KeyC)
    } else if len == 1 && first == 'd' && last == 'd' {
        Some(ToggleKey::KeyD)
    } else if len == 1 && first == 'e' && last == 'e' {
        Some(ToggleKey::KeyE)
    } else if len == 1 && first == 'f' && last == 'f' {
        Some(ToggleKey::KeyF)
    } else if len == 1 && first == 'g' && last == 'g' {
        Some(ToggleKey::KeyG)
    } else if len == 1 && first == 'h' && last == 'h' {
        Some(ToggleKey::KeyH)
    } else if len == 1 && first == 'i' && last == 'i' {
        Some(ToggleKey::KeyI)
    } else if len == 1 && first == 'j' && last == 'j' {
        Some(ToggleKey::KeyJ)
    } else if len == 1 && first == 'k' && last == 'k' {
        Some(ToggleKey::KeyK)
    } else if len == 1 && first == 'l' && last == 'l' {
        Some(ToggleKey::KeyL)
    } else if len == 1 && first == 'm' && last == 'm' {
        Some(ToggleKey::KeyM)
    } else if len == 1 && first == 'n' && last == 'n' {
        Some(ToggleKey::KeyN)
    } else if len == 1 && first == 'o' && last == 'o' {
        Some(ToggleKey::KeyO)
    } else if len == 1 && first == 'p' && last == 'p' {
        Some(ToggleKey::KeyP)
    } else if len == 1 && first == 'q' && last == 'q' {
        Some(ToggleKey::KeyQ)
    } else if len == 1 && first == 'r' && last == 'r' {
        Some(ToggleKey::KeyR)
    } else if len == 1 && first == 's' && last == 's' {
        Some(ToggleKey::KeyS)
    } else if len == 1 && first == 't' && last == 't' {
        Some(ToggleKey::KeyT)
    } else if len == 1 && first == 'u' && last == 'u' {
        Some(ToggleKey::KeyU)
    } else if len == 1 && first == 'v' && last == 'v' {
        Some(ToggleKey::KeyV)
    } else if len == 1 && first == 'w' && last == 'w' {
        Some(ToggleKey::KeyW)
    } else if len == 1 && first == 'x' && last == 'x' {
        Some(ToggleKey::KeyX)
    } else if len == 1 && first == 'y' && last == 'y' {
        Some(ToggleKey::KeyY)
    } else if len == 1 && first == 'z' && last == 'z' {
        Some(ToggleKey::KeyZ)
    } else if len == 1 && first == '0' && last == '0' {
        Some(ToggleKey::Digit0)
    } else if len == 1 && first == '1' && last == '1' {
        Some(ToggleKey::Digit1)
    } else if len == 1 && first == '2' && last == '2' {
        Some(ToggleKey::Digit2)
    } else if len == 1 && first == '3' && last == '3' {
        Some(ToggleKey::Digit3)
    } else if len == 1 && first == '4' && last == '4' {
        Some(ToggleKey::Digit4)
    } else if len == 1 && first == '5' && last == '5' {
        Some(ToggleKey::Digit5)
    } else if len == 1 && first == '6' && last == '6' {
        Some(ToggleKey::Digit6)
    } else if len == 1 && first == '7' && last == '7' {
        Some(ToggleKey::Digit7)
    } else if len == 1 && first == '8' && last == '8' {
        Some(ToggleKey::Digit8)
    } else if len == 1 && first == '9' && last == '9' {
        Some(ToggleKey::Digit9)
    } else if len == 2 && first == 'f' && last == '1' {
        Some(ToggleKey::F1)
    } else if len == 2 && first == 'f' && last == '2' {
        Some(ToggleKey::F2)
    } else if len == 2 && first == 'f' && last == '3' {
        Some(ToggleKey::F3)
    } else if len == 2 && first == 'f' && last == '4' {
        Some(ToggleKey::F4)
    } else if len == 2 && first == 'f' && last == '5' {
        Some(ToggleKey::F5)
    } else if len == 2 && first == 'f' && last == '6' {
        Some(ToggleKey::F6)
    } else if len == 2 && first == 'f' && last == '7' {
        Some(ToggleKey::F7)
    } else if len == 2 && first == 'f' && last == '8' {
        Some(ToggleKey::F8)
    } else if len == 2 && first == 'f' && last == '9' {
        Some(ToggleKey::F9)
    } else if len == 3 && first == 'f' && last == '0' {
        Some(ToggleKey::F10)
    } else if len == 3 && first == 'f' && last == '1' {
        Some(ToggleKey::F11)
    } else if len == 3 && first == 'f' && last == '2' {
        Some(ToggleKey::F12)
    } else if len == 9 && first == 'b' && last == 'e' {
        Some(ToggleKey::Backquote)
    } else if len == 3 && first == 't' && last == 'b' {
        Some(ToggleKey::Tab)
    } else if len == 6 && first == 'i' && last == 't' {
        Some(ToggleKey::Insert)
    } else if len == 5 && first == 's' && last == 'e' {
        Some(ToggleKey::Space)
    } else if len == 6 && first == 'e' && last == 'e' {
        Some(ToggleKey::Escape)
    } else if len == 5 && first == 'e' && last == 'r' {
        Some(ToggleKey::Enter)
    } else if len == 9 && first == 'b' && last == 'h' {
        Some(ToggleKey::Backslash)
    } else if len == 5 && first == 'm' && last == 's' {
        Some(ToggleKey::Minus)
    } else if len == 5 && first == 'e' && last == 'l' {
        Some(ToggleKey::Equal)
    } else if len == 5 && first == 'c' && last == 'a' {
        Some(ToggleKey::Comma)
    } else if len == 6 && first == 'p' && last == 'd' {
        Some(ToggleKey::Period)
    } else if len == 5 && first == 's' && last == 'h' {
        Some(ToggleKey::Slash)
    } else if len == 9 && first == 's' && last == 'n' {
        Some(ToggleKey::Semicolon)
    } else {
        None
    }
}

/// The key a normalized name denotes: the key with that canonical name, else
/// the key of that alias. (Names are unique, so this is the same as looking
/// the name up in a table of canonical names and aliases.)
pub open spec fn spec_lookup(n: Seq<char>) -> Option<ToggleKey> {
    if exists|k: ToggleKey| spec_key_name(k) == n {
        Some(choose|k: ToggleKey| spec_key_name(k) == n)
    } else {
        spec_alias(n)
    }
}

/// Parse a key name: white space around it is ignored and ASCII letters may
/// be in any case.
pub open spec fn spec_parse_key(name: Seq<char>) -> Option<ToggleKey> {
    spec_lookup(spec_ascii_lower_seq(spec_trim(name)))
}

/// Every canonical name's fingerprint leads back to its key.
proof fn lemma_sig_identifies(k: ToggleKey)
    ensures
        spec_key_name(k).len() > 0,
        ({
            let s = spec_sig(spec_key_name(k));
            spec_key_of_sig(s.0, s.1, s.2) == Some(k)
        }),
{
}

/// Distinct keys have distinct canonical names.
proof fn lemma_names_injective(k1: ToggleKey, k2: ToggleKey)
    requires
        spec_key_name(k1) == spec_key_name(k2),
    ensures
        k1 == k2,
{
    lemma_sig_identifies(k1);
    lemma_sig_identifies(k2);
}

/// The canonical name of a key, as characters.
pub fn key_name_chars(k: ToggleKey) -> (r: Vec<char>)
    ensures
        r@ == spec_key_name(k),
{
    match k {
        ToggleKey::KeyA => vec!['a'],
        ToggleKey::KeyB => vec!['b'],
        ToggleKey::KeyC => vec!['c'],
        ToggleKey::KeyD => vec!['d'],
        ToggleKey::KeyE => vec!['e'],
        ToggleKey::KeyF => vec!['f'],
        ToggleKey::KeyG => vec!['g'],
        ToggleKey::KeyH => vec!['h'],
        ToggleKey::KeyI => vec!['i'],
        ToggleKey::KeyJ => vec!['j'],
        ToggleKey::KeyK => vec!['k'],
        ToggleKey::KeyL => vec!['l'],
        ToggleKey::KeyM => vec!['m'],
        ToggleKey::KeyN => vec!['n'],
        ToggleKey::KeyO => vec!['o'],
        ToggleKey::KeyP => vec!['p'],
        ToggleKey::KeyQ => vec!['q'],
        ToggleKey::KeyR => vec!['r'],
        ToggleKey::KeyS => vec!['s'],
        ToggleKey::KeyT => vec!['t'],
        ToggleKey::KeyU => vec!['u'],
        ToggleKey::KeyV => vec!['v'],
        ToggleKey::KeyW => vec!['w'],
        ToggleKey::KeyX => vec!['x'],
        ToggleKey::KeyY => vec!['y'],
        ToggleKey::KeyZ => vec!['z'],
        ToggleKey::Digit0 => vec!['0'],
        ToggleKey::Digit1 => vec!['1'],
        ToggleKey::Digit2 => vec!['2'],
        ToggleKey::Digit3 => vec!['3'],
        ToggleKey::Digit4 => vec!['4'],
        ToggleKey::Digit5 => vec!['5'],
        ToggleKey::Digit6 => vec!['6'],
        ToggleKey::Digit7 => vec!['7'],
        ToggleKey::Digit8 => vec!['8'],
        ToggleKey::Digit9 => vec!['9'],
        ToggleKey::F1 => vec!['f', '1'],
        ToggleKey::F2 => vec!['f', '2'],
        ToggleKey::F3 => vec!['f', '3'],
        ToggleKey::F4 => vec!['f', '4'],
        ToggleKey::F5 => vec!['f', '5'],
        ToggleKey::F6 => vec!['f', '6'],
        ToggleKey::F7 => vec!['f', '7'],
        ToggleKey::F8 => vec!['f', '8'],
        ToggleKey::F9 => vec!['f', '9'],
        ToggleKey::F10 => vec!['f', '1', '0'],
        ToggleKey::F11 => vec!['f', '1', '1'],
        ToggleKey::F12 => vec!['f', '1', '2'],
        ToggleKey::Backquote => vec!['b', 'a', 'c', 'k', 'q', 'u', 'o', 't', 'e'],
        ToggleKey::Tab => vec!['t', 'a', 'b'],
        ToggleKey::Insert => vec!['i', 'n', 's', 'e', 'r', 't'],
        ToggleKey::Space => vec!['s', 'p', 'a', 'c', 'e'],
        ToggleKey::Escape => vec!['e', 's', 'c', 'a', 'p', 'e'],
        ToggleKey::Enter => vec!['e', 'n', 't', 'e', 'r'],
        ToggleKey::Backslash => vec!['b', 'a', 'c', 'k', 's', 'l', 'a', 's', 'h'],
        ToggleKey::Minus => vec!['m', 'i', 'n', 'u', 's'],
        ToggleKey::Equal => vec!['e', 'q', 'u', 'a', 'l'],
        ToggleKey::Comma => vec!['c', 'o', 'm', 'm', 'a'],
        ToggleKey::Period => vec!['p', 'e', 'r', 'i', 'o', 'd'],
        ToggleKey::Slash => vec!['s', 'l', 'a', 's', 'h'],
        ToggleKey::Semicolon => vec!['s', 'e', 'm', 'i', 'c', 'o', 'l', 'o', 'n'],
    }
}

/// The canonical name of a key.
pub fn key_to_name(k: ToggleKey) -> (r: String)
    ensures
        r@ == spec_key_name(k),
{
    crate::text::string_from_chars(&key_name_chars(k))
}

/// Compare a character vector with a literal.
fn chars_eq(v: &Vec<char>, lit: &[char]) -> (r: bool)
    ensures
        r == (v@ == lit@),
{
    if v.len() != lit.len() {
        return false;
    }
    let n = v.len();
    let mut i: usize = 0;
    while i < n
        invariant
            n == v@.len(),
            n == lit@.len(),
            0 <= i <= n,
            forall|j: int| 0 <= j < i ==> v@[j] == lit@[j],
        decreases n - i,
    {
        if v[i] != lit[i] {
            return false;
        }
        i = i + 1;
    }
    assert(v@ =~= lit@);
    true
}

/// The key of an alias name, if it is one.
fn alias_of(n: &Vec<char>) -> (r: Option<ToggleKey>)
    ensures
        r == spec_alias(n@),
{
    if chars_eq(n, &['g', 'r', 'a', 'v', 'e']) {
        proof { assert(['g', 'r', 'a', 'v', 'e']@ == seq!['g', 'r', 'a', 'v', 'e']); }
        Some(ToggleKey::Backquote)
    } else if chars_eq(n, &['t', 'i', 'l', 'd', 'e']) {
        proof { assert(['t', 'i', 'l', 'd', 'e']@ == seq!['t', 'i', 'l', 'd', 'e']); }
        Some(ToggleKey::Backquote)
    } else if chars_eq(n, &['e', 's', 'c']) {
        proof { assert(['e', 's', 'c']@ == seq!['e', 's', 'c']); }
        Some(ToggleKey::Escape)
    } else if chars_eq(n, &['r', 'e', 't', 'u', 'r', 'n']) {
        proof { assert(['r', 'e', 't', 'u', 'r', 'n']@ == seq!['r', 'e', 't', 'u', 'r', 'n']); }
        Some(ToggleKey::Enter)
    } else {
        proof {
            assert(['g', 'r', 'a', 'v', 'e']@ == seq!['g', 'r', 'a', 'v', 'e']);
            assert(['t', 'i', 'l', 'd', 'e']@ == seq!['t', 'i', 'l', 'd', 'e']);
            assert(['e', 's', 'c']@ == seq!['e', 's', 'c']);
            assert(['r', 'e', 't', 'u', 'r', 'n']@ == seq!['r', 'e', 't', 'u', 'r', 'n']);
        }
        None
    }
}

/// The key whose canonical name has the fingerprint `(len, first, last)`.
fn key_of_sig(len: usize, first: char, last: char) -> (r: Option<ToggleKey>)
    ensures
        r == spec_key_of_sig(len as nat, first, last),
{
    if len == 1 && first == 'a' && last == 'a' {
        Some(ToggleKey::KeyA)
    } else if len == 1 && first == 'b' && last == 'b' {
        Some(ToggleKey::KeyB)
    } else if len == 1 && first == 'c' && last == 'c' {
        Some(ToggleKey::KeyC)
    } else if len == 1 && first == 'd' && last == 'd' {
        Some(ToggleKey::KeyD)
    } else if len == 1 && first == 'e' && last == 'e' {
        Some(ToggleKey::KeyE)
    } else if len == 1 && first == 'f' && last == 'f' {
        Some(ToggleKey::KeyF)
    } else if len == 1 && first == 'g' && last == 'g' {
        Some(ToggleKey::KeyG)
    } else if len == 1 && first == 'h' && last == 'h' {
        Some(ToggleKey::KeyH)
    } else if len == 1 && first == 'i' && last == 'i' {
        Some(ToggleKey::KeyI)
    } else if len == 1 && first == 'j' && last == 'j' {
        Some(ToggleKey::KeyJ)
    } else if len == 1 && first == 'k' && last == 'k' {
        Some(ToggleKey::KeyK)
    } else if len == 1 && first == 'l' && last == 'l' {
        Some(ToggleKey::KeyL)
    } else if len == 1 && first == 'm' && last == 'm' {
        Some(ToggleKey::KeyM)
    } else if len == 1 && first == 'n' && last == 'n' {
        Some(ToggleKey::KeyN)
    } else if len == 1 && first == 'o' && last == 'o' {
        Some(ToggleKey::KeyO)
    } else if len == 1 && first == 'p' && last == 'p' {
        Some(ToggleKey::KeyP)
    } else if len == 1 && first == 'q' && last == 'q' {
        Some(ToggleKey::KeyQ)
    } else if len == 1 && first == 'r' && last == 'r' {
        Some(ToggleKey::KeyR)
    } else if len == 1 && first == 's' && last == 's' {
        Some(ToggleKey::KeyS)
    } else if len == 1 && first == 't' && last == 't' {
        Some(ToggleKey::KeyT)
    } else if len == 1 && first == 'u' && last == 'u' {
        Some(ToggleKey::KeyU)
    } else if len == 1 && first == 'v' && last == 'v' {
        Some(ToggleKey::KeyV)
    } else if len == 1 && first == 'w' && last == 'w' {
        Some(ToggleKey::KeyW)
    } else if len == 1 && first == 'x' && last == 'x' {
        Some(ToggleKey::KeyX)
    } else if len == 1 && first == 'y' && last == 'y' {
        Some(ToggleKey::KeyY)
    } else if len == 1 && first == 'z' && last == 'z' {
        Some(ToggleKey::KeyZ)
    } else if len == 1 && first == '0' && last == '0' {
        Some(ToggleKey::Digit0)
    } else if len == 1 && first == '1' && last == '1' {
        Some(ToggleKey::Digit1)
    } else if len == 1 && first == '2' && last == '2' {
        Some(ToggleKey::Digit2)
    } else if len == 1 && first == '3' && last == '3' {
        Some(ToggleKey::Digit3)
    } else if len == 1 && first == '4' && last == '4' {
        Some(ToggleKey::Digit4)
    } else if len == 1 && first == '5' && last == '5' {
        Some(ToggleKey::Digit5)
    } else if len == 1 && first == '6' && last == '6' {
        Some(ToggleKey::Digit6)
    } else if len == 1 && first == '7' && last == '7' {
        Some(ToggleKey::Digit7)
    } else if len == 1 && first == '8' && last == '8' {
        Some(ToggleKey::Digit8)
    } else if len == 1 && first == '9' && last == '9' {
        Some(ToggleKey::Digit9)
    } else if len == 2 && first == 'f' && last == '1' {
        Some(ToggleKey::F1)
    } else if len == 2 && first == 'f' && last == '2' {
        Some(ToggleKey::F2)
    } else if len == 2 && first == 'f' && last == '3' {
        Some(ToggleKey::F3)
    } else if len == 2 && first == 'f' && last == '4' {
        Some(ToggleKey::F4)
    } else if len == 2 && first == 'f' && last == '5' {
        Some(ToggleKey::F5)
    } else if len == 2 && first == 'f' && last == '6' {
        Some(ToggleKey::F6)
    } else if len == 2 && first == 'f' && last == '7' {
        Some(ToggleKey::F7)
    } else if len == 2 && first == 'f' && last == '8' {
        Some(ToggleKey::F8)
    } else if len == 2 && first == 'f' && last == '9' {
        Some(ToggleKey::F9)
    } else if len == 3 && first == 'f' && last == '0' {
        Some(ToggleKey::F10)
    } else if len == 3 && first == 'f' && last == '1' {
        Some(ToggleKey::F11)
    } else if len == 3 && first == 'f' && last == '2' {
        Some(ToggleKey::F12)
    } else if len == 9 && first == 'b' && last == 'e' {
        Some(ToggleKey::Backquote)
    } else if len == 3 && first == 't' && last == 'b' {
        Some(ToggleKey::Tab)
    } else if len == 6 && first == 'i' && last == 't' {
        Some(ToggleKey::Insert)
    } else if len == 5 && first == 's' && last == 'e' {
        Some(ToggleKey::Space)
    } else if len == 6 && first == 'e' && last == 'e' {
        Some(ToggleKey::Escape)
    } else if len == 5 && first == 'e' && last == 'r' {
        Some(ToggleKey::Enter)
    } else if len == 9 && first == 'b' && last == 'h' {
        Some(ToggleKey::Backslash)
    } else if len == 5 && first == 'm' && last == 's' {
        Some(ToggleKey::Minus)
    } else if len == 5 && first == 'e' && last == 'l' {
        Some(ToggleKey::Equal)
    } else if len == 5 && first == 'c' && last == 'a' {
        Some(ToggleKey::Comma)
    } else if len == 6 && first == 'p' && last == 'd' {
        Some(ToggleKey::Period)
    } else if len == 5 && first == 's' && last == 'h' {
        Some(ToggleKey::Slash)
    } else if len == 9 && first == 's' && last == 'n' {
        Some(ToggleKey::Semicolon)
    } else {
        None
    }
}

/// Look up a normalized key name.
fn lookup(n: &Vec<char>) -> (r: Option<ToggleKey>)
    ensures
        r == spec_lookup(n@),
{
    if n.len() > 0 {
        let cand = key_of_sig(n.len(), n[0], n[n.len() - 1]);
        if let Some(k) = cand {
            let name = key_name_chars(k);
            if vec_chars_eq(&name, n) {
                proof {
                    assert(spec_key_name(k) == n@);
                    let c = choose|c: ToggleKey| spec_key_name(c) == n@;
                    lemma_names_injective(c, k);
                }
                return Some(k);
            }
        }
        proof {
            if exists|c: ToggleKey| spec_key_name(c) == n@ {
                let c = choose|c: ToggleKey| spec_key_name(c) == n@;
                lemma_sig_identifies(c);
                assert(spec_sig(n@) == (n@.len(), n@[0], n@[n@.len() - 1]));
                assert(false);
            }
        }
    } else {
        proof {
            if exists|c: ToggleKey| spec_key_name(c) == n@ {
                let c = choose|c: ToggleKey| spec_key_name(c) == n@;
                lemma_sig_identifies(c);
                assert(false);
            }
        }
    }
    alias_of(n)
}

/// Compare two character vectors.
fn vec_chars_eq(a: &Vec<char>, b: &Vec<char>) -> (r: bool)
    ensures
        r == (a@ == b@),
{
    if a.len() != b.len() {
        return false;
    }
    let n = a.len();
    let mut i: usize = 0;
    while i < n
        invariant
            n == a@.len(),
            n == b@.len(),
            0 <= i <= n,
            forall|j: int| 0 <= j < i ==> a@[j] == b@[j],
        decreases n - i,
    {
        if a[i] != b[i] {
            return false;
        }
        i = i + 1;
    }
    assert(a@ =~= b@);
    true
}

/// Parse a key name (case-insensitive, surrounding white space ignored) into
/// a key, or `None` if it names no known key.
pub fn parse_key(name: &str) -> (r: Option<ToggleKey>)
    ensures
        r == spec_parse_key(name@),
{
    let chars = chars_of(name);
    let trimmed = trim_chars(&chars);
    let lowered = ascii_lower_chars(&trimmed);
    lookup(&lowered)
}

/// Writing a key's name and parsing it back gives the same key: the
/// canonical names are unique and already normalized.
pub proof fn law_key_name_round_trips(k: ToggleKey)
    ensures
        spec_parse_key(spec_key_name(k)) == Some(k),
{
    let n = spec_key_name(k);
    assert(spec_trim(n) == n) by {
        lemma_name_is_trimmed(k);
    }
    assert(spec_ascii_lower_seq(n) =~= n) by {
        lemma_name_is_lower(k);
    }
    assert(exists|c: ToggleKey| spec_key_name(c) == n);
    let c = choose|c: ToggleKey| spec_key_name(c) == n;
    lemma_names_injective(c, k);
}

/// Canonical names contain no white space at their ends.
proof fn lemma_name_is_trimmed(k: ToggleKey)
    ensures
        spec_trim(spec_key_name(k)) == spec_key_name(k),
{
    let n = spec_key_name(k);
    assert(n.len() > 0);
    assert(!crate::text::spec_is_whitespace(n[0]));
    assert(crate::text::spec_trim_start(n) == n);
    assert(!crate::text::spec_is_whitespace(n.last()));
}

/// Canonical names contain no upper-case ASCII letters.
proof fn lemma_name_is_lower(k: ToggleKey)
    ensures
        spec_ascii_lower_seq(spec_key_name(k)) == spec_key_name(k),
{
    let n = spec_key_name(k);
    assert forall|i: int| 0 <= i < n.len() implies #[trigger] crate::text::spec_ascii_lower(n[i]) == n[i] by {
        assert(!('A' <= n[i] && n[i] <= 'Z'));
    }
    assert(spec_ascii_lower_seq(n) =~= n);
}

} // verus!
