//! Translation of xdotool-style key names (`Return`, `ctrl+c`, `shift+Up`, ...)
//! into the bytes a terminal sends for them.
use vstd::prelude::*;
use vstd::utf8::encode_utf8;

use crate::text::{rfind, rfind_char, split_all, split_on_char, str_chars, chars_are, views};

verus! {

// ---------------------------------------------------------------------------
// Specification
// ---------------------------------------------------------------------------

pub open spec fn is_ascii_upper(c: char) -> bool {
    'A' <= c && c <= 'Z'
}

pub open spec fn is_ascii_alpha(c: char) -> bool {
    ('A' <= c && c <= 'Z') || ('a' <= c && c <= 'z')
}

/// `char::to_ascii_lowercase`.
pub open spec fn ascii_lower(c: char) -> char {
    if is_ascii_upper(c) {
        ((c as u32) + 32) as char
    } else {
        c
    }
}

/// The word with its ASCII capitals made small.
pub open spec fn ascii_lowercase(w: Seq<char>) -> Seq<char> {
    w.map_values(|c: char| ascii_lower(c))
}

/// `ctrl` or `control`, in any case.
pub open spec fn is_ctrl_word(w: Seq<char>) -> bool {
    ascii_lowercase(w) == "ctrl"@ || ascii_lowercase(w) == "control"@
}

/// `alt` or `meta`, in any case.
pub open spec fn is_alt_word(w: Seq<char>) -> bool {
    ascii_lowercase(w) == "alt"@ || ascii_lowercase(w) == "meta"@
}

/// `shift` or `super`, in any case.
pub open spec fn is_shift_word(w: Seq<char>) -> bool {
    ascii_lowercase(w) == "shift"@ || ascii_lowercase(w) == "super"@
}

pub open spec fn is_modifier_word(w: Seq<char>) -> bool {
    is_ctrl_word(w) || is_alt_word(w) || is_shift_word(w)
}

pub open spec fn all_modifiers(parts: Seq<Seq<char>>) -> bool {
    forall|i: int| 0 <= i < parts.len() ==> #[trigger] is_modifier_word(parts[i])
}

pub open spec fn has_ctrl(parts: Seq<Seq<char>>) -> bool {
    exists|i: int| 0 <= i < parts.len() && #[trigger] is_ctrl_word(parts[i])
}

pub open spec fn has_alt(parts: Seq<Seq<char>>) -> bool {
    exists|i: int| 0 <= i < parts.len() && #[trigger] is_alt_word(parts[i])
}

pub open spec fn has_shift(parts: Seq<Seq<char>>) -> bool {
    exists|i: int| 0 <= i < parts.len() && #[trigger] is_shift_word(parts[i])
}

/// The control character of a letter: `a`/`A` is 1, ..., `z`/`Z` is 26.
pub open spec fn ctrl_byte(c: char) -> u8 {
    ((ascii_lower(c) as int) - ('a' as int) + 1) as u8
}

/// xterm's modifier parameter: 1, plus 1 for shift, 2 for alt, 4 for ctrl.
pub open spec fn modifier_param(shift: bool, alt: bool, ctrl: bool) -> u8 {
    (1 + (if shift { 1int } else { 0int }) + (if alt { 2int } else { 0int }) + (if ctrl {
        4int
    } else {
        0int
    })) as u8
}

/// The decimal digits of `n`, as ASCII bytes (`u8::to_string`).
pub open spec fn decimal_bytes(n: u8) -> Seq<u8> {
    if n < 10 {
        seq![(48 + n) as u8]
    } else if n < 100 {
        seq![(48 + n / 10) as u8, (48 + n % 10) as u8]
    } else {
        seq![(48 + n / 100) as u8, (48 + (n / 10) % 10) as u8, (48 + n % 10) as u8]
    }
}

/// `ESC [ lead ; param final`.
pub open spec fn csi_modified(lead: u8, param: u8, fin: u8) -> Seq<u8> {
    seq![0x1bu8, '[' as u8, lead, ';' as u8] + decimal_bytes(param) + seq![fin]
}

/// The xterm sequence of a special key pressed with modifiers.
pub open spec fn modified_special(base: Seq<char>, param: u8) -> Option<Seq<u8>> {
    if base == "Up"@ {
        Some(csi_modified('1' as u8, param, 'A' as u8))
    } else if base == "Down"@ {
        Some(csi_modified('1' as u8, param, 'B' as u8))
    } else if base == "Right"@ {
        Some(csi_modified('1' as u8, param, 'C' as u8))
    } else if base == "Left"@ {
        Some(csi_modified('1' as u8, param, 'D' as u8))
    } else if base == "Home"@ {
        Some(csi_modified('1' as u8, param, 'H' as u8))
    } else if base == "End"@ {
        Some(csi_modified('1' as u8, param, 'F' as u8))
    } else if base == "Insert"@ {
        Some(csi_modified('2' as u8, param, '~' as u8))
    } else if base == "Delete"@ || base == "KP_Delete"@ {
        Some(csi_modified('3' as u8, param, '~' as u8))
    } else if base == "Page_Up"@ || base == "Prior"@ {
        Some(csi_modified('5' as u8, param, '~' as u8))
    } else if base == "Page_Down"@ || base == "Next"@ {
        Some(csi_modified('6' as u8, param, '~' as u8))
    } else if base == "F1"@ {
        Some(csi_modified('1' as u8, param, 'P' as u8))
    } else if base == "F2"@ {
        Some(csi_modified('1' as u8, param, 'Q' as u8))
    } else if base == "F3"@ {
        Some(csi_modified('1' as u8, param, 'R' as u8))
    } else if base == "F4"@ {
        Some(csi_modified('1' as u8, param, 'S' as u8))
    } else {
        None
    }
}

/// The bytes of a key name without modifiers; a name that is not in the table
/// stands for its own UTF-8 text.
pub open spec fn simple_key_bytes(k: Seq<char>) -> Seq<u8> {
    if k == "Return"@ || k == "KP_Enter"@ || k == "Enter"@ {
        seq!['\r' as u8]
    } else if k == "BackSpace"@ {
        seq![0x7fu8]
    } else if k == "Tab"@ {
        seq!['\t' as u8]
    } else if k == "ISO_Left_Tab"@ {
        seq![0x1bu8, '[' as u8, 'Z' as u8]
    } else if k == "Escape"@ {
        seq![0x1bu8]
    } else if k == "space"@ || k == "Space"@ {
        seq![' ' as u8]
    } else if k == "Delete"@ || k == "KP_Delete"@ {
        seq![0x1bu8, '[' as u8, '3' as u8, '~' as u8]
    } else if k == "Insert"@ {
        seq![0x1bu8, '[' as u8, '2' as u8, '~' as u8]
    } else if k == "Home"@ {
        seq![0x1bu8, '[' as u8, 'H' as u8]
    } else if k == "End"@ {
        seq![0x1bu8, '[' as u8, 'F' as u8]
    } else if k == "Up"@ {
        seq![0x1bu8, '[' as u8, 'A' as u8]
    } else if k == "Down"@ {
        seq![0x1bu8, '[' as u8, 'B' as u8]
    } else if k == "Right"@ {
        seq![0x1bu8, '[' as u8, 'C' as u8]
    } else if k == "Left"@ {
        seq![0x1bu8, '[' as u8, 'D' as u8]
    } else if k == "Page_Up"@ || k == "Prior"@ {
        seq![0x1bu8, '[' as u8, '5' as u8, '~' as u8]
    } else if k == "Page_Down"@ || k == "Next"@ {
        seq![0x1bu8, '[' as u8, '6' as u8, '~' as u8]
    } else if k == "F1"@ {
        seq![0x1bu8, 'O' as u8, 'P' as u8]
    } else if k == "F2"@ {
        seq![0x1bu8, 'O' as u8, 'Q' as u8]
    } else if k == "F3"@ {
        seq![0x1bu8, 'O' as u8, 'R' as u8]
    } else if k == "F4"@ {
        seq![0x1bu8, 'O' as u8, 'S' as u8]
    } else if k == "F5"@ {
        seq![0x1bu8, '[' as u8, '1' as u8, '5' as u8, '~' as u8]
    } else if k == "F6"@ {
        seq![0x1bu8, '[' as u8, '1' as u8, '7' as u8, '~' as u8]
    } else if k == "F7"@ {
        seq![0x1bu8, '[' as u8, '1' as u8, '8' as u8, '~' as u8]
    } else if k == "F8"@ {
        seq![0x1bu8, '[' as u8, '1' as u8, '9' as u8, '~' as u8]
    } else if k == "F9"@ {
        seq![0x1bu8, '[' as u8, '2' as u8, '0' as u8, '~' as u8]
    } else if k == "F10"@ {
        seq![0x1bu8, '[' as u8, '2' as u8, '1' as u8, '~' as u8]
    } else if k == "F11"@ {
        seq![0x1bu8, '[' as u8, '2' as u8, '3' as u8, '~' as u8]
    } else if k == "F12"@ {
        seq![0x1bu8, '[' as u8, '2' as u8, '4' as u8, '~' as u8]
    } else {
        encode_utf8(k)
    }
}

/// The modifier names before the last `+` of a key.
pub open spec fn modifier_parts(key: Seq<char>, pos: int) -> Seq<Seq<char>> {
    split_all(key.take(pos), seq!['+'])
}

/// The bytes of a `modifiers+base` combination, where the modifiers are the
/// `+`-separated names before the last `+`; `None` when the key is no such
/// combination or the combination has no encoding of its own.
pub open spec fn combo_bytes(key: Seq<char>) -> Option<Seq<u8>> {
    match rfind_char(key, '+') {
        None => None,
        Some(pos) => {
            let parts = modifier_parts(key, pos);
            let base = key.skip(pos + 1);
            let ctrl = has_ctrl(parts);
            let alt = has_alt(parts);
            if !all_modifiers(parts) {
                None
            } else if ctrl && base.len() == 1 && is_ascii_alpha(base[0]) {
                if alt {
                    Some(seq![0x1bu8, ctrl_byte(base[0])])
                } else {
                    Some(seq![ctrl_byte(base[0])])
                }
            } else if alt && !ctrl {
                Some(seq![0x1bu8] + simple_key_bytes(base))
            } else {
                modified_special(base, modifier_param(has_shift(parts), alt, ctrl))
            }
        },
    }
}

/// What `key_to_bytes` sends for a key name.
pub open spec fn spec_key_to_bytes(key: Seq<char>) -> Seq<u8> {
    match combo_bytes(key) {
        Some(b) => b,
        None => simple_key_bytes(key),
    }
}

// ---------------------------------------------------------------------------
// Implementation
// ---------------------------------------------------------------------------

fn to_ascii_lower(c: char) -> (r: char)
    ensures
        r == ascii_lower(c),
{
    if 'A' <= c && c <= 'Z' {
        let b = (c as u32) + 32;
        proof {
            assert(b < 128);
        }
        char_from_ascii(b as u8)
    } else {
        c
    }
}

/// The character of an ASCII code.
fn char_from_ascii(b: u8) -> (c: char)
    requires
        b < 128,
    ensures
        c as u32 == b as u32,
{
    b as char
}

/// Whether `w`, with ASCII capitals made small, is exactly `lit`.
fn word_is(w: &Vec<char>, lit: &str) -> (r: bool)
    ensures
        r == (ascii_lowercase(w@) == lit@),
{
    let p = str_chars(lit);
    if p.len() != w.len() {
        proof {
            assert(ascii_lowercase(w@).len() == w@.len());
        }
        return false;
    }
    let mut i: usize = 0;
    while i < w.len()
        invariant
            p@ == lit@,
            p.len() == w.len(),
            i <= w.len(),
            forall|j: int| 0 <= j < i ==> ascii_lower(w@[j]) == p@[j],
        decreases w.len() - i,
    {
        if to_ascii_lower(w[i]) != p[i] {
            proof {
                assert(ascii_lowercase(w@)[i as int] != lit@[i as int]);
            }
            return false;
        }
        i += 1;
    }
    assert(ascii_lowercase(w@) =~= lit@);
    true
}

pub(crate) fn is_ctrl(w: &Vec<char>) -> (r: bool)
    ensures
        r == is_ctrl_word(w@),
{
    word_is(w, "ctrl") || word_is(w, "control")
}

pub(crate) fn is_alt(w: &Vec<char>) -> (r: bool)
    ensures
        r == is_alt_word(w@),
{
    word_is(w, "alt") || word_is(w, "meta")
}

pub(crate) fn is_shift(w: &Vec<char>) -> (r: bool)
    ensures
        r == is_shift_word(w@),
{
    word_is(w, "shift") || word_is(w, "super")
}

/// `u8::to_string` as bytes.
fn decimal(n: u8) -> (r: Vec<u8>)
    ensures
        r@ == decimal_bytes(n),
{
    if n < 10 {
        vec![48 + n]
    } else if n < 100 {
        vec![48 + n / 10, 48 + n % 10]
    } else {
        vec![48 + n / 100, 48 + (n / 10) % 10, 48 + n % 10]
    }
}

fn csi(lead: u8, param: u8, fin: u8) -> (r: Vec<u8>)
    ensures
        r@ == csi_modified(lead, param, fin),
{
    let mut r = vec![0x1bu8, '[' as u8, lead, ';' as u8];
    let mut d = decimal(param);
    r.append(&mut d);
    r.push(fin);
    r
}

/// Generate modified special key sequence using xterm-style encoding.
/// E.g., ctrl+Up → \x1b[1;5A, shift+Home → \x1b[1;2H
fn modified_special_key(base: &str, modifier_param: u8) -> (r: Option<Vec<u8>>)
    ensures
        match modified_special(base@, modifier_param) {
            Some(b) => r matches Some(v) && v@ == b,
            None => r is None,
        },
{
    let b = str_chars(base);
    if chars_are(&b, "Up") {
        Some(csi('1' as u8, modifier_param, 'A' as u8))
    } else if chars_are(&b, "Down") {
        Some(csi('1' as u8, modifier_param, 'B' as u8))
    } else if chars_are(&b, "Right") {
        Some(csi('1' as u8, modifier_param, 'C' as u8))
    } else if chars_are(&b, "Left") {
        Some(csi('1' as u8, modifier_param, 'D' as u8))
    } else if chars_are(&b, "Home") {
        Some(csi('1' as u8, modifier_param, 'H' as u8))
    } else if chars_are(&b, "End") {
        Some(csi('1' as u8, modifier_param, 'F' as u8))
    } else if chars_are(&b, "Insert") {
        Some(csi('2' as u8, modifier_param, '~' as u8))
    } else if chars_are(&b, "Delete") || chars_are(&b, "KP_Delete") {
        Some(csi('3' as u8, modifier_param, '~' as u8))
    } else if chars_are(&b, "Page_Up") || chars_are(&b, "Prior") {
        Some(csi('5' as u8, modifier_param, '~' as u8))
    } else if chars_are(&b, "Page_Down") || chars_are(&b, "Next") {
        Some(csi('6' as u8, modifier_param, '~' as u8))
    } else if chars_are(&b, "F1") {
        Some(csi('1' as u8, modifier_param, 'P' as u8))
    } else if chars_are(&b, "F2") {
        Some(csi('1' as u8, modifier_param, 'Q' as u8))
    } else if chars_are(&b, "F3") {
        Some(csi('1' as u8, modifier_param, 'R' as u8))
    } else if chars_are(&b, "F4") {
        Some(csi('1' as u8, modifier_param, 'S' as u8))
    } else {
        None
    }
}

/// The bytes of a key name without modifiers.
fn simple_key(key: &str) -> (r: Vec<u8>)
    ensures
        r@ == simple_key_bytes(key@),
{
    let k = str_chars(key);
    if chars_are(&k, "Return") || chars_are(&k, "KP_Enter") || chars_are(&k, "Enter") {
        vec!['\r' as u8]
    } else if chars_are(&k, "BackSpace") {
        vec![0x7f]
    } else if chars_are(&k, "Tab") {
        vec!['\t' as u8]
    } else if chars_are(&k, "ISO_Left_Tab") {
        vec![0x1b, '[' as u8, 'Z' as u8]
    } else if chars_are(&k, "Escape") {
        vec![0x1b]
    } else if chars_are(&k, "space") || chars_are(&k, "Space") {
        vec![' ' as u8]
    } else if chars_are(&k, "Delete") || chars_are(&k, "KP_Delete") {
        vec![0x1b, '[' as u8, '3' as u8, '~' as u8]
    } else if chars_are(&k, "Insert") {
        vec![0x1b, '[' as u8, '2' as u8, '~' as u8]
    } else if chars_are(&k, "Home") {
        vec![0x1b, '[' as u8, 'H' as u8]
    } else if chars_are(&k, "End") {
        vec![0x1b, '[' as u8, 'F' as u8]
    } else if chars_are(&k, "Up") {
        vec![0x1b, '[' as u8, 'A' as u8]
    } else if chars_are(&k, "Down") {
        vec![0x1b, '[' as u8, 'B' as u8]
    } else if chars_are(&k, "Right") {
        vec![0x1b, '[' as u8, 'C' as u8]
    } else if chars_are(&k, "Left") {
        vec![0x1b, '[' as u8, 'D' as u8]
    } else if chars_are(&k, "Page_Up") || chars_are(&k, "Prior") {
        vec![0x1b, '[' as u8, '5' as u8, '~' as u8]
    } else if chars_are(&k, "Page_Down") || chars_are(&k, "Next") {
        vec![0x1b, '[' as u8, '6' as u8, '~' as u8]
    } else if chars_are(&k, "F1") {
        vec![0x1b, 'O' as u8, 'P' as u8]
    } else if chars_are(&k, "F2") {
        vec![0x1b, 'O' as u8, 'Q' as u8]
    } else if chars_are(&k, "F3") {
        vec![0x1b, 'O' as u8, 'R' as u8]
    } else if chars_are(&k, "F4") {
        vec![0x1b, 'O' as u8, 'S' as u8]
    } else if chars_are(&k, "F5") {
        vec![0x1b, '[' as u8, '1' as u8, '5' as u8, '~' as u8]
    } else if chars_are(&k, "F6") {
        vec![0x1b, '[' as u8, '1' as u8, '7' as u8, '~' as u8]
    } else if chars_are(&k, "F7") {
        vec![0x1b, '[' as u8, '1' as u8, '8' as u8, '~' as u8]
    } else if chars_are(&k, "F8") {
        vec![0x1b, '[' as u8, '1' as u8, '9' as u8, '~' as u8]
    } else if chars_are(&k, "F9") {
        vec![0x1b, '[' as u8, '2' as u8, '0' as u8, '~' as u8]
    } else if chars_are(&k, "F10") {
        vec![0x1b, '[' as u8, '2' as u8, '1' as u8, '~' as u8]
    } else if chars_are(&k, "F11") {
        vec![0x1b, '[' as u8, '2' as u8, '3' as u8, '~' as u8]
    } else if chars_are(&k, "F12") {
        vec![0x1b, '[' as u8, '2' as u8, '4' as u8, '~' as u8]
    } else {
        key.as_bytes_vec()
    }
}

/// Which modifiers the `+`-separated names name, and whether all are modifiers.
fn classify_modifiers(parts: &Vec<Vec<char>>) -> (r: (bool, bool, bool, bool))
    ensures
        r.0 == all_modifiers(views(parts@)),
        r.1 == has_ctrl(views(parts@)),
        r.2 == has_alt(views(parts@)),
        r.3 == has_shift(views(parts@)),
{
    let ghost ps = views(parts@);
    let mut all = true;
    let mut ctrl = false;
    let mut alt = false;
    let mut shift = false;
    let mut i: usize = 0;
    while i < parts.len()
        invariant
            ps == views(parts@),
            i <= parts.len(),
            all == (forall|j: int| 0 <= j < i ==> #[trigger] is_modifier_word(ps[j])),
            ctrl == (exists|j: int| 0 <= j < i && #[trigger] is_ctrl_word(ps[j])),
            alt == (exists|j: int| 0 <= j < i && #[trigger] is_alt_word(ps[j])),
            shift == (exists|j: int| 0 <= j < i && #[trigger] is_shift_word(ps[j])),
        decreases parts.len() - i,
    {
        let c = is_ctrl(&parts[i]);
        let a = is_alt(&parts[i]);
        let s = is_shift(&parts[i]);
        proof {
            assert(ps[i as int] == parts@[i as int]@);
            if !(c || a || s) {
                assert(!is_modifier_word(ps[i as int]));
            }
            if all && (c || a || s) {
                assert forall|j: int| 0 <= j < i + 1 implies #[trigger] is_modifier_word(ps[j]) by {}
            }
            if c {
                assert(is_ctrl_word(ps[i as int]));
            }
            if a {
                assert(is_alt_word(ps[i as int]));
            }
            if s {
                assert(is_shift_word(ps[i as int]));
            }
        }
        all = all && (c || a || s);
        ctrl = ctrl || c;
        alt = alt || a;
        shift = shift || s;
        i += 1;
    }
    (all, ctrl, alt, shift)
}

/// Convert an xdotool-style key name to terminal escape sequence bytes.
pub fn key_to_bytes(key: &str) -> (r: Vec<u8>)
    ensures
        r@ == spec_key_to_bytes(key@),
{
    let k = str_chars(key);
    proof {
        crate::text::lemma_rfind_char(k@, '+');
    }
    if let Some(pos) = rfind(&k, '+') {
        let mods: Vec<char> = prefix(&k, pos);
        let parts = split_on_char(&mods, '+');
        let (all, ctrl, alt, shift) = classify_modifiers(&parts);
        let ghost base = k@.skip(pos + 1);
        proof {
            assert(mods@ == k@.take(pos as int));
            assert(views(parts@) == modifier_parts(k@, pos as int));
        }
        if all {
            let n = k.len();
            if ctrl && n - pos - 1 == 1 && is_letter(k[pos + 1]) {
                assert(base.len() == 1 && base[0] == k@[pos + 1]);
                let lower = to_ascii_lower(k[pos + 1]);
                let cb: u8 = (lower as u32 - 96) as u8;
                if alt {
                    return vec![0x1b, cb];
                }
                return vec![cb];
            }
            let base_str = key.substring_char(pos + 1, n);
            assert(base_str@ =~= base);
            if alt && !ctrl {
                let mut r = vec![0x1bu8];
                let mut b = simple_key(base_str);
                r.append(&mut b);
                return r;
            }
            let param: u8 = 1 + if shift { 1u8 } else { 0u8 } + if alt { 2u8 } else { 0u8 } + if ctrl {
                4u8
            } else {
                0u8
            };
            if let Some(bytes) = modified_special_key(base_str, param) {
                return bytes;
            }
        }
    }
    simple_key(key)
}

fn is_letter(c: char) -> (r: bool)
    ensures
        r == is_ascii_alpha(c),
{
    ('A' <= c && c <= 'Z') || ('a' <= c && c <= 'z')
}

/// The first `n` characters of `v`.
fn prefix(v: &Vec<char>, n: usize) -> (r: Vec<char>)
    requires
        n <= v.len(),
    ensures
        r@ == v@.take(n as int),
{
    let mut r: Vec<char> = Vec::new();
    let mut i: usize = 0;
    while i < n
        invariant
            i <= n <= v.len(),
            r@ == v@.take(i as int),
        decreases n - i,
    {
        r.push(v[i]);
        assert(v@.take(i + 1) =~= v@.take(i as int).push(v@[i as int]));
        i += 1;
    }
    r
}


// ---------------------------------------------------------------------------
// Laws
// ---------------------------------------------------------------------------

pub open spec fn no_plus(s: Seq<char>) -> bool {
    forall|i: int| 0 <= i < s.len() ==> s[i] != '+'
}

pub(crate) proof fn lemma_split_no_plus(w: Seq<char>)
    requires
        no_plus(w),
    ensures
        split_all(w, seq!['+']) == seq![w],
{
    assert forall|j: int| 0 <= j && j + 1 <= w.len() implies #[trigger] w.subrange(j, j + 1)
        != seq!['+'] by {
        assert(w.subrange(j, j + 1)[0] == w[j]);
    }
    crate::text::lemma_find_seq_none(w, seq!['+']);
}

proof fn lemma_split_two(m1: Seq<char>, m2: Seq<char>)
    requires
        no_plus(m1),
        no_plus(m2),
    ensures
        split_all(m1 + seq!['+'] + m2, seq!['+']) == seq![m1, m2],
{
    let s = m1 + seq!['+'] + m2;
    assert forall|j: int| 0 <= j < m1.len() implies #[trigger] s.subrange(j, j + 1) != seq![
        '+',
    ] by {
        assert(s.subrange(j, j + 1)[0] == m1[j]);
    }
    assert(s.subrange(m1.len() as int, m1.len() as int + 1) =~= seq!['+']);
    crate::text::lemma_find_seq_at(s, seq!['+'], m1.len() as int);
    assert(s.take(m1.len() as int) =~= m1);
    assert(s.skip(m1.len() as int + 1) =~= m2);
    lemma_split_no_plus(m2);
}

/// The last `+` of `m + "+" + base`, where `base` has none.
pub(crate) proof fn lemma_last_plus(m: Seq<char>, base: Seq<char>)
    requires
        no_plus(base),
    ensures
        rfind_char(m + seq!['+'] + base, '+') == Some(m.len() as int),
        (m + seq!['+'] + base).take(m.len() as int) == m,
        (m + seq!['+'] + base).skip(m.len() as int + 1) == base,
{
    let s = m + seq!['+'] + base;
    crate::text::lemma_rfind_char_at(s, '+', m.len() as int);
    assert(s.take(m.len() as int) =~= m);
    assert(s.skip(m.len() as int + 1) =~= base);
}

proof fn lemma_modifier_literals()
    ensures
        "ctrl"@.len() == 4,
        "control"@.len() == 7,
        "alt"@.len() == 3,
        "meta"@.len() == 4,
        "shift"@.len() == 5,
        "super"@.len() == 5,
        "ctrl"@ != "meta"@,
        "shift"@ != "super"@,
{
    reveal_strlit("ctrl");
    reveal_strlit("control");
    reveal_strlit("alt");
    reveal_strlit("meta");
    reveal_strlit("shift");
    reveal_strlit("super");
    assert("ctrl"@[0] != "meta"@[0]);
    assert("shift"@[1] != "super"@[1]);
}

pub(crate) proof fn lemma_word_kinds_distinct(w: Seq<char>)
    ensures
        is_ctrl_word(w) ==> !is_alt_word(w) && !is_shift_word(w),
        is_alt_word(w) ==> !is_shift_word(w),
        w.len() == 0 ==> !is_modifier_word(w),
{
    lemma_modifier_literals();
    assert(ascii_lowercase(w).len() == w.len());
}

/// A key name without `+` is looked up in the table of names, or else sent as
/// its own UTF-8 text.
pub proof fn law_plain_key(key: Seq<char>)
    requires
        no_plus(key),
    ensures
        spec_key_to_bytes(key) == simple_key_bytes(key),
{
    crate::text::lemma_rfind_char_none(key, '+');
}

/// The name of the function key `n`, from `F1` to `F12`.
pub open spec fn function_key_name(n: int) -> Seq<char> {
    if n == 1 {
        "F1"@
    } else if n == 2 {
        "F2"@
    } else if n == 3 {
        "F3"@
    } else if n == 4 {
        "F4"@
    } else if n == 5 {
        "F5"@
    } else if n == 6 {
        "F6"@
    } else if n == 7 {
        "F7"@
    } else if n == 8 {
        "F8"@
    } else if n == 9 {
        "F9"@
    } else if n == 10 {
        "F10"@
    } else if n == 11 {
        "F11"@
    } else if n == 12 {
        "F12"@
    } else {
        seq![]
    }
}

/// The number in xterm's `ESC [ number ~` for the function keys `F5` to
/// `F12`: 15, then 17 to 21, then 23 and 24 (16 and 22 are skipped).
pub open spec fn xterm_function_code(n: int) -> int {
    if n == 5 {
        15
    } else if n <= 10 {
        n + 11
    } else {
        n + 12
    }
}

/// `F1` to `F4` send `ESC O P` to `ESC O S`; `F5` to `F12` send `ESC [`, the
/// two digits of their xterm number, and `~`.
pub proof fn law_function_key_bytes(n: int)
    requires
        1 <= n <= 12,
    ensures
        n <= 4 ==> spec_key_to_bytes(function_key_name(n)) == seq![
            0x1bu8,
            'O' as u8,
            ('P' as int + n - 1) as u8,
        ],
        n >= 5 ==> spec_key_to_bytes(function_key_name(n)) == seq![
            0x1bu8,
            '[' as u8,
            (48 + xterm_function_code(n) / 10) as u8,
            (48 + xterm_function_code(n) % 10) as u8,
            '~' as u8,
        ],
{
    reveal_strlit("Return");
    reveal_strlit("KP_Enter");
    reveal_strlit("Enter");
    reveal_strlit("BackSpace");
    reveal_strlit("Tab");
    reveal_strlit("ISO_Left_Tab");
    reveal_strlit("Escape");
    reveal_strlit("space");
    reveal_strlit("Space");
    reveal_strlit("Delete");
    reveal_strlit("KP_Delete");
    reveal_strlit("Insert");
    reveal_strlit("Home");
    reveal_strlit("End");
    reveal_strlit("Up");
    reveal_strlit("Down");
    reveal_strlit("Right");
    reveal_strlit("Left");
    reveal_strlit("Page_Up");
    reveal_strlit("Prior");
    reveal_strlit("Page_Down");
    reveal_strlit("Next");
    reveal_strlit("F1");
    reveal_strlit("F2");
    reveal_strlit("F3");
    reveal_strlit("F4");
    reveal_strlit("F5");
    reveal_strlit("F6");
    reveal_strlit("F7");
    reveal_strlit("F8");
    reveal_strlit("F9");
    reveal_strlit("F10");
    reveal_strlit("F11");
    reveal_strlit("F12");
    let k = function_key_name(n);
    assert(no_plus(k));
    law_plain_key(k);
}

/// Different function keys send different bytes.
pub proof fn law_function_keys_distinct(i: int, j: int)
    requires
        1 <= i <= 12,
        1 <= j <= 12,
        i != j,
    ensures
        spec_key_to_bytes(function_key_name(i)) != spec_key_to_bytes(function_key_name(j)),
{
    law_function_key_bytes(i);
    law_function_key_bytes(j);
    let bi = spec_key_to_bytes(function_key_name(i));
    let bj = spec_key_to_bytes(function_key_name(j));
    if i <= 4 && j <= 4 {
        assert(bi[2] != bj[2]);
    } else if i >= 5 && j >= 5 {
        let ci = xterm_function_code(i);
        let cj = xterm_function_code(j);
        assert(ci != cj);
        assert(15 <= ci <= 24 && 15 <= cj <= 24);
        assert(bi[2] != bj[2] || bi[3] != bj[3]);
    } else {
        assert(bi.len() != bj.len());
    }
}

/// `alt+key` sends ESC followed by what `key` alone sends.
pub proof fn law_alt_prefix(m: Seq<char>, base: Seq<char>)
    requires
        is_alt_word(m),
        no_plus(m),
        no_plus(base),
    ensures
        spec_key_to_bytes(m + seq!['+'] + base) == seq![0x1bu8] + spec_key_to_bytes(base),
{
    let key = m + seq!['+'] + base;
    lemma_last_plus(m, base);
    lemma_split_no_plus(m);
    lemma_word_kinds_distinct(m);
    let parts = modifier_parts(key, m.len() as int);
    assert(parts == seq![m]);
    assert(is_modifier_word(parts[0]));
    assert(all_modifiers(parts));
    assert(is_alt_word(parts[0]));
    assert(has_alt(parts));
    assert(!has_ctrl(parts));
    law_plain_key(base);
}

/// `ctrl+letter` sends the letter's control character, 1 for `a` to 26 for `z`,
/// whatever the letter's case; with `alt` as well, ESC comes first.
pub proof fn law_ctrl_letter(m: Seq<char>, c: char)
    requires
        is_ctrl_word(m),
        no_plus(m),
        is_ascii_alpha(c),
    ensures
        spec_key_to_bytes(m + seq!['+'] + seq![c]) == seq![ctrl_byte(c)],
        1 <= ctrl_byte(c) <= 26,
        ctrl_byte(c) == ctrl_byte(ascii_lower(c)),
{
    let key = m + seq!['+'] + seq![c];
    lemma_last_plus(m, seq![c]);
    lemma_split_no_plus(m);
    lemma_word_kinds_distinct(m);
    let parts = modifier_parts(key, m.len() as int);
    assert(parts == seq![m]);
    assert(is_modifier_word(parts[0]));
    assert(all_modifiers(parts));
    assert(is_ctrl_word(parts[0]));
    assert(has_ctrl(parts));
    assert(!has_alt(parts));
    assert(key.skip(m.len() as int + 1) == seq![c]);
}

/// `ctrl+alt+letter` (in either order) sends ESC and the control character.
pub proof fn law_ctrl_alt_letter(m1: Seq<char>, m2: Seq<char>, c: char)
    requires
        (is_ctrl_word(m1) && is_alt_word(m2)) || (is_alt_word(m1) && is_ctrl_word(m2)),
        no_plus(m1),
        no_plus(m2),
        is_ascii_alpha(c),
    ensures
        spec_key_to_bytes(m1 + seq!['+'] + m2 + seq!['+'] + seq![c]) == seq![
            0x1bu8,
            ctrl_byte(c),
        ],
{
    let mods = m1 + seq!['+'] + m2;
    assert(no_plus(seq![c]));
    lemma_last_plus(mods, seq![c]);
    lemma_split_two(m1, m2);
    let key = mods + seq!['+'] + seq![c];
    let parts = modifier_parts(key, mods.len() as int);
    assert(parts == seq![m1, m2]);
    assert(is_modifier_word(parts[0]) && is_modifier_word(parts[1]));
    assert(all_modifiers(parts));
    lemma_word_kinds_distinct(m1);
    lemma_word_kinds_distinct(m2);
    if is_ctrl_word(m1) {
        assert(is_ctrl_word(parts[0]) && is_alt_word(parts[1]));
    } else {
        assert(is_alt_word(parts[0]) && is_ctrl_word(parts[1]));
    }
    assert(has_ctrl(parts) && has_alt(parts));
}

/// The order in which modifiers are written does not matter.
pub proof fn law_modifier_order(m1: Seq<char>, m2: Seq<char>, base: Seq<char>)
    requires
        is_modifier_word(m1),
        is_modifier_word(m2),
        no_plus(m1),
        no_plus(m2),
        no_plus(base),
    ensures
        combo_bytes(m1 + seq!['+'] + m2 + seq!['+'] + base) == combo_bytes(
            m2 + seq!['+'] + m1 + seq!['+'] + base,
        ),
{
    let a = m1 + seq!['+'] + m2;
    let b = m2 + seq!['+'] + m1;
    lemma_last_plus(a, base);
    lemma_last_plus(b, base);
    lemma_split_two(m1, m2);
    lemma_split_two(m2, m1);
    let pa = modifier_parts(a + seq!['+'] + base, a.len() as int);
    let pb = modifier_parts(b + seq!['+'] + base, b.len() as int);
    assert(pa == seq![m1, m2]);
    assert(pb == seq![m2, m1]);
    assert(all_modifiers(pa)) by {
        assert(is_modifier_word(pa[0]) && is_modifier_word(pa[1]));
    }
    assert(all_modifiers(pb)) by {
        assert(is_modifier_word(pb[0]) && is_modifier_word(pb[1]));
    }
    assert(has_ctrl(pa) == has_ctrl(pb)) by {
        if is_ctrl_word(m1) {
            assert(is_ctrl_word(pa[0]) && is_ctrl_word(pb[1]));
        }
        if is_ctrl_word(m2) {
            assert(is_ctrl_word(pa[1]) && is_ctrl_word(pb[0]));
        }
    }
    assert(has_alt(pa) == has_alt(pb)) by {
        if is_alt_word(m1) {
            assert(is_alt_word(pa[0]) && is_alt_word(pb[1]));
        }
        if is_alt_word(m2) {
            assert(is_alt_word(pa[1]) && is_alt_word(pb[0]));
        }
    }
    assert(has_shift(pa) == has_shift(pb)) by {
        if is_shift_word(m1) {
            assert(is_shift_word(pa[0]) && is_shift_word(pb[1]));
        }
        if is_shift_word(m2) {
            assert(is_shift_word(pa[1]) && is_shift_word(pb[0]));
        }
    }
}

/// Modifier names are recognised whatever their letters' case: two spellings
/// that differ only in case give the same combination.
pub proof fn law_modifier_case(m1: Seq<char>, m2: Seq<char>, base: Seq<char>)
    requires
        ascii_lowercase(m1) == ascii_lowercase(m2),
        no_plus(m1),
        no_plus(m2),
        no_plus(base),
    ensures
        combo_bytes(m1 + seq!['+'] + base) == combo_bytes(m2 + seq!['+'] + base),
{
    lemma_last_plus(m1, base);
    lemma_last_plus(m2, base);
    lemma_split_no_plus(m1);
    lemma_split_no_plus(m2);
    let pa = modifier_parts(m1 + seq!['+'] + base, m1.len() as int);
    let pb = modifier_parts(m2 + seq!['+'] + base, m2.len() as int);
    assert(pa == seq![m1]);
    assert(pb == seq![m2]);
    assert(all_modifiers(pa) == all_modifiers(pb)) by {
        assert(is_modifier_word(pa[0]) == is_modifier_word(pb[0]));
    }
    assert(has_ctrl(pa) == has_ctrl(pb)) by {
        assert(is_ctrl_word(pa[0]) == is_ctrl_word(pb[0]));
    }
    assert(has_alt(pa) == has_alt(pb)) by {
        assert(is_alt_word(pa[0]) == is_alt_word(pb[0]));
    }
    assert(has_shift(pa) == has_shift(pb)) by {
        assert(is_shift_word(pa[0]) == is_shift_word(pb[0]));
    }
}

/// The modifier parameter of the xterm encoding: shift=2, alt=3, shift+alt=4,
/// ctrl=5, shift+ctrl=6, alt+ctrl=7, shift+alt+ctrl=8.
pub proof fn law_modifier_param_table()
    ensures
        modifier_param(true, false, false) == 2,
        modifier_param(false, true, false) == 3,
        modifier_param(true, true, false) == 4,
        modifier_param(false, false, true) == 5,
        modifier_param(true, false, true) == 6,
        modifier_param(false, true, true) == 7,
        modifier_param(true, true, true) == 8,
{
}

/// A single character is sent as its own UTF-8 bytes; an ASCII character as
/// its one byte.
pub proof fn law_single_char(c: char)
    ensures
        spec_key_to_bytes(seq![c]) == encode_utf8(seq![c]),
        (c as u32) < 128 ==> spec_key_to_bytes(seq![c]) == seq![c as u8],
{
    let k = seq![c];
    crate::text::lemma_rfind_char(k, '+');
    if c == '+' {
        assert(k.take(0) =~= Seq::<char>::empty());
        lemma_split_no_plus(Seq::<char>::empty());
        let parts = modifier_parts(k, 0);
        assert(parts == seq![Seq::<char>::empty()]);
        lemma_word_kinds_distinct(parts[0]);
        assert(!is_modifier_word(parts[0]));
        assert(!all_modifiers(parts));
    }
    reveal_strlit("Return");
    reveal_strlit("KP_Enter");
    reveal_strlit("Enter");
    reveal_strlit("BackSpace");
    reveal_strlit("Tab");
    reveal_strlit("ISO_Left_Tab");
    reveal_strlit("Escape");
    reveal_strlit("space");
    reveal_strlit("Space");
    reveal_strlit("Delete");
    reveal_strlit("KP_Delete");
    reveal_strlit("Insert");
    reveal_strlit("Home");
    reveal_strlit("End");
    reveal_strlit("Up");
    reveal_strlit("Down");
    reveal_strlit("Right");
    reveal_strlit("Left");
    reveal_strlit("Page_Up");
    reveal_strlit("Prior");
    reveal_strlit("Page_Down");
    reveal_strlit("Next");
    reveal_strlit("F1");
    reveal_strlit("F2");
    reveal_strlit("F3");
    reveal_strlit("F4");
    reveal_strlit("F5");
    reveal_strlit("F6");
    reveal_strlit("F7");
    reveal_strlit("F8");
    reveal_strlit("F9");
    reveal_strlit("F10");
    reveal_strlit("F11");
    reveal_strlit("F12");
    assert(simple_key_bytes(k) == encode_utf8(k));
    if (c as u32) < 128 {
        vstd::utf8::is_ascii_chars_encode_utf8(k);
        assert(encode_utf8(k) =~= seq![c as u8]);
    }
}

/// Modifier names joined by `+`.
pub open spec fn join_plus(ms: Seq<Seq<char>>) -> Seq<char>
    decreases ms.len(),
{
    if ms.len() <= 1 {
        if ms.len() == 1 {
            ms[0]
        } else {
            seq![]
        }
    } else {
        ms[0] + seq!['+'] + join_plus(ms.drop_first())
    }
}

pub open spec fn all_no_plus(ms: Seq<Seq<char>>) -> bool {
    forall|i: int| 0 <= i < ms.len() ==> #[trigger] no_plus(ms[i])
}

pub(crate) proof fn lemma_split_first(m: Seq<char>, rest: Seq<char>)
    requires
        no_plus(m),
    ensures
        split_all(m + seq!['+'] + rest, seq!['+']) == seq![m] + split_all(rest, seq!['+']),
{
    let s = m + seq!['+'] + rest;
    assert forall|j: int| 0 <= j < m.len() implies #[trigger] s.subrange(j, j + 1) != seq![
        '+',
    ] by {
        assert(s.subrange(j, j + 1)[0] == m[j]);
    }
    assert(s.subrange(m.len() as int, m.len() as int + 1) =~= seq!['+']);
    crate::text::lemma_find_seq_at(s, seq!['+'], m.len() as int);
    assert(s.take(m.len() as int) =~= m);
    assert(s.skip(m.len() as int + 1) =~= rest);
}

/// Splitting names joined by `+` at `+` gives the names back.
pub(crate) proof fn lemma_split_join(ms: Seq<Seq<char>>)
    requires
        ms.len() >= 1,
        all_no_plus(ms),
    ensures
        split_all(join_plus(ms), seq!['+']) == ms,
    decreases ms.len(),
{
    assert(no_plus(ms[0]));
    if ms.len() == 1 {
        lemma_split_no_plus(ms[0]);
        assert(seq![ms[0]] =~= ms);
    } else {
        let rest = ms.drop_first();
        assert forall|i: int| 0 <= i < rest.len() implies #[trigger] no_plus(rest[i]) by {
            assert(rest[i] == ms[i + 1]);
        }
        lemma_split_join(rest);
        lemma_split_first(ms[0], join_plus(rest));
        assert(seq![ms[0]] + rest =~= ms);
    }
}

/// A key made of names joined by `+`, a `+` and a base without `+` splits
/// back into those names and that base.
pub(crate) proof fn lemma_combo_parts(ms: Seq<Seq<char>>, base: Seq<char>)
    requires
        ms.len() >= 1,
        all_no_plus(ms),
        no_plus(base),
    ensures
        rfind_char(join_plus(ms) + seq!['+'] + base, '+') == Some(join_plus(ms).len() as int),
        modifier_parts(join_plus(ms) + seq!['+'] + base, join_plus(ms).len() as int) == ms,
        (join_plus(ms) + seq!['+'] + base).skip(join_plus(ms).len() as int + 1) == base,
{
    lemma_last_plus(join_plus(ms), base);
    lemma_split_join(ms);
}

/// Any list of modifiers with `alt` (or `meta`) in it and no `ctrl` sends ESC
/// followed by what the key alone sends.
pub proof fn law_alt_prefix_list(ms: Seq<Seq<char>>, base: Seq<char>)
    requires
        ms.len() >= 1,
        all_no_plus(ms),
        no_plus(base),
        forall|i: int| 0 <= i < ms.len() ==> #[trigger] is_alt_word(ms[i]) || is_shift_word(ms[i]),
        exists|i: int| 0 <= i < ms.len() && #[trigger] is_alt_word(ms[i]),
    ensures
        spec_key_to_bytes(join_plus(ms) + seq!['+'] + base) == seq![0x1bu8] + spec_key_to_bytes(
            base,
        ),
{
    lemma_combo_parts(ms, base);
    assert(all_modifiers(ms)) by {
        assert forall|i: int| 0 <= i < ms.len() implies #[trigger] is_modifier_word(ms[i]) by {
            assert(is_alt_word(ms[i]) || is_shift_word(ms[i]));
        }
    }
    assert(!has_ctrl(ms)) by {
        assert forall|i: int| 0 <= i < ms.len() implies !#[trigger] is_ctrl_word(ms[i]) by {
            lemma_word_kinds_distinct(ms[i]);
            assert(is_alt_word(ms[i]) || is_shift_word(ms[i]));
        }
    }
    assert(has_alt(ms));
    law_plain_key(base);
}

/// A letter under any list of modifiers with `ctrl` (or `control`) in it
/// sends the letter's control character, 1 for `a` to 26 for `z` in either
/// case, after ESC when `alt` (or `meta`) is in the list too.
pub proof fn law_ctrl_letter_list(ms: Seq<Seq<char>>, c: char)
    requires
        ms.len() >= 1,
        all_no_plus(ms),
        all_modifiers(ms),
        exists|i: int| 0 <= i < ms.len() && #[trigger] is_ctrl_word(ms[i]),
        is_ascii_alpha(c),
    ensures
        spec_key_to_bytes(join_plus(ms) + seq!['+'] + seq![c]) == if has_alt(ms) {
            seq![0x1bu8, ctrl_byte(c)]
        } else {
            seq![ctrl_byte(c)]
        },
        1 <= ctrl_byte(c) <= 26,
        ctrl_byte(c) == ctrl_byte(ascii_lower(c)),
{
    assert(no_plus(seq![c]));
    lemma_combo_parts(ms, seq![c]);
    assert(has_ctrl(ms));
}

/// The names of the special keys, told apart by their length and first two
/// characters.
proof fn lemma_special_names()
    ensures
        "Up"@.len() == 2 && "Up"@[0] == 'U' && "Up"@[1] == 'p',
        "Down"@.len() == 4 && "Down"@[0] == 'D' && "Down"@[1] == 'o',
        "Right"@.len() == 5 && "Right"@[0] == 'R' && "Right"@[1] == 'i',
        "Left"@.len() == 4 && "Left"@[0] == 'L' && "Left"@[1] == 'e',
        "Home"@.len() == 4 && "Home"@[0] == 'H' && "Home"@[1] == 'o',
        "End"@.len() == 3 && "End"@[0] == 'E' && "End"@[1] == 'n',
        "Insert"@.len() == 6 && "Insert"@[0] == 'I' && "Insert"@[1] == 'n',
        "Delete"@.len() == 6 && "Delete"@[0] == 'D' && "Delete"@[1] == 'e',
        "KP_Delete"@.len() == 9 && "KP_Delete"@[0] == 'K' && "KP_Delete"@[1] == 'P',
        "Page_Up"@.len() == 7 && "Page_Up"@[0] == 'P' && "Page_Up"@[1] == 'a',
        "Prior"@.len() == 5 && "Prior"@[0] == 'P' && "Prior"@[1] == 'r',
        "Page_Down"@.len() == 9 && "Page_Down"@[0] == 'P' && "Page_Down"@[1] == 'a',
        "Next"@.len() == 4 && "Next"@[0] == 'N' && "Next"@[1] == 'e',
        "F1"@.len() == 2 && "F1"@[0] == 'F' && "F1"@[1] == '1',
        "F2"@.len() == 2 && "F2"@[0] == 'F' && "F2"@[1] == '2',
        "F3"@.len() == 2 && "F3"@[0] == 'F' && "F3"@[1] == '3',
        "F4"@.len() == 2 && "F4"@[0] == 'F' && "F4"@[1] == '4',
{
    reveal_strlit("Up");
    reveal_strlit("Down");
    reveal_strlit("Right");
    reveal_strlit("Left");
    reveal_strlit("Home");
    reveal_strlit("End");
    reveal_strlit("Insert");
    reveal_strlit("Delete");
    reveal_strlit("KP_Delete");
    reveal_strlit("Page_Up");
    reveal_strlit("Prior");
    reveal_strlit("Page_Down");
    reveal_strlit("Next");
    reveal_strlit("F1");
    reveal_strlit("F2");
    reveal_strlit("F3");
    reveal_strlit("F4");
}

/// The special keys that have an xterm encoding with modifiers, and that
/// encoding: `ESC [ lead ; param final`.
pub proof fn law_modified_special_table(base: Seq<char>, p: u8)
    ensures
        modified_special(base, p) is Some <==> (base == "Up"@ || base == "Down"@ || base
            == "Right"@ || base == "Left"@ || base == "Home"@ || base == "End"@ || base
            == "Insert"@ || base == "Delete"@ || base == "KP_Delete"@ || base == "Page_Up"@
            || base == "Prior"@ || base == "Page_Down"@ || base == "Next"@ || base == "F1"@
            || base == "F2"@ || base == "F3"@ || base == "F4"@),
        base == "Up"@ ==> modified_special(base, p) == Some(csi_modified('1' as u8, p, 'A' as u8)),
        base == "Down"@ ==> modified_special(base, p) == Some(
            csi_modified('1' as u8, p, 'B' as u8),
        ),
        base == "Right"@ ==> modified_special(base, p) == Some(
            csi_modified('1' as u8, p, 'C' as u8),
        ),
        base == "Left"@ ==> modified_special(base, p) == Some(
            csi_modified('1' as u8, p, 'D' as u8),
        ),
        base == "Home"@ ==> modified_special(base, p) == Some(
            csi_modified('1' as u8, p, 'H' as u8),
        ),
        base == "End"@ ==> modified_special(base, p) == Some(
            csi_modified('1' as u8, p, 'F' as u8),
        ),
        base == "Insert"@ ==> modified_special(base, p) == Some(
            csi_modified('2' as u8, p, '~' as u8),
        ),
        base == "Delete"@ || base == "KP_Delete"@ ==> modified_special(base, p) == Some(
            csi_modified('3' as u8, p, '~' as u8),
        ),
        base == "Page_Up"@ || base == "Prior"@ ==> modified_special(base, p) == Some(
            csi_modified('5' as u8, p, '~' as u8),
        ),
        base == "Page_Down"@ || base == "Next"@ ==> modified_special(base, p) == Some(
            csi_modified('6' as u8, p, '~' as u8),
        ),
        base == "F1"@ ==> modified_special(base, p) == Some(csi_modified('1' as u8, p, 'P' as u8)),
        base == "F2"@ ==> modified_special(base, p) == Some(csi_modified('1' as u8, p, 'Q' as u8)),
        base == "F3"@ ==> modified_special(base, p) == Some(csi_modified('1' as u8, p, 'R' as u8)),
        base == "F4"@ ==> modified_special(base, p) == Some(csi_modified('1' as u8, p, 'S' as u8)),
        p < 10 ==> decimal_bytes(p) == seq![(48 + p) as u8],
{
    lemma_special_names();
}

} // verus!
