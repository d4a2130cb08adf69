//! The small rules: user names, roles, identifiers, passwords, tax and colours.

use crate::clock::{is_digit, now_millis};
use crate::double::{
    by_hundred, difference, hundredth, is_less, less, minus, product, times, to_whole, whole,
};
use crate::json::{clean_text, opt, plain, Json, Value};
use crate::text::{
    chars_of, decimal, decimal_text, lowercase, numeral, padded, padded_text, same_text, text_of,
    to_lowercase, trim, trimmed,
};
use vstd::prelude::*;

verus! {

// ----- user names and roles -----

/// A user name: at least four decimal digits.
pub open spec fn username_shape(s: Seq<char>) -> bool {
    s.len() >= 4 && forall|i: int| 0 <= i < s.len() ==> is_digit(#[trigger] s[i])
}

/// Whether `v` is a user name.
pub fn is_username(v: &str) -> (r: bool)
    ensures
        r == username_shape(v@),
{
    let cs: Vec<char> = chars_of(v);
    let mut i: usize = 0;
    while i < cs.len()
        invariant
            cs@ == v@,
            i <= cs@.len(),
            forall|j: int| 0 <= j < i ==> is_digit(#[trigger] v@[j]),
        decreases cs@.len() - i,
    {
        let c: char = cs[i];
        if !('0' <= c && c <= '9') {
            assert(!is_digit(v@[i as int]));
            return false;
        }
        i = i + 1;
    }
    cs.len() >= 4
}

/// The three roles.
pub open spec fn is_role(s: Seq<char>) -> bool {
    s == "admin"@ || s == "encargado"@ || s == "cajero"@
}

/// The role that a text names, in capitals or not; a text that names none means a cashier.
pub open spec fn role_named(s: Seq<char>) -> Seq<char> {
    if is_role(lowercase(s)) {
        lowercase(s)
    } else {
        "cajero"@
    }
}

/// The role that a text names.
pub fn normalize_role(v: &str) -> (r: String)
    ensures
        r@ == role_named(v@),
{
    let l: String = to_lowercase(v);
    if same_text(l.as_str(), "admin") || same_text(l.as_str(), "encargado") || same_text(
        l.as_str(),
        "cajero",
    ) {
        l
    } else {
        "cajero".to_owned()
    }
}

// ----- identifiers -----

/// Whether `c` is an ASCII letter or digit.
pub open spec fn is_alphanumeric(c: char) -> bool {
    'a' <= c <= 'z' || 'A' <= c <= 'Z' || '0' <= c <= '9'
}

/// The letter under an accent; any other character is its own.
pub open spec fn without_accent(c: char) -> char {
    if c == '\u{e1}' {
        'a'
    } else if c == '\u{e9}' {
        'e'
    } else if c == '\u{ed}' {
        'i'
    } else if c == '\u{f3}' {
        'o'
    } else if c == '\u{fa}' || c == '\u{fc}' {
        'u'
    } else if c == '\u{f1}' {
        'n'
    } else {
        c
    }
}

/// The letters and digits of `s`, with one underscore for what stands between two groups of them,
/// and one for what follows the last group.
pub open spec fn squeezed(s: Seq<char>) -> Seq<char>
    decreases s.len(),
{
    if s.len() == 0 {
        s
    } else {
        let before = squeezed(s.drop_last());
        if is_alphanumeric(s.last()) {
            before.push(s.last())
        } else if before.len() > 0 && before.last() != '_' {
            before.push('_')
        } else {
            before
        }
    }
}

/// `s` without the underscores at its end.
pub open spec fn stripped(s: Seq<char>) -> Seq<char>
    decreases s.len(),
{
    if s.len() > 0 && s.last() == '_' {
        stripped(s.drop_last())
    } else {
        s
    }
}

/// The identifier made from a name in small letters.
pub open spec fn lowered_slug(s: Seq<char>) -> Seq<char> {
    stripped(squeezed(s.map_values(|c: char| without_accent(c))))
}

/// The identifier made from a name; empty where the name holds no letter and no digit.
pub open spec fn bare_slug(s: Seq<char>) -> Seq<char> {
    lowered_slug(lowercase(trimmed(s)))
}

/// The identifier made from a name, at a moment in milliseconds.
pub open spec fn slug_of(s: Seq<char>, now: i64) -> Seq<char> {
    if bare_slug(s).len() == 0 {
        "item_"@ + decimal(now as int)
    } else {
        bare_slug(s)
    }
}

/// The identifier made from a name in small letters; empty where the name holds no letter and no
/// digit.
pub fn slug_of_lowered(lowered: &str) -> (r: String)
    ensures
        r@ == lowered_slug(lowered@),
{
    let cs: Vec<char> = chars_of(lowered);
    let ghost plain_chars: Seq<char> = cs@.map_values(|c: char| without_accent(c));
    let mut out: Vec<char> = Vec::new();
    let mut i: usize = 0;
    while i < cs.len()
        invariant
            i <= cs@.len(),
            plain_chars == cs@.map_values(|c: char| without_accent(c)),
            out@ == squeezed(plain_chars.take(i as int)),
        decreases cs@.len() - i,
    {
        let c: char = cs[i];
        let d: char = if c == '\u{e1}' {
            'a'
        } else if c == '\u{e9}' {
            'e'
        } else if c == '\u{ed}' {
            'i'
        } else if c == '\u{f3}' {
            'o'
        } else if c == '\u{fa}' || c == '\u{fc}' {
            'u'
        } else if c == '\u{f1}' {
            'n'
        } else {
            c
        };
        proof {
            assert(plain_chars.take(i + 1).drop_last() =~= plain_chars.take(i as int));
            assert(plain_chars.take(i + 1).last() == d);
        }
        if ('a' <= d && d <= 'z') || ('A' <= d && d <= 'Z') || ('0' <= d && d <= '9') {
            out.push(d);
        } else if out.len() > 0 && out[out.len() - 1] != '_' {
            out.push('_');
        }
        i = i + 1;
    }
    proof {
        assert(plain_chars.take(i as int) =~= plain_chars);
    }
    let mut n: usize = out.len();
    proof {
        assert(out@.take(n as int) =~= out@);
    }
    while n > 0 && out[n - 1] == '_'
        invariant
            n <= out@.len(),
            stripped(out@) == stripped(out@.take(n as int)),
        decreases n,
    {
        proof {
            assert(out@.take(n as int).drop_last() =~= out@.take(n - 1));
        }
        n = n - 1;
    }
    proof {
        assert(out@.subrange(0, n as int) =~= out@.take(n as int));
        if n > 0 {
            assert(out@.take(n as int).last() == out@[n - 1]);
        }
    }
    text_of(&out, 0, n)
}

/// The identifier made from a name; empty where the name holds no letter and no digit.
fn make_slug(value: &str) -> (r: String)
    ensures
        r@ == bare_slug(value@),
{
    slug_of_lowered(to_lowercase(trim(value).as_str()).as_str())
}

/// The identifier made from a name, at the moment `now`.
pub fn slug_at(value: &str, now: i64) -> (r: String)
    ensures
        r@ == slug_of(value@, now),
{
    let made: String = make_slug(value);
    if made.as_str().is_empty() {
        let mut r: String = "item_".to_owned();
        r.append(decimal_text(now as i128).as_str());
        r
    } else {
        made
    }
}

/// The identifier made from a name. Only a name without letters and digits makes it depend on the
/// clock.
pub fn slug(value: &str) -> (r: String)
    ensures
        exists|now: i64| r@ == #[trigger] slug_of(value@, now),
        bare_slug(value@).len() > 0 ==> r@ == bare_slug(value@),
{
    slug_at(value, now_millis())
}

// ----- passwords -----

/// The state of the password digest: four numbers and the count of what was taken in.
pub struct Digest {
    pub a: u32,
    pub b: u32,
    pub c: u32,
    pub d: u32,
    pub i: u32,
}

/// The state before anything was taken in.
pub open spec fn digest_start() -> Digest {
    Digest { a: 2166136261, b: 16777619, c: 3735928559, d: 1103547991, i: 0 }
}

/// The state after one more UTF-16 unit.
pub open spec fn digest_step(s: Digest, unit: u32) -> Digest {
    let a = (s.a ^ unit).wrapping_mul(16777619);
    Digest {
        a,
        b: (s.b ^ unit.wrapping_add(s.i)).wrapping_mul(2166136261),
        c: (s.c ^ unit).wrapping_mul(2654435761),
        d: s.d.wrapping_add(unit).wrapping_add(a >> 7).wrapping_mul(1597334677),
        i: s.i.wrapping_add(1),
    }
}

/// The state after a character, which is one UTF-16 unit or a pair of surrogates.
pub open spec fn digest_char(s: Digest, c: char) -> Digest {
    let n = c as u32;
    if n < 0x10000 {
        digest_step(s, n)
    } else {
        let m = (n - 0x10000) as u32;
        digest_step(
            digest_step(s, (0xd800 + m / 0x400) as u32),
            (0xdc00 + m % 0x400) as u32,
        )
    }
}

/// The state after a text.
pub open spec fn digested(s: Seq<char>) -> Digest
    decreases s.len(),
{
    if s.len() == 0 {
        digest_start()
    } else {
        digest_char(digested(s.drop_last()), s.last())
    }
}

/// A number in base sixteen, in eight characters at least.
pub open spec fn hex8(n: u32) -> Seq<char> {
    padded(numeral(n as nat, 16), 8)
}

/// The hash that is kept for a password: the digest of the salt, a bar and the password.
pub open spec fn password_hash(password: Seq<char>, salt: Seq<char>) -> Seq<char> {
    let s = digested(salt + seq!['|'] + password);
    hex8(s.a) + hex8(s.b) + hex8(s.c) + hex8(s.d)
}

fn take_in(s: Digest, unit: u32) -> (r: Digest)
    ensures
        r == digest_step(s, unit),
{
    let a: u32 = (s.a ^ unit).wrapping_mul(16777619);
    Digest {
        a,
        b: (s.b ^ unit.wrapping_add(s.i)).wrapping_mul(2166136261),
        c: (s.c ^ unit).wrapping_mul(2654435761),
        d: s.d.wrapping_add(unit).wrapping_add(a >> 7).wrapping_mul(1597334677),
        i: s.i.wrapping_add(1),
    }
}

/// The hash that is kept for a password.
pub fn hash_password(password: &str, salt: &str) -> (r: String)
    ensures
        r@ == password_hash(password@, salt@),
{
    let mut text: String = salt.to_owned();
    text.push('|');
    text.append(password);
    proof {
        assert(text@ =~= salt@ + seq!['|'] + password@);
    }
    let cs: Vec<char> = chars_of(text.as_str());
    let mut s: Digest = Digest { a: 2166136261, b: 16777619, c: 3735928559, d: 1103547991, i: 0 };
    let mut i: usize = 0;
    while i < cs.len()
        invariant
            i <= cs@.len(),
            s == digested(cs@.take(i as int)),
        decreases cs@.len() - i,
    {
        let n: u32 = cs[i] as u32;
        proof {
            assert(cs@.take(i + 1).drop_last() =~= cs@.take(i as int));
        }
        if n < 0x10000 {
            s = take_in(s, n);
        } else {
            let m: u32 = n - 0x10000;
            s = take_in(s, 0xd800 + m / 0x400);
            s = take_in(s, 0xdc00 + m % 0x400);
        }
        i = i + 1;
    }
    proof {
        assert(cs@.take(i as int) =~= cs@);
    }
    let mut r: String = padded_text(s.a as u128, 16, 8);
    r.append(padded_text(s.b as u128, 16, 8).as_str());
    r.append(padded_text(s.c as u128, 16, 8).as_str());
    r.append(padded_text(s.d as u128, 16, 8).as_str());
    r
}

// ----- tax -----

/// 0.16, the rate of the tax.
pub const IVA_RATE: u64 = 0x3fc4_7ae1_47ae_147b;

/// 100.
pub const HUNDRED: u64 = 0x4059_0000_0000_0000;

/// A number rounded to hundredths.
pub open spec fn cents(x: u64) -> u64 {
    hundredth(whole(product(x, HUNDRED)))
}

/// The tax in a gross amount, in hundredths.
pub open spec fn iva_of(gross: u64) -> u64 {
    cents(product(gross, IVA_RATE))
}

/// What is left of a gross amount without its tax, in hundredths.
pub open spec fn net_of(gross: u64) -> u64 {
    cents(difference(gross, iva_of(gross)))
}

/// The tax in a gross amount, and what is left without it.
pub fn iva_parts(gross: u64) -> (r: (u64, u64))
    ensures
        r.0 == iva_of(gross),
        r.1 == net_of(gross),
{
    let iva: u64 = by_hundred(to_whole(times(times(gross, IVA_RATE), HUNDRED)));
    let without: u64 = by_hundred(to_whole(times(minus(gross, iva), HUNDRED)));
    (iva, without)
}

// ----- colours and sizes -----

/// Whether `c` is a digit in base sixteen.
pub open spec fn is_hex(c: char) -> bool {
    '0' <= c <= '9' || 'a' <= c <= 'f' || 'A' <= c <= 'F'
}

/// A colour: a hash sign and six digits in base sixteen.
pub open spec fn color_shape(s: Seq<char>) -> bool {
    &&& s.len() == 7
    &&& s[0] == '#'
    &&& forall|i: int| 1 <= i < 7 ==> is_hex(#[trigger] s[i])
}

/// Whether `s` is a colour.
pub fn is_valid_color(s: &str) -> (r: bool)
    ensures
        r == color_shape(s@),
{
    let cs: Vec<char> = chars_of(s);
    if cs.len() != 7 || cs[0] != '#' {
        return false;
    }
    let mut i: usize = 1;
    while i < 7
        invariant
            cs@ == s@,
            cs@.len() == 7,
            1 <= i <= 7,
            forall|j: int| 1 <= j < i ==> is_hex(#[trigger] s@[j]),
        decreases 7 - i,
    {
        let c: char = cs[i];
        if !(('0' <= c && c <= '9') || ('a' <= c && c <= 'f') || ('A' <= c && c <= 'F')) {
            assert(!is_hex(s@[i as int]));
            return false;
        }
        i = i + 1;
    }
    true
}

/// A field read as a colour; what is none becomes `fallback`.
pub open spec fn color(v: Option<Json>, fallback: Seq<char>) -> Seq<char> {
    if color_shape(plain(v)) {
        plain(v)
    } else {
        fallback
    }
}

/// A field read as a colour.
pub fn color_or(v: Option<&Value>, fallback: &str) -> (r: String)
    ensures
        r@ == color(opt(v), fallback@),
{
    let s: String = clean_text(v);
    if is_valid_color(s.as_str()) {
        s
    } else {
        fallback.to_owned()
    }
}

/// `v`, brought into the bounds.
pub open spec fn bounded(v: u64, lo: u64, hi: u64) -> u64 {
    if less(v, lo) {
        lo
    } else if less(hi, v) {
        hi
    } else {
        v
    }
}

/// `v`, brought into the bounds.
pub fn clamp(v: u64, lo: u64, hi: u64) -> (r: u64)
    ensures
        r == bounded(v, lo, hi),
{
    if is_less(v, lo) {
        lo
    } else if is_less(hi, v) {
        hi
    } else {
        v
    }
}

// ----- catalogues -----

/// The store that keeps a catalogue.
pub open spec fn catalog_name(kind: Seq<char>) -> Option<Seq<char>> {
    if kind == "category"@ {
        Some("categories"@)
    } else if kind == "unit"@ {
        Some("units"@)
    } else if kind == "supplier"@ {
        Some("suppliers"@)
    } else if kind == "presentation"@ {
        Some("presentations"@)
    } else {
        None
    }
}

/// The store that keeps a catalogue.
pub fn catalog_store(kind: &str) -> (r: Option<&'static str>)
    ensures
        match r {
            Some(s) => catalog_name(kind@) == Some(s@),
            None => catalog_name(kind@) is None,
        },
{
    if same_text(kind, "category") {
        Some("categories")
    } else if same_text(kind, "unit") {
        Some("units")
    } else if same_text(kind, "supplier") {
        Some("suppliers")
    } else if same_text(kind, "presentation") {
        Some("presentations")
    } else {
        None
    }
}

} // verus!
