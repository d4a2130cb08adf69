//! Laws of reading and writing: what a field reads as, how numbers are written, and how identifiers,
//! hashes and new texts are made.

use crate::clock::{suffix, token};
use crate::double::{is_finite, of_integer, TWO53};
use crate::json::{amount, float, plain, Json, Num};
use crate::laws::names::{lemma_hex8, lemma_numeral};
use crate::laws::numbers::{is_whole, law_whole_numbers_exact};
use crate::laws::records::in_order;
use crate::rules::{
    digested, hex8, is_alphanumeric, lowered_slug, password_hash, slug_of, squeezed, stripped,
    without_accent,
};
use crate::store::{keyed, law_put, listed, merged, position, without_row, RowView, StoreView};
use crate::text::{
    byte_len, capital, decimal, is_latin, latin_small, lemma_number_of, lowercase, number_of,
    numeral, trimmed, white,
};
use vstd::arithmetic::div_mod::{lemma_fundamental_div_mod_converse, lemma_mul_mod_noop_left};
use vstd::prelude::*;

verus! {

// ----- fields -----

/// Whether a text is white space throughout.
pub open spec fn is_blank(s: Seq<char>) -> bool {
    forall|i: int| 0 <= i < s.len() ==> white(#[trigger] s[i])
}

/// Whether `core` is `s` without the white space at its ends, and nothing but that is gone.
pub open spec fn is_core(s: Seq<char>, core: Seq<char>) -> bool {
    exists|a: Seq<char>, b: Seq<char>| #[trigger] is_around(s, a, core, b)
}

/// Whether `s` is `core` between two blank texts.
pub open spec fn is_around(s: Seq<char>, a: Seq<char>, core: Seq<char>, b: Seq<char>) -> bool {
    s == a + core + b && is_blank(a) && is_blank(b)
}

proof fn lemma_core(s: Seq<char>) -> (ends: (Seq<char>, Seq<char>))
    ensures
        is_around(s, ends.0, trimmed(s), ends.1),
    decreases s.len(),
{
    if s.len() > 0 && white(s[0]) {
        let e = lemma_core(s.skip(1));
        let a = seq![s[0]] + e.0;
        assert(s =~= seq![s[0]] + s.skip(1));
        assert(seq![s[0]] + (e.0 + trimmed(s) + e.1) =~= a + trimmed(s) + e.1);
        (a, e.1)
    } else if s.len() > 0 && white(s.last()) {
        let e = lemma_core(s.drop_last());
        let b = e.1.push(s.last());
        assert(s =~= s.drop_last().push(s.last()));
        assert((e.0 + trimmed(s) + e.1).push(s.last()) =~= e.0 + trimmed(s) + b);
        (e.0, b)
    } else {
        let none = Seq::<char>::empty();
        assert(s =~= none + trimmed(s) + none);
        (none, none)
    }
}

/// A text, and a number with a fraction as its document writes it, read as they are but for the
/// white space at their ends; truth values read as their words; and what is neither text nor number
/// nor truth value reads as empty.
pub proof fn law_read_as_text(s: Seq<char>, bits: u64, xs: Seq<Json>, o: Map<Seq<char>, Json>)
    ensures
        is_core(s, plain(Some(Json::Text(s)))),
        is_core(s, plain(Some(Json::Number(Num::Float { bits, text: Some(s) })))),
        plain(Some(Json::Bool(true))) == "true"@,
        plain(Some(Json::Bool(false))) == "false"@,
        plain(Some(Json::Null)).len() == 0,
        plain(Some(Json::Array(xs))).len() == 0,
        plain(Some(Json::Object(o))).len() == 0,
        plain(None).len() == 0,
{
    let e = lemma_core(s);
    assert(is_around(s, e.0, trimmed(s), e.1));
}

/// A number in decimal: digits that stand for it, without zeros in front.
pub open spec fn is_decimal(s: Seq<char>, n: nat) -> bool {
    &&& s.len() > 0
    &&& forall|i: int| 0 <= i < s.len() ==> '0' <= #[trigger] s[i] <= '9'
    &&& number_of(s, 10) == n
    &&& s.len() > 1 ==> s[0] != '0'
}

proof fn lemma_no_zero_in_front(n: nat)
    ensures
        numeral(n, 10).len() > 0,
        numeral(n, 10)[0] == '0' ==> n == 0,
    decreases n,
{
    if n >= 10 {
        lemma_no_zero_in_front(n / 10);
    }
}

/// A whole number is written in decimal.
pub proof fn law_decimal(n: nat)
    ensures
        is_decimal(decimal(n as int), n),
        n > 0 ==> decimal(-(n as int)) == seq!['-'] + decimal(n as int),
{
    lemma_numeral(n, 10);
    lemma_number_of(n, 10, 0);
    lemma_no_zero_in_front(n);
}

/// A whole number reads as what it is written in decimal.
pub proof fn law_read_whole_as_text(n: u64, k: i64)
    ensures
        plain(Some(Json::Number(Num::PosInt(n)))) == decimal(n as int),
        plain(Some(Json::Number(Num::NegInt(k)))) == decimal(k as int),
{
}

/// A whole number below 2^53 reads as that number, any other as the double that it is, and what is
/// no number as zero.
pub proof fn law_read_as_number(n: u64, k: i64, bits: u64, text: Option<Seq<char>>, v: Option<Json>)
    requires
        n < TWO53,
        -TWO53 < k < TWO53,
        is_finite(bits),
        !(v matches Some(Json::Number(_))),
    ensures
        is_whole(amount(Some(Json::Number(Num::PosInt(n)))), n as int),
        is_whole(amount(Some(Json::Number(Num::NegInt(k)))), k as int),
        amount(Some(Json::Number(Num::Float { bits, text }))) == bits,
        amount(v) == 0,
{
    law_whole_numbers_exact(n as int);
    law_whole_numbers_exact(k as int);
}

/// A whole number reads as the double nearest to it.
pub proof fn law_read_whole_as_number(n: u64, k: i64)
    ensures
        amount(Some(Json::Number(Num::PosInt(n)))) == of_integer(n as int),
        amount(Some(Json::Number(Num::NegInt(k)))) == of_integer(k as int),
{
}

/// A finite number is written as a number that reads as itself; what is not finite is written as
/// nothing.
pub proof fn law_written_number(x: u64)
    ensures
        is_finite(x) ==> float(x) is Number && amount(Some(float(x))) == x,
        !is_finite(x) ==> float(x) == Json::Null,
{
}

/// How many bytes a text has: one for a character of ASCII, and up to four for the others.
pub proof fn law_bytes(s: Seq<char>, c: char)
    ensures
        byte_len(Seq::empty()) == 0,
        byte_len(s.push(c)) == byte_len(s) + (if (c as u32) < 0x80 {
            1int
        } else if (c as u32) < 0x800 {
            2
        } else if (c as u32) < 0x10000 {
            3
        } else {
            4
        }),
{
    assert(s.push(c).drop_last() =~= s);
}

/// In small letters a Latin-1 text has as many characters as before, and each capital, with an
/// accent or without, has become its small letter.
pub proof fn law_small_letters(s: Seq<char>, i: int)
    requires
        is_latin(s),
        0 <= i < s.len(),
    ensures
        lowercase(s).len() == s.len(),
        'A' <= s[i] <= 'Z' || (0xc0 <= s[i] as u32 <= 0xde && s[i] as u32 != 0xd7) ==> lowercase(s)[i] as u32
            == s[i] as u32 + 32,
        !('A' <= s[i] <= 'Z') && !(0xc0 <= s[i] as u32 <= 0xde && s[i] as u32 != 0xd7) ==> lowercase(s)[i]
            == s[i],
{
    assert((s[i] as u32) < 0x100);
    lemma_small_letter(s[i]);
    assert(lowercase(s)[i] == latin_small(s[i]));
}

proof fn lemma_small_letter(c: char)
    ensures
        'A' <= c <= 'Z' || (0xc0 <= c as u32 <= 0xde && c as u32 != 0xd7) ==> latin_small(c) as u32
            == c as u32 + 32,
        !('A' <= c <= 'Z') && !(0xc0 <= c as u32 <= 0xde && c as u32 != 0xd7) ==> latin_small(c)
            == c,
{
}

/// The capital of a small ASCII letter is the one that it is the small letter of.
pub proof fn law_capitals(c: char)
    ensures
        'a' <= c <= 'z' ==> 'A' <= capital(c) <= 'Z' && capital(c) as u32 + 32 == c as u32,
        !('a' <= c <= 'z') ==> capital(c) == c,
{
}

// ----- identifiers -----

/// Whether a character, without its accent, is an ASCII letter or a digit.
pub open spec fn is_kept(c: char) -> bool {
    let d = without_accent(c);
    'a' <= d <= 'z' || 'A' <= d <= 'Z' || '0' <= d <= '9'
}

/// Which letters lose an accent.
pub proof fn law_accents(c: char)
    ensures
        without_accent('\u{e1}') == 'a',
        without_accent('\u{e9}') == 'e',
        without_accent('\u{ed}') == 'i',
        without_accent('\u{f3}') == 'o',
        without_accent('\u{fa}') == 'u',
        without_accent('\u{fc}') == 'u',
        without_accent('\u{f1}') == 'n',
        c != '\u{e1}' && c != '\u{e9}' && c != '\u{ed}' && c != '\u{f3}' && c != '\u{fa}' && c
            != '\u{fc}' && c != '\u{f1}' ==> without_accent(c) == c,
{
}

proof fn lemma_squeezed_kept(s: Seq<char>)
    requires
        forall|i: int| 0 <= i < s.len() ==> is_alphanumeric(#[trigger] s[i]),
    ensures
        squeezed(s) == s,
    decreases s.len(),
{
    if s.len() > 0 {
        let before = s.drop_last();
        assert forall|i: int| 0 <= i < before.len() implies is_alphanumeric(#[trigger] before[i]) by {
            assert(before[i] == s[i]);
        }
        lemma_squeezed_kept(before);
        assert(is_alphanumeric(s[s.len() - 1]));
        assert(squeezed(s) =~= s);
    }
}

/// Behind a separator, or behind nothing, the rest is taken for itself.
proof fn lemma_squeezed_rest(z: Seq<char>, y: Seq<char>)
    requires
        squeezed(z).len() == 0 || squeezed(z).last() == '_',
    ensures
        squeezed(z + y) == squeezed(z) + squeezed(y),
    decreases y.len(),
{
    if y.len() == 0 {
        assert(z + y =~= z);
        assert(squeezed(z + y) =~= squeezed(z) + squeezed(y));
    } else {
        lemma_squeezed_rest(z, y.drop_last());
        assert((z + y).drop_last() =~= z + y.drop_last());
        assert((z + y).last() == y.last());
        let before = squeezed(z) + squeezed(y.drop_last());
        if squeezed(y.drop_last()).len() > 0 {
            assert(before.last() == squeezed(y.drop_last()).last());
        } else {
            assert(before =~= squeezed(z));
        }
        assert(squeezed(z + y) =~= squeezed(z) + squeezed(y));
    }
}

/// What a separator leaves: one underscore, where there is anything before it.
proof fn lemma_squeezed_separator(x: Seq<char>, sep: Seq<char>)
    requires
        sep.len() > 0,
        forall|i: int| 0 <= i < sep.len() ==> !is_alphanumeric(#[trigger] sep[i]),
    ensures
        squeezed(x + sep) == (if squeezed(x).len() > 0 && squeezed(x).last() != '_' {
            squeezed(x).push('_')
        } else {
            squeezed(x)
        }),
    decreases sep.len(),
{
    let t = x + sep;
    assert(t.drop_last() =~= x + sep.drop_last());
    assert(t.last() == sep.last());
    assert(!is_alphanumeric(sep[sep.len() - 1]));
    if sep.len() == 1 {
        assert(x + sep.drop_last() =~= x);
    } else {
        let before = sep.drop_last();
        assert forall|i: int| 0 <= i < before.len() implies !is_alphanumeric(#[trigger] before[i]) by {
            assert(before[i] == sep[i]);
        }
        lemma_squeezed_separator(x, before);
    }
}

/// No two underscores stand together at the end.
proof fn lemma_squeezed_end(s: Seq<char>)
    ensures
        squeezed(s).len() > 0 ==> squeezed(s)[0] != '_',
        squeezed(s).len() > 1 && squeezed(s).last() == '_' ==> squeezed(s)[squeezed(s).len() - 2]
            != '_',
    decreases s.len(),
{
    if s.len() > 0 {
        lemma_squeezed_end(s.drop_last());
    }
}

/// `s` without the one underscore that it may end in.
proof fn lemma_stripped_squeezed(s: Seq<char>)
    ensures
        stripped(squeezed(s)) == (if squeezed(s).len() > 0 && squeezed(s).last() == '_' {
            squeezed(s).drop_last()
        } else {
            squeezed(s)
        }),
{
    lemma_squeezed_end(s);
    let w = squeezed(s);
    if w.len() > 0 && w.last() == '_' {
        let v = w.drop_last();
        if v.len() > 0 {
            assert(v.last() == w[w.len() - 2]);
        }
        assert(stripped(v) == v);
    }
}

/// The characters of a text without their accents.
spec fn bare(s: Seq<char>) -> Seq<char> {
    s.map_values(|c: char| without_accent(c))
}

/// A name of letters and digits alone is its own identifier, without accents.
pub proof fn law_slug_of_letters(s: Seq<char>)
    requires
        forall|i: int| 0 <= i < s.len() ==> is_kept(#[trigger] s[i]),
    ensures
        lowered_slug(s) == s.map_values(|c: char| without_accent(c)),
{
    let t = bare(s);
    assert forall|i: int| 0 <= i < t.len() implies is_alphanumeric(#[trigger] t[i]) by {
        assert(is_kept(s[i]));
    }
    lemma_squeezed_kept(t);
    lemma_squeezed_end(t);
    if t.len() > 0 {
        assert(is_alphanumeric(t[t.len() - 1]));
    }
}

/// What stands between two parts of a name is one underscore in its identifier, and what stands
/// before and behind them is nothing.
pub proof fn law_slug_of_parts(x: Seq<char>, sep: Seq<char>, y: Seq<char>)
    requires
        sep.len() > 0,
        forall|i: int| 0 <= i < sep.len() ==> !is_kept(#[trigger] sep[i]),
    ensures
        lowered_slug(x).len() > 0 && lowered_slug(y).len() > 0 ==> lowered_slug(x + sep + y)
            == lowered_slug(x) + seq!['_'] + lowered_slug(y),
        lowered_slug(y).len() == 0 ==> lowered_slug(x + sep + y) == lowered_slug(x),
        lowered_slug(x).len() == 0 ==> lowered_slug(x + sep + y) == lowered_slug(y),
{
    let a = bare(x);
    let b = bare(sep);
    let c = bare(y);
    assert(bare(x + sep + y) =~= (a + b) + c);
    assert forall|i: int| 0 <= i < b.len() implies !is_alphanumeric(#[trigger] b[i]) by {
        assert(!is_kept(sep[i]));
    }
    lemma_squeezed_separator(a, b);
    lemma_squeezed_end(a);
    lemma_squeezed_end(c);
    lemma_stripped_squeezed(a);
    lemma_stripped_squeezed(c);
    lemma_squeezed_rest(a + b, c);
    lemma_stripped_squeezed((a + b) + c);
    let front = squeezed(a + b);
    let back = squeezed(c);
    let all = squeezed((a + b) + c);
    assert(all == front + back);
    if squeezed(a).len() == 0 {
        assert(all =~= back);
    } else {
        assert(front.last() == '_');
        assert(front =~= stripped(squeezed(a)) + seq!['_']);
        if back.len() == 0 {
            assert(all =~= front);
            assert(all.drop_last() =~= stripped(squeezed(a)));
        } else {
            assert(all.last() == back.last());
            if back.last() == '_' {
                assert(all.drop_last() =~= front + back.drop_last());
            }
            assert(stripped(all) =~= front + stripped(back));
        }
    }
}

/// The identifier of a name is made from its small letters, without white space at its ends; where
/// that leaves nothing, from the moment.
pub proof fn law_slug_of_name(s: Seq<char>, now: i64)
    ensures
        slug_of(s, now) == (if lowered_slug(lowercase(trimmed(s))).len() > 0 {
            lowered_slug(lowercase(trimmed(s)))
        } else {
            "item_"@ + decimal(now as int)
        }),
{
}

// ----- password hashes -----

/// Multiplying by the prime of the hash loses nothing.
proof fn lemma_prime(x: u32, y: u32)
    requires
        x.wrapping_mul(16777619) == y.wrapping_mul(16777619),
    ensures
        x == y,
{
    let m: int = 0x1_0000_0000;
    let k: int = 16777619;
    let inv: int = 899433627;
    lemma_undone(x as int);
    lemma_undone(y as int);
    assert((x * k) % m == (y * k) % m);
    lemma_mul_mod_noop_left(x * k, inv, m);
    lemma_mul_mod_noop_left(y * k, inv, m);
}

/// A number times the prime, times the inverse of the prime, is the number again.
proof fn lemma_undone(x: int)
    requires
        0 <= x < 0x1_0000_0000,
    ensures
        ((x * 16777619) * 899433627) % 0x1_0000_0000 == x,
{
    let m: int = 0x1_0000_0000;
    assert((x * 16777619) * 899433627 == m * (3513497 * x) + x) by (nonlinear_arith)
        requires
            m == 0x1_0000_0000,
    ;
    lemma_fundamental_div_mod_converse((x * 16777619) * 899433627, m, 3513497 * x, x);
}

/// One character more keeps two hashes apart.
proof fn lemma_apart_stays(s: Seq<char>, t: Seq<char>, c: char)
    requires
        digested(s).a != digested(t).a,
    ensures
        digested(s.push(c)).a != digested(t.push(c)).a,
{
    assert(s.push(c).drop_last() =~= s);
    assert(t.push(c).drop_last() =~= t);
    let n = c as u32;
    let a = digested(s).a;
    let b = digested(t).a;
    if n < 0x10000 {
        lemma_step_apart(a, b, n);
    } else {
        let m = (n - 0x10000) as u32;
        let u = (0xd800 + m / 0x400) as u32;
        let v = (0xdc00 + m % 0x400) as u32;
        lemma_step_apart(a, b, u);
        lemma_step_apart((a ^ u).wrapping_mul(16777619), (b ^ u).wrapping_mul(16777619), v);
    }
}

proof fn lemma_step_apart(a: u32, b: u32, u: u32)
    requires
        a != b,
    ensures
        (a ^ u).wrapping_mul(16777619) != (b ^ u).wrapping_mul(16777619),
{
    assert(a ^ u != b ^ u) by (bit_vector)
        requires
            a != b,
    ;
    if (a ^ u).wrapping_mul(16777619) == (b ^ u).wrapping_mul(16777619) {
        lemma_prime(a ^ u, b ^ u);
    }
}

/// Different characters at the end of the same text keep the hashes apart.
proof fn lemma_apart(s: Seq<char>, c: char, d: char)
    requires
        (c as u32) < 0x10000,
        (d as u32) < 0x10000,
        c != d,
    ensures
        digested(s.push(c)).a != digested(s.push(d)).a,
{
    assert(s.push(c).drop_last() =~= s);
    assert(s.push(d).drop_last() =~= s);
    let a = digested(s).a;
    let u = c as u32;
    let v = d as u32;
    assert(a ^ u != a ^ v) by (bit_vector)
        requires
            u != v,
    ;
    if (a ^ u).wrapping_mul(16777619) == (a ^ v).wrapping_mul(16777619) {
        lemma_prime(a ^ u, a ^ v);
    }
}

proof fn lemma_apart_at(s: Seq<char>, t: Seq<char>, i: int)
    requires
        s.len() == t.len(),
        0 <= i < s.len(),
        s[i] != t[i],
        (s[i] as u32) < 0x10000,
        (t[i] as u32) < 0x10000,
        forall|j: int| 0 <= j < s.len() && j != i ==> #[trigger] s[j] == t[j],
    ensures
        digested(s).a != digested(t).a,
    decreases s.len(),
{
    let last: int = s.len() - 1;
    assert(s =~= s.drop_last().push(s.last()));
    assert(t =~= t.drop_last().push(t.last()));
    if i == last {
        assert(s.drop_last() =~= t.drop_last());
        lemma_apart(s.drop_last(), s.last(), t.last());
    } else {
        assert(s[last] == t[last]);
        lemma_apart_at(s.drop_last(), t.drop_last(), i);
        lemma_apart_stays(s.drop_last(), t.drop_last(), s.last());
    }
}

proof fn lemma_hash_start(password: Seq<char>, salt: Seq<char>)
    ensures
        number_of(password_hash(password, salt).take(8), 16) == digested(
            salt + seq!['|'] + password,
        ).a,
{
    let d = digested(salt + seq!['|'] + password);
    lemma_hex8(d.a);
    lemma_hex8(d.b);
    lemma_hex8(d.c);
    lemma_hex8(d.d);
    assert(password_hash(password, salt).take(8) =~= hex8(d.a));
    lemma_number_of(d.a as nat, 16, 8);
}

/// With one character exchanged, wherever it stands and however long the password is, the hash is
/// another; and so it is with one character of the salt exchanged. This is said of characters of
/// one UTF-16 unit.
pub proof fn law_hash_tells_passwords(p: Seq<char>, q: Seq<char>, i: int, salt: Seq<char>)
    requires
        p.len() == q.len(),
        0 <= i < p.len(),
        p[i] != q[i],
        (p[i] as u32) < 0x10000,
        (q[i] as u32) < 0x10000,
        forall|j: int| 0 <= j < p.len() && j != i ==> #[trigger] p[j] == q[j],
    ensures
        password_hash(p, salt) != password_hash(q, salt),
        password_hash(salt, p) != password_hash(salt, q),
{
    let bar = seq!['|'];
    let s = salt + bar + p;
    let t = salt + bar + q;
    let n = salt.len() as int + 1;
    assert(s[n + i] == p[i] && t[n + i] == q[i]);
    assert forall|j: int| 0 <= j < s.len() && j != n + i implies #[trigger] s[j] == t[j] by {
        if j >= n {
            assert(p[j - n] == q[j - n]);
        }
    }
    lemma_apart_at(s, t, n + i);
    lemma_hash_start(p, salt);
    lemma_hash_start(q, salt);
    let s = p + bar + salt;
    let t = q + bar + salt;
    assert forall|j: int| 0 <= j < s.len() && j != i implies #[trigger] s[j] == t[j] by {
        if j < p.len() {
            assert(p[j] == q[j]);
        }
    }
    lemma_apart_at(s, t, i);
    lemma_hash_start(salt, p);
    lemma_hash_start(salt, q);
}

// ----- new texts -----

/// The end of a text: its last six characters, or all that it has, the last one first.
pub proof fn law_suffix(s: Seq<char>, i: int)
    ensures
        suffix(s).len() == (if s.len() < 6 {
            s.len()
        } else {
            6
        }),
        0 <= i < suffix(s).len() ==> suffix(s)[i] == s[s.len() - 1 - i],
{
}

/// A new text is made of three numbers in base sixteen, one behind the other.
pub proof fn law_new_text(nanos: u128, count: u64, process: u32)
    ensures
        exists|a: Seq<char>, b: Seq<char>, c: Seq<char>|
            {
                &&& token(nanos, count, process) == #[trigger] (a + b + c)
                &&& number_of(a, 16) == nanos
                &&& number_of(b, 16) == count
                &&& number_of(c, 16) == process
            },
{
    let a = numeral(nanos as nat, 16);
    let b = numeral(count as nat, 16);
    let c = numeral(process as nat, 16);
    lemma_number_of(nanos as nat, 16, 0);
    lemma_number_of(count as nat, 16, 0);
    lemma_number_of(process as nat, 16, 0);
    assert(token(nanos, count, process) == a + b + c);
}

// ----- the order of records -----

/// A record under a new key comes behind the others of its store.
pub proof fn law_new_record_is_last(db: StoreView, store: Seq<char>, id: Seq<char>, record: Json)
    requires
        forall|i: int|
            0 <= i < db.rows.len() ==> !((#[trigger] db.rows[i]).store == store && db.rows[i].id
                == id),
    ensures
        db.put(store, id, record).list(store) == db.list(store).push(record),
{
    crate::store::lemma_position_bounds(db.rows, store, id);
    let new = db.put(store, id, record).rows;
    assert(new.drop_last() =~= db.rows);
}

/// A record under a key that there is takes the place of the one before; there are as many as there
/// were.
pub proof fn law_record_stays_in_place(
    db: StoreView,
    store: Seq<char>,
    id: Seq<char>,
    record: Json,
    old_record: Json,
)
    requires
        db.item(store, id) == Some(old_record),
    ensures
        exists|i: int|
            {
                &&& 0 <= i < db.list(store).len()
                &&& db.list(store)[i] == old_record
                &&& db.put(store, id, record).list(store) == #[trigger] db.list(store).update(
                    i,
                    record,
                )
            },
{
    crate::store::lemma_position_bounds(db.rows, store, id);
    let p = position(db.rows, store, id);
    let i = lemma_in_place(db.rows, p, store, RowView { store, id, data: Some(record) });
    assert(db.put(store, id, record).list(store) == db.list(store).update(i, record));
}

proof fn lemma_in_place(rows: Seq<RowView>, p: int, store: Seq<char>, row: RowView) -> (i: int)
    requires
        0 <= p < rows.len(),
        rows[p].store == store,
        rows[p].data is Some,
        row.store == store,
        row.data is Some,
    ensures
        0 <= i < listed(rows, store).len(),
        listed(rows, store)[i] == rows[p].data->0,
        listed(rows.update(p, row), store) == listed(rows, store).update(i, row.data->0),
    decreases rows.len(),
{
    let new = rows.update(p, row);
    if p == rows.len() - 1 {
        assert(new.drop_last() =~= rows.drop_last());
        let i = listed(rows.drop_last(), store).len() as int;
        assert(listed(new, store) =~= listed(rows, store).update(i, row.data->0));
        i
    } else {
        assert(new.drop_last() =~= rows.drop_last().update(p, row));
        let i = lemma_in_place(rows.drop_last(), p, store, row);
        assert(listed(new, store) =~= listed(rows, store).update(i, row.data->0));
        i
    }
}

/// A record that is deleted is taken out from among the others of its store, which stay in order.
pub proof fn law_deleted_from_list(db: StoreView, store: Seq<char>, id: Seq<char>, record: Json)
    requires
        in_order(db),
        db.item(store, id) == Some(record),
    ensures
        exists|i: int|
            {
                &&& 0 <= i < db.list(store).len()
                &&& db.list(store)[i] == record
                &&& db.delete(store, id).list(store) == #[trigger] db.list(store).remove(i)
            },
{
    crate::store::lemma_position_bounds(db.rows, store, id);
    let p = position(db.rows, store, id);
    assert forall|j: int| 0 <= j < db.rows.len() && j != p implies !keyed(
        #[trigger] db.rows[j],
        store,
        id,
    ) by {
        if j < p {
            assert(!(db.rows[j].store == db.rows[p].store && db.rows[j].id == db.rows[p].id));
        } else {
            assert(!(db.rows[p].store == db.rows[j].store && db.rows[p].id == db.rows[j].id));
        }
    }
    let i = lemma_taken_out(db.rows, p, store, id);
    assert(db.delete(store, id).list(store) == db.list(store).remove(i));
}

proof fn lemma_nothing_taken_out(rows: Seq<RowView>, store: Seq<char>, id: Seq<char>)
    requires
        forall|j: int| 0 <= j < rows.len() ==> !keyed(#[trigger] rows[j], store, id),
    ensures
        without_row(rows, store, id) == rows,
    decreases rows.len(),
{
    if rows.len() > 0 {
        let before = rows.drop_last();
        assert forall|j: int| 0 <= j < before.len() implies !keyed(#[trigger] before[j], store, id) by {
            assert(before[j] == rows[j]);
        }
        lemma_nothing_taken_out(before, store, id);
        assert(!keyed(rows[rows.len() - 1], store, id));
        assert(without_row(rows, store, id) =~= rows);
    }
}

proof fn lemma_taken_out(rows: Seq<RowView>, p: int, store: Seq<char>, id: Seq<char>) -> (i: int)
    requires
        0 <= p < rows.len(),
        keyed(rows[p], store, id),
        rows[p].data is Some,
        forall|j: int| 0 <= j < rows.len() && j != p ==> !keyed(#[trigger] rows[j], store, id),
    ensures
        0 <= i < listed(rows, store).len(),
        listed(rows, store)[i] == rows[p].data->0,
        listed(without_row(rows, store, id), store) == listed(rows, store).remove(i),
    decreases rows.len(),
{
    let before = rows.drop_last();
    let list = listed(rows, store);
    let kept = without_row(before, store, id);
    if p == rows.len() - 1 {
        assert forall|j: int| 0 <= j < before.len() implies !keyed(#[trigger] before[j], store, id) by {
            assert(before[j] == rows[j]);
        }
        lemma_nothing_taken_out(before, store, id);
        let i = listed(before, store).len() as int;
        assert(list.remove(i) =~= listed(before, store));
        i
    } else {
        assert forall|j: int| 0 <= j < before.len() && j != p implies !keyed(
            #[trigger] before[j],
            store,
            id,
        ) by {
            assert(before[j] == rows[j]);
        }
        let i = lemma_taken_out(before, p, store, id);
        let last: int = rows.len() - 1;
        assert(!keyed(rows[last], store, id));
        assert(kept.push(rows.last()).drop_last() =~= kept);
        assert(listed(without_row(rows, store, id), store) =~= list.remove(i));
        i
    }
}

/// A patch of a record that there is not makes one with the fields of the patch.
pub proof fn law_patch_makes(db: StoreView, store: Seq<char>, id: Seq<char>, patch: Json)
    requires
        db.item(store, id) is None,
        patch is Object,
    ensures
        db.patch(store, id, patch).item(store, id) == Some(patch),
{
    let empty = Json::Object(Map::empty());
    assert(merged(empty, patch)->Object_0 =~= patch->Object_0);
    law_put(db, store, id, merged(empty, patch));
}

} // verus!
