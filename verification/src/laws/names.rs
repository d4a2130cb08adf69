//! Laws of roles, identifiers, codes and password hashes.

use crate::clock::token;
use crate::json::{plain, Json};
use crate::lists::any_with;
use crate::products::{free_number, joined, lemma_free_number, new_sku, sku_prefix, sku_taken};
use crate::rules::{
    bare_slug, digested, hex8, is_role, password_hash, role_named, slug_of, squeezed, stripped,
    without_accent,
};
use crate::text::{
    capital, decimal, digit, is_latin, latin_small, lemma_number_of, lemma_trimmed, lowercase,
    numeral, padded, small, tidy, trimmed, white,
};
use vstd::arithmetic::power::{lemma_pow1, pow};
use vstd::prelude::*;

verus! {

// ----- reading as text -----

/// What a field reads as has no white space at its ends, so that reading it again as text gives
/// the same.
pub proof fn law_plain_is_tidy(v: Option<Json>)
    ensures
        tidy(plain(v)),
        plain(Some(Json::Text(plain(v)))) == plain(v),
{
    reveal_strlit("true");
    reveal_strlit("false");
    match v {
        Some(Json::Text(s)) => {
            lemma_trimmed(s);
        },
        Some(Json::Number(n)) => {
            match n {
                crate::json::Num::PosInt(k) => {
                    lemma_decimal_tidy(k as int);
                },
                crate::json::Num::NegInt(k) => {
                    lemma_decimal_tidy(k as int);
                },
                crate::json::Num::Float { bits, text } => {
                    if let Some(t) = text {
                        lemma_trimmed(t);
                    }
                },
            }
        },
        _ => {},
    }
    lemma_trimmed(plain(v));
}

/// A written number has digits only, and at least one.
pub proof fn lemma_numeral(n: nat, base: nat)
    requires
        base == 10 || base == 16,
    ensures
        numeral(n, base).len() > 0,
        forall|i: int|
            0 <= i < numeral(n, base).len() ==> '0' <= #[trigger] numeral(n, base)[i] <= '9' || (
            base == 16 && 'a' <= numeral(n, base)[i] <= 'f'),
    decreases n,
{
    assert(n % base < base);
    let d: nat = n % base;
    assert('0' <= digit(d) <= '9' || (base == 16 && 'a' <= digit(d) <= 'f'));
    if n >= base {
        lemma_numeral(n / base, base);
    }
}

/// An integer in decimal has no white space at its ends.
pub proof fn lemma_decimal_tidy(n: int)
    ensures
        tidy(decimal(n)),
        decimal(n).len() > 0,
{
    if n < 0 {
        lemma_numeral((-n) as nat, 10);
    } else {
        lemma_numeral(n as nat, 10);
    }
}

// ----- roles -----

/// The three roles are written in small letters.
pub proof fn lemma_roles_small(s: Seq<char>)
    requires
        is_role(s),
    ensures
        lowercase(s) == s,
{
    reveal_strlit("admin");
    reveal_strlit("encargado");
    reveal_strlit("cajero");
    assert(is_latin(s));
    assert(lowercase(s) =~= s);
}

/// Whatever a text names as a role is one of the three, and names itself.
pub proof fn law_roles(s: Seq<char>)
    ensures
        is_role(role_named(s)),
        role_named(role_named(s)) == role_named(s),
{
    lemma_roles_small(role_named(s));
}

// ----- identifiers -----

/// Whether `c` is a small ASCII letter or a digit.
pub open spec fn is_plain_letter(c: char) -> bool {
    'a' <= c <= 'z' || '0' <= c <= '9'
}

/// The shape of an identifier: groups of small letters and digits, with one underscore between
/// two groups.
pub open spec fn slug_shape(s: Seq<char>) -> bool {
    &&& s.len() > 0
    &&& is_plain_letter(s[0])
    &&& is_plain_letter(s.last())
    &&& forall|i: int| 0 <= i < s.len() ==> is_plain_letter(#[trigger] s[i]) || s[i] == '_'
    &&& forall|i: int, j: int|
        0 <= i && j == i + 1 && j < s.len() && #[trigger] s[i] == '_' ==> #[trigger] s[j] != '_'
}

/// The same of a text that may end in an underscore, or be empty.
spec fn open_shape(s: Seq<char>) -> bool {
    &&& s.len() > 0 ==> is_plain_letter(s[0])
    &&& forall|i: int| 0 <= i < s.len() ==> is_plain_letter(#[trigger] s[i]) || s[i] == '_'
    &&& forall|i: int, j: int|
        0 <= i && j == i + 1 && j < s.len() && #[trigger] s[i] == '_' ==> #[trigger] s[j] != '_'
}

proof fn lemma_squeezed(s: Seq<char>)
    requires
        forall|i: int| 0 <= i < s.len() ==> !('A' <= #[trigger] s[i] <= 'Z'),
    ensures
        open_shape(squeezed(s)),
    decreases s.len(),
{
    if s.len() > 0 {
        lemma_squeezed(s.drop_last());
    }
}

proof fn lemma_stripped(s: Seq<char>)
    requires
        open_shape(s),
    ensures
        stripped(s).len() > 0 ==> slug_shape(stripped(s)),
{
    if s.len() > 0 && s.last() == '_' {
        assert(s.len() > 1);
        let t = s.drop_last();
        assert(t.last() == s[s.len() - 2]);
        assert(s[s.len() - 1] == '_');
        assert(t.last() != '_');
        assert(stripped(t) == t);
    }
}

proof fn lemma_slug_kept(s: Seq<char>)
    requires
        open_shape(s),
    ensures
        squeezed(s) == s,
    decreases s.len(),
{
    if s.len() > 0 {
        let t = s.drop_last();
        lemma_slug_kept(t);
        assert(s[s.len() - 1] == s.last());
        if s.last() == '_' {
            assert(s.len() > 1);
            assert(t.last() == s[s.len() - 2]);
        }
        assert(squeezed(s) =~= s);
    }
}

/// What the identifier of a name looks like, where the name holds a letter or a digit.
pub proof fn law_bare_slug(s: Seq<char>)
    ensures
        bare_slug(s).len() > 0 ==> slug_shape(bare_slug(s)),
{
    let t = lowercase(trimmed(s)).map_values(|c: char| without_accent(c));
    assert forall|i: int| 0 <= i < t.len() implies !('A' <= #[trigger] t[i] <= 'Z') by {
        assert(!('A' <= lowercase(trimmed(s))[i] <= 'Z'));
    }
    lemma_squeezed(t);
    lemma_stripped(squeezed(t));
}

/// An identifier is the identifier of itself.
proof fn lemma_slug_of_slug(s: Seq<char>)
    requires
        slug_shape(s),
    ensures
        bare_slug(s) == s,
{
    assert(tidy(s));
    lemma_trimmed(s);
    assert(is_latin(s));
    assert(lowercase(s) =~= s);
    assert(s.map_values(|c: char| without_accent(c)) =~= s);
    lemma_slug_kept(s);
}

/// The identifier made from a name is never empty, consists of small letters, digits and single
/// underscores between them, and is the identifier of itself.
pub proof fn law_slug(s: Seq<char>, now: i64, later: i64)
    requires
        now >= 0,
    ensures
        slug_shape(slug_of(s, now)),
        slug_of(slug_of(s, now), later) == slug_of(s, now),
{
    law_bare_slug(s);
    if bare_slug(s).len() == 0 {
        reveal_strlit("item_");
        lemma_numeral(now as nat, 10);
        assert(slug_shape(slug_of(s, now)));
    }
    lemma_slug_of_slug(slug_of(s, now));
}

/// White space at the end of a text is cut off.
proof fn lemma_trimmed_end(s: Seq<char>, w: char)
    requires
        white(w),
    ensures
        trimmed(s.push(w)) == trimmed(s),
    decreases s.len(),
{
    let t = s.push(w);
    if s.len() == 0 {
        assert(t.skip(1) =~= s);
    } else if white(s[0]) {
        assert(t.skip(1) =~= s.skip(1).push(w));
        lemma_trimmed_end(s.skip(1), w);
    } else {
        assert(t.drop_last() =~= s);
    }
}

/// White space around a text is cut off.
proof fn lemma_trimmed_around(a: Seq<char>, s: Seq<char>, b: Seq<char>)
    requires
        forall|i: int| 0 <= i < a.len() ==> white(#[trigger] a[i]),
        forall|i: int| 0 <= i < b.len() ==> white(#[trigger] b[i]),
    ensures
        trimmed(a + s + b) == trimmed(s),
    decreases a.len() + b.len(),
{
    let t = a + s + b;
    if a.len() > 0 {
        assert(white(a[0]) && t[0] == a[0]);
        assert(t.skip(1) =~= a.skip(1) + s + b);
        assert forall|i: int| 0 <= i < a.len() - 1 implies white(#[trigger] a.skip(1)[i]) by {
            assert(a.skip(1)[i] == a[i + 1]);
        }
        lemma_trimmed_around(a.skip(1), s, b);
    } else if b.len() > 0 {
        let c = b.drop_last();
        assert forall|i: int| 0 <= i < c.len() implies white(#[trigger] c[i]) by {
            assert(c[i] == b[i]);
        }
        assert(white(b[b.len() - 1]));
        assert(t =~= (a + s + c).push(b.last()));
        lemma_trimmed_end(a + s + c, b.last());
        lemma_trimmed_around(a, s, c);
    } else {
        assert(t =~= s);
    }
}

/// Blanks around a name change nothing in its identifier.
pub proof fn law_slug_blanks(a: Seq<char>, s: Seq<char>, b: Seq<char>, now: i64)
    requires
        forall|i: int| 0 <= i < a.len() ==> white(#[trigger] a[i]),
        forall|i: int| 0 <= i < b.len() ==> white(#[trigger] b[i]),
    ensures
        slug_of(a + s + b, now) == slug_of(s, now),
{
    lemma_trimmed_around(a, s, b);
}

/// A change of the characters that keeps white space white can be made before or after cutting it
/// off.
proof fn lemma_trimmed_map(s: Seq<char>, f: spec_fn(char) -> char)
    requires
        forall|c: char| #[trigger] white(f(c)) == white(c),
    ensures
        trimmed(s.map_values(f)) == trimmed(s).map_values(f),
    decreases s.len(),
{
    let t = s.map_values(f);
    if s.len() > 0 {
        assert(t[0] == f(s[0]) && t.last() == f(s.last()));
        assert(white(f(s[0])) == white(s[0]) && white(f(s.last())) == white(s.last()));
        if white(s[0]) {
            assert(t.skip(1) =~= s.skip(1).map_values(f));
            lemma_trimmed_map(s.skip(1), f);
        } else if white(s.last()) {
            assert(t.drop_last() =~= s.drop_last().map_values(f));
            lemma_trimmed_map(s.drop_last(), f);
        }
    }
}

/// What is left of a Latin-1 text without white space at its ends is a Latin-1 text.
proof fn lemma_trimmed_latin(s: Seq<char>)
    requires
        is_latin(s),
    ensures
        is_latin(trimmed(s)),
    decreases s.len(),
{
    if s.len() > 0 && white(s[0]) {
        assert forall|i: int| 0 <= i < s.len() - 1 implies (#[trigger] s.skip(1)[i] as u32) < 0x100 by {
            assert(s.skip(1)[i] == s[i + 1]);
        }
        lemma_trimmed_latin(s.skip(1));
    } else if s.len() > 0 && white(s.last()) {
        assert forall|i: int| 0 <= i < s.len() - 1 implies (#[trigger] s.drop_last()[i] as u32) < 0x100 by {
            assert(s.drop_last()[i] == s[i]);
        }
        lemma_trimmed_latin(s.drop_last());
    }
}

/// A text has the same small letters whether its ASCII letters are capitals or not.
pub proof fn law_lowercase_of_capitals(s: Seq<char>)
    ensures
        lowercase(s.map_values(|c: char| capital(c))) == lowercase(s),
{
    let up = |c: char| capital(c);
    let down = |c: char| small(c);
    let t = s.map_values(up);
    assert(t.map_values(down) =~= s.map_values(down));
    assert forall|i: int| 0 <= i < s.len() implies ((#[trigger] s[i] as u32) < 0x100) == ((
    t[i] as u32) < 0x100) by {}
    if is_latin(s) {
        assert forall|i: int| 0 <= i < t.len() implies (#[trigger] t[i] as u32) < 0x100 by {
            assert((s[i] as u32) < 0x100);
        }
        assert(lowercase(t) =~= lowercase(s));
    } else {
        let i = choose|i: int| 0 <= i < s.len() && !((#[trigger] s[i] as u32) < 0x100);
        assert(!((t[i] as u32) < 0x100));
    }
}

/// Whether a name is in capitals or in small letters changes nothing in its identifier. This is
/// said of the ASCII letters of any name, and of all the letters of a Latin-1 name.
pub proof fn law_slug_case(s: Seq<char>, now: i64)
    ensures
        slug_of(s.map_values(|c: char| capital(c)), now) == slug_of(s, now),
        is_latin(s) ==> slug_of(s.map_values(|c: char| latin_small(c)), now) == slug_of(s, now),
{
    let up = |c: char| capital(c);
    let t = trimmed(s);
    assert forall|c: char| #[trigger] white(up(c)) == white(c) by {}
    lemma_trimmed_map(s, up);
    law_lowercase_of_capitals(t);
    if is_latin(s) {
        let down = |c: char| latin_small(c);
        lemma_trimmed_latin(s);
        assert forall|c: char| #[trigger] white(down(c)) == white(c) by {}
        lemma_trimmed_map(s, down);
        assert forall|i: int| 0 <= i < t.len() implies (#[trigger] t.map_values(down)[i] as u32) < 0x100 by {
            assert((t[i] as u32) < 0x100);
        }
        assert(lowercase(t.map_values(down)) =~= lowercase(t));
    }
}

/// Whether a role is written in ASCII capitals or in small letters changes nothing.
pub proof fn law_role_case(s: Seq<char>)
    ensures
        role_named(s.map_values(|c: char| capital(c))) == role_named(s),
{
    law_lowercase_of_capitals(s);
}

/// The identifier made from a name has no white space.
pub proof fn lemma_slug_tidy(s: Seq<char>, now: i64)
    ensures
        slug_of(s, now).len() > 0,
        forall|i: int| 0 <= i < slug_of(s, now).len() ==> !white(#[trigger] slug_of(s, now)[i]),
        tidy(slug_of(s, now)),
{
    law_bare_slug(s);
    if bare_slug(s).len() == 0 {
        reveal_strlit("item_");
        if now < 0 {
            lemma_numeral((-now) as nat, 10);
        } else {
            lemma_numeral(now as nat, 10);
        }
    }
}

// ----- codes of products -----

/// A new code is one that no product has.
pub proof fn law_new_sku_is_free(products: Seq<Json>, category: Seq<char>, now: i64)
    ensures
        !any_with(products, "sku"@, new_sku(products, category, now)),
{
    let prefix = sku_prefix(category, now);
    let start: nat = crate::lists::count_with(products, "category"@, category) + 1;
    lemma_free_number(products, prefix, start);
    assert(!sku_taken(products, prefix, free_number(products, prefix, start)));
}

proof fn lemma_joined(s: Seq<char>)
    requires
        forall|i: int| 0 <= i < s.len() ==> !white(#[trigger] s[i]),
    ensures
        forall|i: int| 0 <= i < joined(s).len() ==> !white(#[trigger] joined(s)[i]),
    decreases s.len(),
{
    if s.len() > 0 {
        assert(!white(s[s.len() - 1]));
        assert forall|i: int| 0 <= i < s.len() - 1 implies !white(#[trigger] s.drop_last()[i]) by {
            assert(s.drop_last()[i] == s[i]);
        }
        let t = s.drop_last();
        lemma_joined(t);
        assert forall|i: int| 0 <= i < joined(s).len() implies !white(#[trigger] joined(s)[i]) by {
            if i < joined(t).len() {
                assert(joined(s)[i] == joined(t)[i]);
            }
        }
    }
}

pub proof fn lemma_padded(s: Seq<char>, width: nat)
    requires
        s.len() > 0,
    ensures
        padded(s, width).len() >= s.len(),
        padded(s, width).len() >= width,
        s.len() <= width ==> padded(s, width).len() == width,
        padded(s, width).last() == s.last(),
        forall|i: int|
            0 <= i < padded(s, width).len() ==> s.contains(#[trigger] padded(s, width)[i])
                || padded(s, width)[i] == '0',
    decreases width - s.len(),
{
    if s.len() < width {
        let t = seq!['0'] + s;
        lemma_padded(t, width);
        assert forall|i: int| 0 <= i < padded(s, width).len() implies s.contains(
            #[trigger] padded(s, width)[i],
        ) || padded(s, width)[i] == '0' by {
            let c = padded(s, width)[i];
            if t.contains(c) {
                let k = choose|k: int| 0 <= k < t.len() && t[k] == c;
                if k > 0 {
                    assert(s[k - 1] == c);
                }
            }
        }
    } else {
        assert forall|i: int| 0 <= i < s.len() implies s.contains(#[trigger] s[i]) by {}
    }
}

/// A code with a number has no white space at its ends.
pub proof fn lemma_new_sku_tidy(products: Seq<Json>, category: Seq<char>, now: i64)
    ensures
        tidy(new_sku(products, category, now)),
        new_sku(products, category, now).len() > 0,
{
    let slug = slug_of(crate::json::or_else(category, "producto"@), now);
    lemma_slug_tidy(crate::json::or_else(category, "producto"@), now);
    lemma_joined(slug);
    let letters = joined(slug).map_values(|c: char| capital(c));
    assert forall|i: int| 0 <= i < letters.len() implies !white(#[trigger] letters[i]) by {
        assert(!white(joined(slug)[i]));
    }
    let prefix = sku_prefix(category, now);
    reveal_strlit("PROD");
    assert(prefix.len() > 0 && !white(prefix[0]));
    let start: nat = crate::lists::count_with(products, "category"@, category) + 1;
    let n: nat = free_number(products, prefix, start);
    lemma_numeral(n, 10);
    lemma_padded(numeral(n, 10), 4);
    assert(new_sku(products, category, now)[0] == prefix[0]);
    assert(new_sku(products, category, now).last() == numeral(n, 10).last());
    assert(numeral(n, 10).last() == numeral(n, 10)[numeral(n, 10).len() - 1]);
}

// ----- password hashes -----

proof fn lemma_numeral_short(n: nat, k: nat)
    requires
        k >= 1,
        n < pow(16, k),
    ensures
        numeral(n, 16).len() <= k,
    decreases k,
{
    if n >= 16 {
        if k == 1 {
            lemma_pow1(16);
        } else {
            reveal(pow);
            assert(pow(16, k) == 16 * pow(16, (k - 1) as nat));
            assert(n / 16 < pow(16, (k - 1) as nat));
            lemma_numeral_short(n / 16, (k - 1) as nat);
        }
    }
}

pub proof fn lemma_hex8(n: u32)
    ensures
        hex8(n).len() == 8,
        forall|i: int|
            0 <= i < 8 ==> '0' <= #[trigger] hex8(n)[i] <= '9' || 'a' <= hex8(n)[i] <= 'f',
{
    assert(pow(16, 8) == 0x1_0000_0000) by {
        reveal_with_fuel(pow, 9);
    }
    lemma_numeral_short(n as nat, 8);
    lemma_numeral(n as nat, 16);
    lemma_padded(numeral(n as nat, 16), 8);
    assert forall|i: int| 0 <= i < 8 implies '0' <= #[trigger] hex8(n)[i] <= '9' || 'a' <= hex8(
        n,
    )[i] <= 'f' by {
        let s = numeral(n as nat, 16);
        if s.contains(hex8(n)[i]) {
            let k = choose|k: int| 0 <= k < s.len() && s[k] == hex8(n)[i];
            assert(s[k] == hex8(n)[i]);
        }
    }
}

/// The hash of a password is thirty-two digits in base sixteen, whatever the password and the
/// salt. So it reads as text as it is, and is never the empty text.
pub proof fn law_password_hash(password: Seq<char>, salt: Seq<char>)
    ensures
        password_hash(password, salt).len() == 32,
        forall|i: int|
            0 <= i < 32 ==> '0' <= #[trigger] password_hash(password, salt)[i] <= '9' || 'a'
                <= password_hash(password, salt)[i] <= 'f',
        plain(Some(Json::Text(password_hash(password, salt)))) == password_hash(password, salt),
{
    let s = digested(salt + seq!['|'] + password);
    lemma_hex8(s.a);
    lemma_hex8(s.b);
    lemma_hex8(s.c);
    lemma_hex8(s.d);
    let h = password_hash(password, salt);
    assert forall|i: int| 0 <= i < 32 implies '0' <= #[trigger] h[i] <= '9' || 'a' <= h[i] <= 'f' by {
        if i < 8 {
            assert(h[i] == hex8(s.a)[i]);
        } else if i < 16 {
            assert(h[i] == hex8(s.b)[i - 8]);
        } else if i < 24 {
            assert(h[i] == hex8(s.c)[i - 16]);
        } else {
            assert(h[i] == hex8(s.d)[i - 24]);
        }
    }
    assert(h[0] == h[0] && h.last() == h[31]);
    lemma_trimmed(h);
}

// ----- new texts -----

/// At one reading of the clock, texts made at different counts differ.
pub proof fn law_new_texts_differ(nanos: u128, a: u64, b: u64, process: u32)
    requires
        a != b,
    ensures
        token(nanos, a, process) != token(nanos, b, process),
{
    let n = numeral(nanos as nat, 16);
    let x = numeral(a as nat, 16);
    let y = numeral(b as nat, 16);
    let p = numeral(process as nat, 16);
    if token(nanos, a, process) == token(nanos, b, process) {
        assert((n + x + p).len() == (n + y + p).len());
        assert(x =~= (n + x + p).subrange(n.len() as int, (n.len() + x.len()) as int));
        assert(y =~= (n + y + p).subrange(n.len() as int, (n.len() + y.len()) as int));
        lemma_number_of(a as nat, 16, 0);
        lemma_number_of(b as nat, 16, 0);
    }
}

} // verus!
