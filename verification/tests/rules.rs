use tienda_pos::clock::{
    millis_of, now_millis, random_suffix, random_text, suffix_of, token_of, Moment, TokenSource,
};
use tienda_pos::json::{clean_text, Value};
use tienda_pos::rules::{
    catalog_store, hash_password, is_username, is_valid_color, normalize_role, slug, slug_at,
    slug_of_lowered,
};

fn cleaned(s: &str) -> String {
    clean_text(Some(&Value::Text(s.to_string())))
}

/// An identifier, worked out character by character.
fn expected_slug(value: &str, now: i64) -> String {
    let mut s: String = value.trim().to_lowercase();
    for (a, b) in [
        ("á", "a"),
        ("é", "e"),
        ("í", "i"),
        ("ó", "o"),
        ("ú", "u"),
        ("ü", "u"),
        ("ñ", "n"),
    ] {
        s = s.replace(a, b);
    }
    let groups: Vec<&str> =
        s.split(|c: char| !c.is_ascii_alphanumeric()).filter(|g| !g.is_empty()).collect();
    if groups.is_empty() {
        format!("item_{}", now)
    } else {
        groups.join("_")
    }
}

#[test]
fn user_names_are_four_digits_or_more() {
    for s in ["1234", "0000", "123456789012"] {
        assert!(is_username(s));
    }
    for s in ["", "123", "12a4", "12 34", "-1234", "\u{661}\u{662}\u{663}\u{664}", "1234\n"] {
        assert!(!is_username(s));
    }
}

#[test]
fn roles_are_three() {
    for (given, role) in [
        ("admin", "admin"),
        ("ADMIN", "admin"),
        ("Encargado", "encargado"),
        ("cajero", "cajero"),
        ("jefe", "cajero"),
        ("", "cajero"),
        (" admin", "cajero"),
        ("\u{130}admin", "cajero"),
    ] {
        assert_eq!(normalize_role(given), role);
        assert_eq!(normalize_role(&normalize_role(given)), role);
    }
}

#[test]
fn identifiers_come_from_names() {
    assert_eq!(slug("Bebidas Frías"), "bebidas_frias");
    assert_eq!(slug("  Año Nuevo: ¡Piñata!  "), "ano_nuevo_pinata");
    assert_eq!(slug("___a---B   c___"), "a_b_c");
    assert_eq!(slug("PINGÜINO"), "pinguino");
    assert_eq!(slug("\u{212a}ilo"), "kilo");
    assert_eq!(slug_at("¿?", 1700000000123), "item_1700000000123");
    assert_eq!(slug_at("", -5), "item_-5");
    assert!(slug("!!").starts_with("item_"));
    for s in ["", "a", "Ü ü", "x_1", "1-2-3", "日本", "É", "tab\tnew\nline", "\u{2003}ancho\u{2003}"] {
        assert_eq!(slug_at(s, 77), expected_slug(s, 77), "{:?}", s);
    }
}

#[test]
fn blanks_and_capitals_change_no_identifier() {
    for s in ["Bebidas Frías", "ñandú", "ÁRBOL grande", "a-1", "Ü", "pan  dulce"] {
        let made: String = slug_at(s, 7);
        assert_eq!(slug_at(&format!(" \t{}\u{a0}\u{3000}", s), 7), made);
        assert_eq!(slug_at(&s.to_ascii_uppercase(), 7), made);
        assert_eq!(slug_at(&s.to_lowercase(), 7), made);
    }
    assert_eq!(slug_at("ÑOÑO ÁÉÍÓÚÜ", 7), "nono_aeiouu");
    for s in ["日本 pan", "ΑΣ abc", "abcΣ", "Σabc", "aΣa", "a\u{301}Σ.b", "İx", "\u{212a}ilo", "ǅ un dos", "Straße 日"] {
        let made: String = slug_at(s, 7);
        assert_eq!(slug_at(&s.to_ascii_uppercase(), 7), made, "{:?}", s);
        assert_eq!(slug_at(&s.to_ascii_lowercase(), 7), made, "{:?}", s);
        assert_eq!(normalize_role(&s.to_ascii_uppercase()), normalize_role(s));
    }
    assert_eq!(slug_at("日本 PAN", 7), "pan");
}

#[test]
fn capitals_change_no_small_letters() {
    for n in 0..0x110000u32 {
        if let Some(c) = char::from_u32(n) {
            for s in [format!("A{}", c), format!("{}Z", c), format!("M{}Σ{}Q", c, c), format!("KΣ{}B", c)] {
                assert_eq!(s.to_ascii_lowercase().to_lowercase(), s.to_lowercase(), "{:x}", n);
            }
        }
    }
}

#[test]
fn an_identifier_comes_from_small_letters() {
    assert_eq!(slug_of_lowered("bebidas frías"), "bebidas_frias");
    assert_eq!(slug_of_lowered("  a  "), "a");
    assert_eq!(slug_of_lowered("Pan"), "Pan");
    assert_eq!(slug_of_lowered("--"), "");
    assert_eq!(slug_of_lowered(""), "");
}

#[test]
fn an_identifier_is_its_own() {
    for s in ["Refrescos y jugos", "¡Ñandú!", "%%%", "A__B", "9"] {
        let once: String = slug_at(s, 1700000000000);
        assert_eq!(slug_at(&once, 5), once);
        assert!(!once.is_empty() && !once.starts_with('_') && !once.ends_with('_'));
        assert!(!once.contains("__"));
    }
}

#[test]
fn passwords_are_hashed_with_their_salt() {
    assert_eq!(hash_password("1234", "abc"), "bca8398d47bdaa2b2855dcb7af752464");
    assert_eq!(hash_password("", ""), "f90c4a3b6b550febc0c93ea3c655eaf3");
    assert_eq!(hash_password("secreto", "18f2"), "461627e11e88d3dfcdb594577625e706");
    assert_eq!(hash_password("ñandú", "sal"), "06d89621945c56a18b33b13dae6088e9");
    assert_eq!(hash_password("\u{1f600}", "x"), "eec5a07cfe41766a5407b4d6eee0ed89");
}

#[test]
fn a_hash_is_thirty_two_digits() {
    for p in ["", "a", "contraseña larga \u{10ffff}"] {
        let h: String = hash_password(p, "s");
        assert_eq!(h.len(), 32);
        assert!(h.chars().all(|c| c.is_ascii_hexdigit() && !c.is_ascii_uppercase()));
        assert_eq!(cleaned(&h), h);
    }
}

#[test]
fn colours_are_six_digits() {
    for s in ["#125f56", "#ABCDEF", "#000000"] {
        assert!(is_valid_color(s));
    }
    for s in ["", "125f56", "#125f5", "#125f567", "#12345g", "##12345", "#12345\u{e9}", "#\u{e9}1234"] {
        assert!(!is_valid_color(s));
    }
}

#[test]
fn catalogues_have_stores() {
    assert_eq!(catalog_store("category"), Some("categories"));
    assert_eq!(catalog_store("unit"), Some("units"));
    assert_eq!(catalog_store("supplier"), Some("suppliers"));
    assert_eq!(catalog_store("presentation"), Some("presentations"));
    assert_eq!(catalog_store("Category"), None);
    assert_eq!(catalog_store(""), None);
}

#[test]
fn white_space_is_cut_off_at_the_ends() {
    for n in 0..0x110000u32 {
        if let Some(c) = char::from_u32(n) {
            let s: String = format!("{}a{}b{}", c, c, c);
            assert_eq!(cleaned(&s), s.trim(), "{:x}", n);
        }
    }
    assert_eq!(cleaned(" \t\u{3000}\n"), "");
}

#[test]
fn small_letters_are_those_of_unicode() {
    for s in ["ÁRBOL", "Straße", "ΑΣ", "İ", "ǅ", "ABC", "ÑU"] {
        let lowered: String = s.to_lowercase();
        assert_eq!(slug_at(s, 0), expected_slug(&lowered, 0));
    }
    for n in 0..0x110000u32 {
        if let Some(c) = char::from_u32(n) {
            let lowered: String = format!("é{}", c).to_lowercase();
            assert!(lowered.chars().all(|d| !d.is_ascii_uppercase()), "{:x}", n);
        }
    }
    for n in 0..=0xffu8 {
        let capital: bool = n.is_ascii_uppercase() || (0xc0..=0xde).contains(&n) && n != 0xd7;
        let small: char = if capital { (n + 32) as char } else { n as char };
        for around in ["", "a", "Z", "é "] {
            let text: String = format!("{}{}{}", around, n as char, around);
            let lowered: String = format!("{}{}{}", around.to_lowercase(), small, around.to_lowercase());
            assert_eq!(text.to_lowercase(), lowered);
        }
    }
}

#[test]
fn tokens_are_three_numbers_in_base_sixteen() {
    assert_eq!(token_of(0, 0, 0), "000");
    assert_eq!(token_of(255, 16, 4096), "ff101000");
    assert_eq!(token_of(u128::MAX, u64::MAX, u32::MAX), format!("{:x}{:x}{:x}", u128::MAX, u64::MAX, u32::MAX));
    let mut source: TokenSource = TokenSource { count: 41, process: 7 };
    assert_eq!(source.text_at(1), "1297");
    assert_eq!(source.count, 42);
    let first: String = random_text(&mut source);
    let second: String = random_text(&mut source);
    assert_eq!(source.count, 44);
    assert!(first.ends_with("2a7"));
    assert!(second.ends_with("2b7"));
    assert_ne!(first, second);
    source.count = u64::MAX;
    assert!(random_text(&mut source).ends_with("ffffffffffffffff7"));
    assert_eq!(source.count, 0);
}

#[test]
fn the_end_of_a_token_is_read_backwards() {
    assert_eq!(suffix_of("abcdefgh"), "hgfedc");
    assert_eq!(suffix_of("abc"), "cba");
    assert_eq!(suffix_of(""), "");
    let mut source: TokenSource = TokenSource { count: 0x123456, process: 0 };
    assert_eq!(random_suffix(&mut source), "065432");
}

#[test]
fn the_clock_is_read_in_milliseconds() {
    assert_eq!(millis_of(None), 0);
    assert_eq!(millis_of(Some(1_999_999)), 1);
    assert_eq!(millis_of(Some(u128::MAX)), (u128::MAX / 1_000_000) as i64);
    let before: i64 = chrono::Utc::now().timestamp_millis();
    let now: i64 = now_millis();
    let after: i64 = chrono::Utc::now().timestamp_millis();
    assert!(before <= now && now <= after);
}

#[test]
fn a_moment_is_written_in_utc() {
    let before: i64 = chrono::Utc::now().timestamp_millis();
    let m: Moment = Moment::now();
    let after: i64 = chrono::Utc::now().timestamp_millis();
    assert!(before <= m.millis && m.millis <= after);
    assert!(before <= (m.nanos / 1_000_000) as i64 && (m.nanos / 1_000_000) as i64 <= after);
    assert_eq!(m.iso.len(), 24);
    assert!(m.iso.ends_with('Z'));
    let read = chrono::DateTime::parse_from_rfc3339(&m.iso).unwrap().timestamp_millis();
    assert!(before <= read && read <= after);
}

#[test]
fn texts_of_one_moment_differ() {
    let mut seen: Vec<String> = Vec::new();
    for count in 0..300u64 {
        let t: String = token_of(0x1234, count, 0x12);
        assert!(!seen.contains(&t));
        seen.push(t);
    }
}
