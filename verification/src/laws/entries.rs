//! Laws of the catalogues and the settings: what is written down of an entry, and what each setting
//! is.

use crate::catalogs::{
    delete_catalog_outcome, entry_id, entry_record, save_catalog_outcome, save_settings_outcome,
    settings_record,
};
use crate::double::{less, of_integer, same, value, TWO52};
use crate::json::{amount, field, plain, Json};
use crate::laws::movements::{holds, only_at, says, told_or};
use crate::laws::numbers::is_whole;
use crate::laws::preferences::lemma_each;
use crate::laws::words::{
    lemma_entry_words, lemma_product_words, lemma_reply_words, lemma_stock_words,
};
use crate::rules::slug_of;
use crate::settings::{
    settings_in_force, settings_of, EIGHTEEN, ELEVEN, FOURTEEN, NINE, SIXTEEN, TWENTY_FOUR,
};
use crate::shop::ShopView;
use crate::store::{law_delete, law_put};
use crate::text::byte_len;
use crate::users::{authorized, managers};
use vstd::arithmetic::power2::{lemma2_to64_rest, lemma_pow2_adds, pow2};
use vstd::prelude::*;

verus! {

// ----- entries of a catalogue -----

/// The store of a kind of entries.
pub open spec fn shelf(kind: Seq<char>) -> Option<Seq<char>> {
    if kind == "category"@ {
        Some("categories"@)
    } else if kind == "unit"@ {
        Some("units"@)
    } else if kind == "supplier"@ {
        Some("suppliers"@)
    } else if kind == "presentation"@ {
        Some("presentations"@)
    } else {
        None
    }
}

/// Whether a field says yes: a missing one does, and so does what is not null, false, zero or an
/// empty text.
pub open spec fn is_yes(v: Option<Json>) -> bool {
    match v {
        None => true,
        Some(Json::Null) => false,
        Some(Json::Bool(b)) => b,
        Some(Json::Number(_)) => !same(amount(v), 0),
        Some(Json::Text(s)) => s.len() > 0,
        Some(_) => true,
    }
}

/// What is written down of an entry, where its store has `n` others.
pub open spec fn tells_entry(r: Json, payload: Json, id: Seq<char>, n: nat) -> bool {
    let kind = plain(field(payload, "kind"@));
    let name = plain(field(payload, "name"@));
    &&& says(r, "id"@, id)
    &&& says(r, "name"@, name)
    &&& field(r, "active"@) == Some(Json::Bool(is_yes(field(payload, "active"@))))
    &&& holds(
        r,
        "sortOrder"@,
        if field(payload, "sortOrder"@) matches Some(Json::Number(_)) {
            amount(field(payload, "sortOrder"@))
        } else {
            of_integer(n as int + 1)
        },
    )
    &&& kind == "unit"@ ==> says(r, "abbreviation"@, told_or(payload, "abbreviation"@, name))
        && r->Object_0.dom() == set!["id"@, "name"@, "active"@, "sortOrder"@, "abbreviation"@]
    &&& kind == "supplier"@ ==> says(r, "phone"@, plain(field(payload, "phone"@))) && says(
        r,
        "notes"@,
        plain(field(payload, "notes"@)),
    ) && r->Object_0.dom() == set!["id"@, "name"@, "active"@, "sortOrder"@, "phone"@, "notes"@]
    &&& kind == "category"@ || kind == "presentation"@ ==> says(
        r,
        "description"@,
        plain(field(payload, "description"@)),
    ) && r->Object_0.dom() == set!["id"@, "name"@, "active"@, "sortOrder"@, "description"@]
}

/// The kinds of entries differ.
proof fn lemma_kinds()
    ensures
        "category"@.len() == 8,
        "unit"@.len() == 4,
        "supplier"@.len() == 8,
        "supplier"@ != "category"@,
        "presentation"@.len() == 12,
{
    reveal_strlit("category");
    reveal_strlit("unit");
    reveal_strlit("supplier");
    reveal_strlit("presentation");
    assert("supplier"@[0] == 's' && "category"@[0] == 'c');
}

proof fn lemma_tells_entry(payload: Json, id: Seq<char>, n: nat)
    ensures
        tells_entry(entry_record(plain(field(payload, "kind"@)), payload, id, n), payload, id, n),
{
    let kind = plain(field(payload, "kind"@));
    let r = entry_record(kind, payload, id, n);
    lemma_stock_words();
    lemma_product_words();
    lemma_entry_words();
    lemma_kinds();
    if kind == "unit"@ {
        assert(r->Object_0.dom() =~= set![
            "id"@,
            "name"@,
            "active"@,
            "sortOrder"@,
            "abbreviation"@,
        ]);
    } else if kind == "supplier"@ {
        assert(r->Object_0.dom() =~= set![
            "id"@,
            "name"@,
            "active"@,
            "sortOrder"@,
            "phone"@,
            "notes"@,
        ]);
    } else {
        assert(r->Object_0.dom() =~= set![
            "id"@,
            "name"@,
            "active"@,
            "sortOrder"@,
            "description"@,
        ]);
    }
}

/// An entry is kept in the store of its kind, under the identifier in the request or the one made
/// from its name, and is the answer; no other entry changes. A kind that there is not and an entry
/// without a name are refused.
pub proof fn law_entry_saved(shop: ShopView, key: Seq<char>, payload: Json, now: i64, user: Json)
    requires
        authorized(shop, key, managers(), now) == Ok::<Json, Seq<char>>(user),
    ensures
        ({
            let o = save_catalog_outcome(shop, key, payload, now);
            let name = plain(field(payload, "name"@));
            let id = told_or(payload, "id"@, slug_of(name, now));
            match shelf(plain(field(payload, "kind"@))) {
                None => o.reply == Err::<Json, Seq<char>>("Catalogo no reconocido"@) && o.shop.db
                    == shop.db,
                Some(store) => if name.len() == 0 {
                    o.reply == Err::<Json, Seq<char>>("Falta nombre"@) && o.shop.db == shop.db
                } else {
                    let r = o.shop.db.item(store, id)->0;
                    &&& o.shop.db.item(store, id) is Some
                    &&& o.reply == Ok::<Json, Seq<char>>(
                        Json::Object(map!["ok"@ => Json::Bool(true), "item"@ => r]),
                    )
                    &&& tells_entry(r, payload, id, shop.db.list(store).len())
                    &&& only_at(shop.db, o.shop.db, store, id)
                    &&& forall|s: Seq<char>|
                        s != store ==> #[trigger] o.shop.db.list(s) == shop.db.list(s)
                    &&& o.shop.source == shop.source
                },
            }
        }),
{
    let kind = plain(field(payload, "kind"@));
    let name = plain(field(payload, "name"@));
    let id = told_or(payload, "id"@, slug_of(name, now));
    assert(entry_id(payload, now) == id);
    if let Some(store) = shelf(kind) {
        let n = shop.db.list(store).len();
        let r = entry_record(kind, payload, id, n);
        lemma_tells_entry(payload, id, n);
        law_put(shop.db, store, id, r);
        assert(crate::reply::yes().insert("item"@, r) =~= map![
            "ok"@ => Json::Bool(true),
            "item"@ => r,
        ]);
    }
}

/// An entry that is deleted is gone from the store of its kind, and no other; a kind that there is
/// not and an empty identifier are refused.
pub proof fn law_entry_deleted(shop: ShopView, key: Seq<char>, payload: Json, now: i64, user: Json)
    requires
        authorized(shop, key, managers(), now) == Ok::<Json, Seq<char>>(user),
    ensures
        ({
            let o = delete_catalog_outcome(shop, key, payload, now);
            let id = plain(field(payload, "id"@));
            match shelf(plain(field(payload, "kind"@))) {
                Some(store) if id.len() > 0 => {
                    &&& o.reply == Ok::<Json, Seq<char>>(
                        Json::Object(map!["ok"@ => Json::Bool(true)]),
                    )
                    &&& o.shop.db.item(store, id) is None
                    &&& only_at(shop.db, o.shop.db, store, id)
                    &&& forall|s: Seq<char>|
                        s != store ==> #[trigger] o.shop.db.list(s) == shop.db.list(s)
                    &&& o.shop.source == shop.source
                },
                _ => o.reply == Err::<Json, Seq<char>>("Catalogo no reconocido"@) && o.shop.db
                    == shop.db,
            }
        }),
{
    if let Some(store) = shelf(plain(field(payload, "kind"@))) {
        law_delete(shop.db, store, plain(field(payload, "id"@)));
    }
    assert(crate::reply::yes() =~= map!["ok"@ => Json::Bool(true)]);
}

// ----- settings -----

/// A colour, or the one that stands for it where it is none: a hash sign and six digits in base
/// sixteen.
pub open spec fn if_color(s: Seq<char>, other: Seq<char>) -> Seq<char> {
    if s.len() == 7 && s[0] == '#' && (forall|i: int|
        1 <= i < 7 ==> '0' <= #[trigger] s[i] <= '9' || 'a' <= s[i] <= 'f' || 'A' <= s[i] <= 'F') {
        s
    } else {
        other
    }
}

/// A typeface, or the one that stands for it where it is not among those that may be chosen.
pub open spec fn if_typeface(s: Seq<char>, other: Seq<char>) -> Seq<char> {
    if s == "Arial"@ || s == "Courier New"@ || s == "Tahoma"@ || s == "Verdana"@ {
        s
    } else {
        other
    }
}

/// A size of a source, or where to start from where there is none.
pub open spec fn size_told(source: Json, key: Seq<char>, start: u64) -> u64 {
    match field(source, key) {
        Some(v) => amount(Some(v)),
        None => start,
    }
}

/// The number nearest to `x` that is not below `lo` and not above `hi`.
pub open spec fn within(x: u64, lo: u64, hi: u64) -> u64 {
    if less(x, lo) {
        lo
    } else if less(hi, x) {
        hi
    } else {
        x
    }
}

/// Whether a logo is the whole of a text, or the first 250000 bytes of a longer one.
pub open spec fn is_cut(logo: Seq<char>, whole: Seq<char>) -> bool {
    if byte_len(whole) <= 250000 {
        logo == whole
    } else {
        &&& logo.len() <= whole.len()
        &&& logo == whole.take(logo.len() as int)
        &&& byte_len(logo) == 250000
    }
}

/// What each of the settings is that are made from a source.
pub open spec fn tells_settings(made: Json, source: Json) -> bool {
    &&& says(made, "storeTitle"@, told_or(source, "storeTitle"@, "Tienda de Conveniencia"@))
    &&& says(made, "storeSubtitle"@, told_or(source, "storeSubtitle"@, "Venta, entradas, salidas, mermas, conteos y reportes"@))
    &&& says(made, "authTitle"@, told_or(source, "authTitle"@, "Acceso a tienda"@))
    &&& says(made, "authHelp"@, told_or(source, "authHelp"@, "Ingresa con tu usuario de tienda."@))
    &&& field(made, "showAuthHelp"@) == Some(Json::Bool(field(source, "showAuthHelp"@) != Some(Json::Bool(false))))
    &&& holds(made, "accessFontSize"@, within(size_told(source, "accessFontSize"@, SIXTEEN), FOURTEEN, TWENTY_FOUR))
    &&& says(made, "accent"@, if_color(plain(field(source, "accent"@)), "#125f56"@))
    &&& says(made, "accent2"@, if_color(plain(field(source, "accent2"@)), "#cf7f2a"@))
    &&& says(made, "blue"@, if_color(plain(field(source, "blue"@)), "#276b9f"@))
    &&& says(made, "green"@, if_color(plain(field(source, "green"@)), "#317448"@))
    &&& says(made, "danger"@, if_color(plain(field(source, "danger"@)), "#bd4438"@))
    &&& says(made, "bg"@, if_color(plain(field(source, "bg"@)), "#f2f4f1"@))
    &&& says(made, "panel"@, if_color(plain(field(source, "panel"@)), "#fffefb"@))
    &&& says(made, "soft"@, if_color(plain(field(source, "soft"@)), "#f8f1e7"@))
    &&& says(made, "confirmPayLabel"@, told_or(source, "confirmPayLabel"@, "Confirmar cobro y descontar inventario"@))
    &&& says(made, "ticketTitle"@, told_or(source, "ticketTitle"@, "Ticket de venta"@))
    &&& says(made, "ticketFooter"@, told_or(source, "ticketFooter"@, "Gracias por su compra"@))
    &&& says(made, "ticketTaxLabel"@, told_or(source, "ticketTaxLabel"@, "IVA 16%"@))
    &&& field(made, "ticketShowStore"@) == Some(Json::Bool(field(source, "ticketShowStore"@) != Some(Json::Bool(false))))
    &&& field(made, "ticketShowDate"@) == Some(Json::Bool(field(source, "ticketShowDate"@) != Some(Json::Bool(false))))
    &&& field(made, "ticketShowCashier"@) == Some(Json::Bool(field(source, "ticketShowCashier"@) != Some(Json::Bool(false))))
    &&& field(made, "ticketShowPayment"@) == Some(Json::Bool(field(source, "ticketShowPayment"@) != Some(Json::Bool(false))))
    &&& field(made, "ticketShowSku"@) == Some(Json::Bool(field(source, "ticketShowSku"@) != Some(Json::Bool(false))))
    &&& field(made, "ticketShowIva"@) == Some(Json::Bool(field(source, "ticketShowIva"@) != Some(Json::Bool(false))))
    &&& field(made, "ticketShowLogo"@) == Some(Json::Bool(field(source, "ticketShowLogo"@) == Some(Json::Bool(true))))
    &&& field(made, "ticketLogoData"@) matches Some(Json::Text(logo)) && is_cut(logo, plain(field(source, "ticketLogoData"@)))
    &&& says(made, "ticketFontFamily"@, if_typeface(plain(field(source, "ticketFontFamily"@)), "Arial"@))
    &&& holds(made, "ticketFontSize"@, within(size_told(source, "ticketFontSize"@, ELEVEN), NINE, EIGHTEEN))
    &&& field(made, "ticketBold"@) == Some(Json::Bool(field(source, "ticketBold"@) == Some(Json::Bool(true))))
    &&& field(made, "ticketAutoPrint"@) == Some(Json::Bool(field(source, "ticketAutoPrint"@) == Some(Json::Bool(true))))
    &&& field(made, "ticketPreviewBeforePrint"@) == Some(Json::Bool(field(source, "ticketPreviewBeforePrint"@) != Some(Json::Bool(false))))
    &&& field(made, "ticketShowReceiptDialog"@) == Some(Json::Bool(field(source, "ticketShowReceiptDialog"@) != Some(Json::Bool(false))))
    &&& says(made, "cashCutTitle"@, told_or(source, "cashCutTitle"@, "Corte de caja"@))
    &&& says(made, "cashCutFooter"@, told_or(source, "cashCutFooter"@, "Corte generado por el sistema"@))
    &&& says(made, "cashCutFontFamily"@, if_typeface(plain(field(source, "cashCutFontFamily"@)), "Arial"@))
    &&& holds(made, "cashCutFontSize"@, within(size_told(source, "cashCutFontSize"@, ELEVEN), NINE, EIGHTEEN))
    &&& field(made, "cashCutBold"@) == Some(Json::Bool(field(source, "cashCutBold"@) != Some(Json::Bool(false))))
    &&& field(made, "cashCutShowLogo"@) == Some(Json::Bool(field(source, "cashCutShowLogo"@) == Some(Json::Bool(true))))
    &&& field(made, "cashCutShowProducts"@) == Some(Json::Bool(field(source, "cashCutShowProducts"@) != Some(Json::Bool(false))))
    &&& field(made, "cashCutShowPayments"@) == Some(Json::Bool(field(source, "cashCutShowPayments"@) != Some(Json::Bool(false))))
}

/// The bounds and the starting points of the sizes are what they are called.
pub proof fn law_sizes()
    ensures
        is_whole(NINE, 9),
        is_whole(ELEVEN, 11),
        is_whole(FOURTEEN, 14),
        is_whole(SIXTEEN, 16),
        is_whole(EIGHTEEN, 18),
        is_whole(TWENTY_FOUR, 24),
{
    lemma2_to64_rest();
    lemma_pow2_adds(49, 1025);
    lemma_pow2_adds(1, 1025);
    crate::double::lemma_powers();
    let a: int = pow2(1025) as int;
    let b: int = pow2(1026) as int;
    assert(b == 2 * a);
    assert(pow2(1074) == 0x2_0000_0000_0000 * a);
    let t: int = TWO52 as int;
    assert(NINE as int / t == 1026 && NINE as int % t == 0x2_0000_0000_0000);
    assert(ELEVEN as int / t == 1026 && ELEVEN as int % t == 0x6_0000_0000_0000);
    assert(FOURTEEN as int / t == 1026 && FOURTEEN as int % t == 0xc_0000_0000_0000);
    assert(SIXTEEN as int / t == 1027 && SIXTEEN as int % t == 0);
    assert(EIGHTEEN as int / t == 1027 && EIGHTEEN as int % t == 0x2_0000_0000_0000);
    assert(TWENTY_FOUR as int / t == 1027 && TWENTY_FOUR as int % t == 0x8_0000_0000_0000);
    assert(value(NINE) == 0x12_0000_0000_0000 * a);
    assert(value(ELEVEN) == 0x16_0000_0000_0000 * a);
    assert(value(FOURTEEN) == 0x1c_0000_0000_0000 * a);
    assert(value(SIXTEEN) == 0x10_0000_0000_0000 * b);
    assert(value(EIGHTEEN) == 0x12_0000_0000_0000 * b);
    assert(value(TWENTY_FOUR) == 0x18_0000_0000_0000 * b);
}

/// The settings that are made from a source say, each for itself, what the source says, or what
/// stands for it.
pub proof fn law_each_setting(source: Json)
    requires
        crate::settings::logo_fits(source),
    ensures
        tells_settings(settings_of(source), source),
{
    lemma_each(source);
}

/// Saved settings are answered as they are made from the request, and their text is kept; nothing
/// else changes.
pub proof fn law_settings_saved(
    shop: ShopView,
    key: Seq<char>,
    payload: Json,
    text: Seq<char>,
    now: i64,
    user: Json,
)
    requires
        authorized(shop, key, managers(), now) == Ok::<Json, Seq<char>>(user),
        crate::settings::logo_fits(payload),
    ensures
        ({
            let o = save_settings_outcome(shop, key, payload, text, now);
            &&& o.reply matches Ok(said) && field(said, "ok"@) == Some(Json::Bool(true)) && (field(
                said,
                "settings"@,
            ) matches Some(made) && tells_settings(made, payload))
            &&& o.shop.db.item("settings"@, "app"@) == Some(
                Json::Object(map!["key"@ => Json::Text("app"@), "value"@ => Json::Text(text)]),
            )
            &&& only_at(shop.db, o.shop.db, "settings"@, "app"@)
            &&& o.shop.source == shop.source
        }),
{
    law_each_setting(payload);
    lemma_reply_words();
    law_put(shop.db, "settings"@, "app"@, settings_record(text));
    assert(settings_record(text)->Object_0 =~= map![
        "key"@ => Json::Text("app"@),
        "value"@ => Json::Text(text),
    ]);
}

/// The settings in force say what the stored document says, or what a shop starts with.
pub proof fn law_settings_in_force(stored: Option<Json>)
    requires
        crate::settings::stored_fits(stored),
    ensures
        tells_settings(
            settings_in_force(stored),
            match stored {
                Some(v) => v,
                None => Json::Object(Map::empty()),
            },
        ),
{
    match stored {
        Some(v) => {
            law_each_setting(v);
        },
        None => {
            assert(byte_len(plain(None)) == 0);
            law_each_setting(Json::Object(Map::empty()));
        },
    }
}

} // verus!
