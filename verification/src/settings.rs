//! The settings of the shop: every request or stored text is brought to a full set of valid ones.

use crate::json::{
    amount, clean_text, field, fields, float, from_double, from_fields, from_text, no_fields,
    not_false, num_of, opt, or_else, plain, put_field, text_or, truthy_opt, Json, Value,
};
use crate::lists::{find_with, first_with};
use crate::rules::{bounded, clamp, color, color_or};
use crate::store::{list_items, Store};
use crate::text::{byte_len, chars_of, lemma_byte_len_monotone, measure, same_text, text_of};
use vstd::prelude::*;

verus! {

pub const NINE: u64 = 0x4022_0000_0000_0000;

pub const ELEVEN: u64 = 0x4026_0000_0000_0000;

pub const FOURTEEN: u64 = 0x402c_0000_0000_0000;

pub const SIXTEEN: u64 = 0x4030_0000_0000_0000;

pub const EIGHTEEN: u64 = 0x4032_0000_0000_0000;

pub const TWENTY_FOUR: u64 = 0x4038_0000_0000_0000;

/// The most bytes that a logo may have.
pub const LOGO_BYTES: usize = 250000;

/// Whether `s` has at most `limit` bytes, or a character ends after the first `limit` bytes.
pub open spec fn clippable(s: Seq<char>, limit: nat) -> bool {
    byte_len(s) <= limit || exists|n: int| 0 <= n <= s.len() && byte_len(#[trigger] s.take(n)) == limit
}

/// The first `limit` bytes of `s`.
pub open spec fn clipped(s: Seq<char>, limit: nat) -> Seq<char> {
    if byte_len(s) <= limit {
        s
    } else {
        s.take(choose|n: int| 0 <= n <= s.len() && byte_len(#[trigger] s.take(n)) == limit)
    }
}

/// A setting that is a text; an empty one becomes `fallback`.
pub open spec fn text_setting(source: Json, key: Seq<char>, fallback: Seq<char>) -> Json {
    Json::Text(or_else(plain(field(source, key)), fallback))
}

/// A setting that is on unless it is `false`.
pub open spec fn on_setting(source: Json, key: Seq<char>) -> Json {
    Json::Bool(field(source, key) != Some(Json::Bool(false)))
}

/// A setting that is off unless it is `true`.
pub open spec fn off_setting(source: Json, key: Seq<char>) -> Json {
    Json::Bool(field(source, key) == Some(Json::Bool(true)))
}

/// A setting that is a size: `start` where it is missing, and brought into the bounds.
pub open spec fn size_setting(
    source: Json,
    key: Seq<char>,
    start: u64,
    lo: u64,
    hi: u64,
) -> Json {
    float(
        bounded(
            if field(source, key) is Some {
                amount(field(source, key))
            } else {
                start
            },
            lo,
            hi,
        ),
    )
}

/// A setting that is a colour; anything else becomes `fallback`.
pub open spec fn color_setting(source: Json, key: Seq<char>, fallback: Seq<char>) -> Json {
    Json::Text(color(field(source, key), fallback))
}

/// The typefaces that may be chosen.
pub open spec fn is_font(s: Seq<char>) -> bool {
    s == "Arial"@ || s == "Courier New"@ || s == "Tahoma"@ || s == "Verdana"@
}

/// A setting that is a typeface; any other becomes `fallback`.
pub open spec fn font_setting(source: Json, key: Seq<char>, fallback: Seq<char>) -> Json {
    Json::Text(
        if is_font(plain(field(source, key))) {
            plain(field(source, key))
        } else {
            fallback
        },
    )
}

/// A setting that is the data of a logo, of a limited size.
pub open spec fn logo_setting(source: Json, key: Seq<char>) -> Json {
    Json::Text(clipped(plain(field(source, key)), LOGO_BYTES as nat))
}

/// The settings of the shop and its entrance, set in `m`.
pub open spec fn general_settings(source: Json, m: Map<Seq<char>, Json>) -> Map<Seq<char>, Json> {
    m
        .insert("storeTitle"@, text_setting(source, "storeTitle"@, "Tienda de Conveniencia"@))
        .insert("storeSubtitle"@, text_setting(source, "storeSubtitle"@, "Venta, entradas, salidas, mermas, conteos y reportes"@))
        .insert("authTitle"@, text_setting(source, "authTitle"@, "Acceso a tienda"@))
        .insert("authHelp"@, text_setting(source, "authHelp"@, "Ingresa con tu usuario de tienda."@))
        .insert("showAuthHelp"@, on_setting(source, "showAuthHelp"@))
        .insert("accessFontSize"@, size_setting(source, "accessFontSize"@, SIXTEEN, FOURTEEN, TWENTY_FOUR))
}

/// The settings of the colours, set in `m`.
pub open spec fn colors_settings(source: Json, m: Map<Seq<char>, Json>) -> Map<Seq<char>, Json> {
    m
        .insert("accent"@, color_setting(source, "accent"@, "#125f56"@))
        .insert("accent2"@, color_setting(source, "accent2"@, "#cf7f2a"@))
        .insert("blue"@, color_setting(source, "blue"@, "#276b9f"@))
        .insert("green"@, color_setting(source, "green"@, "#317448"@))
        .insert("danger"@, color_setting(source, "danger"@, "#bd4438"@))
        .insert("bg"@, color_setting(source, "bg"@, "#f2f4f1"@))
        .insert("panel"@, color_setting(source, "panel"@, "#fffefb"@))
        .insert("soft"@, color_setting(source, "soft"@, "#f8f1e7"@))
}

/// The settings of the ticket, set in `m`.
pub open spec fn ticket_settings(source: Json, m: Map<Seq<char>, Json>) -> Map<Seq<char>, Json> {
    m
        .insert("confirmPayLabel"@, text_setting(source, "confirmPayLabel"@, "Confirmar cobro y descontar inventario"@))
        .insert("ticketTitle"@, text_setting(source, "ticketTitle"@, "Ticket de venta"@))
        .insert("ticketFooter"@, text_setting(source, "ticketFooter"@, "Gracias por su compra"@))
        .insert("ticketTaxLabel"@, text_setting(source, "ticketTaxLabel"@, "IVA 16%"@))
        .insert("ticketShowStore"@, on_setting(source, "ticketShowStore"@))
        .insert("ticketShowDate"@, on_setting(source, "ticketShowDate"@))
        .insert("ticketShowCashier"@, on_setting(source, "ticketShowCashier"@))
        .insert("ticketShowPayment"@, on_setting(source, "ticketShowPayment"@))
        .insert("ticketShowSku"@, on_setting(source, "ticketShowSku"@))
        .insert("ticketShowIva"@, on_setting(source, "ticketShowIva"@))
        .insert("ticketShowLogo"@, off_setting(source, "ticketShowLogo"@))
        .insert("ticketLogoData"@, logo_setting(source, "ticketLogoData"@))
        .insert("ticketFontFamily"@, font_setting(source, "ticketFontFamily"@, "Arial"@))
        .insert("ticketFontSize"@, size_setting(source, "ticketFontSize"@, ELEVEN, NINE, EIGHTEEN))
        .insert("ticketBold"@, off_setting(source, "ticketBold"@))
        .insert("ticketAutoPrint"@, off_setting(source, "ticketAutoPrint"@))
        .insert("ticketPreviewBeforePrint"@, on_setting(source, "ticketPreviewBeforePrint"@))
        .insert("ticketShowReceiptDialog"@, on_setting(source, "ticketShowReceiptDialog"@))
}

/// The settings of the cash cut, set in `m`.
pub open spec fn cash_cut_settings(source: Json, m: Map<Seq<char>, Json>) -> Map<Seq<char>, Json> {
    m
        .insert("cashCutTitle"@, text_setting(source, "cashCutTitle"@, "Corte de caja"@))
        .insert("cashCutFooter"@, text_setting(source, "cashCutFooter"@, "Corte generado por el sistema"@))
        .insert("cashCutFontFamily"@, font_setting(source, "cashCutFontFamily"@, "Arial"@))
        .insert("cashCutFontSize"@, size_setting(source, "cashCutFontSize"@, ELEVEN, NINE, EIGHTEEN))
        .insert("cashCutBold"@, on_setting(source, "cashCutBold"@))
        .insert("cashCutShowLogo"@, off_setting(source, "cashCutShowLogo"@))
        .insert("cashCutShowProducts"@, on_setting(source, "cashCutShowProducts"@))
        .insert("cashCutShowPayments"@, on_setting(source, "cashCutShowPayments"@))
}

/// The full settings made from a source of settings.
pub open spec fn settings_of(source: Json) -> Json {
    Json::Object(
        cash_cut_settings(
            source,
            ticket_settings(source, colors_settings(source, general_settings(source, Map::empty()))),
        ),
    )
}

/// Whether the logo in a source of settings can be brought to its size.
pub open spec fn logo_fits(source: Json) -> bool {
    clippable(plain(field(source, "ticketLogoData"@)), LOGO_BYTES as nat)
}

fn text_value(source: &Value, key: &str, fallback: &str) -> (r: Value)
    ensures
        r@ == text_setting(source@, key@, fallback@),
{
    Value::Text(text_or(clean_text(source.get(key)), fallback))
}

fn on_value(source: &Value, key: &str) -> (r: Value)
    ensures
        r@ == on_setting(source@, key@),
{
    Value::Bool(not_false(source.get(key)))
}

fn off_value(source: &Value, key: &str) -> (r: Value)
    ensures
        r@ == off_setting(source@, key@),
{
    Value::Bool(truthy_opt(source.get(key)))
}

fn size_value(source: &Value, key: &str, start: u64, lo: u64, hi: u64) -> (r: Value)
    ensures
        r@ == size_setting(source@, key@, start, lo, hi),
{
    let given: Option<&Value> = source.get(key);
    let v: u64 = if given.is_some() {
        num_of(given)
    } else {
        start
    };
    from_double(clamp(v, lo, hi))
}

fn color_value(source: &Value, key: &str, fallback: &str) -> (r: Value)
    ensures
        r@ == color_setting(source@, key@, fallback@),
{
    Value::Text(color_or(source.get(key), fallback))
}

fn font_value(source: &Value, key: &str, fallback: &str) -> (r: Value)
    ensures
        r@ == font_setting(source@, key@, fallback@),
{
    let s: String = clean_text(source.get(key));
    if same_text(s.as_str(), "Arial") || same_text(s.as_str(), "Courier New") || same_text(
        s.as_str(),
        "Tahoma",
    ) || same_text(s.as_str(), "Verdana") {
        Value::Text(s)
    } else {
        from_text(fallback)
    }
}

/// Where the piece with `limit` bytes ends, as `measure` finds it.
proof fn lemma_clip(s: Seq<char>, limit: nat, n: int)
    requires
        0 <= n <= s.len(),
        byte_len(s.take(n)) <= limit,
        n < s.len() ==> byte_len(s.take(n + 1)) > limit,
    ensures
        byte_len(s) <= limit <==> n == s.len(),
        clippable(s, limit) <==> n == s.len() || byte_len(s.take(n)) == limit,
        clippable(s, limit) ==> clipped(s, limit) == s.take(n),
{
    assert(s.take(s.len() as int) =~= s);
    if n < s.len() {
        lemma_byte_len_monotone(s, n + 1, s.len() as int);
        assert forall|m: int| 0 <= m <= s.len() && byte_len(#[trigger] s.take(m)) == limit implies m
            == n by {
            if m > n {
                lemma_byte_len_monotone(s, n + 1, m);
            } else if m < n {
                lemma_byte_len_monotone(s, m, n);
            }
        }
    }
}

fn logo_value(source: &Value, key: &str) -> (r: Value)
    requires
        clippable(plain(field(source@, key@)), LOGO_BYTES as nat),
    ensures
        r@ == logo_setting(source@, key@),
{
    let s: String = clean_text(source.get(key));
    let v: Vec<char> = chars_of(s.as_str());
    let (n, total) = measure(&v, LOGO_BYTES);
    proof {
        lemma_clip(s@, LOGO_BYTES as nat, n as int);
        assert(v@.subrange(0, n as int) =~= s@.take(n as int));
    }
    Value::Text(text_of(&v, 0, n))
}

/// Whether the logo in a source of settings can be brought to its size.
pub fn can_normalize(source: &Value) -> (r: bool)
    ensures
        r == logo_fits(source@),
{
    let s: String = clean_text(source.get("ticketLogoData"));
    let v: Vec<char> = chars_of(s.as_str());
    let (n, total) = measure(&v, LOGO_BYTES);
    proof {
        lemma_clip(s@, LOGO_BYTES as nat, n as int);
    }
    n == v.len() || total == LOGO_BYTES
}

fn put_general(source: &Value, es: &mut Vec<(String, Value)>)
    ensures
        fields(final(es)@) == general_settings(source@, fields(old(es)@)),
{
    put_field(es, "storeTitle", text_value(source, "storeTitle", "Tienda de Conveniencia"));
    put_field(es, "storeSubtitle", text_value(source, "storeSubtitle", "Venta, entradas, salidas, mermas, conteos y reportes"));
    put_field(es, "authTitle", text_value(source, "authTitle", "Acceso a tienda"));
    put_field(es, "authHelp", text_value(source, "authHelp", "Ingresa con tu usuario de tienda."));
    put_field(es, "showAuthHelp", on_value(source, "showAuthHelp"));
    put_field(es, "accessFontSize", size_value(source, "accessFontSize", SIXTEEN, FOURTEEN, TWENTY_FOUR));
}

fn put_colors(source: &Value, es: &mut Vec<(String, Value)>)
    ensures
        fields(final(es)@) == colors_settings(source@, fields(old(es)@)),
{
    put_field(es, "accent", color_value(source, "accent", "#125f56"));
    put_field(es, "accent2", color_value(source, "accent2", "#cf7f2a"));
    put_field(es, "blue", color_value(source, "blue", "#276b9f"));
    put_field(es, "green", color_value(source, "green", "#317448"));
    put_field(es, "danger", color_value(source, "danger", "#bd4438"));
    put_field(es, "bg", color_value(source, "bg", "#f2f4f1"));
    put_field(es, "panel", color_value(source, "panel", "#fffefb"));
    put_field(es, "soft", color_value(source, "soft", "#f8f1e7"));
}

fn put_ticket(source: &Value, es: &mut Vec<(String, Value)>)
    requires
        clippable(plain(field(source@, "ticketLogoData"@)), LOGO_BYTES as nat),
    ensures
        fields(final(es)@) == ticket_settings(source@, fields(old(es)@)),
{
    put_field(es, "confirmPayLabel", text_value(source, "confirmPayLabel", "Confirmar cobro y descontar inventario"));
    put_field(es, "ticketTitle", text_value(source, "ticketTitle", "Ticket de venta"));
    put_field(es, "ticketFooter", text_value(source, "ticketFooter", "Gracias por su compra"));
    put_field(es, "ticketTaxLabel", text_value(source, "ticketTaxLabel", "IVA 16%"));
    put_field(es, "ticketShowStore", on_value(source, "ticketShowStore"));
    put_field(es, "ticketShowDate", on_value(source, "ticketShowDate"));
    put_field(es, "ticketShowCashier", on_value(source, "ticketShowCashier"));
    put_field(es, "ticketShowPayment", on_value(source, "ticketShowPayment"));
    put_field(es, "ticketShowSku", on_value(source, "ticketShowSku"));
    put_field(es, "ticketShowIva", on_value(source, "ticketShowIva"));
    put_field(es, "ticketShowLogo", off_value(source, "ticketShowLogo"));
    put_field(es, "ticketLogoData", logo_value(source, "ticketLogoData"));
    put_field(es, "ticketFontFamily", font_value(source, "ticketFontFamily", "Arial"));
    put_field(es, "ticketFontSize", size_value(source, "ticketFontSize", ELEVEN, NINE, EIGHTEEN));
    put_field(es, "ticketBold", off_value(source, "ticketBold"));
    put_field(es, "ticketAutoPrint", off_value(source, "ticketAutoPrint"));
    put_field(es, "ticketPreviewBeforePrint", on_value(source, "ticketPreviewBeforePrint"));
    put_field(es, "ticketShowReceiptDialog", on_value(source, "ticketShowReceiptDialog"));
}

fn put_cash_cut(source: &Value, es: &mut Vec<(String, Value)>)
    ensures
        fields(final(es)@) == cash_cut_settings(source@, fields(old(es)@)),
{
    put_field(es, "cashCutTitle", text_value(source, "cashCutTitle", "Corte de caja"));
    put_field(es, "cashCutFooter", text_value(source, "cashCutFooter", "Corte generado por el sistema"));
    put_field(es, "cashCutFontFamily", font_value(source, "cashCutFontFamily", "Arial"));
    put_field(es, "cashCutFontSize", size_value(source, "cashCutFontSize", ELEVEN, NINE, EIGHTEEN));
    put_field(es, "cashCutBold", on_value(source, "cashCutBold"));
    put_field(es, "cashCutShowLogo", off_value(source, "cashCutShowLogo"));
    put_field(es, "cashCutShowProducts", on_value(source, "cashCutShowProducts"));
    put_field(es, "cashCutShowPayments", on_value(source, "cashCutShowPayments"));
}

/// The full settings made from a source of settings.
pub fn normalize_settings(source: &Value) -> (r: Value)
    requires
        logo_fits(source@),
    ensures
        r@ == settings_of(source@),
{
    let mut es: Vec<(String, Value)> = no_fields();
    put_general(source, &mut es);
    put_colors(source, &mut es);
    put_ticket(source, &mut es);
    put_cash_cut(source, &mut es);
    from_fields(es)
}

/// The settings of a shop that has set none.
pub fn default_settings() -> (r: Value)
    ensures
        r@ == settings_of(Json::Object(Map::empty())),
{
    proof {
        assert(byte_len(plain(None)) == 0);
    }
    normalize_settings(&from_fields(no_fields()))
}

/// The text of the settings among the documents of their store.
pub open spec fn settings_text_in(rows: Seq<Json>) -> Option<Seq<char>> {
    let i = first_with(rows, "key"@, "app"@);
    if i < rows.len() {
        match field(rows[i], "value"@) {
            Some(Json::Text(s)) => Some(s),
            _ => None,
        }
    } else {
        None
    }
}

/// The text of the settings that the store keeps.
pub fn settings_text(db: &Store) -> (r: Option<String>)
    ensures
        match r {
            Some(s) => settings_text_in(db@.list("settings"@)) == Some(s@),
            None => settings_text_in(db@.list("settings"@)) is None,
        },
{
    let rows: Vec<Value> = list_items(db, "settings");
    match find_with(&rows, "key", "app") {
        Some(i) => match rows[i].get("value") {
            Some(Value::Text(s)) => Some(s.clone()),
            _ => None,
        },
        None => None,
    }
}

/// The settings in force: those of the stored text, where it is a document, or those of a shop
/// that has set none.
pub open spec fn settings_in_force(stored: Option<Json>) -> Json {
    match stored {
        Some(v) => settings_of(v),
        None => settings_of(Json::Object(Map::empty())),
    }
}

/// Whether the settings in force can be made from the stored document.
pub open spec fn stored_fits(stored: Option<Json>) -> bool {
    match stored {
        Some(v) => logo_fits(v),
        None => true,
    }
}

/// The settings in force; `stored` is the document that the stored text reads as.
pub fn read_settings(stored: Option<&Value>) -> (r: Value)
    requires
        stored_fits(opt(stored)),
    ensures
        r@ == settings_in_force(opt(stored)),
{
    match stored {
        Some(v) => normalize_settings(v),
        None => default_settings(),
    }
}

} // verus!
