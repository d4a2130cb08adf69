//! Laws of the settings.

use crate::catalogs::{save_settings_outcome, settings_record};
use crate::double::{is_finite, less};
use crate::json::{amount, bits_of, field, plain, Json};
use crate::laws::numbers::law_amounts_are_numbers;
use crate::laws::records::{in_order, law_found, lemma_own_fields, lemma_reads};
use crate::reply::yes;
use crate::rules::{color, color_shape};
use crate::settings::{
    cash_cut_settings, clipped, color_setting, colors_settings, font_setting, general_settings,
    is_font, logo_setting, off_setting, on_setting, settings_in_force, settings_of,
    settings_text_in, size_setting, text_setting, ticket_settings, EIGHTEEN, ELEVEN, FOURTEEN,
    LOGO_BYTES, NINE, SIXTEEN, TWENTY_FOUR,
};
use crate::shop::ShopView;
use crate::store::law_put;
use crate::text::{byte_len, tidy};
use crate::users::{authorized, managers};
use vstd::prelude::*;

verus! {

// ----- the names of the settings -----

/// A number by which the names of the settings differ.
spec fn tag(s: Seq<char>) -> int {
    if s.len() < 3 {
        0
    } else {
        ((s.len() * 128 + s[0] as int) * 128 + s[s.len() - 1] as int) * 128 + s[s.len() - 3] as int
    }
}

proof fn lemma_tags_a()
    ensures
        tag("storeTitle"@) == 22868724,
        tag("storeSubtitle"@) == 29160180,
        tag("authTitle"@) == 20476660,
        tag("authHelp"@) == 18380901,
        tag("showAuthHelp"@) == 27064421,
        tag("accessFontSize"@) == 30962409,
        tag("accent"@) == 14187109,
        tag("accent2"@) == 16275822,
        tag("blue"@) == 10007276,
        tag("green"@) == 12187493,
{
    reveal_strlit("storeTitle");
    reveal_strlit("storeSubtitle");
    reveal_strlit("authTitle");
    reveal_strlit("authHelp");
    reveal_strlit("showAuthHelp");
    reveal_strlit("accessFontSize");
    reveal_strlit("accent");
    reveal_strlit("accent2");
    reveal_strlit("blue");
    reveal_strlit("green");
}

proof fn lemma_tags_b()
    ensures
        tag("danger"@) == 14236007,
        tag("bg"@) == 0,
        tag("panel"@) == 12334702,
        tag("soft"@) == 10287727,
        tag("confirmPayLabel"@) == 33093218,
        tag("ticketTitle"@) == 24982260,
        tag("ticketFooter"@) == 27081076,
        tag("ticketTaxLabel"@) == 31274594,
        tag("ticketShowStore"@) == 33370863,
        tag("ticketShowDate"@) == 31273697,
{
    reveal_strlit("danger");
    reveal_strlit("bg");
    reveal_strlit("panel");
    reveal_strlit("soft");
    reveal_strlit("confirmPayLabel");
    reveal_strlit("ticketTitle");
    reveal_strlit("ticketFooter");
    reveal_strlit("ticketTaxLabel");
    reveal_strlit("ticketShowStore");
    reveal_strlit("ticketShowDate");
}

proof fn lemma_tags_c()
    ensures
        tag("ticketShowCashier"@) == 37566825,
        tag("ticketShowPayment"@) == 37567077,
        tag("ticketShowSku"@) == 29178579,
        tag("ticketShowIva"@) == 29176009,
        tag("ticketShowLogo"@) == 31274991,
        tag("ticketLogoData"@) == 31273185,
        tag("ticketFontFamily"@) == 35470569,
        tag("ticketFontSize"@) == 31273705,
        tag("ticketBold"@) == 22884975,
        tag("ticketAutoPrint"@) == 33372777,
{
    reveal_strlit("ticketShowCashier");
    reveal_strlit("ticketShowPayment");
    reveal_strlit("ticketShowSku");
    reveal_strlit("ticketShowIva");
    reveal_strlit("ticketShowLogo");
    reveal_strlit("ticketLogoData");
    reveal_strlit("ticketFontFamily");
    reveal_strlit("ticketFontSize");
    reveal_strlit("ticketBold");
    reveal_strlit("ticketAutoPrint");
}

proof fn lemma_tags_d()
    ensures
        tag("ticketPreviewBeforePrint"@) == 52247145,
        tag("ticketShowReceiptDialog"@) == 50148332,
        tag("cashCutTitle"@) == 26800884,
        tag("cashCutFooter"@) == 28899700,
        tag("cashCutFontFamily"@) == 37289193,
        tag("cashCutFontSize"@) == 33092329,
        tag("cashCutBold"@) == 24703599,
        tag("cashCutShowLogo"@) == 33093615,
        tag("cashCutShowProducts"@) == 41482723,
        tag("cashCutShowPayments"@) == 41482734,
{
    reveal_strlit("ticketPreviewBeforePrint");
    reveal_strlit("ticketShowReceiptDialog");
    reveal_strlit("cashCutTitle");
    reveal_strlit("cashCutFooter");
    reveal_strlit("cashCutFontFamily");
    reveal_strlit("cashCutFontSize");
    reveal_strlit("cashCutBold");
    reveal_strlit("cashCutShowLogo");
    reveal_strlit("cashCutShowProducts");
    reveal_strlit("cashCutShowPayments");
}

/// What each setting is.
pub proof fn lemma_each(source: Json)
    ensures
        field(settings_of(source), "storeTitle"@) == Some(text_setting(source, "storeTitle"@, "Tienda de Conveniencia"@)),
        field(settings_of(source), "storeSubtitle"@) == Some(text_setting(source, "storeSubtitle"@, "Venta, entradas, salidas, mermas, conteos y reportes"@)),
        field(settings_of(source), "authTitle"@) == Some(text_setting(source, "authTitle"@, "Acceso a tienda"@)),
        field(settings_of(source), "authHelp"@) == Some(text_setting(source, "authHelp"@, "Ingresa con tu usuario de tienda."@)),
        field(settings_of(source), "showAuthHelp"@) == Some(on_setting(source, "showAuthHelp"@)),
        field(settings_of(source), "accessFontSize"@) == Some(size_setting(source, "accessFontSize"@, SIXTEEN, FOURTEEN, TWENTY_FOUR)),
        field(settings_of(source), "accent"@) == Some(color_setting(source, "accent"@, "#125f56"@)),
        field(settings_of(source), "accent2"@) == Some(color_setting(source, "accent2"@, "#cf7f2a"@)),
        field(settings_of(source), "blue"@) == Some(color_setting(source, "blue"@, "#276b9f"@)),
        field(settings_of(source), "green"@) == Some(color_setting(source, "green"@, "#317448"@)),
        field(settings_of(source), "danger"@) == Some(color_setting(source, "danger"@, "#bd4438"@)),
        field(settings_of(source), "bg"@) == Some(color_setting(source, "bg"@, "#f2f4f1"@)),
        field(settings_of(source), "panel"@) == Some(color_setting(source, "panel"@, "#fffefb"@)),
        field(settings_of(source), "soft"@) == Some(color_setting(source, "soft"@, "#f8f1e7"@)),
        field(settings_of(source), "confirmPayLabel"@) == Some(text_setting(source, "confirmPayLabel"@, "Confirmar cobro y descontar inventario"@)),
        field(settings_of(source), "ticketTitle"@) == Some(text_setting(source, "ticketTitle"@, "Ticket de venta"@)),
        field(settings_of(source), "ticketFooter"@) == Some(text_setting(source, "ticketFooter"@, "Gracias por su compra"@)),
        field(settings_of(source), "ticketTaxLabel"@) == Some(text_setting(source, "ticketTaxLabel"@, "IVA 16%"@)),
        field(settings_of(source), "ticketShowStore"@) == Some(on_setting(source, "ticketShowStore"@)),
        field(settings_of(source), "ticketShowDate"@) == Some(on_setting(source, "ticketShowDate"@)),
        field(settings_of(source), "ticketShowCashier"@) == Some(on_setting(source, "ticketShowCashier"@)),
        field(settings_of(source), "ticketShowPayment"@) == Some(on_setting(source, "ticketShowPayment"@)),
        field(settings_of(source), "ticketShowSku"@) == Some(on_setting(source, "ticketShowSku"@)),
        field(settings_of(source), "ticketShowIva"@) == Some(on_setting(source, "ticketShowIva"@)),
        field(settings_of(source), "ticketShowLogo"@) == Some(off_setting(source, "ticketShowLogo"@)),
        field(settings_of(source), "ticketLogoData"@) == Some(logo_setting(source, "ticketLogoData"@)),
        field(settings_of(source), "ticketFontFamily"@) == Some(font_setting(source, "ticketFontFamily"@, "Arial"@)),
        field(settings_of(source), "ticketFontSize"@) == Some(size_setting(source, "ticketFontSize"@, ELEVEN, NINE, EIGHTEEN)),
        field(settings_of(source), "ticketBold"@) == Some(off_setting(source, "ticketBold"@)),
        field(settings_of(source), "ticketAutoPrint"@) == Some(off_setting(source, "ticketAutoPrint"@)),
        field(settings_of(source), "ticketPreviewBeforePrint"@) == Some(on_setting(source, "ticketPreviewBeforePrint"@)),
        field(settings_of(source), "ticketShowReceiptDialog"@) == Some(on_setting(source, "ticketShowReceiptDialog"@)),
        field(settings_of(source), "cashCutTitle"@) == Some(text_setting(source, "cashCutTitle"@, "Corte de caja"@)),
        field(settings_of(source), "cashCutFooter"@) == Some(text_setting(source, "cashCutFooter"@, "Corte generado por el sistema"@)),
        field(settings_of(source), "cashCutFontFamily"@) == Some(font_setting(source, "cashCutFontFamily"@, "Arial"@)),
        field(settings_of(source), "cashCutFontSize"@) == Some(size_setting(source, "cashCutFontSize"@, ELEVEN, NINE, EIGHTEEN)),
        field(settings_of(source), "cashCutBold"@) == Some(on_setting(source, "cashCutBold"@)),
        field(settings_of(source), "cashCutShowLogo"@) == Some(off_setting(source, "cashCutShowLogo"@)),
        field(settings_of(source), "cashCutShowProducts"@) == Some(on_setting(source, "cashCutShowProducts"@)),
        field(settings_of(source), "cashCutShowPayments"@) == Some(on_setting(source, "cashCutShowPayments"@)),
{
    lemma_tags_a();
    lemma_tags_b();
    lemma_tags_c();
    lemma_tags_d();
}

// ----- each kind of setting, made again from itself -----

proof fn lemma_text_again(source: Json, made: Json, key: Seq<char>, fallback: Seq<char>)
    requires
        field(made, key) == Some(text_setting(source, key, fallback)),
        tidy(fallback),
    ensures
        text_setting(made, key, fallback) == text_setting(source, key, fallback),
{
    crate::laws::names::law_plain_is_tidy(field(source, key));
    lemma_reads(fallback);
}

proof fn lemma_color_again(source: Json, made: Json, key: Seq<char>, fallback: Seq<char>)
    requires
        field(made, key) == Some(color_setting(source, key, fallback)),
        color_shape(fallback),
    ensures
        color_setting(made, key, fallback) == color_setting(source, key, fallback),
        color_setting(source, key, fallback) matches Json::Text(c) && color_shape(c),
{
    let c = color(field(source, key), fallback);
    assert(c.last() == c[6]);
    lemma_reads(c);
}

proof fn lemma_font_again(source: Json, made: Json, key: Seq<char>, fallback: Seq<char>)
    requires
        field(made, key) == Some(font_setting(source, key, fallback)),
        is_font(fallback),
    ensures
        font_setting(made, key, fallback) == font_setting(source, key, fallback),
        font_setting(source, key, fallback) matches Json::Text(f) && is_font(f),
{
    reveal_strlit("Arial");
    reveal_strlit("Courier New");
    reveal_strlit("Tahoma");
    reveal_strlit("Verdana");
    let f = font_setting(source, key, fallback)->Text_0;
    lemma_reads(f);
}

proof fn lemma_size_again(source: Json, made: Json, key: Seq<char>, start: u64, lo: u64, hi: u64)
    requires
        field(made, key) == Some(size_setting(source, key, start, lo, hi)),
        is_finite(start),
        is_finite(lo),
        is_finite(hi),
        !less(hi, lo),
    ensures
        size_setting(made, key, start, lo, hi) == size_setting(source, key, start, lo, hi),
        is_size(size_setting(source, key, start, lo, hi), lo, hi),
{
    law_amounts_are_numbers(field(source, key));
}

proof fn lemma_logo_again(source: Json, made: Json, key: Seq<char>)
    requires
        field(made, key) == Some(logo_setting(source, key)),
        tidy(clipped(plain(field(source, key)), LOGO_BYTES as nat)),
        crate::settings::clippable(plain(field(source, key)), LOGO_BYTES as nat),
    ensures
        logo_setting(made, key) == logo_setting(source, key),
{
    let logo = clipped(plain(field(source, key)), LOGO_BYTES as nat);
    lemma_reads(logo);
    assert(byte_len(logo) <= LOGO_BYTES);
}

/// Whether a setting is a number within bounds.
pub open spec fn is_size(v: Json, lo: u64, hi: u64) -> bool {
    v is Number && !less(amount(Some(v)), lo) && !less(hi, amount(Some(v)))
}

/// The words that stand for missing texts have no white space at their ends.
proof fn lemma_words()
    ensures
        tidy("Tienda de Conveniencia"@),
        tidy("Venta, entradas, salidas, mermas, conteos y reportes"@),
        tidy("Acceso a tienda"@),
        tidy("Ingresa con tu usuario de tienda."@),
        tidy("Confirmar cobro y descontar inventario"@),
        tidy("Ticket de venta"@),
        tidy("Gracias por su compra"@),
        tidy("IVA 16%"@),
        tidy("Corte de caja"@),
        tidy("Corte generado por el sistema"@),
{
    reveal_strlit("Tienda de Conveniencia");
    reveal_strlit("Venta, entradas, salidas, mermas, conteos y reportes");
    reveal_strlit("Acceso a tienda");
    reveal_strlit("Ingresa con tu usuario de tienda.");
    reveal_strlit("Confirmar cobro y descontar inventario");
    reveal_strlit("Ticket de venta");
    reveal_strlit("Gracias por su compra");
    reveal_strlit("IVA 16%");
    reveal_strlit("Corte de caja");
    reveal_strlit("Corte generado por el sistema");
}

/// The colours that stand for missing ones are colours.
proof fn lemma_colors()
    ensures
        color_shape("#125f56"@),
        color_shape("#cf7f2a"@),
        color_shape("#276b9f"@),
        color_shape("#317448"@),
        color_shape("#bd4438"@),
        color_shape("#f2f4f1"@),
        color_shape("#fffefb"@),
        color_shape("#f8f1e7"@),
{
    reveal_strlit("#125f56");
    reveal_strlit("#cf7f2a");
    reveal_strlit("#276b9f");
    reveal_strlit("#317448");
    reveal_strlit("#bd4438");
    reveal_strlit("#f2f4f1");
    reveal_strlit("#fffefb");
    reveal_strlit("#f8f1e7");
}

// ----- the laws -----

/// Whether full settings are valid: every colour is one, the typefaces are among those that may be
/// chosen, and the sizes are within their bounds.
pub open spec fn settings_valid(v: Json) -> bool {
    &&& field(v, "accent"@) matches Some(Json::Text(c)) && color_shape(c)
    &&& field(v, "accent2"@) matches Some(Json::Text(c)) && color_shape(c)
    &&& field(v, "blue"@) matches Some(Json::Text(c)) && color_shape(c)
    &&& field(v, "green"@) matches Some(Json::Text(c)) && color_shape(c)
    &&& field(v, "danger"@) matches Some(Json::Text(c)) && color_shape(c)
    &&& field(v, "bg"@) matches Some(Json::Text(c)) && color_shape(c)
    &&& field(v, "panel"@) matches Some(Json::Text(c)) && color_shape(c)
    &&& field(v, "soft"@) matches Some(Json::Text(c)) && color_shape(c)
    &&& field(v, "ticketFontFamily"@) matches Some(Json::Text(f)) && is_font(f)
    &&& field(v, "cashCutFontFamily"@) matches Some(Json::Text(f)) && is_font(f)
    &&& field(v, "accessFontSize"@) matches Some(n) && is_size(n, FOURTEEN, TWENTY_FOUR)
    &&& field(v, "ticketFontSize"@) matches Some(n) && is_size(n, NINE, EIGHTEEN)
    &&& field(v, "cashCutFontSize"@) matches Some(n) && is_size(n, NINE, EIGHTEEN)
}

/// The settings made from any source are valid.
pub proof fn law_settings_valid(source: Json)
    ensures
        settings_valid(settings_of(source)),
{
    let made = settings_of(source);
    lemma_each(source);
    lemma_colors();
    lemma_color_again(source, made, "accent"@, "#125f56"@);
    lemma_color_again(source, made, "accent2"@, "#cf7f2a"@);
    lemma_color_again(source, made, "blue"@, "#276b9f"@);
    lemma_color_again(source, made, "green"@, "#317448"@);
    lemma_color_again(source, made, "danger"@, "#bd4438"@);
    lemma_color_again(source, made, "bg"@, "#f2f4f1"@);
    lemma_color_again(source, made, "panel"@, "#fffefb"@);
    lemma_color_again(source, made, "soft"@, "#f8f1e7"@);
    lemma_font_again(source, made, "ticketFontFamily"@, "Arial"@);
    lemma_font_again(source, made, "cashCutFontFamily"@, "Arial"@);
    lemma_size_again(source, made, "accessFontSize"@, SIXTEEN, FOURTEEN, TWENTY_FOUR);
    lemma_size_again(source, made, "ticketFontSize"@, ELEVEN, NINE, EIGHTEEN);
    lemma_size_again(source, made, "cashCutFontSize"@, ELEVEN, NINE, EIGHTEEN);
}

/// Whether the logo in a source of settings keeps no white space at its end when it is cut.
pub open spec fn logo_tidy(source: Json) -> bool {
    tidy(clipped(plain(field(source, "ticketLogoData"@)), LOGO_BYTES as nat))
}

/// Full settings are their own full settings.
pub proof fn law_settings_stay(source: Json)
    requires
        crate::settings::logo_fits(source),
        logo_tidy(source),
    ensures
        settings_of(settings_of(source)) == settings_of(source),
{
    let made = settings_of(source);
    lemma_each(source);
    lemma_words();
    lemma_colors();
    lemma_text_again(source, made, "storeTitle"@, "Tienda de Conveniencia"@);
    lemma_text_again(source, made, "storeSubtitle"@, "Venta, entradas, salidas, mermas, conteos y reportes"@);
    lemma_text_again(source, made, "authTitle"@, "Acceso a tienda"@);
    lemma_text_again(source, made, "authHelp"@, "Ingresa con tu usuario de tienda."@);
    lemma_text_again(source, made, "confirmPayLabel"@, "Confirmar cobro y descontar inventario"@);
    lemma_text_again(source, made, "ticketTitle"@, "Ticket de venta"@);
    lemma_text_again(source, made, "ticketFooter"@, "Gracias por su compra"@);
    lemma_text_again(source, made, "ticketTaxLabel"@, "IVA 16%"@);
    lemma_text_again(source, made, "cashCutTitle"@, "Corte de caja"@);
    lemma_text_again(source, made, "cashCutFooter"@, "Corte generado por el sistema"@);
    lemma_color_again(source, made, "accent"@, "#125f56"@);
    lemma_color_again(source, made, "accent2"@, "#cf7f2a"@);
    lemma_color_again(source, made, "blue"@, "#276b9f"@);
    lemma_color_again(source, made, "green"@, "#317448"@);
    lemma_color_again(source, made, "danger"@, "#bd4438"@);
    lemma_color_again(source, made, "bg"@, "#f2f4f1"@);
    lemma_color_again(source, made, "panel"@, "#fffefb"@);
    lemma_color_again(source, made, "soft"@, "#f8f1e7"@);
    lemma_font_again(source, made, "ticketFontFamily"@, "Arial"@);
    lemma_font_again(source, made, "cashCutFontFamily"@, "Arial"@);
    lemma_size_again(source, made, "accessFontSize"@, SIXTEEN, FOURTEEN, TWENTY_FOUR);
    lemma_size_again(source, made, "ticketFontSize"@, ELEVEN, NINE, EIGHTEEN);
    lemma_size_again(source, made, "cashCutFontSize"@, ELEVEN, NINE, EIGHTEEN);
    lemma_logo_again(source, made, "ticketLogoData"@);
    assert(general_settings(made, Map::empty()) == general_settings(source, Map::empty()));
    let m = general_settings(source, Map::empty());
    assert(colors_settings(made, m) == colors_settings(source, m));
    let m = colors_settings(source, m);
    assert(ticket_settings(made, m) == ticket_settings(source, m));
    let m = ticket_settings(source, m);
    assert(cash_cut_settings(made, m) == cash_cut_settings(source, m));
}

/// A logo that is within its size is kept as it is.
pub proof fn law_small_logo(source: Json)
    requires
        byte_len(plain(field(source, "ticketLogoData"@))) <= LOGO_BYTES,
    ensures
        crate::settings::logo_fits(source),
        logo_tidy(source),
{
    crate::laws::names::law_plain_is_tidy(field(source, "ticketLogoData"@));
}

/// Whether a document that was read from the text of another has the same fields: texts and truth
/// values are the same, and a number is the same double, whatever is known of how it is written.
pub open spec fn reads_back(read: Json, made: Json) -> bool {
    forall|k: Seq<char>|
        #[trigger] field(read, k) == field(made, k) || (field(made, k) matches Some(Json::Number(n))
            && field(read, k) matches Some(Json::Number(m)) && bits_of(m) == bits_of(n))
}

/// What reads back as full settings gives the same settings.
proof fn lemma_read_settings(read: Json, source: Json)
    requires
        reads_back(read, settings_of(source)),
    ensures
        settings_of(read) == settings_of(settings_of(source)),
{
    let made = settings_of(source);
    lemma_each(source);
    lemma_same_field(read, made, "storeTitle"@);
    lemma_same_field(read, made, "storeSubtitle"@);
    lemma_same_field(read, made, "authTitle"@);
    lemma_same_field(read, made, "authHelp"@);
    lemma_same_field(read, made, "showAuthHelp"@);
    lemma_same_field(read, made, "accessFontSize"@);
    lemma_same_field(read, made, "accent"@);
    lemma_same_field(read, made, "accent2"@);
    lemma_same_field(read, made, "blue"@);
    lemma_same_field(read, made, "green"@);
    lemma_same_field(read, made, "danger"@);
    lemma_same_field(read, made, "bg"@);
    lemma_same_field(read, made, "panel"@);
    lemma_same_field(read, made, "soft"@);
    lemma_same_field(read, made, "confirmPayLabel"@);
    lemma_same_field(read, made, "ticketTitle"@);
    lemma_same_field(read, made, "ticketFooter"@);
    lemma_same_field(read, made, "ticketTaxLabel"@);
    lemma_same_field(read, made, "ticketShowStore"@);
    lemma_same_field(read, made, "ticketShowDate"@);
    lemma_same_field(read, made, "ticketShowCashier"@);
    lemma_same_field(read, made, "ticketShowPayment"@);
    lemma_same_field(read, made, "ticketShowSku"@);
    lemma_same_field(read, made, "ticketShowIva"@);
    lemma_same_field(read, made, "ticketShowLogo"@);
    lemma_same_field(read, made, "ticketLogoData"@);
    lemma_same_field(read, made, "ticketFontFamily"@);
    lemma_same_field(read, made, "ticketFontSize"@);
    lemma_same_field(read, made, "ticketBold"@);
    lemma_same_field(read, made, "ticketAutoPrint"@);
    lemma_same_field(read, made, "ticketPreviewBeforePrint"@);
    lemma_same_field(read, made, "ticketShowReceiptDialog"@);
    lemma_same_field(read, made, "cashCutTitle"@);
    lemma_same_field(read, made, "cashCutFooter"@);
    lemma_same_field(read, made, "cashCutFontFamily"@);
    lemma_same_field(read, made, "cashCutFontSize"@);
    lemma_same_field(read, made, "cashCutBold"@);
    lemma_same_field(read, made, "cashCutShowLogo"@);
    lemma_same_field(read, made, "cashCutShowProducts"@);
    lemma_same_field(read, made, "cashCutShowPayments"@);
    assert(general_settings(read, Map::empty()) == general_settings(made, Map::empty()));
    let m = general_settings(made, Map::empty());
    assert(colors_settings(read, m) == colors_settings(made, m));
    let m = colors_settings(made, m);
    assert(ticket_settings(read, m) == ticket_settings(made, m));
    let m = ticket_settings(made, m);
    assert(cash_cut_settings(read, m) == cash_cut_settings(made, m));
}

proof fn lemma_same_field(read: Json, made: Json, k: Seq<char>)
    requires
        reads_back(read, made),
    ensures
        !(field(made, k) matches Some(Json::Number(n))) ==> field(read, k) == field(made, k),
        amount(field(read, k)) == amount(field(made, k)),
        field(read, k) is Some <==> field(made, k) is Some,
{
    assert(field(read, k) == field(made, k) || (field(made, k) matches Some(Json::Number(n))
        && field(read, k) matches Some(Json::Number(m)) && bits_of(m) == bits_of(n)));
}

/// Saved settings are the settings in force: the answer to saving them shows the settings made from
/// the request, the text that was saved is the text that is kept, and where that text reads back as
/// the settings that it was written from, what is read gives those settings again.
pub proof fn law_saved_settings_are_read(
    shop: ShopView,
    key: Seq<char>,
    payload: Json,
    text: Seq<char>,
    now: i64,
    user: Json,
    read: Json,
)
    requires
        in_order(shop.db),
        authorized(shop, key, managers(), now) == Ok::<Json, Seq<char>>(user),
        crate::settings::logo_fits(payload),
        logo_tidy(payload),
        reads_back(read, settings_of(payload)),
    ensures
        ({
            let o = save_settings_outcome(shop, key, payload, text, now);
            &&& o.reply == Ok::<Json, Seq<char>>(
                Json::Object(yes().insert("settings"@, settings_of(payload))),
            )
            &&& settings_text_in(o.shop.db.list("settings"@)) == Some(text)
            &&& settings_in_force(Some(read)) == settings_of(payload)
        }),
{
    let record = settings_record(text);
    let db = shop.db.put("settings"@, "app"@, record);
    lemma_own_fields();
    reveal_strlit("key");
    reveal_strlit("value");
    reveal_strlit("app");
    assert("key"@.len() == 3 && "value"@.len() == 5);
    lemma_reads("app"@);
    assert(field(record, "key"@) == Some(Json::Text("app"@)));
    assert(field(record, "value"@) == Some(Json::Text(text)));
    law_put(shop.db, "settings"@, "app"@, record);
    crate::laws::records::lemma_put_in_order(shop.db, "settings"@, "app"@, record);
    law_found(db, "settings"@, "app"@);
    law_settings_stay(payload);
    lemma_read_settings(read, payload);
}

} // verus!
