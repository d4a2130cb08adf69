//! The names of fields, stores and operations, which all differ.

use vstd::prelude::*;

verus! {

/// A number by which the names differ.
pub open spec fn mark(s: Seq<char>) -> int {
    if s.len() == 0 {
        0
    } else {
        let middle = s[(s.len() / 2) as int] as int;
        ((s.len() * 128 + s[0] as int) * 128 + s[s.len() - 1] as int) * 128 + middle
    }
}

/// The names of the fields of movements, by their numbers.
pub proof fn lemma_stock_words()
    ensures
        mark("id"@) == 5927524,
        mark("timestamp"@) == 20789363,
        mark("type"@) == 10302192,
        mark("sku"@) == 8190699,
        mark("productName"@) == 24916707,
        mark("quantity"@) == 18644212,
        mark("stockBefore"@) == 24965826,
        mark("stockAfter"@) == 22870337,
        mark("unitCost"@) == 18709059,
        mark("totalCost"@) == 20789868,
        mark("reason"@) == 14464883,
        mark("reference"@) == 20755186,
        mark("user"@) == 10320229,
        mark("authorizedBy"@) == 26770665,
        mark("notes"@) == 12302836,
{
    reveal_strlit("id");
    reveal_strlit("timestamp");
    reveal_strlit("type");
    reveal_strlit("sku");
    reveal_strlit("productName");
    reveal_strlit("quantity");
    reveal_strlit("stockBefore");
    reveal_strlit("stockAfter");
    reveal_strlit("unitCost");
    reveal_strlit("totalCost");
    reveal_strlit("reason");
    reveal_strlit("reference");
    reveal_strlit("user");
    reveal_strlit("authorizedBy");
    reveal_strlit("notes");
}

/// The names of the fields of counts, by their numbers.
pub proof fn lemma_counts_words()
    ensures
        mark("inventoryId"@) == 24801908,
        mark("barcode"@) == 16298723,
        mark("category"@) == 18414823,
        mark("presentation"@) == 27015028,
        mark("unit"@) == 10320489,
        mark("supplier"@) == 18676076,
        mark("systemStock"@) == 24966637,
        mark("countedStock"@) == 26801636,
        mark("difference"@) == 22622962,
{
    reveal_strlit("inventoryId");
    reveal_strlit("barcode");
    reveal_strlit("category");
    reveal_strlit("presentation");
    reveal_strlit("unit");
    reveal_strlit("supplier");
    reveal_strlit("systemStock");
    reveal_strlit("countedStock");
    reveal_strlit("difference");
}

/// The names of the fields of sales, by their numbers.
pub proof fn lemma_sales_words()
    ensures
        mark("itemsJson"@) == 20608883,
        mark("subtotal"@) == 18675311,
        mark("discount"@) == 18430575,
        mark("total"@) == 12400244,
        mark("paymentMethod"@) == 29110900,
        mark("profit"@) == 14432870,
        mark("clientId"@) == 18412142,
{
    reveal_strlit("itemsJson");
    reveal_strlit("subtotal");
    reveal_strlit("discount");
    reveal_strlit("total");
    reveal_strlit("paymentMethod");
    reveal_strlit("profit");
    reveal_strlit("clientId");
}

/// The names of the fields of products, by their numbers.
pub proof fn lemma_product_words()
    ensures
        mark("name"@) == 10203885,
        mark("cost"@) == 10025587,
        mark("price"@) == 12333801,
        mark("costIva"@) == 16314612,
        mark("priceIva"@) == 18624741,
        mark("costWithoutIva"@) == 30994664,
        mark("priceWithoutIva"@) == 33304820,
        mark("stock"@) == 12383727,
        mark("minStock"@) == 18576884,
        mark("description"@) == 24721257,
        mark("active"@) == 14185193,
{
    reveal_strlit("name");
    reveal_strlit("cost");
    reveal_strlit("price");
    reveal_strlit("costIva");
    reveal_strlit("priceIva");
    reveal_strlit("costWithoutIva");
    reveal_strlit("priceWithoutIva");
    reveal_strlit("stock");
    reveal_strlit("minStock");
    reveal_strlit("description");
    reveal_strlit("active");
}

/// The names of the fields of the entries of a catalogue, by their numbers.
pub proof fn lemma_entry_words()
    ensures
        mark("sortOrder"@) == 20773199,
        mark("abbreviation"@) == 26769257,
        mark("phone"@) == 12333807,
        mark("kind"@) == 10154606,
{
    reveal_strlit("sortOrder");
    reveal_strlit("abbreviation");
    reveal_strlit("phone");
    reveal_strlit("kind");
}

/// The names of the fields of users, by their numbers.
pub proof fn lemma_user_words()
    ensures
        mark("username"@) == 18707182,
        mark("displayName"@) == 24720097,
        mark("passwordHash"@) == 27014258,
        mark("salt"@) == 10287724,
        mark("role"@) == 10269420,
        mark("pin"@) == 8140649,
        mark("createdAt"@) == 20511348,
        mark("lastLogin"@) == 20657996,
        mark("loginCode"@) == 20656878,
{
    reveal_strlit("username");
    reveal_strlit("displayName");
    reveal_strlit("passwordHash");
    reveal_strlit("salt");
    reveal_strlit("role");
    reveal_strlit("pin");
    reveal_strlit("createdAt");
    reveal_strlit("lastLogin");
    reveal_strlit("loginCode");
}

/// The names of the fields of answers, by their numbers.
pub proof fn lemma_reply_words()
    ensures
        mark("ok"@) == 6026731,
        mark("error"@) == 12155250,
        mark("movement"@) == 18578029,
        mark("count"@) == 12122741,
        mark("sale"@) == 10285804,
        mark("duplicate"@) == 20525801,
        mark("item"@) == 10122981,
        mark("results"@) == 16562677,
        mark("settings"@) == 18676201,
        mark("sessionToken"@) == 27064174,
        mark("needsSetup"@) == 22788179,
        mark("userCount"@) == 20806211,
        mark("product"@) == 16530020,
{
    reveal_strlit("ok");
    reveal_strlit("error");
    reveal_strlit("movement");
    reveal_strlit("count");
    reveal_strlit("sale");
    reveal_strlit("duplicate");
    reveal_strlit("item");
    reveal_strlit("results");
    reveal_strlit("settings");
    reveal_strlit("sessionToken");
    reveal_strlit("needsSetup");
    reveal_strlit("userCount");
    reveal_strlit("product");
}

/// The names of the stores, by their numbers.
pub proof fn lemma_store_words()
    ensures
        mark("products"@) == 18627061,
        mark("moves"@) == 12286454,
        mark("counts"@) == 14219758,
        mark("sales"@) == 12384748,
        mark("users"@) == 12417509,
        mark("categories"@) == 22608367,
        mark("units"@) == 12417513,
        mark("suppliers"@) == 20773356,
        mark("presentations"@) == 29112820,
{
    reveal_strlit("products");
    reveal_strlit("moves");
    reveal_strlit("counts");
    reveal_strlit("sales");
    reveal_strlit("users");
    reveal_strlit("categories");
    reveal_strlit("units");
    reveal_strlit("suppliers");
    reveal_strlit("presentations");
}

/// The names of the operations, by their numbers.
pub proof fn lemma_op_words()
    ensures
        mark("bootstrap"@) == 20494451,
        mark("setup_admin"@) == 24967007,
        mark("login"@) == 12269415,
        mark("logout"@) == 14367343,
        mark("data"@) == 10039540,
        mark("save_user"@) == 20773215,
        mark("delete_user"@) == 24721765,
        mark("save_settings"@) == 29161957,
        mark("save_catalog"@) == 27063265,
        mark("delete_catalog"@) == 31011811,
        mark("save_product"@) == 27064946,
        mark("delete_product"@) == 31013488,
        mark("checkout"@) == 18414187,
        mark("sync_batch"@) == 22869090,
        mark("delete_movement"@) == 33110637,
{
    reveal_strlit("bootstrap");
    reveal_strlit("setup_admin");
    reveal_strlit("login");
    reveal_strlit("logout");
    reveal_strlit("data");
    reveal_strlit("save_user");
    reveal_strlit("delete_user");
    reveal_strlit("save_settings");
    reveal_strlit("save_catalog");
    reveal_strlit("delete_catalog");
    reveal_strlit("save_product");
    reveal_strlit("delete_product");
    reveal_strlit("checkout");
    reveal_strlit("sync_batch");
    reveal_strlit("delete_movement");
}

} // verus!
