# Tienda POS

The rules of a small shop's counter, as a verified library: users with three roles (`admin`,
`encargado`, `cajero`), salted password hashes, sessions, catalogues, products with 16 % IVA,
stock movements, inventory counts, sales and a queue of sales.

- `src/` is the library, verified with Verus. A request is carried out on a `Shop`: the rows of the
  table as they were read, the open sessions, and a source of new texts. Every operation states
  exactly what it leaves and what it answers. Changes of the table are noted in a log.
  - `double` computes with double precision numbers as bit patterns.
  - `json` holds documents, `text` and `lists` read them, `store` keeps them.
  - `rules`, `settings`, `users`, `accounts`, `catalogs`, `products`, `stock` and `sales` are the
    business rules; `dispatch` chooses the operation that a request names.
  - `laws` states what holds of the library as a whole.
- `tests/` runs the library.
- `app/` is the desktop application: a Tauri window, a SQLite table, and JSON text. For each request
  it reads the table, asks the library, and carries out the log; for a queue it does so item by item.
