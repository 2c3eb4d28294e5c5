# card

A single-merchant card-key shop. Buyers pick a product, place an order, pay,
and receive their card keys on the result page and by mail; the merchant
manages categories, products, stock, orders and settings behind a login at a
private admin path.

## Layout

- `src/` — the shop's rules as a verified Verus library. The whole store
  (categories, products, card keys, orders, settings, admins, sessions) is an
  in-memory `Store` with a mathematical view and a well-formedness invariant;
  every operation states what it does to that view.
  - `models`, `catalog`, `cards`, `orders`: the store and its operations
    (creating orders locks stock, delivery sells the locked keys, expiry
    releases them).
  - `stock_laws`: properties that span operations (what an order locks, that
    sold keys stay sold, that delivery is idempotent, re-importing skips
    every key already present).
  - `money`, `text`, `like`, `util`: amounts in cents, string helpers, search.
  - `auth`, `guard`: passwords, sessions, cookies, and the lock after repeated
    login failures.
  - `payment`: the EPay signature scheme, the checkout form and the check of a
    payment notice.
  - `config`, `upload`, `mailer`, `pages`, `setup`, `demo`: the admin path,
    image checks, mail text and addressing, request handling, first start and
    demo data.
- `tests/` — tests of the library on concrete values.
- `app/` — the server around it: SQLite storage, HTTP routes (axum), HTML,
  SMTP sending, and `main`.

Calls into other crates (md5, bcrypt, urlencoding, chrono, rand, lettre's
address parser) stand behind small trusted wrappers whose contracts say what
the library relies on.
