# warehouse

A small terminal stock system for a warehouse: users register and log in,
then search storage bin locations, add new locations and record stock.

- `src/` is the library, verified with Verus:
  - `text` — trimming, splitting on spaces, upper-case mappings;
  - `pattern` — regular-expression search (the `regex` crate);
  - `warehouse` — validating and normalising storage bin locations
    (`AA 02 S1 01`, `aa02s101`, `AA02G01`, ...) and summarising stock;
  - `user` — credentials, registration with bcrypt hashes (the `bcrypt`
    crate), login, removal confirmation;
  - `menu` — menu choices, the stock search query, bin insertion;
  - `numbers` — barcodes and material numbers typed at the prompts.
- `app/` is the program: the menus, terminal prompts and the SQLite
  database (the `rusqlite` crate).
- `tests/` exercises the library on concrete inputs.
