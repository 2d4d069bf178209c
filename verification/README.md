# backend

The verified core of a book-catalogue web service (Google Books search,
comments, reading lists, personalised recommendations, accounts).

- `src/` is the library, verified with Verus:
  - `text`: white space, trimming, splitting, joining, lower-casing.
  - `json`: the JSON model of Google Books replies and its lookups.
  - `categories`: category labels and the vague-category test.
  - `books`: volume documents to book records, search pages, category
    harvest.
  - `recommendations`: liked readings, profile texts, candidate searches,
    the candidate pool, which candidates are scored, and the steps of the
    recommendation flow (when it stops early).
  - `comments`: threads, reply rules, authorship checks, deletion order.
  - `readings`, `users`, `dto`: records and responses.
  - `password`, `auth`, `email`: Argon2 hashing, tokens' claims and bearer
    headers, address validation.
- `app/` is the HTTP server (axum, SeaORM, reqwest, jsonwebtoken, fastembed)
  that performs the I/O and the floating-point scoring around the library.
- `tests/` exercises the library on concrete values.
