# raamattu

A small Bible reading and search web service. `src/` is the verified library
(Verus): how stored words are rendered, which terms a free-text search looks
for, the SQL search query built with sqlx's `QueryBuilder`, grouping of the
words found into verses with itertools' `chunk_by`, naming of those verses,
and the replies of the JSON API. `app/` is the axum service around it:
routes, database access, JSON and HTML rendering. `tests/` runs the library.

The page templates (`templates/*.jinja`) are not part of this tree.
