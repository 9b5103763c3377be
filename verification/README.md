# Troop 15 greenery fundraiser

An order site for a scout troop's wreath sale: a catalog, an order form, Stripe Checkout
for payment, and a CSV export for the people who deliver and ship the orders.

The library in `src/` holds the site's rules, each function with a contract that Verus
proves:

- `text`: character classes, trimming, splitting, decimal numbers.
- `api`: the request and response types, `format_cents`.
- `validate`: checking and normalizing a checkout request against the catalog.
- `catalog`: checking the catalog file and the ordering cutoff.
- `stripe`: Checkout Session parameters, reading session objects, webhook signatures.
- `ratelimit`: the sliding-window limiter on checkout.
- `orders`: what paid and expired sessions do to an order.
- `export`: the CSV export.
- `config`: settings from the environment.
- `server`: what the HTTP handlers decide.
- `client`: what the order form and the success page compute.
- `time`: instants and their RFC 3339 texts.

`app/` is the server binary around it: the Axum routes, SQLite, the Stripe HTTP client, the
YAML and JSON forms of the types, and the command line (`serve`, `export`,
`check-catalog`).
