# dept_tracker

A self-hosted debt tracker: loans with Tilgung (fixed amount or percentage of the original
principal), automatic regular installments, extra payments (Sonderzahlungen), interest
figures, payoff projections, a household dashboard and JSON backups.

All amounts are integer minor currency units (cents) and all dates are calendar dates
without time zone; rounding is half away from zero.

## Layout

- `src/` — the library, written and proved with Verus:
  - `calendar`, `due_payments`: dates, the installment schedule and its laws;
  - `amortization`, `payment_split`, `extras`, `projection`, `interest`: installments,
    splitting a payment into interest and principal, forward projection of balances,
    payoff date, amortization table and remaining interest;
  - `autopay`: the regular installments that have fallen due and how each one splits;
  - `payoff_timeline`, `combined`, `dashboard`, `detail`: the views built from projections;
  - `validation`, `requests`, `api`, `auth`, `store`, `transfer`: checks on requests,
    accounts and sessions, the mapping between stored rows and calculation inputs, and
    backup export and import (a restored backup gives back every stored field).
  - Functions ending in `_check` decide at run time the range conditions that other
    functions require, so that callers outside the verified code can test them first.
- `tests/` — tests of the library on concrete values.
- `app/` — the HTTP service (axum, sqlx): routing, database access, JSON and the clock.
  It takes every decision through the library.
