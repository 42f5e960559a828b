# Operation Center

The rules of an operation center that sells a low-code platform and the AI
employees on it: customers, orders and payments, commissions of providers, the
catalog of AI employees and skills, the licenses that are issued for paid
orders, and the log of requests. The library is written in Verus; every rule has
a contract that Verus proves, and the promises that span several operations are
public proof functions named `law_..`.

## Layout

`src/` is the verified library.

| Modules | What they hold |
| --- | --- |
| `accounts`, `access`, `passwords`, `startup` | accounts, sessions, who may do what, the first account |
| `customers`, `orders`, `commissions`, `finance` | sales: orders, payments, commissions and their settlement, the summary |
| `catalog`, `versions`, `tools`, `avatars`, `deletion` | AI employees and skills, their versions and pictures, what can be deleted |
| `licenses`, `license_state`, `legacy` | issuing, activating, checking and destroying licenses; licenses of older databases |
| `market`, `purchase`, `applications` | what a license gives access to, buying an AI employee with it, applications |
| `skill_package`, `zip_files`, `installation`, `paths` | packages of skills: unpacking, packing, putting one in its place |
| `audit`, `json` | the log of requests, and what is kept of answers |
| `schema` | the columns of the tables, and how older databases are brought up to date |
| `rejection`, `lookup`, `sorting`, `text`, `text_map`, `copying`, `ids`, `clock` | what the others are built on |

Records are plain structs with a `..View` beside them that the contracts speak
of. An operation takes the tables it reads and gives back the records that
change, or a `Rejection` with an HTTP status and a message. Where an operation
needs the time or a new identifier, a function beside it takes them as
arguments and has an exact contract.

What other crates compute (hashes, UUIDs, the calendar, JSON, ZIP) stands behind
small functions marked `external_body`, each with a comment that says what is
taken on trust.

`app/` is the service around the library: HTTP with axum, SQLite with rusqlite,
signatures with jsonwebtoken, files and settings. `tests/` runs the library on
concrete values.
