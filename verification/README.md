# individual_user_template

The state and the rules of a user's canister: follow lists, the hot-or-not
bets this user placed and their payouts, the outcomes told to those who bet
on this user's posts, creator tokens and their airdrops, the ML feed cache,
backups, metrics, and the framing of the state kept across upgrades.

- `src/` is the library, written and proved with Verus. Public functions
  state in their contracts what they return and which parts of the state
  they change; the laws that span several calls are public proof functions
  (`lemma_*`).
- `app/` holds the canister endpoints: it reads the caller, the time and the
  cycle balance, makes the inter-canister calls, sets timers and uses stable
  memory, and hands plain values to the library.
- `tests/` runs the library on concrete values.
