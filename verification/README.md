# pallet_bets

A betting pallet, verified with Verus. Each account may act as a bookmaker,
offering odds on a match, and as a bettor, placing bets on the odds of others.
When a bet is placed, the stake is reserved in the bettor's account and the
stake times the odd in the bookmaker's; when the match is closed, settling
the bet pays the reserved funds to the winner.

Layout of `src/`:

- `types.rs`: matches, odds, bets, events, errors and origins.
- `store.rs`: the storage maps, keyed by match or odds id.
- `balances.rs`: the accounts' free and reserved funds, with reserve,
  unreserve and transfer of reserved funds; the total issuance is always the
  sum of all accounts' funds.
- `payout.rs`: the winnable amount of a bet (through `sp-arithmetic`'s
  `Percent`) and which predictions a result wins.
- `pallet.rs`: the pallet's state, each call as a transition of it, and the
  calls themselves.
- `laws.rs`: what holds across calls: refused calls change nothing, storage
  stays consistent, open bets keep their stakes reserved, settling pays the
  winner, funds are conserved; and along any run of calls, a closed match
  takes no bets, a bet keeps its odd and pays out once, a match opens once.
- `random.rs`: random scores, drawn from a randomness the runtime supplies.
- `offchain.rs`, `price.rs`: what the off-chain worker computes (the window
  for a match's start, and the start read back from the service's answer,
  which must be UTF-8), and reading
  a price, in cents, from a JSON answer (through `lite-json`).

`app/` holds the off-chain worker's HTTP requests and transaction submission.
