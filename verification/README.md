# truthcoin

The rules of a Hivemind sidechain: a chain pegged to a mainchain, on which
decisions are claimed, voted on and traded in markets.

The library (`src/`) is written in Rust and verified with Verus. Each function
has a contract over mathematical models: the tables of the state are maps, and
what a block, a trade or a vote does is a function on them.

- `types`: transactions, outputs, addresses of peers, and their encodings
- `authorization`: signatures, one by one and in batches
- `state`: the ledger, the peg to the mainchain, decisions, markets, votes and
  reputations, and how blocks are connected and disconnected
- `validation`: what transactions and blocks must meet
- `mempool`: transactions that wait for a block
- `node`: which transactions go into a block, and what becomes of submitted
  transactions and blocks
- `table`, `replica`, `sums`, `bytes`, `hex`: what the rest is built on

Files whose name ends in `laws` hold theorems about several functions. Two of
them say that going back undoes going forward:

- Disconnecting a block takes coins, markets, votes, reputations, decisions and
  the tip back to where they were. The theorem speaks of blocks above the first
  whose transactions move coins, claim decisions, vote or transfer reputation. No
  coin is spent twice in the block, what transactions make is new, a claimed
  decision has no entry yet and is in a period with others, no vote replaces an
  earlier one, and each voting period is reckoned for the first time.
  Where the block settled markets, what was kept of the settlement must take it
  back. Left over is a row for each claimed decision that says that nothing
  happened to it.
- Disconnecting what mainchain blocks said takes the ledger and the peg back. The
  theorem leaves out the events that `reversible_event` rules out, such as a
  deposit whose coin was already there.

Numbers that are not whole are held by their bit patterns. What is reckoned in
floating point, and what reads or writes files, stands in `app/`.

A transaction that the pool or the node refuses changes nothing. The functions
that connect and disconnect a block step by step may stop in the middle of a
change; `State::duplicate` makes a copy to go back to, and `app/` keeps one.
