# Synacor challenge tools, verified

A library for the Synacor challenge's virtual machine and the puzzles met on
the way, with contracts and proofs checked by Verus, and a command-line
program around it.

- `src/cell.rs`: the machine's words and their decoded cells, in bytes too.
- `src/machine.rs`: the machine's state and one step of it.
- `src/console.rs`: the `in` instruction's input, and preparing the teleporter.
- `src/image.rs`: loading programs, saving and restoring the machine's state.
- `src/pair_iter.rs`: bytes taken two at a time.
- `src/ack.rs`: the memoised confirmation routine of the teleporter.
- `src/reorder.rs`: results handed out in order of their number.
- `src/mirror.rs`, `src/ruins.rs`, `src/vault.rs`, `src/teleport.rs`: the puzzles.
- `src/text.rs`: white space, words and numbers as the standard library reads them.
- `app/`: the program; its first argument picks the tool
  (`vm`, `ack`, `rack`, `mirror`, `ruins`, `teleport`, `vault`).
