# brztek

The logic of the brztek Discord bot as a verified library, with the bot
itself around it.

- `src/` is the library, verified with Verus: the xp curve and the levels
  (`levels`), the roulette and its statistics (`roulette`, `tally`,
  `sorting`), the cleaning of links with the ClearURLs rules (`clearurl`),
  YouTube subscriptions (`youtube`), mention roles, timeouts, the
  administrators' commands, and the texts that the bot posts. Each function
  states its result in its contract; the properties that relate several
  functions are proof functions (the `lemma_*_law` items and their kin).
  Regular expressions, URLs, random numbers, the clock and PNG encoding come
  from outside crates through a few trusted wrappers, each documented where
  it is declared.
- `tests/` runs the library on concrete values.
- `app/` is the program: configuration, database queries, the Discord
  commands and events, and the drawing of the cards, which works in floating
  point on a rendering context.
