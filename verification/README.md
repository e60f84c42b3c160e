# tft-iq

Quizzes for Teamfight Tactics, made from the matches of the best players: which augment placed
best on a board, which item or combo of items suits a carry, which unit a deck is missing, and
which traits a unit has.

- `src/` is the library: reading and counting matches, clustering decks, making puzzles,
  judging answers, and deciding what is collected and when. It is written in Verus; each public
  function states what it returns, and the public proof functions state what holds of several
  of them together.
- `app/` is the program around it: the Riot API, Community Dragon, PostgreSQL, HTTP, and the
  floating-point arithmetic. It hands the library whole numbers: mean placements in hundredths
  where they are shown, and a rank where they are ordered.
- `tests/` runs the library on concrete values.
