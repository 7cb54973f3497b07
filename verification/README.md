# sac_analysis

Analyses of Team Fortress 2 demos, verified with Verus.

The demo is read by `tf-demo-parser`; each tick it yields is handed to the
analyses as plain values (`src/game.rs`). Distances between players are
floats in the demo; the analyses only compare them, so each player carries,
for every other player of its tick, a *distance key*: an integer that orders
distances as the distances themselves are ordered. The conversion, and the
float arithmetic it needs, live in `app/convert.rs`.

- `src/game.rs`: teams, classes, players, events and ticks as the analyses see them.
- `src/players.rs`: names, team lists, the living players other than one, the nearest player.
- `src/capture.rs`: what point captures tell of which team is held on its last point.
- `src/parse_sac.rs`: the sac analysis. `ParsedDemo::push_state` analyses one tick;
  its contract states the result exactly, and the proof functions at the end of the
  file state what every push keeps: nothing found is lost, a second push of the same
  tick changes nothing, a push notes at most one sac, and the sacs of a team stay
  at least `SAC_REPEAT_TICKS` apart.
- `src/parse_bert_airshot.rs`: the users of a demo, for an analysis of airshots.
- `app/`: the program that prints the projectile hits of a demo, and the loops that
  run the analyses over a parsed demo.

What the analyses and the program leave out:

- The analyses print nothing; what they find (ticks on and off last, sacs
  with their soldier and tick) is returned in `ParsedDemo`. The sac run in
  `app/parse_sac.rs` prints it after each push: the ticks on and off last,
  each new sac with its soldier's name, and a note where a sac was taken for
  one already seen. It does not print when a last point falls, the name of
  the medic sacked, or the sizes of the teams.
- The numbering of control points in capture events is assumed (see
  `ControlPoint` in `src/game.rs`); the parser does not provide it.
- The parser release used here has no player flags and no "in air" test, so
  the hit report does not say whether the target was in the air, and the
  airshot run does not print the players' flags at its end.
