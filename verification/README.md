# text_engine

A small text-adventure engine, verified with Verus.

- `src/lib.rs`: rooms, doors, room indices and items.
- `src/text.rs`: trimming typed lines, comparing texts, cutting a sentence
  into words.
- `src/doors.rs`: which door a typed line or sentence chooses; end rooms.
- `src/grid.rs`: character grids, writing a cell, counting cells.
- `src/map.rs`: drawing a room's grid with walls, doorways, items and enemies.
- `src/game.rs`: the grid game, turn by turn, and the laws that every turn
  keeps.
- `src/world.rs`: the two mansions.
- `app/`: the two terminal games (`spooky` for the typed adventure, the
  grid game otherwise): reading keys and lines, printing.
