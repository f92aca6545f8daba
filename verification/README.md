# space_invaders

A small Space Invaders game built on macroquad, with its discrete game logic
verified in Verus.

- `src/` is the verified library:
  - `collision`: building and reading packed opacity masks, choosing the collision test
    for two images, and scanning the overlap region of two images;
  - `game`: the enemy formation, what each bullet met, its effect on the
    enemies, the bullets and the player's hearts, the enemy that fires next,
    the end of a frame and of a round;
  - `enemy`, `player`: an enemy's heading and the player's movement keys;
  - `screens`: the screens and the window settings.
- `app/` is the game itself: drawing, input, the clock, and the
  floating-point geometry (positions, rotations, texture coordinates).
- `tests/` exercises the library on concrete values.
