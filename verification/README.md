# raycaster

A grid raycaster in the style of Wolfenstein 3D. The game draws a level of
16 by 32 cells by casting one ray per screen column.

`src/` is the verified library (Verus):

- `level.rs`: tiles, the level grid, `get_tile`, and the standard level.
- `raycast.rs`: the cell-by-cell walk of a ray through the grid (`cast_ray`), and the
  proof that in a walled-in level every ray from an inner cell meets a wall
  within its step budget.
- `texture.rs`: wall textures decoded from PNG files (through lodepng).
- `column.rs`: drawing one screen column (ceiling, wall slice, floor).
- `font.rs`: rendering a glyph with FreeType and reading back its bitmap.
- `glyph.rs`: drawing a rendered font glyph into an ARGB texture buffer.
- `minimap.rs`: the rectangles of the map overlay.
- `overlay.rs`: the frame-time label.
- `input.rs`: reactions to window events and held keys.

`app/main.rs` is the program around it: reading files, the window and
rendering through SDL2, and the floating-point camera and ray geometry
through cgmath.
