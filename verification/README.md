# heart_cli

Two terminal toys built on a verified core:

- the fetch screen: an animated heart next to system information;
- the sandbox: hearts with physics that can be kicked with the mouse, pulled
  by a black hole, pushed by a white hole, and played as three small games.

`src/` is the library, verified with Verus:

- `text`: the string operations the parsers need (trim, lines, words, fields,
  prefix stripping, match deletion, UTF-8 byte lengths);
- `decimal`: decimal printing and parsing of unsigned integers;
- `sysinfo`: the information column, read out of the text of the system files;
- `fetch_screen`: the coloured rows of the fetch screen;
- `game`: modes, holes, gravity, heart size and the scoring rules of the sandbox;
- `broadphase`: the grid that selects the heart pairs to test for collisions;
- `screen`: walls, panels, cursor and black hole of the sandbox screen;
- `lcg`: the pseudo-random generator.

`app/` holds the program: terminal I/O, reading files and the environment, and
the floating-point geometry and physics (ray marching the heart, shading,
motion, colours).
