# gmanim_editor

A preview editor for Python animation scenes. A renderer process draws the frames
of a scene into shared memory; the editor asks for the frames that it needs, keeps
them in a cache and shows them at the cadence of the scene.

- `src/` is the library, verified with Verus:
  - `protocol`: the layout of the shared memory, its header, commands and events
  - `image`: reading a picture out of a slot
  - `cache`: the cache of rendered frames and its eviction
  - `playback`: which frames playback shows next
  - `plan`, `schedule`: which frames are asked for, and when
  - `slots`: the accounting of slots and open requests
  - `session`, `scenes`: the state of an editing session
  - `ipc`: what the listening thread hands to the editor
  - `timing`: the display clock
  - `scripts`, `names`, `text`: files, names and texts
  - `chars`, `lexer`, `grammar`, `syntax`: the highlighting of Python text
- `app/` is the program around it: the window, the renderer process, the sockets
  and the shared memory itself. Times and zoom factors are floating-point numbers
  and are computed there.
- `tests/` runs the library.
