# computeruse

Desktop input control for Linux: mouse and keyboard events, gestures and recordings,
movement of the cursor that is verified by observation, and an agent that decides by
screenshots what to do next. The library states what each part does in contracts, and
Verus proves them.

- `src/` is the library. It decides and computes; it opens no file and no device.
- `tests/` runs it on concrete values.
- `app/` is the program around it: the command line, the devices of the kernel and of
  X11, files, FFmpeg and the service that is asked.

What takes time or talks to the outside is a conversation. A function begins it and
hands back a value with its state and the first step; the program does what the step
asks for and hands in what came of it.

| Module | Subject |
| --- | --- |
| `event`, `keyboard`, `key_names` | events, keys and hotkeys |
| `controller`, `playback`, `mouse_playback`, `record`, `control` | gestures, recordings, commands |
| `trajectory`, `cursor` | where the cursor is and how it gets to a place |
| `linux`, `listen`, `x11`, `focus` | what the kernel and the X11 server say |
| `frame`, `frame_source`, `frame_run`, `video`, `extraction`, `path` | screenshots and videos |
| `action`, `batch`, `agent`, `policy`, `endpoint`, `json` | the agent |
| `text`, `bytes`, `number`, `sort` | what the others rest on |

Numbers that are floating point outside are held by their bit pattern, or as the exact
quotient that they come from.
