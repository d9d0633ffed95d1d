# projectwc

The core of a Wayland compositor. It knows which graphics devices, outputs, windows and layer
surfaces there are, and decides what has to be done when something happens to them. The
library is verified with [Verus](https://github.com/verus-lang/verus): each function against
its contract.

## Layout

- `src/` is the verified library.
  - `backend/` decides about displays: `connector` (what a connector reports), `model` (the
    mathematical model of devices and outputs), `udev` (devices and connectors that come and
    go), `formats` (pixel formats), `scanout` (making the compositor of a display), `frame` (drawing and showing frames), `session` (pausing,
    activating, hotplug), `winit` (a window of another compositor, and copies of its frames),
    `checks` (tests of what `udev` asks of its callers) and `laws` (what stays true whatever
    happens).
  - `handlers/` decides about what clients ask for: commits, layer surfaces, leases of
    connectors, drags, and copies of frames.
  - `state`, `space`, `action`, `error`, `search` and `text` hold the shared state, the plane
    that things are mapped on, the user's actions, the failures, searching and numerals.
- `app/` is ordinary Rust around the library. It talks to the kernel, the graphics stack and
  the clients, hands the library plain values, and carries out the commands that come back.
- `tests/` runs the library on concrete inputs.

## How to read a decision

Devices, display controllers, connectors, surfaces, windows and outputs are numbers here. A
function takes what happened and returns what to do, as a value; nothing in `src/` performs
input or output. What a function returns is given by a spec function of the same module or of
`backend::model`, and the public proof functions named `law_...` state what holds over several
calls.

The names of connector types, the flag bits of modes and the numbers of memory layouts come
from the `drm` and `drm-fourcc` crates. The functions that call them are marked
`external_body`, and each says what it takes on trust.

## Building

`app/` needs the system libraries libudev, libseat, libinput, libgbm, libdisplay-info and
libxkbcommon. The library itself needs none of them.
