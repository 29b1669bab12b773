# tauri-plugin-wayland-nvidia-quirk, verified

The decisions of the Wayland/Nvidia quirk plugin for Tauri v2, written in
Verus and proved against their contracts.

- `src/text.rs`: the character-level pieces the detection reads text with
  (trimming, splitting, hexadecimal parsing and formatting, path file names,
  ordering of names), each stated over `Seq<char>`.
- `src/detect.rs`: the environment and `/sys/class/drm` entries as plain
  values, the session type, GPU enumeration and ordering, the NVIDIA GPU that
  matters, and the whole decision.
- `src/lifecycle.rs`: the steps the plugin takes in a process (stand down or
  arm, record how arming a window went, report the status).
- `src/status.rs`: the types reported to the host application.
- `src/laws.rs`: properties of the library as a whole, proved.
- `app/`: the Tauri plugin around the library: reading the environment and
  `/sys/class/drm`, GTK and Tauri calls, the process-wide status slot.
