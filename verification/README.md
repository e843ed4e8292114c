# phonemirror

A desktop tray application that mirrors an Android phone's screen through
`scrcpy` and `adb`. The decisions it makes are kept in a verified library:

- `src/paths.rs`: where the tools and output folders are looked for, and how a
  long path is shortened for display.
- `src/env.rs`: the environment handed to the child processes (`PATH`,
  `ADB`, `SCRCPY_SERVER_PATH`, `ANDROID_HOME`).
- `src/devices.rs`: reading `adb devices` output and `pgrep` results.
- `src/state.rs`: the application's state machine: what each button, menu
  item and window event does, and which commands are run.
- `src/icon.rs`: the pixels of the window and tray icon.
- `src/text.rs`: the string model the contracts are written over.

`app/` holds the window, the tray menu, process spawning and file I/O around
the library.
