# omegawhisper

A menu-bar dictation app: press a key, speak, press it again, and the text is
typed into whatever app has focus. Speech is turned into text by a local
model.

The decisions of the app are a library verified with Verus (`src/`):

- `speech` – where the speech is in a recording, given which 30 ms frames are
  loud: the quiet head and tail, the long pauses, and which samples survive
  when those pauses are shortened.
- `wav` – the bytes of a 16-bit PCM WAV file, read back field by field.
- `text` – trimming, and cutting text into the UTF-16 pieces that key events
  carry without parting a surrogate pair.
- `settings` – the saved settings, their defaults, the rules pause-shortening
  runs with, the limits a setting is
  pulled into, and the one-time copy of the settings kept in the browser.
- `recording`, `shortcut`, `models`, `microphone`, `storage`, `indicator`,
  `tray` – when a recording may start or stop, which key stays registered,
  which microphone and format are used, which files count as recordings, and
  how the indicator and the menu-bar icon move.
- `transcription` – which model is loaded, loading only when another one is
  asked for.

`app/` is the program around it: the windows, the microphone stream, files,
the speech engines, and the floating-point signal maths. `tests/` runs the
library on concrete values.
