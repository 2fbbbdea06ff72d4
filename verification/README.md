# whisper-notes

Voice dictation that appends transcribed speech to a file.

A recognition server (perception-voice) hands out utterances. While listening is on, each is trimmed,
noise such as "thank you" is discarded, voice commands are carried out, and the rest is appended to
the file, with timestamps if they are asked for. Ctrl+Shift+Space turns listening on and off; Ctrl+C
ends the program.

    whisper-notes notes.txt
    whisper-notes --ts 200 transcript.txt

| Say             | Result                    |
|-----------------|---------------------------|
| "command enter" | a line end (`\r\n`)       |

## Layout

- `src/` is the library. Everything the program decides or computes is there, with contracts that
  Verus proves: the command line, the states of the program and of an exchange with the server, the
  framing of messages, what becomes of an utterance, timestamps, and the set-up of the hotkey.
- `app/` is the program around it: sockets, the display, sound, the file and the terminal. It
  performs the actions that the library asks for and hands back what came of them.
- `tests/` runs the library.

## What is taken on trust

Contracts that are believed and not proved stand beside the calls they speak of:

- `regex::escape`, `Regex::replace` and `Regex::replace_all`, in `src/pattern.rs`;
- `str::to_lowercase` and `char::is_alphabetic`, in `src/letters.rs`;
- `String::push`, in `src/text.rs`.
