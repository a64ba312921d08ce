# qwen3-asr-toolkit

A command-line tool that transcribes long audio and video with the DashScope Qwen3-ASR
service: it decodes the input with `ffmpeg`, cuts long audio at speech boundaries found by
the Silero voice activity model, sends the chunks in parallel, cleans repeated text out of
the results, and writes a transcript (and, on request, SRT subtitles).

## Layout

- `src/` — the library, written in Verus and verified:
  - `text.rs`: removal of repeated characters and patterns, SRT timestamps and content;
  - `language.rs`: language aliases and codes, the most frequent detected language;
  - `vad.rs`: the speech scan over window judgements and the planning of chunks, with the
    proof that the chunks cover the audio exactly and respect the length limit;
  - `api.rs`: the request to the service, reading its replies, the retry decision;
  - `cli.rs`, `paths.rs`, `pipeline.rs`, `audio.rs`: option checks, file names, assembling
    the transcript, decoding ffmpeg's WAV output (header and 16-bit samples, read with
    `hound`) and its checks;
  - `chars.rs`: character-level helpers (trimming, decimal digits, comparisons).
- `app/` — the program around the library: argument parsing with `clap`, decoding with
  `ffmpeg` and the scaling of samples to floats, model inference with `ort`, HTTP with `reqwest`, files and logging.
- `tests/` — tests of the library, including comparisons with plain implementations of the
  same rules on generated inputs.

The Silero model is read at run time from `assets/silero_vad.onnx`.
