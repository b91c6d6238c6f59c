# iamf

A verified library for IAMF (Immersive Audio Model and Formats) streams,
written in Verus: every function in `src/` carries a contract that the
verifier proves.

- `leb128`, `reader`, `obu`, `frames`, `descriptors`, `params`: the
  bitstream — leb128 values, OBUs and their iteration, audio frames,
  descriptor OBUs (sequence header, codec configs, audio elements, mix
  presentations) and parameter blocks, each specified as a function on
  bytes.
- `channels`, `element`, `layout`, `reconstruct`, `binaural`, `filters`:
  channel layouts, substream layout of elements, output sound systems,
  the layer a scalable channel element is decoded up to, ambisonics
  orders, de-interleaving, spherical-harmonic numbering, resampling rates
  and the WAV files of the binaural filters.
- `profile`: which IAMF v1.1 profiles support a mix presentation.
- `presentation`, `stream`, `frame_queue`: collecting descriptors,
  selecting a mix, channel orders, trimming, the per-substream queues of
  decoded frames, and the consistency checks of streaming decoding.
- `codecs`: what each codec adapter supports and opens its codec with,
  and integer LPCM decoding.
- `capi`: status codes and settings of the C interface.
- `mp4`, `player`, `demo`: demuxing IAMF-in-MP4, splitting a standalone
  sequence, the player's key controls (one verified step from state and
  key to next state and action), and writing IAMF (the demo stream).

`app/` is a small command-line tool around the library (file I/O, the
floating-point synthesis of the demo scene, error display, and a
line-by-line loop over the player's controls).

Decoding audio to PCM is not part of the crate: the codecs, channel
reconstruction, rendering, binaural filtering, resampling, loudness
normalization and limiting work in floating point. The library holds the
decisions around them (configuration, streaming steps, routing, trimming,
timelines) and `app/` drives no decoder.
