# motif

A looper that works out what was played into it: the beats of a take, where
its bars begin, and the chords over them.

The library under `src/` is verified with Verus. It holds what the instrument
decides and counts: the transport and what each move of it does to the loop,
the layers of the loop and what an undo gives back, the queues and latches that
carry words between the audio callback and the rest, the trimming of the slack
between capture and playback, the device listings and what a change of devices
carries over, the tracker's candidate pulses, and the fixtures' annotation
format, chord vocabulary, scoring and rendered byte layout.

`app/` is the program around it: the audio backend, threads and locks, the
terminal, files, and the arithmetic on floating-point samples — gains, levels,
the onset envelope, the scoring of grids and the rendering of fixtures.

`tests/` exercises the library from outside.
