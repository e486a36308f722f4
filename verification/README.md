# harness

The laptop side of a double pendulum rig: it tracks the pendulum's AprilTags
through a USB camera, drives the motor, and records both as training data for
RL, with every timestamp on one monotonic clock.

The library under `src/` holds what the programs decide and compute. It is
written in Verus: what each function returns is stated in its contract and
proved. The camera, the serial port, the clock, the threads and the files
belong to the programs, under `app/`, which hand the library plain values.

| module | |
| --- | --- |
| `grid`, `chunk`, `perceive`, `execute` | actions on a fixed grid: plans, and who owns which slot |
| `policy`, `collect` | acting on the newest frame: the policy's history, and what is recorded |
| `drive` | what is written to the motor, and how it is stopped |
| `record`, `table`, `columns` | the recorded tables, as Arrow IPC streams |
| `stats`, `log` | what a run reports, and when |
| `atom`, `mov`, `video` | Motion-JPEG movies |
| `yuyv`, `gray`, `picture`, `draw` | camera frames as images, and drawing on them |
| `camera`, `uvc`, `serial`, `latest` | choosing a camera, its exposure, the motor link, and a mailbox |
| `clock`, `text` | times and texts |

Proof functions whose names begin with `law_` state what holds of several
functions together: that dropping superseded plans changes no later slot, that
a movie's index addresses every frame and a movie stays playable if rendering
fails, that every frame is planned on and recorded once, that the last byte written stops the
motor however a run ends, that a table gives its stream every row that was
pushed, in batches, and hands out that one stream.

## What is not proved

- Numbers in floating point: poses, the lines of an overlay, printed
  fractions. A single-precision number goes through the library as its bits.
- Which bytes Arrow writes for a batch, and that a reader gives back what was
  written. A stream is known to begin with its schema, to grow by each batch
  and to end with its end marker.
- What other crates do. Each call into one stands behind an item that says,
  above it, what it takes the call to do: Arrow's arrays and streams in
  `columns`, images in `draw` and `gray`, frame decoding in `picture`, JPEG
  encoding in `video`, random numbers in `chunk`.
