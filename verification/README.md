# metal_atlas

A texture atlas for a Metal renderer. It packs glyphs, icons and images into a few GPU
textures, remembers where each of them is, gives dynamic textures a GPU texture of their own,
and queues updates of parts of a tile until the next frame.

`src/` is the bookkeeping, verified with Verus. It performs no GPU work itself: every operation
adds to a list of `GpuCommand`s, and the proofs show that a GPU which carries them out in order
has exactly the textures that the atlas believes in, and is never asked to write outside one.

| module         | what it holds                                                         |
|----------------|-----------------------------------------------------------------------|
| `atlas`        | `MetalAtlas`, what a renderer uses                                    |
| `state`        | tiles by key, and `Atlas`, the mathematical value of the whole        |
| `textures`     | the textures of every kind and the queue of uploads                   |
| `model`        | `Textures`, the mathematical value of these, and its transitions      |
| `texture_list` | the textures of one kind, and the numbers that are free               |
| `texture`      | one texture and its allocator                                         |
| `allocator`    | the calls into `etagere`, and what is believed of them                |
| `upload`       | which updates are accepted                                            |
| `gpu`, `device`| commands, and what they do to the textures of a GPU                   |
| `tile_map`     | a map from keys to tiles                                              |
| `operation`    | calls as values, for statements about more than one of them           |
| `laws`         | what holds of the atlas as a whole                                    |

`app/` puts the atlas behind a lock and carries its commands out on a Metal device. It builds on
Apple platforms only.
