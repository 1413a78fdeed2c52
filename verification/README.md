# iris

The rules of an SGI Indy emulator, verified with Verus: what a snapshot holds and how
it is saved, loaded and rolled back, the control socket, the scratch volume, the camera,
the window, and what the graphical front end remembers.

## Layout

- `src/` is the library. Everything in it is verified; its contracts say what each
  function returns or changes.
- `tests/` runs it.
- `app/` is ordinary Rust around it: files, sockets, threads, the window and the
  OpenGL calls. It carries out what the library decides. The emulated chips are behind
  the traits in `app/board.rs`.

## Modules

| Module | What it is about |
| --- | --- |
| `machine`, `ops`, `job`, `transfer` | the machine's life cycle as scripts, how a script is carried out, and what the scripts move |
| `scsi_plan` | which disks a machine gets |
| `snapshot`, `overlay`, `saves` | manifests, device states as documents, disk overlays, the list of snapshots |
| `toml_value`, `toml_text`, `table` | documents and their text, by the `toml` crate |
| `ci`, `json` | requests of the control socket and the answers to them |
| `scratch`, `sgi_vh` | the payload and the volume header of a scratch volume |
| `screenshot`, `framebuffer` | the display as a PNG file and as packed pixels |
| `camera`, `video_source`, `cdmc` | camera frames, interlaced fields, and the camera's registers |
| `ui` | keyboard and mouse, and how a picture is laid out in the window |
| `settings`, `decode_cache_profile` | what is kept from one run to the next |
| `path`, `text`, `bits`, `clock`, `std_text` | paths, texts, numbers and the clock |

Public proof functions whose names begin with `law_` state what holds of the library as a
whole: that a load gives back what was saved, that the machine is stopped while its state
is touched, that a write to the scratch volume leaves its header alone.

## What is not proved

The outside functions behind `#[verifier::external_body]` and `assume_specification` are
taken at their word: the `toml` crate (`toml_text`), the `png` crate (`screenshot`), the
clock (`clock`) and a few functions of std on texts (`std_text`, `text`). The doc comment
of each says what is claimed of it.
