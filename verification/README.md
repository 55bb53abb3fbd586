# Papr

Papr finds, reads and cites papers in the terminal. This crate holds its rules:
what a key does, what an answer from outside changes, what is drawn where.
All code under `src/` is verified with Verus, but for a few calls into other
crates and into the standard library, whose contracts are taken on trust (below).

- `src/` is the library. State is plain data (`model`); keys go through `input`
  to the section or window that they are for, and come back as an effect, an
  action or a piece of work that the program has to carry out. What comes of the
  work is handed to a function of the library that says how the state follows.
- `tests/` runs the library.
- `app/` is the program around it: the terminal, files, processes and the network.

| Modules | What they are about |
| :--- | :--- |
| `text`, `chars`, `strings`, `edit`, `editor`, `field` | text under a caret |
| `keys`, `input`, `navigation`, `modals`, `workspaces`, `rows` | keys and the lists they move through |
| `action`, `actions`, `effect`, `runtime` | what follows a key, and the rounds of the main loop |
| `arxiv`, `citation`, `discovery`, `dashboard`, `enrichment`, `downloads`, `organization` | papers |
| `paths`, `projects`, `project_editor`, `workbench` | projects and their files |
| `terminal`, `terminal_input`, `viewer` | commands and other programs |
| `settings_modal`, `config_editor`, `theme` | settings |
| `kitty`, `raster`, `pdf_cache`, `pdf_viewer` | documents on the screen |

## What is taken on trust

Each of these is a small function that makes one call and says what it promises.
Nothing proves these promises: they follow the documentation and the source of what
is called.

| Function | What it calls | What is promised |
| :--- | :--- | :--- |
| `actions::format_year` | `chrono` | the year is a function of the time |
| `chars::is_whitespace`, `is_control` | `char` | which characters they are |
| `chars::is_alphanumeric` | `char` | it is a function of the character |
| `dashboard::sha256` | `sha2` | the digest is a function of the bytes |
| `kitty::zlib` | `flate2` | the stream, or that there is none, is a function of the bytes |
| `paths::is_image_extension` | `image` | which extensions are known |
| `raster::resize_exact`, `resize_within`, `overlay` | `image` | the pixels are a function of the images and sizes |
| `strings::to_lower` | `str` | it is a function of the text |
| `terminal_input::path_parent`, `path_file_name`, `main_separator` | `std::path` | what holds on every platform |
| `text::push_char` | `String` | the character is appended |

Paths are texts whose components are separated by slashes.
