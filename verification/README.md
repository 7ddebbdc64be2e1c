# fuse-stripped-notebooks

A read-only FUSE file system that mirrors a directory and transforms the Jupyter notebooks
(`.ipynb`) in it on the fly. Everything else passes through unchanged. Notebooks mix code and
outputs, which is bad for tools like `grep`; in the mount they are clean.

    fuse-stripped-notebooks --source notebooks --mountpoint stripped --mode python-script --mkdir &
    grep -rni needle stripped

There are two modes. `strip-outputs` shows the notebook without the outputs and execution counts
of its code cells. `python-script`, the default, shows it as a Python script: Markdown and raw
cells as docstrings, and code cells as they stand, each with a `# ---` comment behind it.

## Layout

- `src/` is the library, in Verus. It touches no file: it says what is to be looked at, and what
  the mount answers once that is known.
  - `json`: JSON documents as plain data, read and written by `serde_json`.
  - `text`: lines of text and their UTF-8 bytes.
  - `transform`: what a notebook turns into.
  - `path`: paths as bytes, compared by their components.
  - `attr`: file attributes.
  - `transfer`: ranges of bytes, and reading a file piece by piece.
  - `fs`: inode numbers, open files, kept notebooks, and the answer to each request.
  - `laws`: what holds across requests.
  - `session`: when the mount ends.
- `app/` is the program: arguments, signals, the source directory and the kernel.
- `tests/` runs the library.
