# pk_backend_moss

A PackageKit backend for moss, the package manager of AerynOS.

- `src/` is the verified library. It decides what the backend tells the daemon: which packages a
  request lists, how package ids are built and read, what package files say, how repositories are
  listed and changed, and which messages a job sends. It works on plain values: packages,
  payloads and raw bytes come in, messages (`JobSignal`) go out.
- `app/` is the backend itself: the functions that PackageKit calls, the work that moss does, and
  the sending of the messages.
- `tests/` runs the library on concrete values.

The library never panics on inputs that meet its `requires`. Text that goes to the daemon is
`CText`, which holds no NUL; where a text with a NUL breaks a job off, the functions say with which
text.
