# nsbox

Starts a shell in a container: new namespaces, a root file system of its own that shares parts of
the host's, and a parent process that passes the standard streams on.

The library under `src/` is written in Verus. It makes no system calls. It says which calls are to
be made, in which order and with which arguments, and what follows from their outcomes:

| Module | What it holds |
| --- | --- |
| `events`, `reactor_laws` | an event loop over `epoll`, with scopes of handlers that are updated together |
| `forward` | moving bytes between descriptors through a buffer |
| `ipc` | the pipes between parent and child, and how streams are passed on |
| `path` | paths as text: pushing, joining, going below a root, the parent of a path |
| `sys`, `utils` | the arguments of `mount`, `umount2`, `pivot_root`, `unshare` and the id maps |
| `plan`, `rootfs_view`, `rootfs` | the steps by which the root file system is set up |
| `address`, `slirp` | Internet addresses, the configuration and the timers of the user-mode network |
| `kernel` | the constants of `nix` and `libc` that the library uses, with the values taken on trust |

`app/` is the program around it: it makes the calls. Tests are under `tests/`.
