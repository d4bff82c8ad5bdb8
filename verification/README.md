# desktop-mcp

A headless Wayland compositor whose primary interface is an MCP server. Every
tool injects input, waits until the user interface has settled, and returns the
new state of the desktop: the window list, screenshots of the windows that
changed, and accessibility metadata. Humans can watch (read-only) through a web
monitor.

The decisions are a verified library; sockets, rendering and protocol plumbing
are ordinary Rust around it.

| Place | Contents |
| --- | --- |
| `src/tracker.rs` | when a transition is complete: ping rounds, quiet times, deadlines, frozen clients |
| `src/comp.rs` | windows, stacking order and focus; what an action comes to |
| `src/keys.rs` | characters, key names and combos as key presses |
| `src/snapshot.rs` | what is reported of the desktop |
| `src/mcp.rs` | the tools: their requests, defaults, errors and results |
| `src/a11y.rs` | the walk over accessible objects within its limits |
| `src/render.rs` | pixels: conversion, crosshair, PNG |
| `src/session.rs` | startup: directories, environment, shell exports, failure reports |
| `src/monitor.rs`, `src/x11ping.rs`, `src/ipc.rs`, `src/text.rs` | the monitor's pages, X11 pings, shared types, text handling |
| `tests/` | the library on concrete values |
| `app/` | the program: smithay, axum, rmcp and AT-SPI |

What the library promises as a whole is stated by the public proof functions
whose names start with `law_`.
