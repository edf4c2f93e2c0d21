# concord

The logic of a dashboard for Discord in the terminal, written in Verus. The library decides what is shown, what is asked for and when a frame is drawn; it does no I/O. Everything in it is verified against its contracts.

- `message`: how a message becomes lines of text: wrapping, highlights, emoji places, times, polls, embeds, components, reactions, forwarded messages and what the service tells.
- `state`: what the dashboard remembers: the panes with their cursors, the composer, popups and pickers, and how each event changes them.
- `requests`: which requests are sent, once each.
- `runtime`: what happens between frames: which images are loaded, kept and erased, what is drawn again, and which commands follow from a selection.
- `text`, `unicode`, `number`, `geometry`, `style`, `ids`, `discord`: what the others are made of.

The outside crates that the library calls stand behind a few functions with contracts of their own: grapheme clusters (`unicode-segmentation`), display widths (`unicode-width`), local times (`chrono`) and the list of emojis (`emojis`). They are in `unicode.rs`, `message/time.rs` and `state/emoji.rs`.

`app` is the ordinary Rust around the library: the terminal, timers, channels and files. `tests` runs the library from outside.
