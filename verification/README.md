# owl

The logic of the owl chat bot, verified with Verus.

- `src/` is the library. `numbers` reads numbers out of a chat message (cleaning,
  a scanner that skips mentions, metric suffixes); `hoo` writes the owl's answer
  to them; `easter` reads the easter dataset and picks a video; `dataset` turns an
  upload into that dataset; `barber` and `activity` write the replies of those
  commands. `text` holds the string helpers and the calls into std and
  `thousands` that the others rest on.
- `app/` is the bot itself: the Discord framework, the commands' I/O, and the
  reading of number tokens as floats, which the library hands out and takes back.
- `tests/` exercise the library on concrete messages.
