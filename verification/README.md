# crabmail

A static archive generator for mailing lists: it reads a directory of
maildirs, one per list, threads each list's messages by subject, and
writes HTML and Gemini pages and Atom feeds for the lists and their
threads.

The library under `src/` is verified with Verus:

- `time`, `utils`: calendar arithmetic on unix timestamps and mail dates;
- `text`, `util`, `paths`: text building blocks, format=flowed undoing,
  truncation, and the names of the files written;
- `config`, `arg`: the ini-like configuration and the command line;
- `mbox`, `maildir`: reading mail stores held in memory or listed by name;
- `message`, `builder`: the fields `mail_parser` finds in a message, and
  messages written with `mail_builder`;
- `threading`, `jwzthreading`, `sort`: threading by base subject, stable
  sorting by time, and the first steps of jwz's algorithm;
- `models`: messages ready for rendering, threads, lists, reply links and
  mbox export;
- `templates`: the HTML, Gemini and Atom renderers;
- `mbox_tool`, `filters`: the mbox-driven variant of the tool.

Each public function states its result in its `ensures`; properties that
relate several functions are public proof functions named `law_*`.

`app/` holds the program: argument handling, the file system, and the
loop that writes the archive.
