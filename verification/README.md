# speedreader

A terminal speed reader: words are shown one at a time with their optimal
recognition point highlighted, or in a scrolling reader view.

- `src/` is the verified library: command-line dispatch (`cli`), the
  configuration file format (`config`), integer parsing (`decimal`), page
  arithmetic (`paging`), the choice of how a document is loaded and where
  reading starts (`session`), the layout and navigation of the reader view
  (`viewer`) and the word presentation (`rsvp`).
- `app/` is the program around it: arguments, files, the terminal user
  interface and the calls into the C++ reading engine.
- `tests/` exercises the library on concrete values.
