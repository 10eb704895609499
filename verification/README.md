# mdbook-pdf

A back end for [mdBook](https://rust-lang.github.io/mdBook/) that prints a book,
and on request each of its chapters, to PDF with a headless browser.

`src/` is the library, verified with [Verus](https://github.com/verus-lang/verus):
the choice of chapters, the names and places of all files, the table of contents,
the links of the pages, and the conversation with the browser as a state machine.
Each function states in its contract what it returns; the modules whose names end
in `laws` prove what holds across functions.

`app/` is the program around it: it reads the book from mdBook, opens files, and
does what the state machine asks of the browser.

Paths are bytes with slashes between the names, which need not be Unicode. Where
a path is taken apart, `..` and a leading `.` count, repeated slashes and other `.`
do not. These are the paths of the Unix family. On another system, `app/` writes
paths in this way before it calls the library, and back behind it: slashes for the
separators, and a slash before a drive, so that `C:\book` is `/C:/book`.

## What is trusted

The library calls `regex` and `mdbook-core`, and some functions of the standard
library that Verus does not know. Each such call stands in a small function of its
own, or in an `assume_specification`, whose doc comment says what is taken for
granted:

* `links.rs`: compiling and running the three regular expressions;
* `outline.rs`: walking over a book;
* `unicode.rs`: letters, digits and lower case beyond ASCII, and the text that
  stands for bytes which are not UTF-8;
* `text.rs`: appending a character to a string.
