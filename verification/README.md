# csview

A terminal viewer and editor for delimiter-separated files: each file is a
sheet of cells, moved through with the arrow keys, edited in place, and
reshaped with commands typed after `:` (sort, find, move, slice, splice and
more). Changed sheets are written back with a backup copy of the old file.

## Layout

- `src/` is the library, written in Verus and proved: its functions carry
  contracts that state what they do.
  - `text`: characters, numbers and substring helpers.
  - `cells`: cells, columns, sheets (`Cells`) and the open sheets (`Csvs`).
  - `csv_io`: reading a file's text into a sheet and writing it back.
  - `terminal`, `render`: the window state, the gap buffer of the edited
    text, and the text drawn on the terminal.
  - `parse`, `cmd_err`, `dispatch`: reading command lines and their errors.
  - `commands`, `sort`, `row_ops`, `col_ops`, `find_ops`, `sheet_ops`: the
    commands.
  - `input`: the keys of the three input modes, a new terminal size and
    the end of a save.
  - `backup`: names of backup copies.
- `app/` is the program: arguments, files, the terminal's raw mode and
  signals, floating-point sums and numeric sort keys, and the loop that
  hands each key to the library and does the work it asks for
  (`Request`).
- `tests/` exercises the library on concrete sheets and keys.
