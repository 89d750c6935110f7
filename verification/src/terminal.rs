//! The viewer's screen state: what changed, how input is read, the cursor,
//! the gap buffer that holds text being typed, and the window over the sheet.
use vstd::prelude::*;

verus! {

/// What part of the screen has to be drawn again.
#[derive(Debug, PartialEq, Eq, Structural)]
pub enum WinChange {
    Cell,
    Focus,
    ColWidth,
    Rows,
    Columns,
    Screen,
    Init,
    Write,
    Command,
    Non,
}

/// How arrow keys move through the sheet.
#[derive(Clone, Copy, Debug, PartialEq, Eq, Structural)]
pub enum ScrollMode {
    Text,
    Cell,
    Axis,
    Page,
}

/// What typed input goes to.
#[derive(Debug, PartialEq, Eq, Structural)]
pub enum InputMode {
    Scroll,
    Write,
    Command,
}

/// Where the text cursor is: terminal line and column of the start of the
/// text field, the offset within the field and the field's width.
pub struct Cursor {
    pub line: usize,
    pub col: usize,
    pub offset: usize,
    pub limit: usize,
}

impl Cursor {
    pub fn new() -> (c: Self)
        ensures
            c.line == 0 && c.col == 0 && c.offset == 0 && c.limit == 0,
    {
        Self { line: 0usize, col: 0usize, offset: 0usize, limit: 0usize }
    }
}

/// A gap buffer: the text is `data[..gap_start]` followed by
/// `data[gap_start + gap_len..]`, and the cursor stands at the gap.
#[derive(Debug)]
pub struct WriteBuf {
    pub data: Vec<char>,
    pub capacity: usize,
    pub gap_start: usize,
    pub gap_len: usize,
    pub offset: usize,
    pub content_len: usize,
    pub window: usize,
}

impl WriteBuf {
    /// Whether the gap lies inside the data, the capacity is the data's size
    /// and the text length is what the gap leaves.
    pub open spec fn wf(&self) -> bool {
        &&& self.data@.len() == self.capacity
        &&& self.gap_start + self.gap_len <= self.capacity
        &&& self.content_len + self.gap_len == self.capacity
    }

    /// The text held by the buffer.
    pub open spec fn text(&self) -> Seq<char> {
        self.data@.take(self.gap_start as int) + self.data@.skip(
            self.gap_start + self.gap_len,
        )
    }

    /// An empty buffer with room for `capacity` characters.
    pub fn new(capacity: usize) -> (b: Self)
        ensures
            b.wf(),
            b.text() == Seq::<char>::empty(),
            b.capacity == capacity,
            b.gap_start == 0,
            b.offset == 0,
            b.content_len == 0,
            b.window == 12,
    {
        let data = vec![' '; capacity];
        Self {
            data,
            capacity: capacity,
            gap_start: 0,
            gap_len: capacity,
            offset: 0usize,
            content_len: 0usize,
            window: 12usize,
        }
    }

    /// Empties the buffer.
    pub fn reset(&mut self)
        requires
            old(self).wf(),
        ensures
            final(self).wf(),
            final(self).text() == Seq::<char>::empty(),
            final(self).capacity == old(self).capacity,
            final(self).gap_start == 0,
            final(self).offset == 0,
            final(self).content_len == 0,
            final(self).window == 12,
    {
        let mut i: usize = 0;
        while i < self.gap_start
            invariant
                i <= self.gap_start,
                self.wf(),
                self.capacity == old(self).capacity,
            decreases self.gap_start - i,
        {
            self.data.set(i, ' ');
            i += 1;
        }
        let post_gap = self.gap_start + self.gap_len;
        let mut i = post_gap;
        while i < self.data.len()
            invariant
                post_gap <= i <= self.data@.len(),
                self.wf(),
                self.capacity == old(self).capacity,
            decreases self.data@.len() - i,
        {
            self.data.set(i, ' ');
            i += 1;
        }
        self.gap_len = self.capacity;
        self.gap_start = 0usize;
        self.offset = 0usize;
        self.content_len = 0usize;
        self.window = 12usize;
    }

    /// Moves the gap (the cursor) to position `pos` of the text.
    pub fn move_gap(&mut self, pos: usize)
        requires
            old(self).wf(),
            pos <= old(self).content_len,
        ensures
            final(self).wf(),
            final(self).text() == old(self).text(),
            final(self).gap_start == pos,
            final(self).gap_len == old(self).gap_len,
            final(self).capacity == old(self).capacity,
            final(self).content_len == old(self).content_len,
            final(self).offset == old(self).offset,
            final(self).window == old(self).window,
    {
        while pos < self.gap_start
            invariant
                self.wf(),
                pos <= self.content_len,
                self.text() == old(self).text(),
                self.gap_len == old(self).gap_len,
                self.capacity == old(self).capacity,
                self.content_len == old(self).content_len,
                self.offset == old(self).offset,
                self.window == old(self).window,
            decreases self.gap_start,
        {
            let ghost t0 = self.text();
            self.gap_start -= 1;
            let c = self.data[self.gap_start];
            self.data.set(self.gap_start + self.gap_len, c);
            proof {
                let d = self.data@;
                let gs = self.gap_start as int;
                let gl = self.gap_len as int;
                assert(self.text() =~= t0) by {
                    assert(d.take(gs) + d.skip(gs + gl) =~= t0);
                }
            }
        }
        while pos > self.gap_start
            invariant
                self.wf(),
                self.gap_start <= pos,
                pos <= self.content_len,
                self.text() == old(self).text(),
                self.gap_len == old(self).gap_len,
                self.capacity == old(self).capacity,
                self.content_len == old(self).content_len,
                self.offset == old(self).offset,
                self.window == old(self).window,
            decreases pos - self.gap_start,
        {
            let ghost t0 = self.text();
            let c = self.data[self.gap_start + self.gap_len];
            self.data.set(self.gap_start, c);
            self.gap_start += 1;
            proof {
                let d = self.data@;
                let gs = self.gap_start as int;
                let gl = self.gap_len as int;
                assert(self.text() =~= t0) by {
                    assert(d.take(gs) + d.skip(gs + gl) =~= t0);
                }
            }
        }
    }

    /// Inserts `c` at the cursor; the cursor moves past it.
    pub fn insert(&mut self, c: char)
        requires
            old(self).wf(),
            old(self).capacity > 0,
            old(self).content_len < usize::MAX / 2,
        ensures
            final(self).wf(),
            final(self).capacity >= old(self).capacity,
            final(self).text() == old(self).text().insert(old(self).gap_start as int, c),
            final(self).gap_start == old(self).gap_start + 1,
            final(self).content_len == old(self).content_len + 1,
            final(self).offset == old(self).offset,
            final(self).window == old(self).window,
    {
        if self.gap_len == 0 {
            self.grow();
        }
        let ghost t0 = self.text();
        self.data.set(self.gap_start, c);
        self.gap_start += 1;
        self.content_len += 1;
        self.gap_len = self.gap_len - 1;
        proof {
            let d = self.data@;
            let gs = self.gap_start as int;
            let gl = self.gap_len as int;
            assert(d.take(gs) + d.skip(gs + gl) =~= t0.insert(gs - 1, c));
        }
    }

    /// Removes the character before the cursor, if there is one.
    pub fn delete(&mut self)
        requires
            old(self).wf(),
        ensures
            final(self).wf(),
            old(self).gap_start == 0 ==> *final(self) == *old(self),
            old(self).gap_start > 0 ==> final(self).text() == old(self).text().remove(
                old(self).gap_start - 1,
            ),
            old(self).gap_start > 0 ==> final(self).gap_start == old(self).gap_start - 1,
            old(self).gap_start > 0 ==> final(self).content_len == old(self).content_len - 1,
            final(self).capacity == old(self).capacity,
            final(self).offset == old(self).offset,
            final(self).window == old(self).window,
    {
        if self.gap_start == 0 {
            return;
        }
        let ghost t0 = self.text();
        self.gap_start = self.gap_start - 1;
        self.content_len = self.content_len - 1;
        self.gap_len += 1;
        proof {
            let d = self.data@;
            let gs = self.gap_start as int;
            let gl = self.gap_len as int;
            assert(d.take(gs) + d.skip(gs + gl) =~= t0.remove(gs));
        }
    }

    /// The text held by the buffer.
    pub fn as_string(&self) -> (s: String)
        requires
            self.wf(),
        ensures
            s@ == self.text(),
    {
        let mut contents = String::new();
        crate::text::push_range(&mut contents, &self.data, 0, self.gap_start);
        let post_gap = self.gap_start + self.gap_len;
        crate::text::push_range(&mut contents, &self.data, post_gap, self.data.len());
        proof {
            assert(self.data@.subrange(0, self.gap_start as int) == self.data@.take(self.gap_start as int));
            assert(self.data@.subrange(post_gap as int, self.data@.len() as int) == self.data@.skip(post_gap as int));
        }
        contents
    }

    /// Doubles the room of a full buffer, keeping the text and the cursor.
    fn grow(&mut self)
        requires
            old(self).wf(),
            old(self).capacity > 0,
            old(self).gap_len == 0,
            old(self).content_len < usize::MAX / 2,
        ensures
            final(self).wf(),
            final(self).text() == old(self).text(),
            final(self).gap_start == old(self).gap_start,
            final(self).gap_len > 0,
            final(self).capacity > old(self).capacity,
            final(self).content_len == old(self).content_len,
            final(self).offset == old(self).offset,
            final(self).window == old(self).window,
    {
        let old_cap = self.data.len();
        let new_cap = old_cap * 2;
        let mut new_data = vec![' '; new_cap];
        let mut i: usize = 0;
        while i < self.gap_start
            invariant
                i <= self.gap_start <= old_cap,
                new_data@.len() == new_cap,
                old_cap < new_cap,
                forall|k: int| 0 <= k < i ==> #[trigger] new_data@[k] == self.data@[k],
                self.data@.len() == old_cap,
            decreases self.gap_start - i,
        {
            new_data.set(i, self.data[i]);
            i += 1;
        }
        let post_len = old_cap - (self.gap_start + self.gap_len);
        let new_gap_start = new_cap - post_len;
        let mut i: usize = 0;
        while i < post_len
            invariant
                i <= post_len,
                post_len == old_cap - (self.gap_start + self.gap_len),
                new_gap_start == new_cap - post_len,
                new_data@.len() == new_cap,
                old_cap < new_cap,
                self.data@.len() == old_cap,
                self.gap_start + self.gap_len <= old_cap,
                forall|k: int| 0 <= k < self.gap_start ==> #[trigger] new_data@[k] == self.data@[k],
                forall|k: int|
                    0 <= k < i ==> #[trigger] new_data@[new_gap_start + k] == self.data@[self.gap_start
                        + self.gap_len + k],
            decreases post_len - i,
        {
            let c = self.data[self.gap_start + self.gap_len + i];
            new_data.set(new_gap_start + i, c);
            i += 1;
        }
        let ghost t0 = self.text();
        let ghost gs = self.gap_start as int;
        let ghost gl = self.gap_len as int;
        let ghost od = self.data@;
        self.data = new_data;
        self.capacity = new_cap;
        self.gap_len = new_gap_start - self.gap_start;
        proof {
            let d = self.data@;
            assert(d.take(gs) =~= od.take(gs));
            assert forall|k: int| 0 <= k < post_len implies #[trigger] d.skip(new_gap_start as int)[k]
                == od.skip(gs + gl)[k] by {
                assert(d[new_gap_start + k] == od[gs + gl + k]);
            }
            assert(d.skip(new_gap_start as int) =~= od.skip(gs + gl));
        }
    }
}

} // verus!

verus! {

/// Work outside the library that the viewer asks for after a step.
pub enum Request {
    /// Nothing to do.
    Non,
    /// Back up the current sheet's file and write the sheet to it.
    Save,
    /// The step cannot go on: the viewer stops with this reason.
    Abort(&'static str),
    /// Sum the numbers in the stored cells of column `0` of the current sheet
    /// and show the sum on the bottom line.
    SumColumn(usize),
    /// Sum the numbers in row `0` of the current sheet over all columns and
    /// show the sum on the bottom line.
    SumRow(usize),
    /// Give every stored cell of column `col` of the current sheet a key that
    /// orders it by its number (cells without one last), then finish the sort
    /// of that column (`desc`: descending), or of the whole sheet by it.
    NumericSort { col: usize, desc: bool, whole_sheet: bool },
}

/// A signal the viewer has seen.
pub enum SigFlag {
    Winch,
    Int,
    Quit,
    Non,
}

/// A question on the bottom line that waits for the next key.
pub enum Prompt {
    Non,
    /// Confirm removing the focused column, whose name is given.
    RemoveColumn(String),
    /// Confirm deleting the focused row.
    DeleteRow,
    /// Step through the rows `rows` of the focused column with `n` and `b`;
    /// `idx` is the current one, `mess` follows the counter, and `diff` tells
    /// a column difference from a search.
    Find { rows: Vec<usize>, idx: usize, mess: String, diff: bool },
}

/// A bound far above any sheet or terminal size, below which sums of a few
/// positions cannot overflow.
pub open spec fn small(x: usize) -> bool {
    x <= usize::MAX / 16
}

pub struct WinInfo {
    pub width: usize,
    pub height: usize,
    pub w_offset: usize,
    pub h_offset: usize,
    pub w_pointer: usize,
    pub h_pointer: usize,
    pub w_page: usize,
    pub h_page: usize,
    pub changed: WinChange,
    pub scroll_mode: ScrollMode,
    pub input_mode: InputMode,
    pub num_cols: usize,
    pub num_rows: usize,
    pub frame: String,
    pub focused_content: String,
    pub cursor: Cursor,
    pub write_buffer: WriteBuf,
    pub yanked: String,
    /// Text for the terminal, in the order it is to be written.
    pub out: String,
    /// Whether a command is being typed (interrupt and quit signals are then ignored).
    pub in_command: bool,
    pub request: Request,
    pub prompt: Prompt,
}

impl WinInfo {
    /// Whether the terminal size fits a terminal's 16-bit size, the sheet
    /// dimensions, view offsets and page sizes are far below the integer
    /// limits, and the gap buffer is well formed.
    pub open spec fn wf(&self) -> bool {
        &&& self.width <= 65535
        &&& self.height <= 65535
        &&& small(self.w_offset)
        &&& small(self.h_offset)
        &&& small(self.num_cols)
        &&& small(self.num_rows)
        &&& self.write_buffer.wf()
        &&& self.write_buffer.capacity > 0
    }

    /// A window of size 0 by 0, as the viewer starts when the terminal's size
    /// is not known.
    pub fn new() -> (w: Self)
        ensures
            w.wf(),
            w.width == 0 && w.height == 0,
            w.w_offset == 0 && w.h_offset == 0 && w.w_pointer == 0 && w.h_pointer == 0,
            w.w_page == 0 && w.h_page == 0 && w.num_cols == 0 && w.num_rows == 0,
            w.changed == WinChange::Init,
            w.scroll_mode == ScrollMode::Cell,
            w.input_mode == InputMode::Scroll,
            w.yanked@ == Seq::<char>::empty(),
            w.frame@ == Seq::<char>::empty(),
            w.out@ == Seq::<char>::empty(),
            w.write_buffer.text() == Seq::<char>::empty(),
            w.focused_content@ == Seq::<char>::empty(),
            w.write_buffer.capacity == 1024,
            !w.in_command,
            w.request is Non,
            w.prompt is Non,
    {
        Self::with_size(0, 0)
    }

    /// A window over a terminal of `width` columns and `height` lines.
    pub fn with_size(width: usize, height: usize) -> (w: Self)
        requires
            width <= 65535,
            height <= 65535,
        ensures
            w.wf(),
            w.width == width && w.height == height,
            w.w_offset == 0 && w.h_offset == 0 && w.w_pointer == 0 && w.h_pointer == 0,
            w.w_page == 0 && w.h_page == 0 && w.num_cols == 0 && w.num_rows == 0,
            w.changed == WinChange::Init,
            w.scroll_mode == ScrollMode::Cell,
            w.input_mode == InputMode::Scroll,
            w.yanked@ == Seq::<char>::empty(),
            w.frame@ == Seq::<char>::empty(),
            w.out@ == Seq::<char>::empty(),
            w.focused_content@ == Seq::<char>::empty(),
            w.write_buffer.text() == Seq::<char>::empty(),
            w.write_buffer.capacity == 1024,
            !w.in_command,
            w.request is Non,
            w.prompt is Non,
    {
        Self {
            width,
            height,
            w_offset: 0usize,
            h_offset: 0usize,
            num_cols: 0usize,
            num_rows: 0usize,
            focused_content: String::new(),
            frame: String::new(),
            changed: WinChange::Init,
            scroll_mode: ScrollMode::Cell,
            input_mode: InputMode::Scroll,
            w_pointer: 0usize,
            h_pointer: 0usize,
            w_page: 0usize,
            h_page: 0usize,
            cursor: Cursor::new(),
            write_buffer: WriteBuf::new(1024),
            yanked: String::new(),
            out: String::new(),
            in_command: false,
            request: Request::Non,
            prompt: Prompt::Non,
        }
    }

    /// Sets the number of columns between `beg` and `end`.
    pub fn set_w_page(&mut self, end: usize, beg: usize)
        ensures
            *final(self) == (WinInfo { w_page: crate::cells::sat_sub(end, beg), ..*old(self) }),
    {
        self.w_page = crate::cells::sat_sub_exec(end, beg);
    }

    /// Sets the number of rows between `beg` and `end`, less one.
    pub fn set_h_page(&mut self, end: usize, beg: usize)
        requires
            end > beg,
        ensures
            *final(self) == (WinInfo { h_page: (end - beg - 1) as usize, ..*old(self) }),
    {
        self.h_page = end - beg - 1;
    }

    /// Sets where the text cursor's field starts and how wide it is.
    pub fn set_cursor(&mut self, line: usize, col: usize, limit: usize)
        ensures
            *final(self) == (WinInfo {
                cursor: Cursor { line, col, limit, ..old(self).cursor },
                ..*old(self)
            }),
    {
        self.cursor.line = line;
        self.cursor.col = col;
        self.cursor.limit = limit;
    }

    /// The terminal line and column of the text cursor.
    pub fn cursor_pos(&self) -> (p: (usize, usize))
        requires
            self.cursor.col + self.cursor.offset <= usize::MAX,
        ensures
            p == (self.cursor.line, (self.cursor.col + self.cursor.offset) as usize),
    {
        (self.cursor.line, self.cursor.col + self.cursor.offset)
    }

    pub fn push_to_frame(&mut self, c: char)
        ensures
            final(self).frame@ == old(self).frame@.push(c),
            *final(self) == (WinInfo { frame: final(self).frame, ..*old(self) }),
    {
        self.frame.push(c);
    }

    pub fn push_str_to_frame(&mut self, content: &str)
        ensures
            final(self).frame@ == old(self).frame@ + content@,
            *final(self) == (WinInfo { frame: final(self).frame, ..*old(self) }),
    {
        crate::text::push_text(&mut self.frame, content);
    }
}

} // verus!

verus! {

/// Where `set_w_pointer(w)` leaves the window `s`; `None` when the end of
/// the page overflows.
pub open spec fn moved_w_pointer(s: WinInfo, w: usize) -> Option<WinInfo> {
    if w < s.num_cols {
        if w < s.w_offset {
            Some(
                WinInfo {
                    w_pointer: w,
                    w_offset: crate::cells::sat_sub(s.w_offset, crate::cells::sat_sub(s.w_pointer, w)),
                    changed: WinChange::Columns,
                    ..s
                },
            )
        } else if s.w_offset + s.w_page > usize::MAX {
            None
        } else if w >= s.w_offset + s.w_page {
            Some(
                WinInfo {
                    w_pointer: w,
                    w_offset: crate::cells::min_usize(
                        (s.w_offset + crate::cells::sat_sub(w, s.w_pointer)) as usize,
                        crate::cells::sat_sub(s.num_cols, s.w_page),
                    ),
                    changed: WinChange::Columns,
                    ..s
                },
            )
        } else {
            Some(WinInfo { w_pointer: w, changed: WinChange::Focus, ..s })
        }
    } else if s.w_pointer != crate::cells::sat_sub(s.num_cols, 1) {
        Some(
            WinInfo {
                w_pointer: crate::cells::sat_sub(s.num_cols, 1),
                w_offset: crate::cells::sat_sub(s.num_cols, s.w_page),
                changed: WinChange::Columns,
                ..s
            },
        )
    } else {
        Some(s)
    }
}

/// Where `set_h_pointer(h)` leaves the window `s` (which has a row); `None`
/// when the end of the page overflows.
pub open spec fn moved_h_pointer(s: WinInfo, h: usize) -> Option<WinInfo> {
    if h < s.num_rows - 1 {
        if h < s.h_offset {
            Some(
                WinInfo {
                    h_pointer: h,
                    h_offset: crate::cells::sat_sub(s.h_offset, crate::cells::sat_sub(s.h_pointer, h)),
                    changed: WinChange::Screen,
                    ..s
                },
            )
        } else if s.h_offset + s.h_page > usize::MAX {
            None
        } else if h >= s.h_offset + s.h_page {
            Some(
                WinInfo {
                    h_pointer: h,
                    h_offset: crate::cells::min_usize(
                        (s.h_offset + crate::cells::sat_sub(h, s.h_pointer)) as usize,
                        crate::cells::sat_sub(s.num_rows, s.h_page),
                    ),
                    changed: WinChange::Screen,
                    ..s
                },
            )
        } else {
            Some(WinInfo { h_pointer: h, changed: WinChange::Focus, ..s })
        }
    } else if s.h_pointer != crate::cells::sat_sub(s.num_rows, 1) {
        Some(
            WinInfo {
                h_pointer: crate::cells::sat_sub(s.num_rows, 1),
                h_offset: crate::cells::sat_sub(s.num_rows, s.h_page),
                changed: WinChange::Screen,
                ..s
            },
        )
    } else {
        Some(s)
    }
}

/// Where `set_w_offset(w)` leaves the window `s`: the offset moves, and the
/// pointer with it by as much; `None` when the pointer would overflow.
pub open spec fn moved_w_offset(s: WinInfo, w: usize) -> Option<WinInfo> {
    if w < s.num_cols {
        let nw = crate::cells::min_usize(w, crate::cells::sat_sub(s.num_cols, s.w_page));
        if s.w_offset > nw {
            Some(
                WinInfo {
                    w_offset: nw,
                    w_pointer: crate::cells::sat_sub(s.w_pointer, (s.w_offset - nw) as usize),
                    changed: WinChange::Columns,
                    ..s
                },
            )
        } else if s.w_offset < nw {
            if s.w_pointer + (nw - s.w_offset) <= usize::MAX {
                Some(
                    WinInfo {
                        w_offset: nw,
                        w_pointer: (s.w_pointer + (nw - s.w_offset)) as usize,
                        changed: WinChange::Columns,
                        ..s
                    },
                )
            } else {
                None
            }
        } else {
            Some(s)
        }
    } else {
        Some(s)
    }
}

/// Where `set_h_offset(h)` leaves the window `s` (which has a row); `None`
/// when the pointer or the page's end would overflow.
pub open spec fn moved_h_offset(s: WinInfo, h: usize) -> Option<WinInfo> {
    if s.h_page + 1 > usize::MAX {
        None
    } else if h <= crate::cells::sat_sub((s.num_rows - 1) as usize, (s.h_page + 1) as usize) {
        if s.h_offset > h {
            Some(
                WinInfo {
                    h_offset: h,
                    h_pointer: crate::cells::sat_sub(s.h_pointer, (s.h_offset - h) as usize),
                    changed: WinChange::Rows,
                    ..s
                },
            )
        } else if h > s.h_offset {
            if s.h_pointer + (h - s.h_offset) <= usize::MAX {
                Some(
                    WinInfo {
                        h_offset: h,
                        h_pointer: (s.h_pointer + (h - s.h_offset)) as usize,
                        changed: WinChange::Rows,
                        ..s
                    },
                )
            } else {
                None
            }
        } else {
            Some(s)
        }
    } else {
        Some(s)
    }
}

impl WinInfo {
    /// Stops the current step: the viewer ends with `why`, as a failed
    /// integer or index check ends it.
    pub fn abort(&mut self, why: &'static str)
        ensures
            *final(self) == (WinInfo { request: Request::Abort(why), ..*old(self) }),
    {
        self.request = Request::Abort(why);
    }

    /// What changed, leaving `Non` in its place.
    fn take_changed(&mut self) -> (c: WinChange)
        ensures
            c == old(self).changed,
            *final(self) == (WinInfo { changed: WinChange::Non, ..*old(self) }),
    {
        let c = match self.changed {
            WinChange::Cell => WinChange::Cell,
            WinChange::Focus => WinChange::Focus,
            WinChange::ColWidth => WinChange::ColWidth,
            WinChange::Rows => WinChange::Rows,
            WinChange::Columns => WinChange::Columns,
            WinChange::Screen => WinChange::Screen,
            WinChange::Init => WinChange::Init,
            WinChange::Write => WinChange::Write,
            WinChange::Command => WinChange::Command,
            WinChange::Non => WinChange::Non,
        };
        self.changed = WinChange::Non;
        c
    }

    /// Takes the sheet's size and the place the window stood on it.
    pub fn set_context(&mut self, con: &mut crate::cells::Context)
        requires
            old(con).cells.columns@.len() > 0,
            old(con).cells.columns@[0].padding <= old(con).cells.columns@[0].cells@.len(),
        ensures
            *final(con) == *old(con),
            *final(self) == (WinInfo {
                num_cols: old(con).cells.columns@.len() as usize,
                num_rows: old(con).cells.columns@[0].shown() as usize,
                w_pointer: old(con).w_pointer,
                h_pointer: old(con).h_pointer,
                w_offset: old(con).w_offset,
                h_offset: old(con).h_offset,
                ..*old(self)
            }),
    {
        self.num_cols = con.cells.num_cols();
        self.num_rows = con.cells.num_rows();
        self.w_pointer = con.w_pointer;
        self.h_pointer = con.h_pointer;
        self.w_offset = con.w_offset;
        self.h_offset = con.h_offset;
    }

    /// Focuses column `w` (the last column when `w` is past it), moving the
    /// view when the column leaves it.
    pub fn set_w_pointer(&mut self, w: usize)
        requires
            old(self).wf(),
        ensures
            final(self).wf(),
            moved_w_pointer(*old(self), w) matches Some(n) ==> *final(self) == n,
            moved_w_pointer(*old(self), w) is None ==> *final(self) == (WinInfo {
                request: Request::Abort("attempt to add with overflow"),
                ..*old(self)
            }),
    {
        if w < self.num_cols {
            let old_w = self.w_pointer;
            let old_changed = self.take_changed();
            self.w_pointer = w;
            self.changed = WinChange::Focus;
            if self.w_pointer < self.w_offset {
                self.w_offset = crate::cells::sat_sub_exec(
                    self.w_offset,
                    crate::cells::sat_sub_exec(old_w, self.w_pointer),
                );
                self.changed = WinChange::Columns;
            } else if self.w_offset > usize::MAX - self.w_page {
                self.w_pointer = old_w;
                self.changed = old_changed;
                self.abort("attempt to add with overflow");
                return;
            } else if self.w_pointer >= self.w_offset + self.w_page {
                let diff = crate::cells::sat_sub_exec(self.w_pointer, old_w);
                let a = self.w_offset + diff;
                let b = crate::cells::sat_sub_exec(self.num_cols, self.w_page);
                self.w_offset = if a < b {
                    a
                } else {
                    b
                };
                self.changed = WinChange::Columns;
            }
        } else {
            let last = crate::cells::sat_sub_exec(self.num_cols, 1);
            if self.w_pointer != last {
                self.w_pointer = last;
                self.w_offset = crate::cells::sat_sub_exec(self.num_cols, self.w_page);
                self.changed = WinChange::Columns;
            }
        }
    }

    /// Moves the view to start at column `w` (as far as the last page
    /// allows); the pointer keeps its place on the screen.
    pub fn set_w_offset(&mut self, w: usize)
        requires
            old(self).wf(),
        ensures
            final(self).wf(),
            moved_w_offset(*old(self), w) matches Some(n) ==> *final(self) == n,
            moved_w_offset(*old(self), w) is None ==> *final(self) == (WinInfo {
                request: Request::Abort("attempt to add with overflow"),
                ..*old(self)
            }),
    {
        if w < self.num_cols {
            let old_w = self.w_offset;
            let lim = crate::cells::sat_sub_exec(self.num_cols, self.w_page);
            let nw = if w < lim {
                w
            } else {
                lim
            };
            if old_w > nw {
                self.w_offset = nw;
                self.w_pointer = crate::cells::sat_sub_exec(self.w_pointer, old_w - nw);
                self.changed = WinChange::Columns;
            } else if old_w < nw {
                let diff = nw - old_w;
                if self.w_pointer > usize::MAX - diff {
                    self.abort("attempt to add with overflow");
                    return;
                }
                self.w_offset = nw;
                self.w_pointer = self.w_pointer + diff;
                self.changed = WinChange::Columns;
            }
        }
    }

    /// Focuses row `h` (the last row when `h` is past it), moving the view
    /// when the row leaves it.
    pub fn set_h_pointer(&mut self, h: usize)
        requires
            old(self).wf(),
            old(self).num_rows > 0,
        ensures
            final(self).wf(),
            moved_h_pointer(*old(self), h) matches Some(n) ==> *final(self) == n,
            moved_h_pointer(*old(self), h) is None ==> *final(self) == (WinInfo {
                request: Request::Abort("attempt to add with overflow"),
                ..*old(self)
            }),
    {
        if h < self.num_rows - 1 {
            let old_h = self.h_pointer;
            let old_changed = self.take_changed();
            self.h_pointer = h;
            self.changed = WinChange::Focus;
            if self.h_pointer < self.h_offset {
                self.h_offset = crate::cells::sat_sub_exec(
                    self.h_offset,
                    crate::cells::sat_sub_exec(old_h, self.h_pointer),
                );
                self.changed = WinChange::Screen;
            } else if self.h_offset > usize::MAX - self.h_page {
                self.h_pointer = old_h;
                self.changed = old_changed;
                self.abort("attempt to add with overflow");
                return;
            } else if self.h_pointer >= self.h_offset + self.h_page {
                let diff = crate::cells::sat_sub_exec(self.h_pointer, old_h);
                let a = self.h_offset + diff;
                let b = crate::cells::sat_sub_exec(self.num_rows, self.h_page);
                self.h_offset = if a < b {
                    a
                } else {
                    b
                };
                self.changed = WinChange::Screen;
            }
        } else {
            let last = crate::cells::sat_sub_exec(self.num_rows, 1);
            if self.h_pointer != last {
                self.h_pointer = last;
                self.h_offset = crate::cells::sat_sub_exec(self.num_rows, self.h_page);
                self.changed = WinChange::Screen;
            }
        }
    }

    /// Moves the view to start at row `h` when the last page allows it; the
    /// pointer keeps its place on the screen.
    pub fn set_h_offset(&mut self, h: usize)
        requires
            old(self).wf(),
            old(self).num_rows > 0,
        ensures
            final(self).wf(),
            moved_h_offset(*old(self), h) matches Some(n) ==> *final(self) == n,
            moved_h_offset(*old(self), h) is None ==> *final(self) == (WinInfo {
                request: Request::Abort("attempt to add with overflow"),
                ..*old(self)
            }),
    {
        if self.h_page == usize::MAX {
            self.abort("attempt to add with overflow");
            return;
        }
        if h <= crate::cells::sat_sub_exec(self.num_rows - 1, self.h_page + 1) {
            let old_h = self.h_offset;
            if old_h > h {
                self.h_offset = h;
                self.h_pointer = crate::cells::sat_sub_exec(self.h_pointer, old_h - h);
                self.changed = WinChange::Rows;
            } else if h > old_h {
                let diff = h - old_h;
                if self.h_pointer > usize::MAX - diff {
                    self.abort("attempt to add with overflow");
                    return;
                }
                self.h_offset = h;
                self.h_pointer = self.h_pointer + diff;
                self.changed = WinChange::Rows;
            }
        }
    }
}

} // verus!

verus! {

/// `\x1b[{l};{c}H`: moves the terminal cursor to line `l`, column `c`.
pub open spec fn goto_text(l: nat, c: nat) -> Seq<char> {
    "\x1b["@ + crate::text::dec_text(l) + ";"@ + crate::text::dec_text(c) + "H"@
}

/// `\x1b[{l};1H\x1b[2K\x1b[0m`: moves to the start of line `l`, clears it and
/// resets the colours.
pub open spec fn line_start_text(l: nat) -> Seq<char> {
    goto_text(l, 1) + "\x1b[2K\x1b[0m"@
}

/// Appends `goto_text(l, c)`.
pub fn push_goto(out: &mut String, l: usize, c: usize)
    ensures
        final(out)@ == old(out)@ + goto_text(l as nat, c as nat),
{
    crate::text::push_text(out, "\x1b[");
    crate::text::push_dec(out, l);
    crate::text::push_text(out, ";");
    crate::text::push_dec(out, c);
    crate::text::push_text(out, "H");
}

/// Appends `line_start_text(l)`.
pub fn push_line_start(out: &mut String, l: usize)
    ensures
        final(out)@ == old(out)@ + line_start_text(l as nat),
{
    push_goto(out, l, 1);
    crate::text::push_text(out, "\x1b[2K\x1b[0m");
}

/// The view offset and cursor offset after typing `n` characters into a
/// buffer that held `len0` characters, from view offset `buf` and cursor
/// offset `cur`, in a field `limit` wide that shows `window` characters.
pub open spec fn typed_offsets(cur: nat, buf: nat, limit: nat, window: nat, len0: nat, n: nat) -> (nat, nat)
    decreases n,
{
    if n == 0 {
        (cur, buf)
    } else {
        let p = typed_offsets(cur, buf, limit, window, len0, (n - 1) as nat);
        let len = len0 + n;
        if p.0 + 1 > limit {
            if (if len > p.1 + 1 {
                len - (p.1 + 1)
            } else {
                0
            }) >= window {
                (p.0, p.1 + 1)
            } else {
                p
            }
        } else {
            (p.0 + 1, p.1)
        }
    }
}

proof fn lemma_typed_offsets_bound(cur: nat, buf: nat, limit: nat, window: nat, len0: nat, n: nat)
    ensures
        typed_offsets(cur, buf, limit, window, len0, n).0 <= cur + n,
        typed_offsets(cur, buf, limit, window, len0, n).1 <= buf + n,
    decreases n,
{
    if n > 0 {
        lemma_typed_offsets_bound(cur, buf, limit, window, len0, (n - 1) as nat);
    }
}

/// What `move_cursor_right` does to the window `s0`: the cursor moves one
/// character right within its field while there is text after it, else the
/// view scrolls when text lies beyond it; the text stays as it is.
pub open spec fn moved_right(s0: WinInfo, s1: WinInfo) -> bool {
    &&& s1.write_buffer.text() == s0.write_buffer.text()
    &&& ({
        let o = s0.write_buffer;
        let f = s1.write_buffer;
        let c = s0.cursor;
        if c.offset + 1 > c.limit {
            if crate::cells::sat_sub(o.content_len, o.offset) > o.window {
                if o.gap_start < o.content_len {
                    &&& f == (WriteBuf {
                        offset: (o.offset + 1) as usize,
                        gap_start: (o.gap_start + 1) as usize,
                        data: f.data,
                        ..o
                    })
                    &&& f.text() == o.text()
                    &&& s1 == (WinInfo { write_buffer: f, ..s0 })
                } else {
                    s1 == (WinInfo {
                        write_buffer: WriteBuf { offset: (o.offset + 1) as usize, ..o },
                        request: Request::Abort("index out of bounds"),
                        ..s0
                    })
                }
            } else {
                s1 == s0
            }
        } else if o.gap_start < o.content_len {
            &&& f == (WriteBuf { gap_start: (o.gap_start + 1) as usize, data: f.data, ..o })
            &&& f.text() == o.text()
            &&& s1 == (WinInfo {
                write_buffer: f,
                cursor: Cursor { offset: (c.offset + 1) as usize, ..c },
                ..s0
            })
        } else {
            s1 == s0
        }
    })
}

/// What `move_cursor_left` does to the window `s0`: the cursor moves one
/// character left within its field, or the view scrolls back when the
/// cursor is at the field's start; the text stays as it is.
pub open spec fn moved_left(s0: WinInfo, s1: WinInfo) -> bool {
    &&& s1.write_buffer.text() == s0.write_buffer.text()
    &&& ({
        let o = s0.write_buffer;
        let f = s1.write_buffer;
        let c = s0.cursor;
        if c.offset == 0 && o.offset == 0 {
            s1 == s0
        } else {
            &&& f == (WriteBuf {
                offset: if c.offset == 0 {
                    (o.offset - 1) as usize
                } else {
                    o.offset
                },
                gap_start: crate::cells::sat_sub(o.gap_start, 1),
                data: f.data,
                ..o
            })
            &&& f.text() == o.text()
            &&& s1 == (WinInfo {
                write_buffer: f,
                cursor: Cursor { offset: crate::cells::sat_sub(c.offset, 1), ..c },
                ..s0
            })
        }
    })
}

impl WinInfo {
    /// Shows the start of `focused` on the bottom line: at most as many
    /// bytes as the terminal is wide, which must end on a character.
    pub fn set_focused(&mut self, focused: &str)
        ensures
            ({
                let take = crate::cells::min_usize(
                    crate::cells::byte_len(focused@) as usize,
                    old(self).width,
                );
                if vstd::utf8::is_char_boundary(vstd::utf8::encode_utf8(focused@), take as int) {
                    &&& vstd::utf8::encode_utf8(final(self).focused_content@)
                        == vstd::utf8::encode_utf8(focused@).take(take as int)
                    &&& *final(self) == (WinInfo {
                        focused_content: final(self).focused_content,
                        ..*old(self)
                    })
                } else {
                    &&& final(self).focused_content@ == Seq::<char>::empty()
                    &&& *final(self) == (WinInfo {
                        focused_content: final(self).focused_content,
                        request: Request::Abort("byte index is not a char boundary"),
                        ..*old(self)
                    })
                }
            }),
    {
        self.focused_content = String::new();
        let blen = focused.len();
        let take = if blen < self.width {
            blen
        } else {
            self.width
        };
        if !focused.is_char_boundary(take) {
            self.abort("byte index is not a char boundary");
            return;
        }
        let (pre, _post) = focused.split_at(take);
        proof {
            vstd::utf8::encode_utf8_decode_utf8(pre@);
        }
        crate::text::push_text(&mut self.focused_content, pre);
        proof {
            assert(self.focused_content@ == pre@);
        }
    }

    /// Types `content` at the cursor: the text grows, the cursor moves right
    /// within its field and the view scrolls once the field is full.
    pub fn add_to_write_buffer(&mut self, content: &str)
        requires
            old(self).wf(),
            old(self).cursor.offset + content@.len() < usize::MAX,
            old(self).write_buffer.offset + content@.len() < usize::MAX,
            old(self).write_buffer.content_len + content@.len() < usize::MAX / 2,
        ensures
            final(self).wf(),
            ({
                let o = old(self).write_buffer;
                let f = final(self).write_buffer;
                let t = typed_offsets(
                    old(self).cursor.offset as nat,
                    o.offset as nat,
                    old(self).cursor.limit as nat,
                    o.window as nat,
                    o.content_len as nat,
                    content@.len(),
                );
                &&& f.text() == o.text().take(o.gap_start as int) + content@ + o.text().skip(
                    o.gap_start as int,
                )
                &&& f.gap_start == o.gap_start + content@.len()
                &&& f.content_len == o.content_len + content@.len()
                &&& f.window == o.window
                &&& f.offset == t.1
                &&& final(self).cursor == (Cursor { offset: t.0 as usize, ..old(self).cursor })
            }),
            *final(self) == (WinInfo {
                write_buffer: final(self).write_buffer,
                cursor: final(self).cursor,
                changed: WinChange::Write,
                ..*old(self)
            }),
    {
        let ghost o = self.write_buffer;
        let ghost c0 = self.cursor.offset as nat;
        let ghost t0 = o.text();
        let ghost gs0 = o.gap_start as int;
        for c in it: content.chars()
            invariant
                it.seq() == content@,
                self.wf(),
                o == old(self).write_buffer,
                o.wf(),
                c0 == old(self).cursor.offset,
                t0 == o.text(),
                gs0 == o.gap_start,
                old(self).cursor.offset + content@.len() < usize::MAX,
                old(self).write_buffer.offset + content@.len() < usize::MAX,
                old(self).write_buffer.content_len + content@.len() < usize::MAX / 2,
                self.write_buffer.text() == t0.take(gs0) + content@.take(it.index() as int)
                    + t0.skip(gs0),
                self.write_buffer.gap_start == gs0 + it.index(),
                self.write_buffer.content_len == o.content_len + it.index(),
                self.write_buffer.window == o.window,
                (self.cursor.offset as nat, self.write_buffer.offset as nat) == typed_offsets(
                    c0,
                    o.offset as nat,
                    old(self).cursor.limit as nat,
                    o.window as nat,
                    o.content_len as nat,
                    it.index() as nat,
                ),
                self.cursor == (Cursor { offset: self.cursor.offset, ..old(self).cursor }),
                *self == (WinInfo {
                    write_buffer: self.write_buffer,
                    cursor: self.cursor,
                    ..*old(self)
                }),
        {
            proof {
                lemma_typed_offsets_bound(
                    c0,
                    o.offset as nat,
                    old(self).cursor.limit as nat,
                    o.window as nat,
                    o.content_len as nat,
                    it.index() as nat,
                );
            }
            let ghost before = self.write_buffer.text();
            let ghost k = it.index() as int;
            self.write_buffer.insert(c);
            proof {
                assert(content@[k] == c);
                assert(content@.take(k + 1) =~= content@.take(k).push(c));
                assert(t0.len() == o.content_len);
                assert(t0.take(gs0).len() == gs0);
                assert(t0.take(gs0) + content@.take(k + 1) + t0.skip(gs0) =~= before.insert(
                    gs0 + k,
                    c,
                ));
            }
            let new_cur_off = self.cursor.offset + 1;
            if new_cur_off > self.cursor.limit {
                let new_buf_off = self.write_buffer.offset + 1;
                let diff = crate::cells::sat_sub_exec(self.write_buffer.content_len, new_buf_off);
                if diff >= self.write_buffer.window {
                    self.write_buffer.offset = new_buf_off;
                }
            } else {
                if self.write_buffer.gap_start <= self.write_buffer.content_len {
                    self.cursor.offset = new_cur_off;
                }
            }
        }
        self.changed = WinChange::Write;
        proof {
            assert(content@.take(content@.len() as int) == content@);
        }
    }

    /// Removes the character before the cursor; the view or the cursor moves
    /// back by one.
    pub fn delete_from_write_buffer(&mut self)
        requires
            old(self).wf(),
        ensures
            final(self).wf(),
            ({
                let o = old(self).write_buffer;
                let f = final(self).write_buffer;
                &&& o.gap_start == 0 ==> f == (WriteBuf { offset: f.offset, ..o })
                &&& o.gap_start > 0 ==> f.text() == o.text().remove(o.gap_start - 1)
                    && f.gap_start == o.gap_start - 1 && f.content_len == o.content_len - 1
                &&& f.window == o.window
                &&& if o.offset > 0 {
                    f.offset == o.offset - 1 && final(self).cursor == old(self).cursor
                } else {
                    &&& f.offset == 0
                    &&& final(self).cursor == (Cursor {
                        offset: crate::cells::sat_sub(old(self).cursor.offset, 1),
                        ..old(self).cursor
                    })
                }
            }),
            *final(self) == (WinInfo {
                write_buffer: final(self).write_buffer,
                cursor: final(self).cursor,
                ..*old(self)
            }),
    {
        self.write_buffer.delete();
        if self.write_buffer.offset > 0 {
            self.write_buffer.offset = self.write_buffer.offset - 1;
        } else {
            if self.cursor.offset > 0 {
                self.cursor.offset = self.cursor.offset - 1;
            }
        }
    }

    /// Moves the cursor one character right: within the field while there
    /// is text after it, else the view scrolls when text lies beyond it.
    pub fn move_cursor_right(&mut self)
        requires
            old(self).wf(),
            old(self).cursor.offset < usize::MAX,
            old(self).write_buffer.offset < usize::MAX,
        ensures
            final(self).wf(),
            moved_right(*old(self), *final(self)),
    {
        let new_cur_off = self.cursor.offset + 1;
        if new_cur_off > self.cursor.limit {
            let new_buf_off = self.write_buffer.offset + 1;
            let diff = crate::cells::sat_sub_exec(
                self.write_buffer.content_len,
                self.write_buffer.offset,
            );
            if diff > self.write_buffer.window {
                self.write_buffer.offset = new_buf_off;
                if self.write_buffer.gap_start >= self.write_buffer.content_len {
                    self.abort("index out of bounds");
                    return;
                }
                let pos = self.write_buffer.gap_start + 1;
                self.write_buffer.move_gap(pos);
            }
        } else {
            if self.write_buffer.gap_start < self.write_buffer.content_len {
                self.cursor.offset = new_cur_off;
                let pos = self.write_buffer.gap_start + 1;
                self.write_buffer.move_gap(pos);
            }
        }
    }

    /// Moves the cursor one character left: within the field, or the view
    /// scrolls back when the cursor is at the field's start.
    pub fn move_cursor_left(&mut self)
        requires
            old(self).wf(),
        ensures
            final(self).wf(),
            moved_left(*old(self), *final(self)),
    {
        if self.cursor.offset == 0 {
            if self.write_buffer.offset > 0 {
                self.write_buffer.offset = self.write_buffer.offset - 1;
                let pos = crate::cells::sat_sub_exec(self.write_buffer.gap_start, 1);
                self.write_buffer.move_gap(pos);
            }
        } else {
            self.cursor.offset = self.cursor.offset - 1;
            let pos = crate::cells::sat_sub_exec(self.write_buffer.gap_start, 1);
            self.write_buffer.move_gap(pos);
        }
    }
}

} // verus!

verus! {

/// What `flush` does: the frame (and, while text is typed, the cursor's
/// place) goes to the terminal's output and a new frame starts.
pub open spec fn flushed(s0: WinInfo, s1: WinInfo) -> bool {
    if s0.input_mode != InputMode::Scroll && s0.cursor.col + s0.cursor.offset > usize::MAX {
        s1 == (WinInfo { request: Request::Abort("attempt to add with overflow"), ..s0 })
    } else {
        &&& s1.out@ == s0.out@ + s0.frame@ + (if s0.input_mode != InputMode::Scroll {
            goto_text(s0.cursor.line as nat, (s0.cursor.col + s0.cursor.offset) as nat)
        } else {
            Seq::<char>::empty()
        })
        &&& s1.frame@ == Seq::<char>::empty()
        &&& s1 == (WinInfo { out: s1.out, frame: s1.frame, changed: WinChange::Non, ..s0 })
    }
}

/// What `draw_focused_content` does: the focused cell's text goes on the
/// bottom line.
pub open spec fn bottom_drawn(s0: WinInfo, s1: WinInfo) -> bool {
    &&& s1.frame@ == s0.frame@ + line_start_text(s0.height as nat) + s0.focused_content@
    &&& s1 == (WinInfo { frame: s1.frame, ..s0 })
}

impl WinInfo {
    /// Loads the text of `cell` into the gap buffer for editing: the cursor
    /// stands at the cell's text offset, and the buffer shows the cell's width.
    pub fn set_write_buffer_w_cell(&mut self, cell: &crate::cells::Cell)
        requires
            old(self).wf(),
            cell.content@.len() < usize::MAX / 2,
        ensures
            final(self).wf(),
            final(self).write_buffer.text() == cell.content@,
            final(self).write_buffer.content_len == cell.content@.len(),
            cell.text_offset <= cell.content@.len() ==> {
                &&& final(self).write_buffer.gap_start == cell.text_offset
                &&& final(self).write_buffer.offset == cell.text_offset
                &&& final(self).write_buffer.window == cell.width
                &&& *final(self) == (WinInfo { write_buffer: final(self).write_buffer, ..*old(self) })
            },
            cell.text_offset > cell.content@.len() ==> *final(self) == (WinInfo {
                write_buffer: final(self).write_buffer,
                request: Request::Abort("index out of bounds"),
                ..*old(self)
            }),
    {
        self.write_buffer.reset();
        let ghost o = self.write_buffer;
        for c in it: cell.content.chars()
            invariant
                it.seq() == cell.content@,
                cell.content@.len() < usize::MAX / 2,
                self.wf(),
                self.write_buffer.text() == cell.content@.take(it.index() as int),
                self.write_buffer.gap_start == it.index(),
                self.write_buffer.content_len == it.index(),
                *self == (WinInfo { write_buffer: self.write_buffer, ..*old(self) }),
        {
            let ghost k = it.index() as int;
            let ghost before = self.write_buffer.text();
            self.write_buffer.insert(c);
            proof {
                assert(cell.content@[k] == c);
                assert(cell.content@.take(k + 1) =~= before.insert(k, c));
            }
        }
        proof {
            assert(cell.content@.take(cell.content@.len() as int) == cell.content@);
        }
        if cell.text_offset > self.write_buffer.content_len {
            self.abort("index out of bounds");
            return;
        }
        self.write_buffer.offset = cell.text_offset;
        self.write_buffer.move_gap(cell.text_offset);
        self.write_buffer.window = cell.width;
    }

    /// Stores the edited text in `cell`, whose view goes back to its start.
    pub fn write_to_cell(&mut self, cell: &mut crate::cells::Cell)
        requires
            old(self).wf(),
        ensures
            *final(cell) == (crate::cells::Cell {
                content: final(cell).content,
                text_offset: 0,
                ..*old(cell)
            }),
            final(cell).content@ == old(self).write_buffer.text(),
            *final(self) == (WinInfo { changed: WinChange::Cell, ..*old(self) }),
    {
        let t = self.write_buffer.as_string();
        cell.content = t;
        cell.text_offset = 0;
        self.changed = WinChange::Cell;
    }

    /// Enters (`true`) or leaves write mode, showing or hiding the
    /// terminal's cursor.
    pub fn set_write_mode(&mut self, w: bool)
        ensures
            w ==> *final(self) == (WinInfo {
                input_mode: InputMode::Write,
                cursor: Cursor { offset: 0, ..old(self).cursor },
                out: final(self).out,
                ..*old(self)
            }) && final(self).out@ == old(self).out@ + "\x1b[?25h"@,
            !w ==> *final(self) == (WinInfo {
                input_mode: InputMode::Scroll,
                out: final(self).out,
                ..*old(self)
            }) && final(self).out@ == old(self).out@ + "\x1b[?25l"@,
    {
        if w {
            self.input_mode = InputMode::Write;
            crate::text::push_text(&mut self.out, "\x1b[?25h");
            self.cursor.offset = 0usize;
        } else {
            self.input_mode = InputMode::Scroll;
            crate::text::push_text(&mut self.out, "\x1b[?25l");
        }
    }

    /// Sends the frame to the terminal (with the cursor placed when text is
    /// being typed) and starts an empty one.
    pub fn flush(&mut self)
        ensures
            flushed(*old(self), *final(self)),
    {
        if self.input_mode != InputMode::Scroll {
            if self.cursor.col > usize::MAX - self.cursor.offset {
                self.abort("attempt to add with overflow");
                return;
            }
            let (l, c) = self.cursor_pos();
            push_goto(&mut self.frame, l, c);
        }
        let frame = self.frame.as_str();
        crate::text::push_text(&mut self.out, frame);
        proof {
            if old(self).input_mode != InputMode::Scroll {
                assert(self.out@ =~= old(self).out@ + old(self).frame@ + goto_text(
                    old(self).cursor.line as nat,
                    (old(self).cursor.col + old(self).cursor.offset) as nat,
                ));
            } else {
                assert(self.out@ =~= old(self).out@ + old(self).frame@ + Seq::<char>::empty());
            }
        }
        self.frame = String::new();
        self.changed = WinChange::Non;
    }

    /// Writes the focused cell's text on the bottom line.
    pub fn draw_focused_content(&mut self)
        ensures
            bottom_drawn(*old(self), *final(self)),
    {
        push_line_start(&mut self.frame, self.height);
        let fc = self.focused_content.as_str();
        crate::text::push_text(&mut self.frame, fc);
    }
}

/// Loading a cell into the gap buffer and storing the buffer back gives the
/// cell its own text again, with its view at the start.
pub proof fn lemma_edit_roundtrip(cell: crate::cells::Cell, w1: WinInfo, stored: crate::cells::Cell)
    requires
        w1.write_buffer.text() == cell.content@,
        stored.content@ == w1.write_buffer.text(),
        stored == (crate::cells::Cell { content: stored.content, text_offset: 0, ..cell }),
    ensures
        stored.content@ == cell.content@,
        crate::cells::cell_model(stored) == (crate::cells::CellModel {
            text_offset: 0,
            ..crate::cells::cell_model(cell)
        }),
{
}

} // verus!

verus! {

/// Typing a character and deleting it again leaves the text as it was.
pub proof fn lemma_insert_then_delete(b0: WriteBuf, c: char, b1: WriteBuf, b2: WriteBuf)
    requires
        b0.wf(),
        b1.text() == b0.text().insert(b0.gap_start as int, c),
        b1.gap_start == b0.gap_start + 1,
        b2.text() == b1.text().remove(b1.gap_start - 1),
    ensures
        b2.text() == b0.text(),
{
    assert(b0.text().len() == b0.content_len);
    assert(b2.text() =~= b0.text());
}

} // verus!

verus! {

impl WinInfo {
    /// Enters (`true`) or leaves command mode. Entering clears the bottom
    /// line to a `:` prompt with the cursor after it and empties the buffer;
    /// leaving puts the cursor back on the focused cell of column `col` and
    /// hides it. The frame is then sent.
    pub fn set_command_mode(&mut self, b: bool, col: &crate::cells::Column)
        requires
            old(self).wf(),
        ensures
            final(self).wf(),
            b ==> {
                &&& final(self).out@ == old(self).out@ + old(self).frame@ + line_start_text(
                    old(self).height as nat,
                ) + ":"@ + goto_text(old(self).height as nat, 2) + "\x1b[?25h"@ + goto_text(
                    old(self).height as nat,
                    2,
                )
                &&& final(self).write_buffer.text() == Seq::<char>::empty()
                &&& final(self).write_buffer.gap_start == 0
                &&& final(self).write_buffer.offset == 0
                &&& final(self).frame@ == Seq::<char>::empty()
                &&& *final(self) == (WinInfo {
                    in_command: true,
                    input_mode: InputMode::Command,
                    cursor: Cursor {
                        line: old(self).height,
                        col: 2,
                        limit: crate::cells::sat_sub(old(self).width, 1),
                        offset: 0,
                    },
                    write_buffer: final(self).write_buffer,
                    frame: final(self).frame,
                    out: final(self).out,
                    changed: WinChange::Non,
                    ..*old(self)
                })
            },
            !b && (old(self).h_pointer < old(self).h_offset || old(self).h_pointer
                - old(self).h_offset + 3 > usize::MAX || col.start + 1 > usize::MAX)
                ==> *final(self) == (WinInfo {
                in_command: false,
                request: Request::Abort("attempt to subtract with overflow"),
                ..*old(self)
            }),
            !b && !(old(self).h_pointer < old(self).h_offset || old(self).h_pointer
                - old(self).h_offset + 3 > usize::MAX || col.start + 1 > usize::MAX) ==> {
                &&& final(self).out@ == old(self).out@ + old(self).frame@ + "\x1b[?25l"@
                &&& final(self).frame@ == Seq::<char>::empty()
                &&& *final(self) == (WinInfo {
                    in_command: false,
                    input_mode: InputMode::Scroll,
                    cursor: Cursor {
                        line: (old(self).h_pointer - old(self).h_offset + 3) as usize,
                        col: (col.start + 1) as usize,
                        limit: col.width,
                        ..old(self).cursor
                    },
                    frame: final(self).frame,
                    out: final(self).out,
                    changed: WinChange::Non,
                    ..*old(self)
                })
            },
    {
        if b {
            self.in_command = true;
            self.input_mode = InputMode::Command;
            let lim = crate::cells::sat_sub_exec(self.width, 1);
            self.set_cursor(self.height, 2, lim);
            self.cursor.offset = 0usize;
            self.write_buffer.reset();
            push_line_start(&mut self.frame, self.height);
            crate::text::push_text(&mut self.frame, ":");
            push_goto(&mut self.frame, self.cursor.line, self.cursor.col);
            crate::text::push_text(&mut self.frame, "\x1b[?25h");
        } else {
            self.in_command = false;
            if self.h_pointer < self.h_offset || self.h_pointer - self.h_offset > usize::MAX - 3
                || col.start == usize::MAX {
                self.abort("attempt to subtract with overflow");
                return;
            }
            self.set_cursor(self.h_pointer - self.h_offset + 3, col.start + 1, col.width);
            self.input_mode = InputMode::Scroll;
            crate::text::push_text(&mut self.frame, "\x1b[?25l");
        }
        self.flush();
    }
}


/// The signal to act on among those seen (`winch`: the window changed,
/// `interrupt`, `quit`): a window change first, then an interrupt,
/// then a quit.
pub fn check_flags(winch: bool, interrupt: bool, quit: bool) -> (f: SigFlag)
    ensures
        winch ==> f is Winch,
        !winch && interrupt ==> f is Int,
        !winch && !interrupt && quit ==> f is Quit,
        !winch && !interrupt && !quit ==> f is Non,
{
    if winch {
        SigFlag::Winch
    } else if interrupt {
        SigFlag::Int
    } else if quit {
        SigFlag::Quit
    } else {
        SigFlag::Non
    }
}


/// The layout of a well-formed gap buffer, which every operation on it
/// keeps: the gap lies inside the data, the text is the data before the gap
/// followed by the data after it, and it is `content_len` long.
pub proof fn lemma_buffer_layout(b: WriteBuf)
    requires
        b.wf(),
    ensures
        b.gap_start + b.gap_len <= b.data@.len(),
        b.content_len + b.gap_len == b.data@.len(),
        b.text() == b.data@.subrange(0, b.gap_start as int) + b.data@.subrange(
            b.gap_start + b.gap_len,
            b.data@.len() as int,
        ),
        b.text().len() == b.content_len,
{
    assert(b.data@.subrange(0, b.gap_start as int) =~= b.data@.take(b.gap_start as int));
    assert(b.data@.subrange(b.gap_start + b.gap_len, b.data@.len() as int) =~= b.data@.skip(
        b.gap_start + b.gap_len,
    ));
}

/// The cursor moved from `a` to `b` by `move_cursor_left` or
/// `move_cursor_right`.
pub open spec fn cursor_step(a: WinInfo, b: WinInfo) -> bool {
    moved_right(a, b) || moved_left(a, b)
}

/// A cell loaded into the gap buffer (`set_write_buffer_w_cell` gives the
/// first window of `trace`), then moved through with the cursor (each step
/// of `trace` a `move_cursor_left` or `move_cursor_right`) and stored back
/// with `write_to_cell`, keeps its text, with its view at the start.
pub proof fn lemma_moves_then_store(cell: crate::cells::Cell, trace: Seq<WinInfo>, stored: crate::cells::Cell)
    requires
        trace.len() > 0,
        trace[0].write_buffer.text() == cell.content@,
        forall|i: int| 0 <= i < trace.len() - 1 ==> cursor_step(trace[i], #[trigger] trace[i + 1]),
        stored.content@ == trace.last().write_buffer.text(),
        stored == (crate::cells::Cell { content: stored.content, text_offset: 0, ..cell }),
    ensures
        stored.content@ == cell.content@,
        crate::cells::cell_model(stored) == (crate::cells::CellModel {
            text_offset: 0,
            ..crate::cells::cell_model(cell)
        }),
{
    assert forall|i: int| 0 <= i < trace.len() - 1 implies (#[trigger] trace[i + 1]).write_buffer.text()
        == trace[i].write_buffer.text() by {
        assert(cursor_step(trace[i], trace[i + 1]));
    }
    lemma_moves_then_store_text(cell, trace);
}

/// The text at the end of `trace` is the cell's text.
proof fn lemma_moves_then_store_text(cell: crate::cells::Cell, trace: Seq<WinInfo>)
    requires
        trace.len() > 0,
        trace[0].write_buffer.text() == cell.content@,
        forall|i: int|
            0 <= i < trace.len() - 1 ==> (#[trigger] trace[i + 1]).write_buffer.text() == trace[i].write_buffer.text(),
    ensures
        trace.last().write_buffer.text() == cell.content@,
    decreases trace.len(),
{
    if trace.len() > 1 {
        let t = trace.drop_last();
        assert forall|i: int| 0 <= i < t.len() - 1 implies (#[trigger] t[i + 1]).write_buffer.text()
            == t[i].write_buffer.text() by {
            assert(t[i + 1] == trace[i + 1]);
        }
        lemma_moves_then_store_text(cell, t);
        let k = trace.len() - 2;
        assert(trace[k + 1].write_buffer.text() == trace[k].write_buffer.text());
        assert(t.last() == trace[k]);
    }
}


/// Where the cursor of `s` stands in its text: the gap is the view offset
/// plus the cursor's place in its field, within the text, and the cursor
/// within its field.
pub open spec fn cursor_placed(s: WinInfo) -> bool {
    &&& s.write_buffer.gap_start == s.write_buffer.offset + s.cursor.offset
    &&& s.write_buffer.gap_start <= s.write_buffer.content_len
    &&& s.cursor.offset <= s.cursor.limit
}

/// Moving right keeps the cursor placed (and the field within the shown
/// window): the gap moves by at most one, and by one when there is text
/// after it and room in the field.
pub proof fn lemma_right_keeps_cursor_placed(s0: WinInfo, s1: WinInfo)
    requires
        cursor_placed(s0),
        s0.cursor.limit <= s0.write_buffer.window,
        moved_right(s0, s1),
        !(s1.request is Abort),
    ensures
        cursor_placed(s1),
        s1.cursor.limit <= s1.write_buffer.window,
        s1.write_buffer.gap_start == s0.write_buffer.gap_start || s1.write_buffer.gap_start
            == s0.write_buffer.gap_start + 1,
        s0.write_buffer.gap_start < s0.write_buffer.content_len && s0.cursor.offset < s0.cursor.limit
            ==> s1.write_buffer.gap_start == s0.write_buffer.gap_start + 1,
{
}

/// Moving left keeps the cursor placed: the gap moves back by one unless it
/// is at the start, and neither the view nor the cursor moves forward.
pub proof fn lemma_left_keeps_cursor_placed(s0: WinInfo, s1: WinInfo)
    requires
        cursor_placed(s0),
        moved_left(s0, s1),
    ensures
        cursor_placed(s1),
        s1.write_buffer.gap_start == crate::cells::sat_sub(s0.write_buffer.gap_start, 1),
        s1.write_buffer.offset <= s0.write_buffer.offset,
        s1.cursor.offset <= s0.cursor.offset,
{
}

/// Whatever sequence of operations a gap buffer goes through, each keeping
/// it well formed (as `new`, `insert`, `delete`, `move_gap` and `reset` do),
/// it keeps the layout of `lemma_buffer_layout` at every step.
pub proof fn lemma_buffer_trace(trace: Seq<WriteBuf>)
    requires
        trace.len() > 0,
        trace[0].wf(),
        forall|i: int| 0 <= i < trace.len() - 1 ==> (#[trigger] trace[i]).wf() ==> trace[i + 1].wf(),
    ensures
        forall|i: int|
            0 <= i < trace.len() ==> {
                &&& (#[trigger] trace[i]).gap_start + trace[i].gap_len <= trace[i].data@.len()
                &&& trace[i].content_len + trace[i].gap_len == trace[i].data@.len()
                &&& trace[i].text() == trace[i].data@.subrange(0, trace[i].gap_start as int)
                    + trace[i].data@.subrange(trace[i].gap_start + trace[i].gap_len, trace[i].data@.len() as int)
                &&& trace[i].text().len() == trace[i].content_len
            },
{
    assert forall|i: int| 0 <= i < trace.len() implies {
        &&& (#[trigger] trace[i]).gap_start + trace[i].gap_len <= trace[i].data@.len()
        &&& trace[i].content_len + trace[i].gap_len == trace[i].data@.len()
        &&& trace[i].text() == trace[i].data@.subrange(0, trace[i].gap_start as int)
            + trace[i].data@.subrange(trace[i].gap_start + trace[i].gap_len, trace[i].data@.len() as int)
        &&& trace[i].text().len() == trace[i].content_len
    } by {
        lemma_buffer_wf_at(trace, i);
        lemma_buffer_layout(trace[i]);
    }
}

/// Every buffer of a trace that starts well formed, each step keeping it so,
/// is well formed.
proof fn lemma_buffer_wf_at(trace: Seq<WriteBuf>, i: int)
    requires
        0 <= i < trace.len(),
        trace[0].wf(),
        forall|j: int| 0 <= j < trace.len() - 1 ==> (#[trigger] trace[j]).wf() ==> trace[j + 1].wf(),
    ensures
        trace[i].wf(),
    decreases i,
{
    if i > 0 {
        lemma_buffer_wf_at(trace, i - 1);
        assert(trace[i - 1].wf() ==> trace[i - 1 + 1].wf());
    }
}

} // verus!
