//! Keys typed in the three input modes, what each does to the sheet and the
//! window, and the viewer's other events: a new terminal size and the end of
//! a save.
use vstd::prelude::*;

use crate::cells::{Cell, Cells, Csvs};
use crate::terminal::WinInfo;
use crate::text::push_text;

verus! {

/// Whether `c` is a control character, which would move the terminal's
/// cursor or change its state if it were written as it is.
pub open spec fn is_control(c: char) -> bool {
    (c as u32) < 32 || (c as u32) == 127
}

/// `c`, with a control character shown as a space.
pub open spec fn shown_char(c: char) -> char {
    if is_control(c) {
        ' '
    } else {
        c
    }
}

/// The first `take` characters of `s` (all of them when it is shorter), with
/// control characters shown as spaces.
pub open spec fn safe_prefix(s: Seq<char>, take: nat) -> Seq<char> {
    let n = if take < s.len() {
        take
    } else {
        s.len()
    };
    s.take(n as int).map_values(|c: char| shown_char(c))
}

/// Whether a text of `len` characters is cut to fit `max_shown` of them.
pub open spec fn preview_cut(len: nat, max_shown: usize) -> bool {
    len > max_shown
}

/// What is shown of `s` in at most `max_shown` characters: all of it, or its
/// first `max_shown - 3` characters to be followed by an ellipsis.
pub open spec fn preview_text(s: Seq<char>, max_shown: usize) -> Seq<char> {
    if preview_cut(s.len(), max_shown) {
        safe_prefix(s, crate::cells::sat_sub(max_shown, 3) as nat)
    } else {
        safe_prefix(s, max_shown as nat)
    }
}

impl WinInfo {
    /// The first `take` characters of `content`, with each control character
    /// written as a space, so that the text can go to the terminal as it is.
    pub fn terminal_safe_prefix(content: &str, take: usize) -> (r: String)
        ensures
            r@ == safe_prefix(content@, take as nat),
    {
        let v = crate::text::to_chars(content);
        let n = if take < v.len() {
            take
        } else {
            v.len()
        };
        let mut r = String::new();
        let mut i: usize = 0;
        while i < n
            invariant
                i <= n,
                n <= v@.len(),
                v@ == content@,
                n == (if (take as nat) < content@.len() {
                    take as nat
                } else {
                    content@.len()
                }),
                r@ == v@.take(i as int).map_values(|c: char| shown_char(c)),
            decreases n - i,
        {
            let c = v[i];
            let u = c as u32;
            if u < 32 || u == 127 {
                r.push(' ');
            } else {
                r.push(c);
            }
            i += 1;
            assert(r@ =~= v@.take(i as int).map_values(|c: char| shown_char(c)));
        }
        r
    }
}

/// What of `content` a bottom line with room for `max_shown` characters
/// shows, and whether it was cut short.
pub fn bottom_preview(content: &str, max_shown: usize) -> (r: (String, bool))
    ensures
        r.1 == preview_cut(content@.len(), max_shown),
        r.0@ == preview_text(content@, max_shown),
{
    let truncated = content.unicode_len() > max_shown;
    let take = if truncated {
        crate::cells::sat_sub_exec(max_shown, 3)
    } else {
        max_shown
    };
    (WinInfo::terminal_safe_prefix(content, take), truncated)
}

/// The bottom-line report of a yank or a paste (`verb`) of `yanked` on a
/// terminal of the given size.
pub open spec fn yank_report(verb: Seq<char>, yanked: Seq<char>, width: usize, height: usize) -> Seq<char> {
    let max_shown = crate::cells::sat_sub(width, 9);
    crate::terminal::line_start_text(height as nat) + verb + " '"@ + preview_text(yanked, max_shown) + (if preview_cut(
        yanked.len(),
        max_shown,
    ) {
        "...'"@
    } else {
        "'"@
    })
}

impl WinInfo {
    /// Keeps the text of `cell` as the yanked text.
    pub fn set_yanked(&mut self, cell: &Cell)
        ensures
            final(self).yanked@ == cell.content@,
            *final(self) == (WinInfo { yanked: final(self).yanked, ..*old(self) }),
    {
        self.yanked = crate::text::text_of(cell.content.as_str());
    }

    /// Draws the report of a yank or paste (`verb`) of the yanked text on the
    /// bottom line.
    pub fn push_yank_report(&mut self, verb: &str)
        ensures
            final(self).frame@ == old(self).frame@ + yank_report(
                verb@,
                old(self).yanked@,
                old(self).width,
                old(self).height,
            ),
            *final(self) == (WinInfo { frame: final(self).frame, ..*old(self) }),
    {
        let max_shown = crate::cells::sat_sub_exec(self.width, 9);
        let (preview, truncated) = bottom_preview(self.yanked.as_str(), max_shown);
        crate::terminal::push_line_start(&mut self.frame, self.height);
        push_text(&mut self.frame, verb);
        push_text(&mut self.frame, " '");
        push_text(&mut self.frame, preview.as_str());
        if truncated {
            push_text(&mut self.frame, "...'");
        } else {
            push_text(&mut self.frame, "'");
        }
        proof {
            assert(self.frame@ =~= old(self).frame@ + yank_report(
                verb@,
                old(self).yanked@,
                old(self).width,
                old(self).height,
            ));
        }
    }

    /// Types the yanked text into the gap buffer at the cursor.
    pub fn paste_yanked_to_write_buffer(&mut self)
        requires
            old(self).wf(),
            old(self).cursor.offset + old(self).yanked@.len() < usize::MAX,
            old(self).write_buffer.offset + old(self).yanked@.len() < usize::MAX,
            old(self).write_buffer.content_len + old(self).yanked@.len() < usize::MAX / 2,
        ensures
            final(self).wf(),
            ({
                let o = old(self).write_buffer;
                let f = final(self).write_buffer;
                &&& f.text() == o.text().take(o.gap_start as int) + old(self).yanked@ + o.text().skip(
                    o.gap_start as int,
                )
                &&& f.gap_start == o.gap_start + old(self).yanked@.len()
            }),
            final(self).yanked == old(self).yanked,
            *final(self) == (WinInfo {
                write_buffer: final(self).write_buffer,
                cursor: final(self).cursor,
                changed: crate::terminal::WinChange::Write,
                ..*old(self)
            }),
    {
        let y = crate::text::text_of(self.yanked.as_str());
        self.add_to_write_buffer(y.as_str());
    }
}

/// The sheet `f` is `o` with the focused cell's text set to `t` and the
/// sheet marked as written.
pub open spec fn focused_text_set(o: Cells, f: Cells, t: Seq<char>) -> bool {
    let (c, r) = o.w_cell;
    let old_cell = o.columns@[c as int].cells@[o.columns@[c as int].indices@[r as int] as int];
    exists|cell: Cell|
        {
            &&& #[trigger] crate::cells::cell_replaced(o.columns@, f.columns@, c as int, r as int, cell)
            &&& cell == (Cell { content: cell.content, ..old_cell })
            &&& cell.content@ == t
            &&& f == (Cells { columns: f.columns, written: true, ..o })
        }
}

impl WinInfo {
    /// Gives the focused cell the yanked text and draws it again.
    pub fn paste(&mut self, cells: &mut Cells)
        requires
            old(self).wf(),
            old(cells).wf(),
            !(old(self).request is Abort),
        ensures
            final(self).wf(),
            final(cells).wf(),
            !old(cells).has_cell(old(cells).w_cell.0, old(cells).w_cell.1) ==> final(self).request is Abort,
            old(cells).has_cell(old(cells).w_cell.0, old(cells).w_cell.1) ==> exists|c1: Cells|
                #[trigger] focused_text_set(*old(cells), c1, old(self).yanked@) && crate::render::focus_drawn(
                    *old(self),
                    c1,
                    *final(self),
                    *final(cells),
                ),
    {
        let (c, r) = cells.w_cell;
        if !cells.has_cell_exec(c, r) {
            self.abort("index out of bounds");
            return;
        }
        let y = crate::text::text_of(self.yanked.as_str());
        let ghost old_cell = cells.columns@[c as int].cells@[cells.columns@[c as int].indices@[r as int] as int];
        let cell = cells.w_cell();
        cell.content = y;
        let ghost new_cell = *cell;
        cells.written = true;
        let ghost c1 = *cells;
        proof {
            assert(crate::cells::cell_replaced(old(cells).columns@, c1.columns@, c as int, r as int, new_cell));
            assert(c1.wf()) by {
                assert forall|k: int| 0 <= k < c1.columns@.len() implies (#[trigger] c1.columns@[k]).wf() by {
                    if k != c {
                        assert(c1.columns@[k] == old(cells).columns@[k]);
                    }
                }
            }
            assert(focused_text_set(*old(cells), c1, old(self).yanked@));
        }
        self.draw_focus(cells);
    }
}

/// What a key (the bytes read in one go) asks for.
pub enum Key {
    /// Show open sheet number `0`.
    Sheet(usize),
    Up,
    Down,
    Right,
    Left,
    /// An arrow with a modifier: the modifier byte and the arrow byte.
    Modified(u8, u8),
    Save,
    StartWrite,
    EndWrite,
    DeleteCell,
    Yank,
    Paste,
    Open,
    StartCommand,
    PasteIntoBuffer,
    LeaveCommand,
    Backspace,
    Enter,
    /// Text to type.
    Type,
    /// Bytes that are not text.
    Invalid,
    Ignore,
}

/// Whether `b` is an escape sequence that the write and command modes
/// ignore.
pub open spec fn ignored_sequence(b: Seq<u8>) -> bool {
    ||| b == seq![27u8, 91u8, 65u8]
    ||| b == seq![27u8, 91u8, 66u8]
    ||| b == seq![27u8]
    ||| b == seq![27u8, 91u8, 90u8]
    ||| (b.len() == 6 && b[0] == 27u8 && b[1] == 91u8 && b[2] == 49u8 && b[3] == 59u8)
    ||| b == seq![27u8, 91u8, 50u8, 126u8]
    ||| b == seq![27u8, 91u8, 51u8, 126u8]
    ||| b == seq![27u8, 91u8, 70u8]
    ||| b == seq![27u8, 91u8, 72u8]
    ||| b == seq![27u8, 91u8, 50u8, 59u8, 53u8, 126u8]
    ||| b == seq![27u8, 91u8, 51u8, 59u8, 53u8, 126u8]
}

/// What the key `b` asks for in the input mode `m`.
pub open spec fn key_of(m: crate::terminal::InputMode, b: Seq<u8>) -> Key {
    match m {
        crate::terminal::InputMode::Scroll => if b.len() == 1 && 48 <= b[0] <= 57 {
            Key::Sheet((b[0] - 48) as usize)
        } else if b == seq![27u8, 91u8, 65u8] {
            Key::Up
        } else if b == seq![27u8, 91u8, 66u8] {
            Key::Down
        } else if b == seq![27u8, 91u8, 67u8] {
            Key::Right
        } else if b == seq![27u8, 91u8, 68u8] {
            Key::Left
        } else if b.len() == 6 && b[0] == 27u8 && b[1] == 91u8 && b[2] == 49u8 && b[3] == 59u8 {
            Key::Modified(b[4], b[5])
        } else if b == seq![19u8] {
            Key::Save
        } else if b == seq![23u8] || b == seq![1u8] {
            Key::StartWrite
        } else if b == seq![100u8] {
            Key::DeleteCell
        } else if b == seq![121u8] {
            Key::Yank
        } else if b == seq![112u8] {
            Key::Paste
        } else if b == seq![111u8] {
            Key::Open
        } else if b == seq![58u8] {
            Key::StartCommand
        } else {
            Key::Ignore
        },
        crate::terminal::InputMode::Write => if b == seq![27u8, 91u8, 67u8] {
            Key::Right
        } else if b == seq![27u8, 91u8, 68u8] {
            Key::Left
        } else if ignored_sequence(b) {
            Key::Ignore
        } else if b == seq![16u8] {
            Key::PasteIntoBuffer
        } else if b == seq![23u8] || b == seq![1u8] {
            Key::EndWrite
        } else if b.len() == 1 && ((1 <= b[0] <= 22) || (24 <= b[0] <= 26) || b[0] == 31) {
            Key::Ignore
        } else if b == seq![127u8] {
            Key::Backspace
        } else if vstd::utf8::valid_utf8(b) {
            Key::Type
        } else {
            Key::Invalid
        },
        crate::terminal::InputMode::Command => if b == seq![27u8, 91u8, 67u8] {
            Key::Right
        } else if b == seq![27u8, 91u8, 68u8] {
            Key::Left
        } else if ignored_sequence(b) {
            Key::Ignore
        } else if b == seq![16u8] {
            Key::PasteIntoBuffer
        } else if b == seq![17u8] {
            Key::LeaveCommand
        } else if b.len() == 1 && ((1 <= b[0] <= 9) || b[0] == 11 || b[0] == 12 || (14 <= b[0] <= 26) || b[0]
            == 31) {
            Key::Ignore
        } else if b == seq![127u8] {
            Key::Backspace
        } else if b == seq![10u8] || b == seq![13u8] || b == seq![13u8, 10u8] {
            Key::Enter
        } else if vstd::utf8::valid_utf8(b) {
            Key::Type
        } else {
            Key::Invalid
        },
    }
}

/// Whether `b` is exactly the bytes of `p`.
fn bytes_are(b: &[u8], p: &[u8]) -> (r: bool)
    ensures
        r == (b@ == p@),
{
    if b.len() != p.len() {
        return false;
    }
    let mut i: usize = 0;
    while i < b.len()
        invariant
            i <= b@.len(),
            b@.len() == p@.len(),
            forall|j: int| 0 <= j < i ==> b@[j] == p@[j],
        decreases b@.len() - i,
    {
        if b[i] != p[i] {
            return false;
        }
        i += 1;
    }
    assert(b@ =~= p@);
    true
}

/// `std::str::from_utf8`: the bytes as text when they are valid UTF-8.
#[verifier::external_body]
fn utf8_text(bytes: &[u8]) -> (r: Option<&str>)
    ensures
        r matches Some(s) ==> vstd::utf8::encode_utf8(s@) == bytes@,
        r is None <==> !vstd::utf8::valid_utf8(bytes@),
{
    match std::str::from_utf8(bytes) {
        Ok(s) => Some(s),
        Err(_) => None,
    }
}

/// Whether `b` is an escape sequence that the write and command modes
/// ignore.
fn is_ignored_sequence(b: &[u8]) -> (r: bool)
    ensures
        r == ignored_sequence(b@),
{
    let six = b.len() == 6 && b[0] == 27u8 && b[1] == 91u8 && b[2] == 49u8 && b[3] == 59u8;
    proof {
        assert(seq![27u8, 91u8, 65u8] == [27u8, 91u8, 65u8]@) by {
            assert([27u8, 91u8, 65u8]@ =~= seq![27u8, 91u8, 65u8]);
        }
    }
    let r = bytes_are(b, &[27u8, 91u8, 65u8]) || bytes_are(b, &[27u8, 91u8, 66u8]) || bytes_are(b, &[27u8])
        || bytes_are(b, &[27u8, 91u8, 90u8]) || six || bytes_are(b, &[27u8, 91u8, 50u8, 126u8]) || bytes_are(
        b,
        &[27u8, 91u8, 51u8, 126u8],
    ) || bytes_are(b, &[27u8, 91u8, 70u8]) || bytes_are(b, &[27u8, 91u8, 72u8]) || bytes_are(
        b,
        &[27u8, 91u8, 50u8, 59u8, 53u8, 126u8],
    ) || bytes_are(b, &[27u8, 91u8, 51u8, 59u8, 53u8, 126u8]);
    proof {
        assert([27u8, 91u8, 66u8]@ =~= seq![27u8, 91u8, 66u8]);
        assert([27u8]@ =~= seq![27u8]);
        assert([27u8, 91u8, 90u8]@ =~= seq![27u8, 91u8, 90u8]);
        assert([27u8, 91u8, 50u8, 126u8]@ =~= seq![27u8, 91u8, 50u8, 126u8]);
        assert([27u8, 91u8, 51u8, 126u8]@ =~= seq![27u8, 91u8, 51u8, 126u8]);
        assert([27u8, 91u8, 70u8]@ =~= seq![27u8, 91u8, 70u8]);
        assert([27u8, 91u8, 72u8]@ =~= seq![27u8, 91u8, 72u8]);
        assert([27u8, 91u8, 50u8, 59u8, 53u8, 126u8]@ =~= seq![27u8, 91u8, 50u8, 59u8, 53u8, 126u8]);
        assert([27u8, 91u8, 51u8, 59u8, 53u8, 126u8]@ =~= seq![27u8, 91u8, 51u8, 59u8, 53u8, 126u8]);
    }
    r
}

/// What the key `b` asks for in the input mode `m`.
pub fn classify(m: &crate::terminal::InputMode, b: &[u8]) -> (k: Key)
    ensures
        k == key_of(*m, b@),
{
    let n = b.len();
    proof {
        assert([27u8, 91u8, 65u8]@ =~= seq![27u8, 91u8, 65u8]);
        assert([27u8, 91u8, 66u8]@ =~= seq![27u8, 91u8, 66u8]);
        assert([27u8, 91u8, 67u8]@ =~= seq![27u8, 91u8, 67u8]);
        assert([27u8, 91u8, 68u8]@ =~= seq![27u8, 91u8, 68u8]);
        assert([19u8]@ =~= seq![19u8]);
        assert([23u8]@ =~= seq![23u8]);
        assert([1u8]@ =~= seq![1u8]);
        assert([100u8]@ =~= seq![100u8]);
        assert([121u8]@ =~= seq![121u8]);
        assert([112u8]@ =~= seq![112u8]);
        assert([111u8]@ =~= seq![111u8]);
        assert([58u8]@ =~= seq![58u8]);
        assert([16u8]@ =~= seq![16u8]);
        assert([17u8]@ =~= seq![17u8]);
        assert([127u8]@ =~= seq![127u8]);
        assert([10u8]@ =~= seq![10u8]);
        assert([13u8]@ =~= seq![13u8]);
        assert([13u8, 10u8]@ =~= seq![13u8, 10u8]);
    }
    let one = n == 1;
    let b0: u8 = if n > 0 {
        b[0]
    } else {
        0
    };
    match m {
        crate::terminal::InputMode::Scroll => {
            if one && 48u8 <= b0 && b0 <= 57u8 {
                Key::Sheet((b0 - 48u8) as usize)
            } else if bytes_are(b, &[27u8, 91u8, 65u8]) {
                Key::Up
            } else if bytes_are(b, &[27u8, 91u8, 66u8]) {
                Key::Down
            } else if bytes_are(b, &[27u8, 91u8, 67u8]) {
                Key::Right
            } else if bytes_are(b, &[27u8, 91u8, 68u8]) {
                Key::Left
            } else if n == 6 && b[0] == 27u8 && b[1] == 91u8 && b[2] == 49u8 && b[3] == 59u8 {
                Key::Modified(b[4], b[5])
            } else if bytes_are(b, &[19u8]) {
                Key::Save
            } else if bytes_are(b, &[23u8]) || bytes_are(b, &[1u8]) {
                Key::StartWrite
            } else if bytes_are(b, &[100u8]) {
                Key::DeleteCell
            } else if bytes_are(b, &[121u8]) {
                Key::Yank
            } else if bytes_are(b, &[112u8]) {
                Key::Paste
            } else if bytes_are(b, &[111u8]) {
                Key::Open
            } else if bytes_are(b, &[58u8]) {
                Key::StartCommand
            } else {
                Key::Ignore
            }
        },
        crate::terminal::InputMode::Write => {
            if bytes_are(b, &[27u8, 91u8, 67u8]) {
                Key::Right
            } else if bytes_are(b, &[27u8, 91u8, 68u8]) {
                Key::Left
            } else if is_ignored_sequence(b) {
                Key::Ignore
            } else if bytes_are(b, &[16u8]) {
                Key::PasteIntoBuffer
            } else if bytes_are(b, &[23u8]) || bytes_are(b, &[1u8]) {
                Key::EndWrite
            } else if one && ((1u8 <= b0 && b0 <= 22u8) || (24u8 <= b0 && b0 <= 26u8) || b0 == 31u8) {
                Key::Ignore
            } else if bytes_are(b, &[127u8]) {
                Key::Backspace
            } else {
                match utf8_text(b) {
                    Some(_) => Key::Type,
                    None => Key::Invalid,
                }
            }
        },
        crate::terminal::InputMode::Command => {
            if bytes_are(b, &[27u8, 91u8, 67u8]) {
                Key::Right
            } else if bytes_are(b, &[27u8, 91u8, 68u8]) {
                Key::Left
            } else if is_ignored_sequence(b) {
                Key::Ignore
            } else if bytes_are(b, &[16u8]) {
                Key::PasteIntoBuffer
            } else if bytes_are(b, &[17u8]) {
                Key::LeaveCommand
            } else if one && ((1u8 <= b0 && b0 <= 9u8) || b0 == 11u8 || b0 == 12u8 || (14u8 <= b0 && b0 <= 26u8)
                || b0 == 31u8) {
                Key::Ignore
            } else if bytes_are(b, &[127u8]) {
                Key::Backspace
            } else if bytes_are(b, &[10u8]) || bytes_are(b, &[13u8]) || bytes_are(b, &[13u8, 10u8]) {
                Key::Enter
            } else {
                match utf8_text(b) {
                    Some(_) => Key::Type,
                    None => Key::Invalid,
                }
            }
        },
    }
}

/// The text `format!("{:?}", b)` gives for bytes `b`, after `i` of them.
pub open spec fn debug_bytes_from(b: Seq<u8>, i: int) -> Seq<char>
    decreases b.len() - i,
{
    if i >= b.len() || i < 0 {
        Seq::empty()
    } else {
        (if i > 0 {
            ", "@
        } else {
            Seq::empty()
        }) + crate::text::dec_text(b[i] as nat) + debug_bytes_from(b, i + 1)
    }
}

/// The report of bytes `b` that are not text.
pub open spec fn invalid_report(b: Seq<u8>, height: usize) -> Seq<char> {
    crate::terminal::goto_text(height as nat, 1) + "Invalid input ["@ + debug_bytes_from(b, 0) + "]"@
}

/// What leaving command mode does to the window `s0`, whose focused column
/// is `col`: the cursor goes back on the focused cell of that column and is
/// hidden, scroll mode resumes and the frame is sent; the step stops when the
/// cursor's place overflows.
pub open spec fn command_mode_left(s0: WinInfo, col: crate::cells::Column, s1: WinInfo) -> bool {
    if s0.h_pointer < s0.h_offset || s0.h_pointer - s0.h_offset + 3 > usize::MAX || col.start + 1 > usize::MAX {
        s1 == (WinInfo {
            in_command: false,
            request: crate::terminal::Request::Abort("attempt to subtract with overflow"),
            ..s0
        })
    } else {
        &&& s1.out@ == s0.out@ + s0.frame@ + "\x1b[?25l"@
        &&& s1.frame@ == Seq::<char>::empty()
        &&& s1 == (WinInfo {
            in_command: false,
            input_mode: crate::terminal::InputMode::Scroll,
            cursor: crate::terminal::Cursor {
                line: (s0.h_pointer - s0.h_offset + 3) as usize,
                col: (col.start + 1) as usize,
                limit: col.width,
                ..s0.cursor
            },
            frame: s1.frame,
            out: s1.out,
            changed: crate::terminal::WinChange::Non,
            ..s0
        })
    }
}

/// The report of the bytes `b` that are not text drawn on the bottom line
/// of `s0` and the frame sent.
pub open spec fn invalid_reported(s0: WinInfo, b: Seq<u8>, s1: WinInfo) -> bool {
    exists|m: WinInfo|
        {
            &&& m.frame@ == s0.frame@ + invalid_report(b, s0.height)
            &&& m == (WinInfo { frame: m.frame, ..s0 })
            &&& #[trigger] crate::terminal::flushed(m, s1)
        }
}

/// What `leave_command` does to `s0` with the sheets `k0`: the step stops
/// when the focused column is missing from the shown sheet, else command
/// mode is left for that column (`command_mode_left`).
pub open spec fn command_left(s0: WinInfo, k0: Csvs, s1: WinInfo) -> bool {
    let c = shown_cells(k0);
    if s0.w_pointer >= c.columns@.len() {
        s1 == (WinInfo { request: crate::terminal::Request::Abort("index out of bounds"), ..s0 })
    } else {
        command_mode_left(s0, c.columns@[s0.w_pointer as int], s1)
    }
}

/// What `ctrl+Q` does in command mode: the bottom line is cleared and the
/// focused cell's text drawn on it, the frame sent, and command mode left.
pub open spec fn command_quit(s0: WinInfo, k0: Csvs, s1: WinInfo) -> bool {
    exists|m: WinInfo, s2: WinInfo|
        {
            &&& m.frame@ == s0.frame@ + crate::terminal::line_start_text(s0.height as nat)
                + crate::terminal::line_start_text(s0.height as nat) + s0.focused_content@
            &&& m == (WinInfo { frame: m.frame, ..s0 })
            &&& #[trigger] crate::terminal::flushed(m, s2)
            &&& if s2.request is Abort {
                s1 == s2
            } else {
                command_left(s2, k0, s1)
            }
        }
}

/// `move_cursor_right` (`right`) or `move_cursor_left` took `s0` to `s1`.
pub open spec fn cursor_moved(s0: WinInfo, right: bool, s1: WinInfo) -> bool {
    if right {
        crate::terminal::moved_right(s0, s1)
    } else {
        crate::terminal::moved_left(s0, s1)
    }
}

/// What an arrow (`right`, else left) does to the cursor in write or command
/// mode, marking the window changed as `ch`; the step stops when moving right
/// would overflow.
pub open spec fn arrow_done(s0: WinInfo, right: bool, ch: crate::terminal::WinChange, s1: WinInfo) -> bool {
    if right && (s0.cursor.offset == usize::MAX || s0.write_buffer.offset == usize::MAX) {
        s1 == (WinInfo { request: crate::terminal::Request::Abort("attempt to add with overflow"), ..s0 })
    } else {
        exists|m: WinInfo|
            {
                &&& #[trigger] cursor_moved(s0, right, m)
                &&& s1 == (WinInfo { changed: ch, ..m })
            }
    }
}

/// What `Enter` does in command mode: the typed line is read and its command
/// run (`line_done`, giving `s1` and `k1`); unless that asks to quit, stops
/// the step or asks a question on the bottom line, command mode is then
/// left.
pub open spec fn command_entered(s0: WinInfo, k0: Csvs, r: crate::terminal::SigFlag, s2: WinInfo, k2: Csvs) -> bool {
    let t = s0.write_buffer.text();
    if !crate::parse::tokens_ok(t, ' ') {
        s2.request is Abort
    } else {
        exists|toks: Seq<&str>, s1: WinInfo, k1: Csvs|
            {
                &&& crate::dispatch::words_of(toks, t)
                &&& #[trigger] crate::dispatch::line_done(toks, s0, k0, s1, k1, r)
                &&& k2 == k1
                &&& if r is Quit || s1.request is Abort || !(s1.prompt is Non) {
                    s2 == s1
                } else {
                    command_left(s1, k1, s2)
                }
            }
    }
}

/// What the write-mode keys not stated elsewhere do: the arrows move the
/// cursor, and bytes that are not text are reported.
pub open spec fn write_keyed(key: Key, input: Seq<u8>, s0: WinInfo, k0: Csvs, s1: WinInfo, k1: Csvs) -> bool {
    match key {
        Key::Right => arrow_done(s0, true, crate::terminal::WinChange::Write, s1) && k1 == k0,
        Key::Left => arrow_done(s0, false, crate::terminal::WinChange::Write, s1) && k1 == k0,
        Key::Invalid => invalid_reported(s0, input, s1) && k1 == k0,
        _ => true,
    }
}

/// What the command-mode keys not stated elsewhere do: the arrows move the
/// cursor, bytes that are not text are reported, `ctrl+Q` leaves command
/// mode, and `Enter` runs the command.
pub open spec fn command_keyed(
    key: Key,
    input: Seq<u8>,
    s0: WinInfo,
    k0: Csvs,
    s1: WinInfo,
    k1: Csvs,
    r: crate::terminal::SigFlag,
) -> bool {
    match key {
        Key::Right => arrow_done(s0, true, crate::terminal::WinChange::Command, s1) && k1 == k0,
        Key::Left => arrow_done(s0, false, crate::terminal::WinChange::Command, s1) && k1 == k0,
        Key::Invalid => invalid_reported(s0, input, s1) && k1 == k0,
        Key::LeaveCommand => command_quit(s0, k0, s1) && k1 == k0,
        Key::Enter => command_entered(s0, k0, r, s1, k1),
        _ => true,
    }
}

impl WinInfo {
    /// Reports bytes that are not text on the bottom line and sends the
    /// frame.
    pub fn report_invalid(&mut self, b: &[u8])
        ensures
            invalid_reported(*old(self), b@, *final(self)),
    {
        crate::terminal::push_goto(&mut self.frame, self.height, 1);
        push_text(&mut self.frame, "Invalid input [");
        let ghost f0 = self.frame@;
        let mut i: usize = 0;
        while i < b.len()
            invariant
                i <= b@.len(),
                self.frame@ + debug_bytes_from(b@, i as int) == f0 + debug_bytes_from(b@, 0),
                *self == (WinInfo { frame: self.frame, ..*old(self) }),
            decreases b@.len() - i,
        {
            let ghost fi = self.frame@;
            if i > 0 {
                push_text(&mut self.frame, ", ");
            }
            crate::text::push_dec(&mut self.frame, b[i] as usize);
            proof {
                assert(self.frame@ + debug_bytes_from(b@, i + 1) =~= fi + debug_bytes_from(b@, i as int));
            }
            i += 1;
        }
        push_text(&mut self.frame, "]");
        let ghost m = *self;
        proof {
            assert(debug_bytes_from(b@, i as int) =~= Seq::<char>::empty());
            assert(m.frame@ =~= old(self).frame@ + invalid_report(b@, old(self).height));
        }
        self.flush();
    }

    /// Leaves command mode, putting the cursor back on the focused cell of
    /// the focused column of the shown sheet.
    pub fn leave_command(&mut self, csvs: &mut Csvs)
        requires
            old(self).wf(),
            old(csvs).handle < old(csvs).contexts@.len(),
        ensures
            final(self).wf(),
            *final(csvs) == *old(csvs),
            command_left(*old(self), *old(csvs), *final(self)),
    {
        let h = csvs.handle;
        let cells = &csvs.contexts[h].cells;
        if self.w_pointer >= cells.columns.len() {
            self.abort("index out of bounds");
            return;
        }
        self.set_command_mode(false, &cells.columns[self.w_pointer]);
    }
}

/// Whether the sheets `k` are well formed and the window can work on them.
pub open spec fn ready(s: WinInfo, k: Csvs) -> bool {
    &&& s.wf()
    &&& crate::sheet_ops::sheets_wf(k)
}

/// Handles the key `input` (the bytes read in one go) in the window's input
/// mode; says whether the viewer is to quit.
pub fn process_input(input: &[u8], w_info: &mut WinInfo, csvs: &mut Csvs) -> (r: crate::terminal::SigFlag)
    requires
        ready(*old(w_info), *old(csvs)),
        !(old(w_info).request is Abort),
    ensures
        final(w_info).wf(),
        !(final(w_info).request is Abort) ==> crate::sheet_ops::sheets_wf(*final(csvs)),
        !(old(w_info).input_mode == crate::terminal::InputMode::Command && key_of(old(w_info).input_mode, input@) is Enter)
            ==> r is Non,
        r is Quit ==> old(w_info).input_mode == crate::terminal::InputMode::Command && key_of(
            old(w_info).input_mode,
            input@,
        ) is Enter,
        key_of(old(w_info).input_mode, input@) is Ignore ==> *final(w_info) == *old(w_info) && *final(csvs)
            == *old(csvs) && r is Non,
        old(w_info).input_mode == crate::terminal::InputMode::Scroll ==> scrolled(
            key_of(old(w_info).input_mode, input@),
            *old(w_info),
            *old(csvs),
            *final(w_info),
            *final(csvs),
        ),
        old(w_info).input_mode != crate::terminal::InputMode::Scroll && key_of(old(w_info).input_mode, input@) is Type
            && !(final(w_info).request is Abort) ==> typed_into(
            old(w_info).write_buffer,
            final(w_info).write_buffer,
            vstd::utf8::decode_utf8(input@),
        ),
        old(w_info).input_mode != crate::terminal::InputMode::Scroll && key_of(old(w_info).input_mode, input@)
            is PasteIntoBuffer && !(final(w_info).request is Abort) ==> typed_into(
            old(w_info).write_buffer,
            final(w_info).write_buffer,
            old(w_info).yanked@,
        ),
        old(w_info).input_mode != crate::terminal::InputMode::Scroll && key_of(old(w_info).input_mode, input@)
            is Backspace ==> backspaced(old(w_info).write_buffer, final(w_info).write_buffer),
        old(w_info).input_mode != crate::terminal::InputMode::Scroll && key_of(old(w_info).input_mode, input@)
            is Type ==> typed_or_overflowed(*old(w_info), vstd::utf8::decode_utf8(input@), *final(w_info)),
        old(w_info).input_mode != crate::terminal::InputMode::Scroll && key_of(old(w_info).input_mode, input@)
            is PasteIntoBuffer ==> typed_or_overflowed(*old(w_info), old(w_info).yanked@, *final(w_info)),
        old(w_info).input_mode != crate::terminal::InputMode::Scroll && ((key_of(old(w_info).input_mode, input@) is Type
            && !typing_fits(*old(w_info), vstd::utf8::decode_utf8(input@).len())) || (key_of(
            old(w_info).input_mode,
            input@,
        ) is PasteIntoBuffer && !typing_fits(*old(w_info), old(w_info).yanked@.len()))) ==> *final(csvs) == *old(
            csvs,
        ),
        old(w_info).input_mode == crate::terminal::InputMode::Write && key_of(old(w_info).input_mode, input@) is EndWrite
            ==> (!(final(w_info).request is Abort) <==> shown_cells(*old(csvs)).has_cell(
            shown_cells(*old(csvs)).w_cell.0,
            shown_cells(*old(csvs)).w_cell.1,
        )),
        old(w_info).input_mode == crate::terminal::InputMode::Write && key_of(old(w_info).input_mode, input@) is EndWrite
            && !(final(w_info).request is Abort) ==> final(w_info).input_mode == crate::terminal::InputMode::Scroll
            && focused_text(shown_cells(*final(csvs))) == old(w_info).write_buffer.text(),
        old(w_info).input_mode == crate::terminal::InputMode::Write ==> write_keyed(
            key_of(old(w_info).input_mode, input@),
            input@,
            *old(w_info),
            *old(csvs),
            *final(w_info),
            *final(csvs),
        ),
        old(w_info).input_mode == crate::terminal::InputMode::Command ==> command_keyed(
            key_of(old(w_info).input_mode, input@),
            input@,
            *old(w_info),
            *old(csvs),
            *final(w_info),
            *final(csvs),
            r,
        ),
        old(w_info).input_mode == crate::terminal::InputMode::Command && key_of(old(w_info).input_mode, input@) is Enter
            && crate::parse::tokens_ok(old(w_info).write_buffer.text(), ' ') ==> exists|
            toks: Seq<&str>,
            s1: WinInfo,
            k1: Csvs,
        |
            crate::dispatch::words_of(toks, old(w_info).write_buffer.text())
                && #[trigger] crate::dispatch::line_done(toks, *old(w_info), *old(csvs), s1, k1, r),
{
    let key = classify(&w_info.input_mode, input);
    match w_info.input_mode {
        crate::terminal::InputMode::Scroll => {
            w_info.scroll_key(key, csvs);
            crate::terminal::SigFlag::Non
        },
        crate::terminal::InputMode::Write => {
            w_info.write_key(key, input, csvs);
            crate::terminal::SigFlag::Non
        },
        crate::terminal::InputMode::Command => w_info.command_key(key, input, csvs),
    }
}

/// The shown sheet of `k`.
pub open spec fn shown_cells(k: Csvs) -> Cells {
    k.contexts@[k.handle as int].cells
}

/// The window after an arrow key moved the pointer of `s0` to `n` (a row
/// when `rows`, else a column): as `set_h_pointer` or `set_w_pointer` leaves
/// it, or stopped when that overflows.
pub open spec fn pointer_moved(s0: WinInfo, rows: bool, n: usize, s1: WinInfo) -> bool {
    let m = if rows {
        crate::terminal::moved_h_pointer(s0, n)
    } else {
        crate::terminal::moved_w_pointer(s0, n)
    };
    match m {
        Some(w) => s1 == w,
        None => s1.request is Abort,
    }
}

/// The window after the report of a yank or paste (`verb`) was drawn on the
/// bottom line of `s2` and the frame sent; a stopped step stays as it is.
pub open spec fn yank_reported(s2: WinInfo, verb: Seq<char>, s1: WinInfo) -> bool {
    if s2.request is Abort {
        s1 == s2
    } else {
        exists|m: WinInfo|
            {
                &&& m.frame@ == s2.frame@ + yank_report(verb, s2.yanked@, s2.width, s2.height)
                &&& m == (WinInfo { frame: m.frame, ..s2 })
                &&& #[trigger] crate::terminal::flushed(m, s1)
            }
    }
}

/// What `d` does on the present focused cell of the shown sheet of `k0`:
/// its text is yanked and reported, the cell emptied and the sheet marked as
/// written, the focus drawn again (see `focus_drawn`, which says when that
/// stops the step) and the frame sent.
pub open spec fn cell_deleted(s0: WinInfo, k0: Csvs, s1: WinInfo, k1: Csvs) -> bool {
    let c0 = shown_cells(k0);
    exists|c1: Cells, sm: WinInfo, s2: WinInfo, c2: Cells|
        #![trigger crate::render::focus_drawn(sm, c1, s2, c2)]
        {
            &&& focused_text_set(c0, c1, Seq::empty())
            &&& sm.yanked@ == focused_text(c0)
            &&& sm.frame@ == s0.frame@ + yank_report("yanked"@, focused_text(c0), s0.width, s0.height)
            &&& sm == (WinInfo { yanked: sm.yanked, frame: sm.frame, ..s0 })
            &&& crate::render::focus_drawn(sm, c1, s2, c2)
            &&& crate::commands::flushed_or_stopped(s2, s1)
            &&& crate::sheet_ops::shown_sheet_set(k0, c2, k1)
        }
}

/// What `p` does on the present focused cell of the shown sheet of `k0`
/// with a yanked text: the cell gets that text and the sheet is marked as
/// written, the focus is drawn again (see `focus_drawn`) and the paste is
/// reported.
pub open spec fn cell_pasted(s0: WinInfo, k0: Csvs, s1: WinInfo, k1: Csvs) -> bool {
    let c0 = shown_cells(k0);
    exists|c1: Cells, s2: WinInfo, c2: Cells|
        #![trigger crate::render::focus_drawn(s0, c1, s2, c2)]
        {
            &&& focused_text_set(c0, c1, s0.yanked@)
            &&& crate::render::focus_drawn(s0, c1, s2, c2)
            &&& yank_reported(s2, "pasted"@, s1)
            &&& crate::sheet_ops::shown_sheet_set(k0, c2, k1)
        }
}

/// The focused cell of the sheet `c`.
pub open spec fn focused_cell(c: Cells) -> Cell {
    let (col, row) = c.w_cell;
    c.columns@[col as int].cells@[c.columns@[col as int].indices@[row as int] as int]
}

/// What `ctrl+W` does on the present focused cell `cell`: the step stops
/// when its text is too long for the buffer or its view lies past its end;
/// else the text is loaded into the gap buffer with the cursor at the view,
/// and write mode starts with the terminal's cursor shown.
pub open spec fn write_started(s0: WinInfo, cell: Cell, s1: WinInfo) -> bool {
    if cell.content@.len() >= usize::MAX / 2 {
        s1 == (WinInfo { request: crate::terminal::Request::Abort("capacity overflow"), ..s0 })
    } else if cell.text_offset > cell.content@.len() {
        s1.request is Abort
    } else {
        &&& s1.write_buffer.text() == cell.content@
        &&& s1.write_buffer.content_len == cell.content@.len()
        &&& s1.write_buffer.gap_start == cell.text_offset
        &&& s1.write_buffer.offset == cell.text_offset
        &&& s1.write_buffer.window == cell.width
        &&& s1.out@ == s0.out@ + "\x1b[?25h"@
        &&& s1 == (WinInfo {
            write_buffer: s1.write_buffer,
            input_mode: crate::terminal::InputMode::Write,
            cursor: crate::terminal::Cursor { offset: 0, ..s0.cursor },
            out: s1.out,
            changed: crate::terminal::WinChange::Write,
            ..s0
        })
    }
}

/// What entering command mode does to `s0`: the bottom line is cleared to a
/// `:` prompt with the cursor after it, shown, the buffer emptied and the
/// frame sent.
pub open spec fn command_mode_entered(s0: WinInfo, s1: WinInfo) -> bool {
    &&& s1.out@ == s0.out@ + s0.frame@ + crate::terminal::line_start_text(s0.height as nat) + ":"@
        + crate::terminal::goto_text(s0.height as nat, 2) + "\x1b[?25h"@ + crate::terminal::goto_text(
        s0.height as nat,
        2,
    )
    &&& s1.write_buffer.text() == Seq::<char>::empty()
    &&& s1.write_buffer.gap_start == 0
    &&& s1.write_buffer.offset == 0
    &&& s1.frame@ == Seq::<char>::empty()
    &&& s1 == (WinInfo {
        in_command: true,
        input_mode: crate::terminal::InputMode::Command,
        cursor: crate::terminal::Cursor {
            line: s0.height,
            col: 2,
            limit: crate::cells::sat_sub(s0.width, 1),
            offset: 0,
        },
        write_buffer: s1.write_buffer,
        frame: s1.frame,
        out: s1.out,
        changed: crate::terminal::WinChange::Non,
        ..s0
    })
}

/// What a number key does when it names another open sheet `id`: the place
/// of the window is saved in the shown sheet, sheet `id` is shown, the
/// window takes its size and place (the step stops when it has no column
/// or its size or place is out of bounds), the sheet is drawn, then the tab
/// line and the bottom line.
pub open spec fn sheet_switched(s0: WinInfo, k0: Csvs, id: usize, s1: WinInfo, k1: Csvs) -> bool {
    let saved = k0.contexts@.update(
        k0.handle as int,
        crate::cells::Context {
            w_pointer: s0.w_pointer,
            h_pointer: s0.h_pointer,
            w_offset: s0.w_offset,
            h_offset: s0.h_offset,
            ..k0.contexts@[k0.handle as int]
        },
    );
    let con = saved[id as int];
    let c = con.cells;
    if c.columns@.len() == 0 || c.columns@.len() > usize::MAX / 16 || c.columns@[0].shown() > usize::MAX
        / 16 || con.w_offset > usize::MAX / 16 || con.h_offset > usize::MAX / 16 {
        s1.request is Abort
    } else {
        exists|kb: Csvs, s2: WinInfo, d2: Cells|
            #![trigger crate::sheet_ops::tabs_and_bottom(s2, kb, d2, s1, k1)]
            {
                &&& kb.handle == id
                &&& kb.contexts@ == saved
                &&& crate::render::screen_drawn(
                    WinInfo {
                        num_cols: c.columns@.len() as usize,
                        num_rows: c.columns@[0].shown() as usize,
                        w_pointer: con.w_pointer,
                        h_pointer: con.h_pointer,
                        w_offset: con.w_offset,
                        h_offset: con.h_offset,
                        ..s0
                    },
                    c,
                    s2,
                    d2,
                )
                &&& crate::sheet_ops::tabs_and_bottom(s2, kb, d2, s1, k1)
            }
    }
}

/// What the scroll-mode key `key` does to the window `s0` and the sheets
/// `k0`, as far as it is stated here: the arrows move the pointers, `ctrl+S`
/// asks for a save, a number shows that sheet, `y` yanks the focused cell,
/// `d` yanks it and empties it, `p` gives it the yanked text, `ctrl+W`
/// loads the focused cell into the gap buffer in write mode, `o` shows the
/// focused cell's whole text, `:` enters command mode, and the arrows with a
/// modifier act as `modified_done` says.
pub open spec fn scrolled(key: Key, s0: WinInfo, k0: Csvs, s1: WinInfo, k1: Csvs) -> bool {
    let c0 = shown_cells(k0);
    let present = c0.has_cell(c0.w_cell.0, c0.w_cell.1);
    match key {
        Key::Up => if s0.num_rows == 0 {
            s1.request is Abort
        } else {
            pointer_moved(s0, true, crate::cells::sat_sub(s0.h_pointer, 1), s1) && k1 == k0
        },
        Key::Down => if s0.num_rows == 0 || s0.h_pointer == usize::MAX {
            s1.request is Abort
        } else {
            pointer_moved(s0, true, (s0.h_pointer + 1) as usize, s1) && k1 == k0
        },
        Key::Left => pointer_moved(s0, false, crate::cells::sat_sub(s0.w_pointer, 1), s1) && k1 == k0,
        Key::Right => if s0.w_pointer == usize::MAX {
            s1.request is Abort
        } else {
            pointer_moved(s0, false, (s0.w_pointer + 1) as usize, s1) && k1 == k0
        },
        Key::Save => s1 == (WinInfo { request: crate::terminal::Request::Save, ..s0 }) && k1 == k0,
        Key::Sheet(id) => if id == k0.handle || id >= k0.contexts@.len() {
            s1 == s0 && k1 == k0
        } else {
            sheet_switched(s0, k0, id, s1, k1)
        },
        Key::Yank => if !present {
            s1.request is Abort
        } else {
            s1.yanked@ == focused_text(c0) && k1 == k0 && exists|m: WinInfo|
                {
                    &&& m.yanked@ == focused_text(c0)
                    &&& m.frame@ == s0.frame@ + yank_report("yanked"@, focused_text(c0), s0.width, s0.height)
                    &&& m == (WinInfo { yanked: m.yanked, frame: m.frame, ..s0 })
                    &&& #[trigger] crate::terminal::flushed(m, s1)
                }
        },
        Key::DeleteCell => if !present {
            s1.request is Abort
        } else {
            cell_deleted(s0, k0, s1, k1)
        },
        Key::StartWrite => if !present {
            s1.request is Abort
        } else {
            write_started(s0, focused_cell(c0), s1) && k1 == k0
        },
        Key::Open => focused_shown(s0, k0, s1) && k1 == k0,
        Key::Modified(m, d) => modified_done(m, d, s0, k0, s1, k1),
        Key::Paste => if s0.yanked@.len() == 0 {
            k1 == k0 && exists|m: WinInfo|
                #[trigger] crate::commands::bottom_set(s0, "Nothing has been yanked"@, m)
                    && crate::terminal::flushed(m, s1)
        } else if !present {
            s1.request is Abort
        } else {
            cell_pasted(s0, k0, s1, k1)
        },
        Key::StartCommand => if s0.w_pointer >= c0.columns@.len() {
            s1 == (WinInfo { request: crate::terminal::Request::Abort("index out of bounds"), ..s0 }) && k1 == k0
        } else {
            command_mode_entered(s0, s1) && k1 == k0
        },
        _ => true,
    }
}

impl WinInfo {
    /// The keys of scroll mode.
    #[verifier::rlimit(100)]
    fn scroll_key(&mut self, key: Key, csvs: &mut Csvs)
        requires
            ready(*old(self), *old(csvs)),
            !(old(self).request is Abort),
        ensures
            final(self).wf(),
            !(final(self).request is Abort) ==> crate::sheet_ops::sheets_wf(*final(csvs)),
            key is Ignore ==> *final(self) == *old(self) && *final(csvs) == *old(csvs),
            scrolled(key, *old(self), *old(csvs), *final(self), *final(csvs)),
    {
        let ghost k0 = *csvs;
        proof {
            assert(shown_cells(k0).wf());
        }
        match key {
            Key::Sheet(id) => {
                if csvs.handle != id && id < csvs.num_contexts() {
                    csvs.save_context(self);
                    csvs.set_handle(id);
                    let ghost k1 = *csvs;
                    proof {
                        assert(k1.contexts@[id as int].cells == k0.contexts@[id as int].cells);
                        assert(k1.contexts@[id as int].cells.wf());
                        crate::input::lemma_sheets_wf_same(k0, k1);
                    }
                    if csvs.contexts[id].cells.columns.len() == 0 {
                        self.abort("index out of bounds");
                        return;
                    }
                    proof {
                        assert(k1.contexts@[id as int].cells.columns@[0].wf());
                    }
                    let con = csvs.get_context();
                    if con.cells.num_cols() > usize::MAX / 16 || con.cells.num_rows() > usize::MAX / 16
                        || con.w_offset > usize::MAX / 16 || con.h_offset > usize::MAX / 16 {
                        self.abort("capacity overflow");
                        return;
                    }
                    self.set_context(con);
                    let ghost k2 = *csvs;
                    proof {
                        assert(k2.contexts@ =~= k1.contexts@);
                    }
                    self.draw_screen(csvs.get_cells());
                    let ghost k3 = *csvs;
                    let ghost s2 = *self;
                    let ghost d2 = shown_cells(k3);
                    proof {
                        crate::dispatch::lemma_sheets_wf_set(k1, k3);
                        assert(crate::sheet_ops::shown_sheet_set(k2, d2, k3));
                    }
                    if self.is_aborted() {
                        assert(crate::sheet_ops::tabs_and_bottom(s2, k2, d2, *self, *csvs));
                        return;
                    }
                    self.print_context(csvs);
                    let ghost s4 = *self;
                    if self.is_aborted() {
                        assert(crate::sheet_ops::context_printed(s2, k3, s4));
                        assert(crate::sheet_ops::tabs_and_bottom(s2, k2, d2, *self, *csvs));
                        return;
                    }
                    self.draw_focused_content();
                    let ghost m2 = *self;
                    self.flush();
                    proof {
                        assert(crate::sheet_ops::context_printed(s2, k3, s4));
                        assert(crate::terminal::bottom_drawn(s4, m2));
                        assert(crate::sheet_ops::tabs_and_bottom(s2, k2, d2, *self, *csvs));
                    }
                }
            },
            Key::Up => {
                if self.num_rows == 0 {
                    self.abort("attempt to subtract with overflow");
                    return;
                }
                self.set_h_pointer(crate::cells::sat_sub_exec(self.h_pointer, 1));
            },
            Key::Down => {
                if self.num_rows == 0 || self.h_pointer == usize::MAX {
                    self.abort("attempt to add with overflow");
                    return;
                }
                self.set_h_pointer(self.h_pointer + 1);
            },
            Key::Right => {
                if self.w_pointer == usize::MAX {
                    self.abort("attempt to add with overflow");
                    return;
                }
                self.set_w_pointer(self.w_pointer + 1);
            },
            Key::Left => {
                self.set_w_pointer(crate::cells::sat_sub_exec(self.w_pointer, 1));
            },
            Key::Modified(m, d) => {
                self.modified_arrow(m, d, csvs);
            },
            Key::Save => {
                self.request = crate::terminal::Request::Save;
            },
            Key::StartWrite => {
                let h = csvs.handle;
                let cells = &csvs.contexts[h].cells;
                let (c, r) = cells.w_cell;
                if !cells.has_cell_exec(c, r) {
                    self.abort("index out of bounds");
                    return;
                }
                let idx = cells.columns[c].indices[r];
                if cells.columns[c].cells[idx].content.unicode_len() >= usize::MAX / 2 {
                    self.abort("capacity overflow");
                    return;
                }
                proof {
                    assert(cells.columns@[c as int].wf());
                }
                self.set_write_buffer_w_cell(&cells.columns[c].cells[idx]);
                self.set_write_mode(true);
                self.changed = crate::terminal::WinChange::Write;
            },
            Key::DeleteCell => {
                let cells = csvs.get_cells();
                let (c, r) = cells.w_cell;
                if !cells.has_cell_exec(c, r) {
                    self.abort("index out of bounds");
                    return;
                }
                let cell = cells.w_cell();
                self.set_yanked(cell);
                cell.content = String::new();
                let ghost new_cell = *cell;
                cells.written = true;
                let ghost c1 = *cells;
                proof {
                    assert(crate::cells::cell_replaced(shown_cells(k0).columns@, c1.columns@, c as int, r as int, new_cell));
                    assert(focused_text_set(shown_cells(k0), c1, Seq::empty()));
                    assert forall|k: int| 0 <= k < c1.columns@.len() implies (#[trigger] c1.columns@[k]).wf() by {
                        assert(shown_cells(k0).columns@[k].wf());
                        if k != c {
                            assert(c1.columns@[k] == shown_cells(k0).columns@[k]);
                        }
                    }
                }
                self.push_yank_report("yanked");
                self.draw_focus(cells);
                proof {
                    crate::dispatch::lemma_sheets_wf_set(k0, *csvs);
                }
                self.flush_live();
            },
            Key::Yank => {
                let h = csvs.handle;
                let cells = &csvs.contexts[h].cells;
                let (c, r) = cells.w_cell;
                if !cells.has_cell_exec(c, r) {
                    self.abort("index out of bounds");
                    return;
                }
                let idx = cells.columns[c].indices[r];
                proof {
                    assert(cells.columns@[c as int].wf());
                }
                self.set_yanked(&cells.columns[c].cells[idx]);
                self.push_yank_report("yanked");
                self.flush();
            },
            Key::Paste => {
                if self.yanked.unicode_len() == 0 {
                    crate::terminal::push_line_start(&mut self.frame, self.height);
                    push_text(&mut self.frame, "Nothing has been yanked");
                    let ghost m = *self;
                    proof {
                        assert(m.frame@ =~= old(self).frame@ + crate::terminal::line_start_text(
                            old(self).height as nat,
                        ) + "Nothing has been yanked"@);
                        assert(crate::commands::bottom_set(*old(self), "Nothing has been yanked"@, m));
                    }
                    self.flush();
                    assert(crate::terminal::flushed(m, *self));
                    return;
                } else {
                    let cells = csvs.get_cells();
                    self.paste(cells);
                    proof {
                        if !(self.request is Abort) {
                            crate::dispatch::lemma_sheets_wf_set(k0, *csvs);
                        }
                    }
                    if self.is_aborted() {
                        return;
                    }
                    self.push_yank_report("pasted");
                }
                self.flush();
            },
            Key::Open => {
                self.display_focused_content(csvs);
            },
            Key::StartCommand => {
                let h = csvs.handle;
                let cells = &csvs.contexts[h].cells;
                if self.w_pointer >= cells.columns.len() {
                    self.abort("index out of bounds");
                    return;
                }
                self.set_command_mode(true, &cells.columns[self.w_pointer]);
            },
            _ => {},
        }
    }
}

/// Changing which sheet is shown keeps well-formed sheets well formed.
proof fn lemma_sheets_wf_same(k0: Csvs, k1: Csvs)
    requires
        crate::sheet_ops::sheets_wf(k0),
        k1.contexts@.len() == k0.contexts@.len(),
        k1.handle < k1.contexts@.len(),
        forall|i: int| 0 <= i < k0.contexts@.len() ==> (#[trigger] k1.contexts@[i]).cells == k0.contexts@[i].cells,
    ensures
        crate::sheet_ops::sheets_wf(k1),
{
    assert forall|i: int| 0 <= i < k1.contexts@.len() implies (#[trigger] k1.contexts@[i]).cells.wf() by {
        assert(k0.contexts@[i].cells.wf());
    }
}

/// What `display_focused_content` does: the whole text of the focused cell
/// of the shown sheet, control characters as spaces, goes on the bottom
/// line and the frame is sent.
pub open spec fn focused_shown(s0: WinInfo, k0: Csvs, s1: WinInfo) -> bool {
    let c = shown_cells(k0);
    if !c.has_cell(c.w_cell.0, c.w_cell.1) {
        s1.request is Abort
    } else {
        let t = focused_text(c);
        exists|m: WinInfo|
            #[trigger] crate::commands::bottom_set(s0, safe_prefix(t, t.len()), m) && crate::terminal::flushed(m, s1)
    }
}

/// The window after a view shift moved the offset of `s0` to `n` (rows
/// when `rows`, else columns): as `set_h_offset` or `set_w_offset` leaves
/// it, or stopped when that overflows.
pub open spec fn offset_moved(s0: WinInfo, rows: bool, n: usize, s1: WinInfo) -> bool {
    let m = if rows {
        crate::terminal::moved_h_offset(s0, n)
    } else {
        crate::terminal::moved_w_offset(s0, n)
    };
    match m {
        Some(w) => s1 == w,
        None => s1.request is Abort,
    }
}

/// The text view `off` moved one character right (`right`) or left.
pub open spec fn stepped_offset(right: bool, off: usize) -> usize {
    if right {
        (off + 1) as usize
    } else {
        crate::cells::sat_sub(off, 1)
    }
}

/// The sheet `c1` is `c0` with the focused cell's text view set to `v`, at
/// most so far that the text's end still fills the cell.
pub open spec fn text_view_set(c0: Cells, c1: Cells, v: usize) -> bool {
    let cell = focused_cell(c0);
    &&& crate::cells::cell_replaced(
        c0.columns@,
        c1.columns@,
        c0.w_cell.0 as int,
        c0.w_cell.1 as int,
        Cell {
            text_offset: crate::cells::min_usize(v, crate::cells::sat_sub(cell.content@.len() as usize, cell.width)),
            ..cell
        },
    )
    &&& c1 == (Cells { columns: c1.columns, ..c0 })
}

/// The width `width` one wider (`wider`) or one narrower.
pub open spec fn stepped_width(wider: bool, width: usize) -> usize {
    if wider {
        (width + 1) as usize
    } else {
        crate::cells::sat_sub(width, 1)
    }
}

/// What alt with right (`right`) or left does: the focused cell's text
/// view moves by one character, at most so far that the text's end still
/// fills the cell.
pub open spec fn text_scrolled(right: bool, s0: WinInfo, k0: Csvs, s1: WinInfo, k1: Csvs) -> bool {
    let c0 = shown_cells(k0);
    let (c, r) = c0.w_cell;
    if !c0.has_cell(c, r) {
        s1.request is Abort
    } else {
        let cell = focused_cell(c0);
        let off = cell.text_offset;
        if right && off == usize::MAX {
            s1.request is Abort
        } else {
            exists|c1: Cells|
                {
                    &&& #[trigger] text_view_set(c0, c1, stepped_offset(right, off))
                    &&& crate::sheet_ops::shown_sheet_set(k0, c1, k1)
                    &&& s1 == (WinInfo { changed: crate::terminal::WinChange::Cell, ..s0 })
                }
        }
    }
}

/// What ctrl+shift with right (`wider`) or left does: the focused column
/// gets one character wider, when it still fits in the window, or one
/// narrower (at least 3).
pub open spec fn width_changed(wider: bool, s0: WinInfo, k0: Csvs, s1: WinInfo, k1: Csvs) -> bool {
    let c0 = shown_cells(k0);
    let c = c0.w_cell.0 as int;
    if c >= c0.columns@.len() || c >= c0.col_ids@.len() || c >= c0.header@.len() {
        s1.request is Abort
    } else {
        let width = c0.columns@[c].width;
        let start = c0.columns@[c].start;
        if wider && width == usize::MAX {
            s1.request is Abort
        } else if wider && !(start < s0.width && width + 1 < s0.width && start + width + 1 + 3 < s0.width) {
            s1 == s0 && crate::sheet_ops::shown_sheet_set(k0, c0, k1)
        } else {
            exists|c1: Cells|
                {
                    &&& #[trigger] crate::cells::column_width_set(c0, stepped_width(wider, width), c1)
                    &&& crate::sheet_ops::shown_sheet_set(k0, c1, k1)
                    &&& s1 == (WinInfo { changed: crate::terminal::WinChange::ColWidth, ..s0 })
                }
        }
    }
}

/// What an arrow `d` with the modifier `m` does in scroll mode: shift
/// (`50`) makes the arrows shift the view by one, ctrl (`53`) move the
/// pointer by a page, alt (`51`) scroll the focused cell's text; up and down
/// then act on rows, and left and right on columns, or on the text; with
/// ctrl+shift (`54`) left and right change the focused column's width.
pub open spec fn modified_done(m: u8, d: u8, s0: WinInfo, k0: Csvs, s1: WinInfo, k1: Csvs) -> bool {
    let mode = if m == 50u8 {
        crate::terminal::ScrollMode::Axis
    } else if m == 51u8 {
        crate::terminal::ScrollMode::Text
    } else if m == 53u8 {
        crate::terminal::ScrollMode::Page
    } else {
        s0.scroll_mode
    };
    let sm = WinInfo { scroll_mode: mode, ..s0 };
    if d == 65u8 {
        match mode {
            crate::terminal::ScrollMode::Axis => if s0.num_rows == 0 {
                s1.request is Abort
            } else {
                offset_moved(sm, true, crate::cells::sat_sub(s0.h_offset, 1), s1) && k1 == k0
            },
            crate::terminal::ScrollMode::Page => if s0.num_rows == 0 {
                s1.request is Abort
            } else {
                pointer_moved(sm, true, crate::cells::sat_sub(s0.h_pointer, s0.h_page), s1) && k1 == k0
            },
            _ => s1 == sm && k1 == k0,
        }
    } else if d == 66u8 {
        match mode {
            crate::terminal::ScrollMode::Axis => if s0.num_rows == 0 {
                s1.request is Abort
            } else {
                offset_moved(sm, true, (s0.h_offset + 1) as usize, s1) && k1 == k0
            },
            crate::terminal::ScrollMode::Page => if s0.num_rows == 0 || s0.h_pointer + s0.h_page > usize::MAX {
                s1.request is Abort
            } else {
                pointer_moved(sm, true, (s0.h_pointer + s0.h_page) as usize, s1) && k1 == k0
            },
            _ => s1 == sm && k1 == k0,
        }
    } else if (d == 67u8 || d == 68u8) && m != 54u8 {
        match mode {
            crate::terminal::ScrollMode::Axis => if d == 67u8 {
                offset_moved(sm, false, (s0.w_offset + 1) as usize, s1) && k1 == k0
            } else {
                offset_moved(sm, false, crate::cells::sat_sub(s0.w_offset, 1), s1) && k1 == k0
            },
            crate::terminal::ScrollMode::Page => if d == 67u8 {
                if s0.w_pointer + s0.w_page > usize::MAX {
                    s1.request is Abort
                } else {
                    pointer_moved(sm, false, (s0.w_pointer + s0.w_page) as usize, s1) && k1 == k0
                }
            } else {
                pointer_moved(sm, false, crate::cells::sat_sub(s0.w_pointer, s0.w_page), s1) && k1 == k0
            },
            crate::terminal::ScrollMode::Cell => s1 == sm && k1 == k0,
            crate::terminal::ScrollMode::Text => text_scrolled(d == 67u8, sm, k0, s1, k1),
        }
    } else if d == 67u8 || d == 68u8 {
        width_changed(d == 67u8, s0, k0, s1, k1)
    } else {
        s1 == sm && k1 == k0
    }
}

impl WinInfo {
    /// Shows the whole text of the focused cell on the bottom line (control
    /// characters as spaces) and sends the frame.
    pub fn display_focused_content(&mut self, csvs: &mut Csvs)
        requires
            old(self).wf(),
            crate::sheet_ops::sheets_wf(*old(csvs)),
        ensures
            final(self).wf(),
            *final(csvs) == *old(csvs),
            focused_shown(*old(self), *old(csvs), *final(self)),
    {
        let h = csvs.handle;
        let cells = &csvs.contexts[h].cells;
        let (c, r) = cells.w_cell;
        if !cells.has_cell_exec(c, r) {
            self.abort("index out of bounds");
            return;
        }
        proof {
            assert(cells.columns@[c as int].wf());
        }
        let idx = cells.columns[c].indices[r];
        let content = cells.columns[c].cells[idx].content.as_str();
        let n = content.unicode_len();
        let t = WinInfo::terminal_safe_prefix(content, n);
        self.push_bottom(t.as_str());
        let ghost m = *self;
        self.flush();
        assert(content@ == focused_text(shown_cells(*old(csvs))));
        assert(crate::commands::bottom_set(*old(self), safe_prefix(content@, content@.len()), m));
    }

    /// An arrow with a modifier: shift (`50`) scrolls the view, alt (`51`)
    /// scrolls the focused cell's text, ctrl (`53`) moves by a page, and
    /// ctrl+shift (`54`) changes the focused column's width.
    #[verifier::rlimit(100)]
    fn modified_arrow(&mut self, m: u8, d: u8, csvs: &mut Csvs)
        requires
            ready(*old(self), *old(csvs)),
            !(old(self).request is Abort),
        ensures
            final(self).wf(),
            !(final(self).request is Abort) ==> crate::sheet_ops::sheets_wf(*final(csvs)),
            modified_done(m, d, *old(self), *old(csvs), *final(self), *final(csvs)),
    {
        let ghost k0 = *csvs;
        proof {
            assert(shown_cells(k0).wf());
        }
        let mut winch = false;
        if m == 50u8 {
            self.scroll_mode = crate::terminal::ScrollMode::Axis;
        } else if m == 51u8 {
            self.scroll_mode = crate::terminal::ScrollMode::Text;
        } else if m == 53u8 {
            self.scroll_mode = crate::terminal::ScrollMode::Page;
        } else if m == 54u8 {
            winch = true;
        }
        let ghost sm = *self;
        if d == 65u8 {
            match self.scroll_mode {
                crate::terminal::ScrollMode::Axis => {
                    if self.num_rows == 0 {
                        self.abort("attempt to subtract with overflow");
                        return;
                    }
                    self.set_h_offset(crate::cells::sat_sub_exec(self.h_offset, 1));
                },
                crate::terminal::ScrollMode::Page => {
                    if self.num_rows == 0 {
                        self.abort("attempt to subtract with overflow");
                        return;
                    }
                    self.set_h_pointer(crate::cells::sat_sub_exec(self.h_pointer, self.h_page));
                },
                _ => {},
            }
        } else if d == 66u8 {
            match self.scroll_mode {
                crate::terminal::ScrollMode::Axis => {
                    if self.num_rows == 0 {
                        self.abort("attempt to subtract with overflow");
                        return;
                    }
                    self.set_h_offset(self.h_offset + 1);
                },
                crate::terminal::ScrollMode::Page => {
                    if self.num_rows == 0 || self.h_pointer > usize::MAX - self.h_page {
                        self.abort("attempt to add with overflow");
                        return;
                    }
                    self.set_h_pointer(self.h_pointer + self.h_page);
                },
                _ => {},
            }
        } else if d == 67u8 || d == 68u8 {
            if winch {
                let cells = csvs.get_cells();
                let c = cells.w_cell.0;
                if c >= cells.columns.len() || c >= cells.col_ids.len() || c >= cells.header.len() {
                    self.abort("index out of bounds");
                    return;
                }
                let width = cells.columns[c].width;
                let start = cells.columns[c].start;
                let ghost c0 = *cells;
                if d == 67u8 {
                    if width == usize::MAX {
                        self.abort("attempt to add with overflow");
                        return;
                    }
                    let nw = width + 1;
                    if start < self.width && nw < self.width && start + nw + 3 < self.width {
                        cells.set_column_width(nw);
                        self.changed = crate::terminal::WinChange::ColWidth;
                        assert(crate::cells::column_width_set(c0, stepped_width(true, width), *cells));
                        assert(*self == (WinInfo { changed: crate::terminal::WinChange::ColWidth, ..*old(self) }));
                    }
                } else {
                    cells.set_column_width(crate::cells::sat_sub_exec(width, 1));
                    self.changed = crate::terminal::WinChange::ColWidth;
                    assert(crate::cells::column_width_set(c0, stepped_width(false, width), *cells));
                    assert(*self == (WinInfo { changed: crate::terminal::WinChange::ColWidth, ..*old(self) }));
                }
                let ghost c1 = *cells;
                proof {
                    assert forall|k: int| 0 <= k < c1.columns@.len() implies (#[trigger] c1.columns@[k]).wf() by {
                        let o = shown_cells(k0).columns@[k];
                        assert(o.wf());
                        assert(crate::cells::cells_model(c1.columns@[k].cells@).len() == c1.columns@[k].cells@.len());
                        assert(crate::cells::cells_model(o.cells@).len() == o.cells@.len());
                    }
                    crate::dispatch::lemma_sheets_wf_set(k0, *csvs);
                }
                assert(crate::sheet_ops::shown_sheet_set(k0, c1, *csvs));
                assert(width_changed(d == 67u8, *old(self), k0, *self, *csvs));
            } else {
                match self.scroll_mode {
                    crate::terminal::ScrollMode::Text => {
                        let cells = csvs.get_cells();
                        let (c, r) = cells.w_cell;
                        if !cells.has_cell_exec(c, r) {
                            self.abort("index out of bounds");
                            return;
                        }
                        let cell = cells.w_cell();
                        let off = cell.text_offset;
                        if d == 67u8 {
                            if off == usize::MAX {
                                self.abort("attempt to add with overflow");
                                return;
                            }
                            cell.set_text_offset(off + 1);
                        } else {
                            cell.set_text_offset(crate::cells::sat_sub_exec(off, 1));
                        }
                        let ghost new_cell = *cell;
                        proof {
                            let cl = focused_cell(shown_cells(k0));
                            let v = if d == 67u8 {
                                (off + 1) as usize
                            } else {
                                crate::cells::sat_sub(off, 1)
                            };
                            assert(new_cell == Cell {
                                text_offset: crate::cells::min_usize(
                                    v,
                                    crate::cells::sat_sub(cl.content@.len() as usize, cl.width),
                                ),
                                ..cl
                            });
                        }
                        self.changed = crate::terminal::WinChange::Cell;
                        let ghost c1 = *cells;
                        proof {
                            assert(crate::cells::cell_replaced(shown_cells(k0).columns@, c1.columns@, c as int, r as int, new_cell));
                            assert forall|k: int| 0 <= k < c1.columns@.len() implies (#[trigger] c1.columns@[k]).wf() by {
                                assert(shown_cells(k0).columns@[k].wf());
                                if k != c {
                                    assert(c1.columns@[k] == shown_cells(k0).columns@[k]);
                                }
                            }
                            crate::dispatch::lemma_sheets_wf_set(k0, *csvs);
                        }
                        assert(crate::sheet_ops::shown_sheet_set(k0, c1, *csvs));
                        assert(c1 == (Cells { columns: c1.columns, ..shown_cells(k0) }));
                        assert(*self == (WinInfo { changed: crate::terminal::WinChange::Cell, ..sm }));
                        assert(text_view_set(shown_cells(k0), c1, stepped_offset(d == 67u8, off)));
                        assert(text_scrolled(d == 67u8, sm, k0, *self, *csvs));
                    },
                    crate::terminal::ScrollMode::Axis => {
                        if d == 67u8 {
                            if self.w_offset == usize::MAX {
                                self.abort("attempt to add with overflow");
                                return;
                            }
                            self.set_w_offset(self.w_offset + 1);
                        } else {
                            self.set_w_offset(crate::cells::sat_sub_exec(self.w_offset, 1));
                        }
                    },
                    crate::terminal::ScrollMode::Page => {
                        if d == 67u8 {
                            if self.w_pointer > usize::MAX - self.w_page {
                                self.abort("attempt to add with overflow");
                                return;
                            }
                            self.set_w_pointer(self.w_pointer + self.w_page);
                        } else {
                            self.set_w_pointer(crate::cells::sat_sub_exec(self.w_pointer, self.w_page));
                        }
                    },
                    _ => {},
                }
            }
        }
    }
}

} // verus!

verus! {

/// The text of the focused cell of the sheet `c`.
pub open spec fn focused_text(c: Cells) -> Seq<char> {
    let (col, row) = c.w_cell;
    c.columns@[col as int].cells@[c.columns@[col as int].indices@[row as int] as int].content@
}

/// The buffer `f` is `o` with `t` typed at its cursor.
pub open spec fn typed_into(o: crate::terminal::WriteBuf, f: crate::terminal::WriteBuf, t: Seq<char>) -> bool {
    &&& f.text() == o.text().take(o.gap_start as int) + t + o.text().skip(o.gap_start as int)
    &&& f.gap_start == o.gap_start + t.len()
}

/// The buffer `f` is `o` with the character before its cursor removed (if
/// there is one).
pub open spec fn backspaced(o: crate::terminal::WriteBuf, f: crate::terminal::WriteBuf) -> bool {
    &&& o.gap_start == 0 ==> f.text() == o.text()
    &&& o.gap_start > 0 ==> f.text() == o.text().remove(o.gap_start - 1) && f.gap_start == o.gap_start - 1
}

/// Whether `n` more characters fit in the gap buffer and the cursor of `s`.
pub open spec fn typing_fits(s: WinInfo, n: nat) -> bool {
    &&& n < usize::MAX / 2
    &&& s.cursor.offset < usize::MAX - n
    &&& s.write_buffer.offset < usize::MAX - n
    &&& s.write_buffer.content_len < usize::MAX / 2 - n
}

/// Typing `t` into `s0` gives `s1`: when it fits, the step goes on with `t`
/// at the cursor; else it stops with the window as it was.
pub open spec fn typed_or_overflowed(s0: WinInfo, t: Seq<char>, s1: WinInfo) -> bool {
    if typing_fits(s0, t.len()) {
        !(s1.request is Abort) && typed_into(s0.write_buffer, s1.write_buffer, t)
    } else {
        s1 == overflowed(s0)
    }
}

/// `s0` with the step stopped because typed text would not fit.
pub open spec fn overflowed(s0: WinInfo) -> WinInfo {
    WinInfo { request: crate::terminal::Request::Abort("capacity overflow"), ..s0 }
}

/// The sheets `k1` are `k0` with the shown sheet marked as written.
pub open spec fn marked_written(k0: Csvs, k1: Csvs) -> bool {
    &&& k1.handle == k0.handle
    &&& k1.contexts@ == k0.contexts@.update(
        k0.handle as int,
        crate::cells::Context {
            cells: Cells { written: true, ..shown_cells(k0) },
            ..k0.contexts@[k0.handle as int]
        },
    )
}

impl WinInfo {
    /// Marks the shown sheet as written.
    fn mark_written(csvs: &mut Csvs)
        requires
            crate::sheet_ops::sheets_wf(*old(csvs)),
        ensures
            crate::sheet_ops::sheets_wf(*final(csvs)),
            marked_written(*old(csvs), *final(csvs)),
    {
        let ghost k0 = *csvs;
        csvs.get_cells().written = true;
        proof {
            assert(shown_cells(k0).wf());
            crate::dispatch::lemma_sheets_wf_set(k0, *csvs);
        }
    }

    /// Types the yanked text at the cursor, failing when it would not fit.
    fn paste_into_buffer(&mut self)
        requires
            old(self).wf(),
            !(old(self).request is Abort),
        ensures
            final(self).wf(),
            !(final(self).request is Abort) ==> typed_into(
                old(self).write_buffer,
                final(self).write_buffer,
                old(self).yanked@,
            ),
            typing_fits(*old(self), old(self).yanked@.len()) <==> !(final(self).request is Abort),
            !typing_fits(*old(self), old(self).yanked@.len()) ==> *final(self) == overflowed(*old(self)),
    {
        let n = self.yanked.unicode_len();
        if n >= usize::MAX / 2 || self.cursor.offset >= usize::MAX - n || self.write_buffer.offset
            >= usize::MAX - n || self.write_buffer.content_len >= usize::MAX / 2 - n {
            self.abort("capacity overflow");
            return;
        }
        self.paste_yanked_to_write_buffer();
    }

    /// Types the text `s` at the cursor, failing when it would not fit.
    fn type_text(&mut self, s: &str)
        requires
            old(self).wf(),
            !(old(self).request is Abort),
        ensures
            final(self).wf(),
            !(final(self).request is Abort) ==> typed_into(
                old(self).write_buffer,
                final(self).write_buffer,
                s@,
            ),
            typing_fits(*old(self), s@.len()) <==> !(final(self).request is Abort),
            !typing_fits(*old(self), s@.len()) ==> *final(self) == overflowed(*old(self)),
    {
        let n = s.unicode_len();
        if n >= usize::MAX / 2 || self.cursor.offset >= usize::MAX - n || self.write_buffer.offset
            >= usize::MAX - n || self.write_buffer.content_len >= usize::MAX / 2 - n {
            self.abort("capacity overflow");
            return;
        }
        self.add_to_write_buffer(s);
    }

    /// The keys of write mode.
    #[verifier::rlimit(50)]
    fn write_key(&mut self, key: Key, input: &[u8], csvs: &mut Csvs)
        requires
            ready(*old(self), *old(csvs)),
            !(old(self).request is Abort),
            key == key_of(crate::terminal::InputMode::Write, input@),
        ensures
            final(self).wf(),
            !(final(self).request is Abort) ==> crate::sheet_ops::sheets_wf(*final(csvs)),
            key is Ignore ==> *final(self) == *old(self) && *final(csvs) == *old(csvs),
            key is Type && !(final(self).request is Abort) ==> typed_into(
                old(self).write_buffer,
                final(self).write_buffer,
                vstd::utf8::decode_utf8(input@),
            ) && marked_written(*old(csvs), *final(csvs)),
            key is PasteIntoBuffer && !(final(self).request is Abort) ==> typed_into(
                old(self).write_buffer,
                final(self).write_buffer,
                old(self).yanked@,
            ) && marked_written(*old(csvs), *final(csvs)),
            key is EndWrite && !(final(self).request is Abort) ==> final(self).input_mode
                == crate::terminal::InputMode::Scroll && focused_text(shown_cells(*final(csvs)))
                == old(self).write_buffer.text(),
            key is Backspace ==> backspaced(old(self).write_buffer, final(self).write_buffer)
                && marked_written(*old(csvs), *final(csvs)),
            key is Type ==> typed_or_overflowed(*old(self), vstd::utf8::decode_utf8(input@), *final(self)),
            key is PasteIntoBuffer ==> typed_or_overflowed(*old(self), old(self).yanked@, *final(self)),
            (key is Type && !typing_fits(*old(self), vstd::utf8::decode_utf8(input@).len())) || (key is PasteIntoBuffer
                && !typing_fits(*old(self), old(self).yanked@.len())) ==> *final(csvs) == *old(csvs),
            key is EndWrite ==> (!(final(self).request is Abort) <==> shown_cells(*old(csvs)).has_cell(
                shown_cells(*old(csvs)).w_cell.0,
                shown_cells(*old(csvs)).w_cell.1,
            )),
            write_keyed(key, input@, *old(self), *old(csvs), *final(self), *final(csvs)),
    {
        let ghost k0 = *csvs;
        match key {
            Key::Right => {
                if self.cursor.offset == usize::MAX || self.write_buffer.offset == usize::MAX {
                    self.abort("attempt to add with overflow");
                    return;
                }
                self.move_cursor_right();
                let ghost m = *self;
                assert(cursor_moved(*old(self), true, m));
                self.changed = crate::terminal::WinChange::Write;
            },
            Key::Left => {
                self.move_cursor_left();
                let ghost m = *self;
                assert(cursor_moved(*old(self), false, m));
                self.changed = crate::terminal::WinChange::Write;
            },
            Key::PasteIntoBuffer => {
                self.paste_into_buffer();
                if self.is_aborted() {
                    return;
                }
                self.changed = crate::terminal::WinChange::Write;
                WinInfo::mark_written(csvs);
            },
            Key::EndWrite => {
                self.set_write_mode(false);
                let cells = csvs.get_cells();
                let (c, r) = cells.w_cell;
                proof {
                    assert(shown_cells(k0).wf());
                }
                if !cells.has_cell_exec(c, r) {
                    self.abort("index out of bounds");
                    return;
                }
                let cell = cells.w_cell();
                self.write_to_cell(cell);
                let ghost c1 = *cells;
                proof {
                    assert forall|k: int| 0 <= k < c1.columns@.len() implies (#[trigger] c1.columns@[k]).wf() by {
                        assert(shown_cells(k0).columns@[k].wf());
                        if k != c {
                            assert(c1.columns@[k] == shown_cells(k0).columns@[k]);
                        }
                    }
                    crate::dispatch::lemma_sheets_wf_set(k0, *csvs);
                }
            },
            Key::Backspace => {
                self.delete_from_write_buffer();
                self.changed = crate::terminal::WinChange::Write;
                WinInfo::mark_written(csvs);
            },
            Key::Type => {
                match utf8_text(input) {
                    Some(s) => {
                        proof {
                            vstd::utf8::encode_utf8_decode_utf8(s@);
                        }
                        self.type_text(s);
                        if self.is_aborted() {
                            return;
                        }
                        self.changed = crate::terminal::WinChange::Write;
                        WinInfo::mark_written(csvs);
                    },
                    None => {
                        self.report_invalid(input);
                    },
                }
            },
            Key::Invalid => {
                self.report_invalid(input);
            },
            _ => {},
        }
    }
}


impl WinInfo {
    /// The keys of command mode. `Enter` runs the typed command and, unless
    /// it asks a question on the bottom line, leaves command mode.
    #[verifier::rlimit(50)]
    fn command_key(&mut self, key: Key, input: &[u8], csvs: &mut Csvs) -> (r: crate::terminal::SigFlag)
        requires
            ready(*old(self), *old(csvs)),
            !(old(self).request is Abort),
            key == key_of(crate::terminal::InputMode::Command, input@),
        ensures
            final(self).wf(),
            !(final(self).request is Abort) ==> crate::sheet_ops::sheets_wf(*final(csvs)),
            r is Quit ==> key is Enter,
            !(key is Enter) ==> r is Non,
            key is Ignore ==> *final(self) == *old(self) && *final(csvs) == *old(csvs),
            !(key is Enter) ==> *final(csvs) == *old(csvs),
            key is Type && !(final(self).request is Abort) ==> typed_into(
                old(self).write_buffer,
                final(self).write_buffer,
                vstd::utf8::decode_utf8(input@),
            ),
            key is PasteIntoBuffer && !(final(self).request is Abort) ==> typed_into(
                old(self).write_buffer,
                final(self).write_buffer,
                old(self).yanked@,
            ),
            key is Backspace ==> backspaced(old(self).write_buffer, final(self).write_buffer),
            key is Type ==> typed_or_overflowed(*old(self), vstd::utf8::decode_utf8(input@), *final(self)),
            key is PasteIntoBuffer ==> typed_or_overflowed(*old(self), old(self).yanked@, *final(self)),
            command_keyed(key, input@, *old(self), *old(csvs), *final(self), *final(csvs), r),
            key is Enter && crate::parse::tokens_ok(old(self).write_buffer.text(), ' ') ==> exists|
                toks: Seq<&str>,
                s1: WinInfo,
                k1: Csvs,
            |
                crate::dispatch::words_of(toks, old(self).write_buffer.text())
                    && #[trigger] crate::dispatch::line_done(toks, *old(self), *old(csvs), s1, k1, r),
    {
        let ghost k0 = *csvs;
        match key {
            Key::Right => {
                if self.cursor.offset == usize::MAX || self.write_buffer.offset == usize::MAX {
                    self.abort("attempt to add with overflow");
                    return crate::terminal::SigFlag::Non;
                }
                self.move_cursor_right();
                let ghost m = *self;
                assert(cursor_moved(*old(self), true, m));
                self.changed = crate::terminal::WinChange::Command;
            },
            Key::Left => {
                self.move_cursor_left();
                let ghost m = *self;
                assert(cursor_moved(*old(self), false, m));
                self.changed = crate::terminal::WinChange::Command;
            },
            Key::PasteIntoBuffer => {
                self.paste_into_buffer();
                if self.is_aborted() {
                    return crate::terminal::SigFlag::Non;
                }
                self.changed = crate::terminal::WinChange::Command;
            },
            Key::LeaveCommand => {
                crate::terminal::push_line_start(&mut self.frame, self.height);
                self.draw_focused_content();
                self.flush();
                if self.is_aborted() {
                    return crate::terminal::SigFlag::Non;
                }
                self.leave_command(csvs);
            },
            Key::Backspace => {
                self.delete_from_write_buffer();
                self.changed = crate::terminal::WinChange::Command;
            },
            Key::Enter => {
                let ghost s0 = *self;
                let r = self.process_command(csvs);
                let ghost s1 = *self;
                let ghost k1 = *csvs;
                proof {
                    if crate::parse::tokens_ok(s0.write_buffer.text(), ' ') {
                        let toks = choose|toks: Seq<&str>|
                            #[trigger] crate::dispatch::words_of(toks, s0.write_buffer.text())
                                && crate::dispatch::line_done(toks, s0, k0, s1, k1, r);
                        assert(crate::dispatch::line_done(toks, s0, k0, s1, k1, r));
                    }
                }
                if let crate::terminal::SigFlag::Quit = r {
                    return r;
                }
                if self.is_aborted() {
                    return r;
                }
                match self.prompt {
                    crate::terminal::Prompt::Non => {
                        proof {
                            assert(shown_cells(*csvs).wf());
                        }
                        self.leave_command(csvs);
                    },
                    _ => {},
                }
                return r;
            },
            Key::Type => {
                match utf8_text(input) {
                    Some(s) => {
                        proof {
                            vstd::utf8::encode_utf8_decode_utf8(s@);
                        }
                        self.type_text(s);
                        if self.is_aborted() {
                            return crate::terminal::SigFlag::Non;
                        }
                        self.changed = crate::terminal::WinChange::Command;
                    },
                    None => {
                        self.report_invalid(input);
                    },
                }
            },
            Key::Invalid => {
                self.report_invalid(input);
            },
            _ => {},
        }
        crate::terminal::SigFlag::Non
    }
}


/// What `resize` does: the window takes the size `width` by `height`, the
/// shown sheet is drawn again, then the tab line and the bottom line.
pub open spec fn resized(s0: WinInfo, k0: Csvs, width: usize, height: usize, s3: WinInfo, k3: Csvs) -> bool {
    exists|s2: WinInfo, d2: Cells|
        #[trigger] crate::render::screen_drawn(
            WinInfo { width, height, ..s0 },
            shown_cells(k0),
            s2,
            d2,
        ) && crate::sheet_ops::tabs_and_bottom(s2, k0, d2, s3, k3)
}

/// The first `width` characters of `t` (all of it when it is shorter).
pub open spec fn width_prefix(t: Seq<char>, width: usize) -> Seq<char> {
    if t.len() < width {
        t
    } else {
        t.take(width as int)
    }
}

/// The sheets `k1` are `k0` with the shown sheet no longer marked as
/// written.
pub open spec fn marked_saved(k0: Csvs, k1: Csvs) -> bool {
    &&& k1.handle == k0.handle
    &&& k1.contexts@ == k0.contexts@.update(
        k0.handle as int,
        crate::cells::Context {
            cells: Cells { written: false, ..shown_cells(k0) },
            ..k0.contexts@[k0.handle as int]
        },
    )
}

impl WinInfo {
    /// The terminal now has `width` columns and `height` lines: draws the
    /// sheet, the tab line and the bottom line for that size.
    pub fn resize(&mut self, width: usize, height: usize, csvs: &mut Csvs)
        requires
            ready(*old(self), *old(csvs)),
            !(old(self).request is Abort),
            width <= 65535,
            height <= 65535,
        ensures
            final(self).wf(),
            !(final(self).request is Abort) ==> crate::sheet_ops::sheets_wf(*final(csvs)),
            resized(*old(self), *old(csvs), width, height, *final(self), *final(csvs)),
    {
        let ghost k0 = *csvs;
        proof {
            assert(shown_cells(k0).wf());
        }
        self.width = width;
        self.height = height;
        let ghost s0 = *self;
        let cells = csvs.get_cells();
        self.draw_screen(cells);
        let ghost s2 = *self;
        let ghost d2 = *cells;
        let ghost k2 = *csvs;
        proof {
            assert(crate::sheet_ops::shown_sheet_set(k0, d2, k2));
        }
        if self.is_aborted() {
            assert(crate::sheet_ops::tabs_and_bottom(s2, k0, d2, *self, *csvs));
            return;
        }
        proof {
            crate::dispatch::lemma_sheets_wf_set(k0, k2);
        }
        self.print_context(csvs);
        let ghost s4 = *self;
        if self.is_aborted() {
            assert(crate::sheet_ops::context_printed(s2, k2, s4));
            assert(crate::sheet_ops::tabs_and_bottom(s2, k0, d2, *self, *csvs));
            return;
        }
        self.draw_focused_content();
        let ghost m2 = *self;
        self.flush();
        proof {
            assert(crate::sheet_ops::context_printed(s2, k2, s4));
            assert(crate::terminal::bottom_drawn(s4, m2));
            assert(crate::sheet_ops::tabs_and_bottom(s2, k0, d2, *self, *csvs));
        }
    }

    /// The shown sheet was written to its file (`ok`) or could not be, as
    /// the report `msg` says: a written sheet is no longer marked as changed,
    /// and the report, cut to the window's width, goes on the bottom line.
    pub fn finish_save(&mut self, csvs: &mut Csvs, msg: &str, ok: bool)
        requires
            old(self).wf(),
            crate::sheet_ops::sheets_wf(*old(csvs)),
        ensures
            final(self).wf(),
            crate::sheet_ops::sheets_wf(*final(csvs)),
            ok ==> marked_saved(*old(csvs), *final(csvs)),
            !ok ==> *final(csvs) == *old(csvs),
            exists|m: WinInfo|
                #[trigger] crate::commands::bottom_set(
                    *old(self),
                    width_prefix(msg@, old(self).width),
                    m,
                ) && crate::terminal::flushed(m, *final(self)),
    {
        if ok {
            let ghost k0 = *csvs;
            csvs.get_cells().written = false;
            proof {
                assert(shown_cells(k0).wf());
                crate::dispatch::lemma_sheets_wf_set(k0, *csvs);
            }
        }
        let v = crate::text::to_chars(msg);
        let n = if v.len() < self.width {
            v.len()
        } else {
            self.width
        };
        let mut t = String::new();
        crate::text::push_range(&mut t, &v, 0, n);
        assert(v@.subrange(0, n as int) =~= msg@.take(n as int));
        self.push_bottom(t.as_str());
        let ghost m = *self;
        self.flush();
        assert(msg@.take(msg@.len() as int) =~= msg@);
        assert(crate::commands::bottom_set(*old(self), width_prefix(msg@, old(self).width), m));
    }
}


/// Whether the key `byte` confirms a question: `y` or `Y`.
pub open spec fn confirms(byte: u8) -> bool {
    byte == 121u8 || byte == 89u8
}

/// `s0` with its question taken off.
pub open spec fn without_prompt(s0: WinInfo) -> WinInfo {
    WinInfo { prompt: crate::terminal::Prompt::Non, ..s0 }
}

/// After a question was answered (giving `s2` and the sheets `k2`): unless
/// the step stopped or a question is still open, command mode is left.
pub open spec fn prompt_closed(s2: WinInfo, k2: Csvs, s1: WinInfo) -> bool {
    if s2.request is Abort || !(s2.prompt is Non) {
        s1 == s2
    } else {
        command_left(s2, k2, s1)
    }
}

/// What the key `byte` does to the question on the bottom line of `s0`:
/// `y` or `Y` confirms deleting the row or removing the column, any other
/// key declines; a search steps with `n` and `b` and ends on any other key.
/// Once the question is closed, command mode is left. Without a question
/// nothing changes.
pub open spec fn prompt_answered(byte: u8, s0: WinInfo, k0: Csvs, s1: WinInfo, k1: Csvs) -> bool {
    let yes = confirms(byte);
    let c0 = shown_cells(k0);
    let s0n = without_prompt(s0);
    match s0.prompt {
        crate::terminal::Prompt::Non => s1 == s0 && k1 == k0,
        crate::terminal::Prompt::DeleteRow => exists|s2: WinInfo, c2: Cells|
            {
                &&& #[trigger] crate::row_ops::confirm_delete_row_outcome(s0n, c0, yes, s2, c2)
                &&& crate::sheet_ops::shown_sheet_set(k0, c2, k1)
                &&& prompt_closed(s2, k1, s1)
            },
        crate::terminal::Prompt::RemoveColumn(name) => exists|s2: WinInfo, c2: Cells|
            {
                &&& #[trigger] crate::col_ops::confirm_remove_column_outcome(s0n, c0, yes, name@, s2, c2)
                &&& crate::sheet_ops::shown_sheet_set(k0, c2, k1)
                &&& prompt_closed(s2, k1, s1)
            },
        crate::terminal::Prompt::Find { .. } => exists|s2: WinInfo, c2: Cells|
            {
                &&& #[trigger] crate::find_ops::answer_find_outcome(s0, c0, byte, s2, c2)
                &&& crate::sheet_ops::shown_sheet_set(k0, c2, k1)
                &&& prompt_closed(s2, k1, s1)
            },
    }
}

impl WinInfo {
    /// Leaves command mode once the question is closed, unless the step
    /// stopped.
    fn close_prompt(&mut self, csvs: &mut Csvs)
        requires
            old(self).wf(),
            !(old(self).request is Abort) ==> crate::sheet_ops::sheets_wf(*old(csvs)),
            old(csvs).handle < old(csvs).contexts@.len(),
        ensures
            final(self).wf(),
            *final(csvs) == *old(csvs),
            prompt_closed(*old(self), *old(csvs), *final(self)),
    {
        if self.is_aborted() {
            return;
        }
        match self.prompt {
            crate::terminal::Prompt::Non => {
                self.leave_command(csvs);
            },
            _ => {},
        }
    }

    /// Answers the question on the bottom line with the key `byte`, then
    /// leaves command mode once the question is closed.
    #[verifier::rlimit(50)]
    pub fn answer_prompt(&mut self, csvs: &mut Csvs, byte: u8)
        requires
            ready(*old(self), *old(csvs)),
            !(old(self).request is Abort),
        ensures
            final(self).wf(),
            !(final(self).request is Abort) ==> crate::sheet_ops::sheets_wf(*final(csvs)),
            prompt_answered(byte, *old(self), *old(csvs), *final(self), *final(csvs)),
    {
        let ghost k0 = *csvs;
        proof {
            assert(shown_cells(k0).wf());
        }
        let yes = byte == 121u8 || byte == 89u8;
        let mut p = crate::terminal::Prompt::Non;
        std::mem::swap(&mut p, &mut self.prompt);
        assert(p == old(self).prompt);
        match p {
            crate::terminal::Prompt::Non => {
                assert(self.prompt == old(self).prompt);
                assert(*self == *old(self));
                return;
            },
            crate::terminal::Prompt::DeleteRow => {
                assert(old(self).prompt is DeleteRow);
                let ghost s0n = *self;
                assert(s0n == (WinInfo { prompt: crate::terminal::Prompt::Non, ..*old(self) }));
                self.confirm_delete_row(csvs.get_cells(), yes);
                proof {
                    assert(crate::row_ops::confirm_delete_row_outcome(s0n, shown_cells(k0), yes, *self, shown_cells(*csvs)));
                    assert(crate::sheet_ops::shown_sheet_set(k0, shown_cells(*csvs), *csvs));
                    if !(self.request is Abort) {
                        crate::dispatch::lemma_sheets_wf_set(k0, *csvs);
                    }
                }
                let ghost s2 = *self;
                let ghost c2 = shown_cells(*csvs);
                self.close_prompt(csvs);
                assert(crate::row_ops::confirm_delete_row_outcome(
                    without_prompt(*old(self)),
                    shown_cells(k0),
                    confirms(byte),
                    s2,
                    c2,
                ) && crate::sheet_ops::shown_sheet_set(k0, c2, *csvs)
                    && prompt_closed(s2, *csvs, *self));
                assert(prompt_answered(byte, *old(self), k0, *self, *csvs));
            },
            crate::terminal::Prompt::RemoveColumn(name) => {
                assert(old(self).prompt == crate::terminal::Prompt::RemoveColumn(name));
                let ghost s0n = *self;
                assert(s0n == (WinInfo { prompt: crate::terminal::Prompt::Non, ..*old(self) }));
                self.confirm_remove_column(csvs.get_cells(), yes, name.as_str());
                proof {
                    assert(crate::col_ops::confirm_remove_column_outcome(s0n, shown_cells(k0), yes, name@, *self, shown_cells(*csvs)));
                    assert(crate::sheet_ops::shown_sheet_set(k0, shown_cells(*csvs), *csvs));
                    if !(self.request is Abort) {
                        crate::dispatch::lemma_sheets_wf_set(k0, *csvs);
                    }
                }
                let ghost s2 = *self;
                let ghost c2 = shown_cells(*csvs);
                self.close_prompt(csvs);
                assert(crate::col_ops::confirm_remove_column_outcome(
                    without_prompt(*old(self)),
                    shown_cells(k0),
                    confirms(byte),
                    name@,
                    s2,
                    c2,
                ) && crate::sheet_ops::shown_sheet_set(k0, c2, *csvs)
                    && prompt_closed(s2, *csvs, *self));
                assert(prompt_answered(byte, *old(self), k0, *self, *csvs));
            },
            crate::terminal::Prompt::Find { rows, idx, mess, diff } => {
                self.prompt = crate::terminal::Prompt::Find { rows, idx, mess, diff };
                assert(*self == *old(self));
                self.answer_find(csvs.get_cells(), byte);
                proof {
                    assert(crate::find_ops::answer_find_outcome(*old(self), shown_cells(k0), byte, *self, shown_cells(*csvs)));
                    assert(crate::sheet_ops::shown_sheet_set(k0, shown_cells(*csvs), *csvs));
                    if !(self.request is Abort) {
                        crate::dispatch::lemma_sheets_wf_set(k0, *csvs);
                    }
                }
                let ghost s2 = *self;
                let ghost c2 = shown_cells(*csvs);
                self.close_prompt(csvs);
                assert(crate::find_ops::answer_find_outcome(*old(self), shown_cells(k0), byte, s2, c2) && crate::sheet_ops::shown_sheet_set(k0, c2, *csvs)
                    && prompt_closed(s2, *csvs, *self));
                assert(prompt_answered(byte, *old(self), k0, *self, *csvs));
            },
        }
    }
}

} // verus!
