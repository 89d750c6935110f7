use csview::cells::{Cell, Cells, Column, Context, Csvs};
use csview::cmd_err::CmdErr;
use csview::csv_io::{make_col_ids, parse_csv_into_cells};
use csview::input::{classify, process_input, Key};
use csview::terminal::{check_flags, InputMode, Prompt, Request, SigFlag, WinInfo, WriteBuf};

fn setup(text: &str) -> (WinInfo, Csvs) {
    let cells = parse_csv_into_cells("t.csv".to_string(), text, ',').unwrap();
    let mut csvs = Csvs::new(vec![Context::new(0, cells)]);
    let mut w = WinInfo::with_size(80, 24);
    w.set_context(csvs.get_context());
    w.print_context(&mut csvs);
    w.show_csv(csvs.get_cells());
    (w, csvs)
}

fn text_at(c: &Cells, col: usize, row: usize) -> String {
    let column = &c.columns[col];
    column.cells[column.indices[row]].content.clone()
}

fn key(w: &mut WinInfo, csvs: &mut Csvs, bytes: &[u8]) -> SigFlag {
    let r = process_input(bytes, w, csvs);
    if !matches!(r, SigFlag::Quit) && !aborted(w) && matches!(w.prompt, Prompt::Non) {
        w.show_csv(csvs.get_cells());
    }
    r
}

fn aborted(w: &WinInfo) -> bool {
    matches!(w.request, Request::Abort(_))
}

#[test]
fn classify_scroll_keys() {
    assert!(matches!(classify(&InputMode::Scroll, b"5"), Key::Sheet(5)));
    assert!(matches!(classify(&InputMode::Scroll, &[27, 91, 65]), Key::Up));
    assert!(matches!(classify(&InputMode::Scroll, &[27, 91, 49, 59, 50, 67]), Key::Modified(50, 67)));
    assert!(matches!(classify(&InputMode::Scroll, &[19]), Key::Save));
    assert!(matches!(classify(&InputMode::Scroll, b":"), Key::StartCommand));
    assert!(matches!(classify(&InputMode::Scroll, b"z"), Key::Ignore));
}

#[test]
fn classify_text_and_bytes_that_are_not_text() {
    assert!(matches!(classify(&InputMode::Write, "é".as_bytes()), Key::Type));
    assert!(matches!(classify(&InputMode::Write, b"ab"), Key::Type));
    assert!(matches!(classify(&InputMode::Write, &[0xff]), Key::Invalid));
    assert!(matches!(classify(&InputMode::Command, &[0xc3]), Key::Invalid));
    assert!(matches!(classify(&InputMode::Write, &[23]), Key::EndWrite));
    assert!(matches!(classify(&InputMode::Write, &[5]), Key::Ignore));
}

#[test]
fn classify_command_keys() {
    assert!(matches!(classify(&InputMode::Command, &[13, 10]), Key::Enter));
    assert!(matches!(classify(&InputMode::Command, &[10]), Key::Enter));
    assert!(matches!(classify(&InputMode::Command, &[17]), Key::LeaveCommand));
    assert!(matches!(classify(&InputMode::Command, &[127]), Key::Backspace));
    assert!(matches!(classify(&InputMode::Command, &[27, 91, 72]), Key::Ignore));
}

#[test]
fn ignored_key_changes_nothing() {
    let (mut w, mut csvs) = setup("a,b\n1,2");
    let out = w.out.clone();
    let r = key(&mut w, &mut csvs, b"z");
    assert!(matches!(r, SigFlag::Non));
    assert_eq!(w.out, out);
}

#[test]
fn moving_down_moves_the_pointer() {
    let (mut w, mut csvs) = setup("a,b\n1,2");
    assert_eq!(w.h_pointer, 0);
    key(&mut w, &mut csvs, &[27, 91, 66]);
    assert_eq!(w.h_pointer, 1);
    key(&mut w, &mut csvs, &[27, 91, 67]);
    assert_eq!(w.w_pointer, 1);
    key(&mut w, &mut csvs, &[27, 91, 68]);
    assert_eq!(w.w_pointer, 0);
}

#[test]
fn typing_into_a_cell_stores_the_text() {
    let (mut w, mut csvs) = setup("a,b\n1,2");
    key(&mut w, &mut csvs, &[23]);
    assert_eq!(w.input_mode, InputMode::Write);
    key(&mut w, &mut csvs, b"hi");
    key(&mut w, &mut csvs, &[23]);
    assert_eq!(w.input_mode, InputMode::Scroll);
    assert!(!aborted(&w));
    let c = &csvs.contexts[0].cells;
    assert_eq!(text_at(c, 0, 0), "hi");
    assert!(c.written);
}

#[test]
fn editing_without_typing_keeps_the_text() {
    let (mut w, mut csvs) = setup("a,b\n1,2");
    for _ in 0..256 {
        key(&mut w, &mut csvs, &[27, 91, 66]);
    }
    assert_eq!(w.h_pointer, 256);
    key(&mut w, &mut csvs, &[23]);
    key(&mut w, &mut csvs, &[1]);
    assert_eq!(text_at(&csvs.contexts[0].cells, 0, 256), "1");
}

#[test]
fn backspace_removes_the_typed_character() {
    let (mut w, mut csvs) = setup("a,b\n1,2");
    key(&mut w, &mut csvs, &[23]);
    key(&mut w, &mut csvs, b"xy");
    key(&mut w, &mut csvs, &[127]);
    key(&mut w, &mut csvs, &[23]);
    assert_eq!(text_at(&csvs.contexts[0].cells, 0, 0), "x");
}

#[test]
fn invalid_bytes_are_reported() {
    let (mut w, mut csvs) = setup("a,b\n1,2");
    key(&mut w, &mut csvs, &[23]);
    key(&mut w, &mut csvs, &[0xff, 0x41]);
    assert!(w.out.contains("Invalid input [255, 65]"));
}

#[test]
fn yank_and_paste_copy_a_cell() {
    let (mut w, mut csvs) = setup("a,b\n1,2");
    for _ in 0..256 {
        key(&mut w, &mut csvs, &[27, 91, 66]);
    }
    key(&mut w, &mut csvs, b"y");
    assert_eq!(w.yanked, "1");
    key(&mut w, &mut csvs, &[27, 91, 67]);
    key(&mut w, &mut csvs, b"p");
    assert_eq!(text_at(&csvs.contexts[0].cells, 1, 256), "1");
}

#[test]
fn deleting_a_cell_yanks_its_text() {
    let (mut w, mut csvs) = setup("a,b\n1,2");
    for _ in 0..256 {
        key(&mut w, &mut csvs, &[27, 91, 66]);
    }
    key(&mut w, &mut csvs, b"d");
    assert_eq!(w.yanked, "1");
    assert_eq!(text_at(&csvs.contexts[0].cells, 0, 256), "");
}

#[test]
fn command_quit_ends_the_viewer() {
    let (mut w, mut csvs) = setup("a,b\n1,2");
    key(&mut w, &mut csvs, b":");
    assert_eq!(w.input_mode, InputMode::Command);
    key(&mut w, &mut csvs, b"q");
    let r = key(&mut w, &mut csvs, &[13]);
    assert!(matches!(r, SigFlag::Quit));
}

#[test]
fn unknown_command_is_reported_and_command_mode_left() {
    let (mut w, mut csvs) = setup("a,b\n1,2");
    key(&mut w, &mut csvs, b":");
    key(&mut w, &mut csvs, b"bogus");
    let r = key(&mut w, &mut csvs, &[13]);
    assert!(matches!(r, SigFlag::Non));
    assert!(w.out.contains("ERR: invalid command 'bogus'"));
    assert_eq!(w.input_mode, InputMode::Scroll);
}

#[test]
fn sorting_a_column_descending_then_reverting() {
    let (mut w, mut csvs) = setup("a,b\n1,x\n3,y\n2,z");
    w.process_line("col s r", &mut csvs);
    assert!(!aborted(&w));
    {
        let c = &csvs.contexts[0].cells;
        assert_eq!(text_at(c, 0, 0), "3");
        assert_eq!(text_at(c, 0, 1), "2");
        assert_eq!(text_at(c, 0, 2), "1");
        assert!(c.written);
    }
    w.process_line("col rv", &mut csvs);
    let c = &csvs.contexts[0].cells;
    assert_eq!(text_at(c, 0, 256), "1");
    assert_eq!(text_at(c, 0, 257), "3");
    assert_eq!(text_at(c, 0, 258), "2");
}

#[test]
fn numeric_sort_is_asked_for_and_finished_with_keys() {
    let (mut w, mut csvs) = setup("a\n10\n9");
    w.process_line("col s n", &mut csvs);
    assert!(matches!(w.request, Request::NumericSort { col: 0, desc: false, whole_sheet: false }));
    let n = csvs.contexts[0].cells.columns[0].cells.len();
    let mut keys: Vec<u32> = vec![2; n];
    keys[256] = 1;
    keys[257] = 0;
    w.finish_numeric_sort(csvs.get_cells(), &keys);
    assert!(matches!(w.request, Request::Non));
    let c = &csvs.contexts[0].cells;
    assert_eq!(text_at(c, 0, 0), "9");
    assert_eq!(text_at(c, 0, 1), "10");
}

#[test]
fn inserting_rows_adds_blank_rows() {
    let (mut w, mut csvs) = setup("a,b\n1,2");
    w.process_line("row i 2", &mut csvs);
    assert!(!aborted(&w));
    let c = &csvs.contexts[0].cells;
    assert_eq!(c.columns[0].indices.len(), 259);
    assert_eq!(c.columns[1].indices.len(), 259);
    assert_eq!(text_at(c, 0, 258), "1");
}

#[test]
fn deleting_a_row_waits_for_confirmation() {
    let (mut w, mut csvs) = setup("a,b\n1,2");
    w.process_line("row d", &mut csvs);
    assert!(matches!(w.prompt, Prompt::DeleteRow));
    w.confirm_delete_row(csvs.get_cells(), false);
    assert_eq!(csvs.contexts[0].cells.columns[0].indices.len(), 257);
    assert!(w.out.contains("Row 0000 was not deleted."));
}

#[test]
fn new_column_gets_the_next_id() {
    let (mut w, mut csvs) = setup("a,b\n1,2");
    w.process_line("col n c", &mut csvs);
    assert!(!aborted(&w));
    let c = &csvs.contexts[0].cells;
    assert_eq!(c.columns.len(), 3);
    assert_eq!(c.col_ids.len(), 3);
    assert_eq!(c.col_ids[2].content, "C");
}

#[test]
fn renaming_a_column() {
    let (mut w, mut csvs) = setup("a,b\n1,2");
    w.process_line("cn to name", &mut csvs);
    assert_eq!(csvs.contexts[0].cells.header[0].content, "name");
}

#[test]
fn fill_empty_cells_of_a_column() {
    let (mut w, mut csvs) = setup("a,b\n,2\n5,3");
    w.process_line("col fn 0", &mut csvs);
    let c = &csvs.contexts[0].cells;
    assert_eq!(text_at(c, 0, 256), "0");
    assert_eq!(text_at(c, 0, 257), "5");
    assert_eq!(text_at(c, 0, 0), "0");
}

#[test]
fn replace_in_a_column() {
    let (mut w, mut csvs) = setup("a,b\nfoo,2\nbar,3");
    w.process_line("col r o 0", &mut csvs);
    let c = &csvs.contexts[0].cells;
    assert_eq!(text_at(c, 0, 256), "f00");
    assert_eq!(text_at(c, 0, 257), "bar");
}

#[test]
fn sums_are_asked_for() {
    let (mut w, mut csvs) = setup("a,b\n1,2");
    w.process_line("col a", &mut csvs);
    assert!(matches!(w.request, Request::SumColumn(0)));
    w.request = Request::Non;
    w.process_line("row a", &mut csvs);
    assert!(matches!(w.request, Request::SumRow(0)));
}

#[test]
fn save_is_asked_for_and_finished() {
    let (mut w, mut csvs) = setup("a,b\n1,2");
    csvs.get_cells().written = true;
    key(&mut w, &mut csvs, &[19]);
    assert!(matches!(w.request, Request::Save));
    w.request = Request::Non;
    w.finish_save(&mut csvs, "Wrote t.csv to file", true);
    assert!(!csvs.contexts[0].cells.written);
    assert!(w.out.ends_with("\x1b[24;1H\x1b[2K\x1b[0mWrote t.csv to file"));
}

#[test]
fn failed_save_keeps_the_sheet_marked() {
    let (mut w, mut csvs) = setup("a,b\n1,2");
    csvs.get_cells().written = true;
    w.finish_save(&mut csvs, "denied", false);
    assert!(csvs.contexts[0].cells.written);
    assert!(w.out.ends_with("denied"));
}

#[test]
fn save_report_is_cut_to_the_width() {
    let (mut w, mut csvs) = setup("a,b\n1,2");
    let long: String = std::iter::repeat('x').take(100).collect();
    w.finish_save(&mut csvs, &long, true);
    let shown: String = std::iter::repeat('x').take(80).collect();
    assert!(w.out.ends_with(&format!("\x1b[0m{}", shown)));
}

#[test]
fn resizing_takes_the_new_size() {
    let (mut w, mut csvs) = setup("a,b\n1,2");
    w.resize(100, 30, &mut csvs);
    assert!(!aborted(&w));
    assert_eq!(w.width, 100);
    assert_eq!(w.height, 30);
}

#[test]
fn typing_then_deleting_leaves_the_buffer() {
    let mut b = WriteBuf::new(8);
    b.insert('a');
    b.insert('b');
    let before = b.as_string();
    b.insert('c');
    b.delete();
    assert_eq!(b.as_string(), before);
    assert_eq!(before, "ab");
}

#[test]
fn find_steps_through_matching_rows() {
    let (mut w, mut csvs) = setup("a\nx\ny\nx");
    w.process_line("col f x", &mut csvs);
    assert!(!aborted(&w));
    match &w.prompt {
        Prompt::Find { rows, .. } => {
            assert_eq!(rows.len(), 2);
            assert_eq!(rows[0], 256);
            assert_eq!(rows[1], 258);
        },
        _ => panic!("no find prompt"),
    }
    w.answer_find(csvs.get_cells(), b'q');
    assert!(matches!(w.prompt, Prompt::Non));
}

fn one_cell_sheet(text: &str) -> Csvs {
    let col = Column { cells: vec![Cell::new(text)], start: 0, width: 12, indices: vec![0], padding: 0 };
    let mut s = Cells::new("f.csv".to_string(), ',', vec![Cell::new("h")], make_col_ids(1), 1);
    s.push_column(col);
    s.set_w_cell(0, 0);
    Csvs::new(vec![Context::new(0, s)])
}

#[test]
fn delete_on_a_fresh_window_yanks_and_empties_the_cell() {
    let mut w = WinInfo::new();
    let mut csvs = one_cell_sheet("x");
    w.set_context(csvs.get_context());
    let r = process_input(&[100], &mut w, &mut csvs);
    assert!(matches!(r, SigFlag::Non));
    assert_eq!(w.yanked, "x");
    assert_eq!(csvs.get_cells().w_cell().content, "");
    assert!(csvs.get_cells().written);
}

#[test]
fn yank_on_a_fresh_window_replaces_the_yanked_text() {
    let mut w = WinInfo::new();
    w.set_yanked(&Cell::new("first"));
    let mut csvs = one_cell_sheet("second\tvalue");
    w.set_context(csvs.get_context());
    let r = process_input(&[121], &mut w, &mut csvs);
    assert!(matches!(r, SigFlag::Non));
    assert_eq!(w.yanked, "second\tvalue");
    assert_eq!(csvs.get_cells().w_cell().content, "second\tvalue");
    assert!(!csvs.get_cells().written);
}

#[test]
fn quoted_names_are_read_by_characters() {
    let c = parse_csv_into_cells("t.csv".to_string(), "é,b\n1,2", ',').unwrap();
    assert!(matches!(c.get_col_idx("'é'"), Ok(0)));
    assert!(matches!(c.get_col_idx("\"b\""), Ok(1)));
    assert!(matches!(c.get_col_idx("'x'"), Err(CmdErr::NoName("'x'"))));
    assert!(matches!(c.get_col_idx("B"), Ok(1)));
    assert!(matches!(c.get_col_idx("Q"), Err(CmdErr::NoId("Q"))));
}

#[test]
fn an_empty_buffer_can_have_no_room() {
    let b = WriteBuf::new(0);
    assert_eq!(b.as_string(), "");
    assert_eq!(b.data.len(), 0);
    assert_eq!(b.capacity, 0);
    assert_eq!(b.gap_len, 0);
    assert_eq!(b.window, 12);
}

#[test]
fn signals_are_taken_in_order() {
    assert!(matches!(check_flags(true, true, true), SigFlag::Winch));
    assert!(matches!(check_flags(false, true, true), SigFlag::Int));
    assert!(matches!(check_flags(false, false, true), SigFlag::Quit));
    assert!(matches!(check_flags(false, false, false), SigFlag::Non));
}

#[test]
fn typing_in_command_mode_and_backspace() {
    let (mut w, mut csvs) = setup("a,b\n1,2");
    key(&mut w, &mut csvs, b":");
    key(&mut w, &mut csvs, b"qx");
    key(&mut w, &mut csvs, &[127]);
    assert_eq!(w.write_buffer.as_string(), "q");
    let r = key(&mut w, &mut csvs, &[13]);
    assert!(matches!(r, SigFlag::Quit));
}

#[test]
fn leaving_command_mode_with_ctrl_q() {
    let (mut w, mut csvs) = setup("a,b\n1,2");
    key(&mut w, &mut csvs, b":");
    key(&mut w, &mut csvs, &[17]);
    assert_eq!(w.input_mode, InputMode::Scroll);
    assert!(!w.in_command);
}

#[test]
fn declining_a_row_deletion_leaves_command_mode() {
    let (mut w, mut csvs) = setup("a,b\n1,2");
    key(&mut w, &mut csvs, b":");
    key(&mut w, &mut csvs, b"row d");
    key(&mut w, &mut csvs, &[13]);
    assert!(matches!(w.prompt, Prompt::DeleteRow));
    assert_eq!(w.input_mode, InputMode::Command);
    w.answer_prompt(&mut csvs, b'n');
    assert!(matches!(w.prompt, Prompt::Non));
    assert_eq!(w.input_mode, InputMode::Scroll);
    assert_eq!(csvs.contexts[0].cells.columns[0].indices.len(), 257);
}

#[test]
fn confirming_a_row_deletion_removes_the_row() {
    let (mut w, mut csvs) = setup("a,b\n1,2\n3,4");
    for _ in 0..256 {
        key(&mut w, &mut csvs, &[27, 91, 66]);
    }
    key(&mut w, &mut csvs, b":");
    key(&mut w, &mut csvs, b"row d");
    key(&mut w, &mut csvs, &[13]);
    w.answer_prompt(&mut csvs, b'y');
    assert!(!aborted(&w));
    assert_eq!(w.input_mode, InputMode::Scroll);
    let c = &csvs.contexts[0].cells;
    assert_eq!(c.columns[0].cells.len() - c.columns[0].padding, 257);
    assert_eq!(text_at(c, 0, 256), "3");
}

#[test]
fn command_mode_arrows_move_the_cursor() {
    let (mut w, mut csvs) = setup("a,b\n1,2");
    key(&mut w, &mut csvs, b":");
    key(&mut w, &mut csvs, b"ab");
    assert_eq!(w.write_buffer.gap_start, 2);
    key(&mut w, &mut csvs, &[27, 91, 68]);
    assert_eq!(w.write_buffer.gap_start, 1);
    key(&mut w, &mut csvs, b"x");
    assert_eq!(w.write_buffer.as_string(), "axb");
    key(&mut w, &mut csvs, &[27, 91, 67]);
    assert_eq!(w.write_buffer.gap_start, 3);
}

#[test]
fn ctrl_shift_arrows_change_the_column_width() {
    let (mut w, mut csvs) = setup("a,b\n1,2");
    let before = csvs.contexts[0].cells.columns[0].width;
    key(&mut w, &mut csvs, &[27, 91, 49, 59, 54, 67]);
    assert_eq!(csvs.contexts[0].cells.columns[0].width, before + 1);
    key(&mut w, &mut csvs, &[27, 91, 49, 59, 54, 68]);
    key(&mut w, &mut csvs, &[27, 91, 49, 59, 54, 68]);
    assert_eq!(csvs.contexts[0].cells.columns[0].width, before - 1);
}
