use csview::backup::{backup_file_name, first_backup_name, following_backup_name, oldest_backups, stale_backups};
use csview::cells::Cells;
use csview::csv_io::{int_to_base_26, load_csv_text, make_col_ids, parse_csv_into_cells, sheet_file_text};

fn sheet(text: &str) -> Cells {
    parse_csv_into_cells("t.csv".to_string(), text, ',').unwrap()
}

fn row_text(c: &Cells, col: usize, row: usize) -> String {
    let column = &c.columns[col];
    column.cells[column.indices[row]].content.clone()
}

#[test]
fn base26_ids_of_single_letters() {
    assert_eq!(int_to_base_26(0), "A");
    assert_eq!(int_to_base_26(1), "B");
    assert_eq!(int_to_base_26(25), "Z");
}

#[test]
fn base26_ids_carry_into_more_letters() {
    assert_eq!(int_to_base_26(26), "AA");
    assert_eq!(int_to_base_26(27), "AB");
    assert_eq!(int_to_base_26(701), "ZZ");
    assert_eq!(int_to_base_26(702), "AAA");
}

#[test]
fn base26_ids_of_distinct_numbers_differ() {
    let mut seen: Vec<String> = Vec::new();
    for n in 0..2000u32 {
        let id = int_to_base_26(n);
        assert!(!seen.contains(&id));
        seen.push(id);
    }
}

#[test]
fn col_ids_name_each_column() {
    let ids = make_col_ids(3);
    assert_eq!(ids.len(), 3);
    assert_eq!(ids[0].content, "A");
    assert_eq!(ids[1].content, "B");
    assert_eq!(ids[2].content, "C");
}

#[test]
fn loading_gives_header_and_rows_after_the_blank_block() {
    let c = sheet("a,b\n1,2\n3,4");
    assert_eq!(c.header.len(), 2);
    assert_eq!(c.header[0].content, "a");
    assert_eq!(c.header[1].content, "b");
    assert_eq!(c.columns.len(), 2);
    assert_eq!(c.columns[0].cells.len(), 258);
    assert_eq!(row_text(&c, 0, 0), "");
    assert_eq!(row_text(&c, 0, 255), "");
    assert_eq!(row_text(&c, 0, 256), "1");
    assert_eq!(row_text(&c, 1, 256), "2");
    assert_eq!(row_text(&c, 0, 257), "3");
    assert_eq!(row_text(&c, 1, 257), "4");
    assert_eq!(c.w_cell, (0, 0));
    assert!(!c.written);
    assert_eq!(c.filename, "t.csv");
}

#[test]
fn loading_a_header_alone_gives_one_blank_row() {
    let c = sheet("x,y");
    assert_eq!(c.columns.len(), 2);
    assert_eq!(c.columns[0].cells.len(), 257);
    assert_eq!(row_text(&c, 1, 256), "");
}

#[test]
fn loading_refuses_a_row_shorter_than_the_header() {
    assert!(parse_csv_into_cells("t.csv".to_string(), "a,b\n1", ',').is_none());
}

#[test]
fn loading_with_another_delimiter() {
    let c = parse_csv_into_cells("t.tsv".to_string(), "a\tb\n1\t2", '\t').unwrap();
    assert_eq!(c.header[1].content, "b");
    assert_eq!(row_text(&c, 1, 256), "2");
}

#[test]
fn file_text_reads_carriage_returns_as_spaces() {
    let c = load_csv_text("t.csv".to_string(), "a,b\r\n1,2", ',').unwrap();
    assert_eq!(c.header[0].content, "a");
    assert_eq!(c.header[1].content, "b ");
    assert_eq!(row_text(&c, 1, 256), "2");
}

#[test]
fn written_text_has_header_then_rows() {
    let c = sheet("a,b\n1,2");
    let t = sheet_file_text(&c).unwrap();
    let mut expected = String::from("a,b\n");
    for _ in 0..256 {
        expected.push_str(",\n");
    }
    expected.push_str("1,2");
    assert_eq!(t, expected);
}

#[test]
fn written_text_quotes_fields_holding_the_delimiter() {
    let mut c = sheet("a,b\n1,2");
    let idx = c.columns[0].indices[256];
    c.columns[0].cells[idx].content = "1,5".to_string();
    let t = sheet_file_text(&c).unwrap();
    assert!(t.ends_with("\"1,5\",2"));
    assert!(t.starts_with("a,b\n"));
}

#[test]
fn sheet_without_columns_is_not_written() {
    let mut c = sheet("a\n1");
    c.columns.clear();
    assert!(sheet_file_text(&c).is_none());
}

#[test]
fn backups_keep_the_newest_ten() {
    assert_eq!(stale_backups(0), 0);
    assert_eq!(stale_backups(9), 0);
    assert_eq!(stale_backups(10), 1);
    assert_eq!(stale_backups(15), 6);
}

#[test]
fn backup_names() {
    assert_eq!(backup_file_name("data", 1700000000, "csv"), "data_1700000000.csv");
    assert_eq!(following_backup_name("data_41", "csv").unwrap(), "data_42.csv");
    assert_eq!(following_backup_name("my_data_7", "csv").unwrap(), "my_8.csv");
    assert_eq!(following_backup_name("data", "csv").unwrap(), "data_1.csv");
    assert_eq!(following_backup_name("data_x", "csv").unwrap(), "data_1.csv");
    assert!(following_backup_name("data_18446744073709551615", "csv").is_none());
    assert_eq!(first_backup_name("data"), "data_0.data");
    assert_eq!(first_backup_name("data.tar"), "data_0.data");
}

#[test]
fn the_oldest_backups_go_by_time_stamp() {
    let stems: Vec<String> = [50u32, 10, 90, 30, 70, 20, 100, 40, 80, 60, 5, 110]
        .iter()
        .map(|t| format!("data_{}", t))
        .collect();
    let picked = oldest_backups(&stems);
    assert_eq!(picked.len(), 3);
    assert_eq!(stems[picked[0]], "data_5");
    assert_eq!(stems[picked[1]], "data_10");
    assert_eq!(stems[picked[2]], "data_20");
}

#[test]
fn few_backups_are_all_kept() {
    let stems: Vec<String> = (0..9).map(|t| format!("data_{}", t)).collect();
    assert!(oldest_backups(&stems).is_empty());
}
