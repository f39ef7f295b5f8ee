use timetable::table::{set_cell, TableError, TimetableData};

const SCHEDULE: &str = ",Mon,Tue\n9am,Math,Sci\n10am,Art,PE\n";

fn strings(v: &[&str]) -> Vec<String> {
    v.iter().map(|s| s.to_string()).collect()
}

#[test]
fn schedule_is_split_into_headers_slots_and_grid() {
    let t = TimetableData::load(SCHEDULE.as_bytes()).unwrap();
    assert_eq!(t.headers, strings(&["Mon", "Tue"]));
    assert_eq!(t.time_slots, strings(&["9am", "10am"]));
    assert_eq!(t.grid, vec![strings(&["Math", "Sci"]), strings(&["Art", "PE"])]);
}

#[test]
fn saving_a_cell_changes_only_that_cell() {
    let bytes = TimetableData::save(SCHEDULE.as_bytes(), 0, 1, "Bio".to_string()).unwrap().unwrap();
    assert_eq!(bytes, b",Mon,Tue\n9am,Math,Bio\n10am,Art,PE\n".to_vec());
    let t = TimetableData::load(&bytes).unwrap();
    assert_eq!(t.grid, vec![strings(&["Math", "Bio"]), strings(&["Art", "PE"])]);
    assert_eq!(t.headers, strings(&["Mon", "Tue"]));
    assert_eq!(t.time_slots, strings(&["9am", "10am"]));
}

#[test]
fn saved_value_with_delimiter_reads_back() {
    let bytes =
        TimetableData::save(SCHEDULE.as_bytes(), 1, 0, "Art, \"Music\"".to_string()).unwrap().unwrap();
    let t = TimetableData::load(&bytes).unwrap();
    assert_eq!(t.grid[1][0], "Art, \"Music\"");
    assert_eq!(t.grid[0], strings(&["Math", "Sci"]));
}

#[test]
fn saving_outside_the_grid_writes_nothing() {
    for (row, col) in [(2, 0), (0, 2), (usize::MAX, 0), (0, usize::MAX)] {
        let r = TimetableData::save(SCHEDULE.as_bytes(), row, col, "X".to_string()).unwrap();
        assert!(r.is_none());
    }
}

#[test]
fn empty_file_is_the_empty_error() {
    assert!(matches!(TimetableData::load(b""), Err(TableError::Empty)));
}

#[test]
fn unequal_records_are_kept() {
    let t = TimetableData::load(b",A,B\nt1,x\nt2\nt3,y,z,w\n").unwrap();
    assert_eq!(t.headers, strings(&["A", "B"]));
    assert_eq!(t.time_slots, strings(&["t1", "t2", "t3"]));
    assert_eq!(t.grid, vec![strings(&["x"]), vec![], strings(&["y", "z", "w"])]);
}

#[test]
fn saving_into_irregular_rows() {
    let content = b",A,B\nt1,x\nt2\nt3,y,z,w\n";
    let bytes = TimetableData::save(content, 2, 2, "Q".to_string()).unwrap().unwrap();
    assert_eq!(bytes, b",A,B\nt1,x\nt2\nt3,y,z,Q\n".to_vec());
    assert!(TimetableData::save(content, 0, 1, "Q".to_string()).unwrap().is_none());
    assert!(TimetableData::save(content, 1, 0, "Q".to_string()).unwrap().is_none());
}

#[test]
fn invalid_text_is_a_parse_error() {
    assert!(matches!(TimetableData::load(b"a,\xff\n"), Err(TableError::Parse(_))));
}

#[test]
fn header_only_file_has_no_rows() {
    let t = TimetableData::load(b",A,B,C\n").unwrap();
    assert_eq!(t.headers, strings(&["A", "B", "C"]));
    assert!(t.time_slots.is_empty());
    assert!(t.grid.is_empty());
}

#[test]
fn quoted_fields_are_read_whole() {
    let t = TimetableData::load(b"x,\"Mon, early\"\n\"9\nam\",\"say \"\"hi\"\"\"\n").unwrap();
    assert_eq!(t.headers, strings(&["Mon, early"]));
    assert_eq!(t.time_slots, strings(&["9\nam"]));
    assert_eq!(t.grid, vec![strings(&["say \"hi\""])]);
}

#[test]
fn records_without_records_are_empty_error() {
    assert!(matches!(TimetableData::from_records(&vec![]), Err(TableError::Empty)));
}

#[test]
fn empty_records_are_skipped() {
    let recs = vec![strings(&["", "A"]), vec![], strings(&["t1", "x"]), vec![], strings(&["t2"])];
    let t = TimetableData::from_records(&recs).unwrap();
    assert_eq!(t.headers, strings(&["A"]));
    assert_eq!(t.time_slots, strings(&["t1", "t2"]));
    assert_eq!(t.grid, vec![strings(&["x"]), vec![]]);
}

#[test]
fn empty_header_record_gives_no_headers() {
    let t = TimetableData::from_records(&vec![vec![], strings(&["t", "a"])]).unwrap();
    assert!(t.headers.is_empty());
    assert_eq!(t.grid, vec![strings(&["a"])]);
}

#[test]
fn set_cell_offsets_past_header_and_label() {
    let mut recs = vec![strings(&["", "Mon"]), strings(&["9am", "Math"])];
    assert!(set_cell(&mut recs, 0, 0, "Bio".to_string()));
    assert_eq!(recs, vec![strings(&["", "Mon"]), strings(&["9am", "Bio"])]);
    assert!(!set_cell(&mut recs, 1, 0, "X".to_string()));
    assert!(!set_cell(&mut recs, 0, 1, "X".to_string()));
    assert_eq!(recs, vec![strings(&["", "Mon"]), strings(&["9am", "Bio"])]);
}
