use toopsqlite::codec::{decode, encode};
use toopsqlite::consts::{
    EMAIL_OFFSET, EMAIL_SIZE, ID_OFFSET, ID_SIZE, PAGE_SIZE, ROWS_PER_PAGE, ROW_SIZE,
    TABLE_MAX_PAGES, USERNAME_OFFSET, USERNAME_SIZE,
};
use toopsqlite::executor::{execute_stmt, ExecuteResult, ResultType};
use toopsqlite::parsing::{prepare_stmt, Row, StmtType};
use toopsqlite::table::pager::{read_at, write_at, Pager, PagerError};
use toopsqlite::table::{ExecuteError, Table};

fn field<const N: usize>(text: &str) -> [u8; N] {
    let mut out = [0u8; N];
    out[..text.len()].copy_from_slice(text.as_bytes());
    out
}

fn row(id: u32) -> Row {
    Row {
        id,
        username: field::<USERNAME_SIZE>(&format!("user{id}")),
        email: field::<EMAIL_SIZE>(&format!("user{id}@example.com")),
    }
}

fn table_of(count: u32) -> Table {
    let mut table = Table::db_open(Vec::new());
    for id in 1..=count {
        table.insert_row(&row(id)).unwrap();
    }
    table
}

fn scan(table: &mut Table) -> Vec<Row> {
    assert!(table.is_aligned());
    table.scan()
}

fn reopen(mut table: Table) -> Table {
    table.db_close();
    Table::db_open(table.file_bytes().clone())
}

#[test]
fn it_can_insert_and_read_a_single_statement() {
    let mut table = Table::db_open(Vec::new());
    let input = "insert 1 foo foo@bar.com";
    let insert_stmt = prepare_stmt(input).unwrap();
    execute_stmt(insert_stmt, &mut table).unwrap();
    let input = "select";
    let select_stmt = prepare_stmt(input).unwrap();
    let result = execute_stmt(select_stmt, &mut table).unwrap();
    let insert_stmt = prepare_stmt("insert 1 foo foo@bar.com").unwrap();
    match result.result_type {
        ResultType::Select(rows) => match insert_stmt.stmt_type {
            StmtType::Insert(row) => {
                assert_eq!(vec![*row], rows);
            }
            _ => unreachable!(),
        },
        _ => unreachable!(),
    }
}

#[test]
fn layout_constants() {
    assert_eq!(PAGE_SIZE, 4096);
    assert_eq!(ID_SIZE, 4);
    assert_eq!(USERNAME_SIZE, 32);
    assert_eq!(EMAIL_SIZE, 255);
    assert_eq!(ROW_SIZE, 291);
    assert_eq!(ROWS_PER_PAGE, 14);
    assert_eq!(TABLE_MAX_PAGES, 100);
    assert_eq!(ID_OFFSET, 0);
    assert_eq!(USERNAME_OFFSET, 4);
    assert_eq!(EMAIL_OFFSET, 36);
}

#[test]
fn encode_lays_out_the_fields() {
    let bytes = encode(&Row {
        id: 0x0403_0201,
        username: field::<USERNAME_SIZE>("foo"),
        email: field::<EMAIL_SIZE>("foo@bar.com"),
    });
    assert_eq!(bytes.len(), 291);
    // The identifier comes least significant byte first.
    assert_eq!(&bytes[0..4], &[1, 2, 3, 4]);
    assert_eq!(&bytes[4..7], b"foo");
    assert!(bytes[7..36].iter().all(|b| *b == 0));
    assert_eq!(&bytes[36..47], b"foo@bar.com");
    assert!(bytes[47..291].iter().all(|b| *b == 0));
}

#[test]
fn encode_is_little_endian_for_every_byte() {
    for id in [0u32, 1, 255, 256, 65535, 65536, 16777215, 16777216, 0xdead_beef, u32::MAX] {
        let bytes = encode(&row(id));
        assert_eq!(&bytes[0..4], &id.to_le_bytes());
    }
}

#[test]
fn decode_reads_at_the_offset() {
    let mut buffer = vec![0xAAu8; 7];
    buffer.extend_from_slice(&encode(&row(77)));
    buffer.extend_from_slice(&[0xBB; 5]);
    assert_eq!(decode(&buffer, 7), row(77));
    let mut raw = vec![0u8; ROW_SIZE];
    raw[0..4].copy_from_slice(&[0x78, 0x56, 0x34, 0x12]);
    raw[4] = b'x';
    raw[290] = b'z';
    let decoded = decode(&raw, 0);
    assert_eq!(decoded.id, 0x1234_5678);
    assert_eq!(decoded.username, field::<USERNAME_SIZE>("x"));
    assert_eq!(decoded.email[254], b'z');
}

#[test]
fn decode_of_encode_is_the_row() {
    let full = Row { id: u32::MAX, username: [0xFF; USERNAME_SIZE], email: [0x80; EMAIL_SIZE] };
    let empty = Row { id: 0, username: [0; USERNAME_SIZE], email: [0; EMAIL_SIZE] };
    for r in [row(1), row(4_000_000_000), full, empty] {
        assert_eq!(decode(&encode(&r), 0), r);
    }
}

#[test]
fn row_slot_is_the_same_each_time() {
    let table = Table::db_open(Vec::new());
    for n in [0usize, 1, 13, 14, 15, 1399, 1400, 123_456] {
        assert_eq!(table.row_slot(n), table.row_slot(n));
        assert_eq!(table.row_slot(n), (n / 14, (n % 14) * 291));
    }
}

#[test]
fn row_slots_of_the_first_page_and_the_next() {
    let table = Table::db_open(Vec::new());
    for n in 0..ROWS_PER_PAGE {
        assert_eq!(table.row_slot(n), (0, n * ROW_SIZE));
    }
    assert_eq!(table.row_slot(ROWS_PER_PAGE), (1, 0));
    assert_eq!(table.row_slot(13), (0, 3783));
    assert_eq!(table.row_slot(29), (2, 291));
}

#[test]
fn fourteen_rows_fill_the_first_page() {
    let mut table = Table::db_open(Vec::new());
    for id in 1..=14u32 {
        table.cursor_to_end();
        let (page_num, byte_offset) = table.cursor_val();
        assert_eq!(page_num, 0);
        assert_eq!(byte_offset, (id as usize - 1) * ROW_SIZE);
        table.insert_row(&row(id)).unwrap();
    }
    table.cursor_to_end();
    assert_eq!(table.cursor_val(), (1, 0));
    table.insert_row(&row(15)).unwrap();
    assert_eq!(table.num_rows(), 15);
    assert_eq!(table.get_row(1, 0), Ok(row(15)));
    assert_eq!(table.get_row(0, 13 * ROW_SIZE), Ok(row(14)));
}

#[test]
fn fresh_file_insert_close_reopen() {
    let mut table = Table::db_open(Vec::new());
    assert_eq!(table.num_rows(), 0);
    let inserted = Row {
        id: 1,
        username: field::<USERNAME_SIZE>("foo"),
        email: field::<EMAIL_SIZE>("foo@bar.com"),
    };
    table.insert_row(&inserted).unwrap();
    table.db_close();
    assert_eq!(table.file_bytes().len(), ROW_SIZE);
    let mut table = Table::db_open(table.file_bytes().clone());
    assert_eq!(table.num_rows(), 1);
    let rows = scan(&mut table);
    assert_eq!(rows, vec![inserted]);
    assert_eq!(rows[0].username[3..], [0u8; 29]);
    assert_eq!(rows[0].email[11..], [0u8; 244]);
}

#[test]
fn persisted_file_layout() {
    let mut table = table_of(16);
    table.db_close();
    let file = table.file_bytes();
    // One full page and two rows of the next.
    assert_eq!(file.len(), PAGE_SIZE + 2 * ROW_SIZE);
    for n in 0..16usize {
        let offset = (n / ROWS_PER_PAGE) * PAGE_SIZE + (n % ROWS_PER_PAGE) * ROW_SIZE;
        assert_eq!(&file[offset..offset + ROW_SIZE], &encode(&row(n as u32 + 1)));
    }
    // The padding after the rows of the first page.
    assert!(file[ROWS_PER_PAGE * ROW_SIZE..PAGE_SIZE].iter().all(|b| *b == 0));
}

#[test]
fn rows_survive_close_and_reopen() {
    for count in [0u32, 1, 13, 14, 15, 28, 100, 195, 196] {
        let mut table = table_of(count);
        let before = scan(&mut table);
        assert_eq!(before.len(), count as usize);
        let mut table = reopen(table);
        assert_eq!(table.num_rows(), count as usize);
        assert_eq!(scan(&mut table), before);
    }
}

#[test]
fn rows_survive_two_sessions() {
    let mut table = reopen(table_of(20));
    for id in 21..=40 {
        table.insert_row(&row(id)).unwrap();
    }
    let mut table = reopen(table);
    assert_eq!(table.num_rows(), 40);
    let expected: Vec<Row> = (1..=40).map(row).collect();
    assert_eq!(scan(&mut table), expected);
}

#[test]
fn untouched_pages_are_not_loaded_by_close() {
    let mut table = reopen(table_of(30));
    table.insert_row(&row(31)).unwrap();
    table.db_close();
    let mut table = Table::db_open(table.file_bytes().clone());
    let expected: Vec<Row> = (1..=31).map(row).collect();
    assert_eq!(scan(&mut table), expected);
}

#[test]
fn padding_adds_up_to_a_row_after_many_pages() {
    // The length of the file counts the padding of every page before the
    // last. From this many rows on it counts one row too many.
    let mut table = table_of(197);
    table.db_close();
    assert_eq!(table.file_bytes().len(), 14 * PAGE_SIZE + ROW_SIZE);
    let table = Table::db_open(table.file_bytes().clone());
    assert_eq!(table.num_rows(), 198);
    assert!(!table.is_aligned());
}

#[test]
fn table_full_at_the_row_cap() {
    let cap = (TABLE_MAX_PAGES * ROWS_PER_PAGE) as u32;
    let mut table = table_of(cap);
    assert_eq!(table.num_rows(), 1400);
    assert_eq!(table.insert_row(&row(cap + 1)), Err(ExecuteError::TableFull));
    assert_eq!(table.insert_row(&row(cap + 2)), Err(ExecuteError::TableFull));
    assert_eq!(table.num_rows(), 1400);
    let expected: Vec<Row> = (1..=cap).map(row).collect();
    assert_eq!(scan(&mut table), expected);
    let stmt = prepare_stmt("insert 9 a b").unwrap();
    assert_eq!(execute_stmt(stmt, &mut table), Err(ExecuteError::TableFull));
}

#[test]
fn execute_insert_then_select() {
    let mut table = Table::db_open(Vec::new());
    let result = execute_stmt(prepare_stmt("insert 3 a b").unwrap(), &mut table).unwrap();
    assert_eq!(result, ExecuteResult { result_type: ResultType::Insert });
    let result = execute_stmt(prepare_stmt("insert 4 c d").unwrap(), &mut table).unwrap();
    assert_eq!(result.result_type, ResultType::Insert);
    let result = execute_stmt(prepare_stmt("select").unwrap(), &mut table).unwrap();
    let expected = vec![
        Row { id: 3, username: field::<USERNAME_SIZE>("a"), email: field::<EMAIL_SIZE>("b") },
        Row { id: 4, username: field::<USERNAME_SIZE>("c"), email: field::<EMAIL_SIZE>("d") },
    ];
    assert_eq!(result.result_type, ResultType::Select(expected));
    assert_eq!(table.num_rows(), 2);
}

#[test]
fn open_counts_rows_by_length() {
    assert_eq!(Table::db_open(vec![0; 290]).num_rows(), 0);
    assert_eq!(Table::db_open(vec![0; 291]).num_rows(), 1);
    assert_eq!(Table::db_open(vec![0; 581]).num_rows(), 1);
    assert_eq!(Table::db_open(vec![0; 582]).num_rows(), 2);
    assert!(Table::db_open(vec![0; 291]).is_aligned());
    // A partial row at the end is not counted, and such a file is not aligned.
    assert!(!Table::db_open(vec![0; 300]).is_aligned());
    assert!(!Table::db_open(vec![0; 100]).is_aligned());
    // A last page that is full may keep its padding.
    assert!(Table::db_open(vec![0; 4074]).is_aligned());
    assert!(Table::db_open(vec![0; 4096]).is_aligned());
    assert_eq!(Table::db_open(vec![0; 4096]).num_rows(), 14);
    // Fifteen rows without padding between the pages: the last row is cut.
    assert!(!Table::db_open(vec![0; 15 * 291]).is_aligned());
    // More rows than a table can hold.
    assert!(!Table::db_open(vec![0; 101 * 4096]).is_aligned());
}

#[test]
fn cursor_moves() {
    let mut table = table_of(3);
    table.cursor_to_start();
    assert_eq!(table.cursor_val(), (0, 0));
    table.advance_cursor();
    assert_eq!(table.cursor_val(), (0, ROW_SIZE));
    table.advance_cursor();
    table.advance_cursor();
    assert_eq!(table.cursor_val(), (0, 3 * ROW_SIZE));
    table.cursor_to_start();
    table.cursor_to_end();
    assert_eq!(table.cursor_val(), (0, 3 * ROW_SIZE));
}

#[test]
fn close_twice_changes_nothing() {
    let mut table = table_of(5);
    assert!(table.is_open());
    table.db_close();
    assert!(!table.is_open());
    let file = table.file_bytes().clone();
    table.db_close();
    assert!(!table.is_open());
    assert_eq!(table.file_bytes(), &file);
    assert_eq!(table.num_rows(), 5);
}

#[test]
fn get_row_out_of_bounds_page() {
    let mut table = table_of(1);
    assert_eq!(table.get_row(TABLE_MAX_PAGES, 0), Err(PagerError::PageOutOfBounds));
    assert_eq!(table.get_row(TABLE_MAX_PAGES + 1, 0), Err(PagerError::PageOutOfBounds));
    assert_eq!(table.get_row(0, 0), Ok(row(1)));
}

#[test]
fn pager_loads_pages_from_the_file() {
    let mut file = vec![0u8; PAGE_SIZE + 10];
    for (i, b) in file.iter_mut().enumerate() {
        *b = (i % 251) as u8;
    }
    let mut pager = Pager::new(file.clone());
    assert_eq!(pager.file_length, PAGE_SIZE + 10);
    assert_eq!(pager.pages.len(), TABLE_MAX_PAGES);
    assert!(pager.pages.iter().all(|p| p.is_none()));
    // A full page, then the ten bytes that are left, then nothing.
    assert_eq!(pager.get_page(0).unwrap(), &file[0..PAGE_SIZE].to_vec());
    assert_eq!(pager.get_page(1).unwrap(), &file[PAGE_SIZE..].to_vec());
    assert_eq!(pager.get_page(2).unwrap(), &Vec::<u8>::new());
    assert_eq!(pager.get_page(99).unwrap(), &Vec::<u8>::new());
    assert_eq!(pager.get_page(100), Err(PagerError::PageOutOfBounds));
    assert_eq!(pager.get_page(101), Err(PagerError::PageOutOfBounds));
    assert_eq!(pager.get_page(usize::MAX), Err(PagerError::PageOutOfBounds));
    assert!(pager.pages[0].is_some() && pager.pages[1].is_some() && pager.pages[3].is_none());
}

#[test]
fn pager_keeps_a_loaded_page() {
    let mut pager = Pager::new(vec![7u8; 20]);
    pager.get_page(0).unwrap();
    pager.append_to_page(0, &[1, 2, 3]);
    let mut expected = vec![7u8; 20];
    expected.extend_from_slice(&[1, 2, 3]);
    // The page is served from the cache, not read again from the file.
    assert_eq!(pager.get_page(0).unwrap(), &expected);
    assert_eq!(pager.file, vec![7u8; 20]);
}

#[test]
fn pager_flush_writes_and_empties() {
    let mut pager = Pager::new(Vec::new());
    assert_eq!(pager.flush(0, PAGE_SIZE), Err(PagerError::FlushOfUnloadedPage));
    assert_eq!(pager.flush(100, PAGE_SIZE), Err(PagerError::FlushOfUnloadedPage));
    pager.get_page(2).unwrap();
    pager.append_to_page(2, &[9, 8, 7]);
    assert_eq!(pager.flush(2, PAGE_SIZE), Ok(()));
    assert_eq!(pager.file_length, 2 * PAGE_SIZE + 3);
    assert_eq!(pager.file.len(), 2 * PAGE_SIZE + 3);
    assert!(pager.file[..2 * PAGE_SIZE].iter().all(|b| *b == 0));
    assert_eq!(&pager.file[2 * PAGE_SIZE..], &[9, 8, 7]);
    // The page stays loaded, with no bytes.
    assert_eq!(pager.pages[2], Some(Vec::new()));
    // Flushing the empty page writes nothing.
    assert_eq!(pager.flush(2, PAGE_SIZE), Ok(()));
    assert_eq!(pager.file.len(), 2 * PAGE_SIZE + 3);
    // Another page size moves the place of the write.
    let mut pager = Pager::new(Vec::new());
    pager.get_page(1).unwrap();
    pager.append_to_page(1, &[5]);
    assert_eq!(pager.flush(1, 10), Ok(()));
    assert_eq!(pager.file, vec![0, 0, 0, 0, 0, 0, 0, 0, 0, 0, 5]);
    assert_eq!(pager.file_length, 11);
}

#[test]
fn file_reads_and_writes() {
    let mut file = vec![1u8, 2, 3, 4, 5];
    assert_eq!(read_at(&file, 1, 3), vec![2, 3, 4]);
    assert_eq!(read_at(&file, 5, 0), Vec::<u8>::new());
    write_at(&mut file, 3, &[9, 9, 9]);
    assert_eq!(file, vec![1, 2, 3, 9, 9, 9]);
    write_at(&mut file, 8, &[7]);
    assert_eq!(file, vec![1, 2, 3, 9, 9, 9, 0, 0, 7]);
    write_at(&mut file, 20, &[]);
    assert_eq!(file.len(), 9);
    write_at(&mut file, 0, &[4]);
    assert_eq!(file, vec![4, 2, 3, 9, 9, 9, 0, 0, 7]);
}
