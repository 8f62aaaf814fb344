use toopsqlite::db::pager::{fresh_header, is_master_table_empty, Pager};
use toopsqlite::db::DB;
use toopsqlite::vm::parser::{QueryType, Stmt};
use toopsqlite::vm::{ExecuteResult, VM};

#[test]
fn fresh_header_holds_the_page_size() {
    let header = fresh_header();
    assert_eq!(header.len(), 4096);
    assert_eq!(&header[32..34], &4096u16.to_be_bytes());
    assert!(header.iter().enumerate().all(|(i, b)| i == 32 || *b == 0));
    assert!(is_master_table_empty(&header));
}

#[test]
fn pager_reads_the_page_size() {
    assert_eq!(Pager::new(None).page_size, 4096);
    let mut header = fresh_header();
    header[32] = 0x02;
    header[33] = 0x01;
    let pager = Pager::new(Some(&header));
    assert_eq!(pager.page_size, 0x0201);
    assert!(pager.master_table.is_empty());
    assert!(pager.pages.is_empty());
    // What a short file lacks reads as zero.
    assert_eq!(Pager::new(Some(&[0u8; 10])).page_size, 0);
    assert_eq!(Pager::new(Some(&header[..33])).page_size, 0x0200);
}

#[test]
fn master_table_emptiness() {
    let mut header = fresh_header();
    assert!(is_master_table_empty(&header));
    assert!(is_master_table_empty(&[]));
    header[99] = 1;
    header[232] = 1;
    assert!(is_master_table_empty(&header));
    header[231] = 1;
    assert!(!is_master_table_empty(&header));
    header[231] = 0;
    header[100] = 1;
    assert!(!is_master_table_empty(&header));
}

#[test]
fn draft_database_lists_and_reads_nothing() {
    let mut pager = Pager::new(None);
    assert!(pager.find_page("users").is_empty());
    pager.master_table.push(("users".to_string(), 2));
    pager.master_table.push(("orders".to_string(), 5));
    assert_eq!(pager.get_tables(), vec![("users", 2), ("orders", 5)]);
    let db = DB::new(pager);
    assert_eq!(db.get_tables(), vec![("users", 2), ("orders", 5)]);
    assert!(db.get_rows("users").is_empty());
    assert!(db.find_table("users").is_none());
}

#[test]
fn machine_runs_only_selects() {
    let mut vm = VM::new(DB::new(Pager::new(None)));
    let result = vm.execute(Stmt::with_table(QueryType::Select, "users".to_string()));
    assert!(result.success);
    assert!(result.rows.unwrap().is_empty());
    for kind in [QueryType::Insert, QueryType::Create, QueryType::Update] {
        let result = vm.execute(Stmt::new(kind));
        assert!(!result.success);
        assert!(result.rows.is_none());
    }
    let result = ExecuteResult::without_rows(true);
    assert!(result.success && result.rows.is_none());
    let result = ExecuteResult::with_rows(Vec::new());
    assert!(result.success && result.rows.is_some());
}
