use write_router::batch::WriteBatch;
use write_router::catalog::{check_columns, NamespaceGuardrailState, GuardrailError};

fn b(s: &str) -> Vec<u8> {
    s.as_bytes().to_vec()
}

fn wide_line(table: &str, columns: usize) -> Vec<u8> {
    let mut line = format!("{} ", table);
    for i in 0..columns {
        if i > 0 {
            line.push(',');
        }
        line.push_str(&format!("c{}=1", i));
    }
    line.into_bytes()
}

#[test]
fn unknown_namespace_without_autocreation_is_not_found_and_changes_nothing() {
    let mut catalog = NamespaceGuardrailState::new(false, None, 1000);
    catalog.create_namespace(b"acme", b"known", Some(24));
    let batch = WriteBatch::parse(b"cpu usage=1").unwrap();
    let r = catalog.write(b"acme", b"unknown", &batch);
    assert_eq!(r, Err(GuardrailError::NamespaceNotFound));
    assert_eq!(catalog.namespace_count(), 1);
    assert!(!catalog.namespace_exists(b"acme", b"unknown"));
    assert_eq!(catalog.column_count(b"acme", b"known", b"cpu"), None);
    assert_eq!(catalog.column_count(b"acme", b"unknown", b"cpu"), None);
}

#[test]
fn namespaces_are_found_by_tenant_and_name() {
    let mut catalog = NamespaceGuardrailState::new(false, None, 1000);
    assert!(catalog.create_namespace(b"acme", b"prod", None));
    let batch = WriteBatch::parse(b"cpu usage=1").unwrap();
    assert_eq!(catalog.write(b"other", b"prod", &batch), Err(GuardrailError::NamespaceNotFound));
    assert_eq!(catalog.write(b"acme", b"prod", &batch), Ok(()));
    assert_eq!(catalog.column_count(b"acme", b"prod", b"cpu"), Some(1));
    assert_eq!(catalog.column_count(b"other", b"prod", b"cpu"), None);
}

#[test]
fn autocreation_uses_the_default_retention() {
    let mut forever = NamespaceGuardrailState::new(true, None, 1000);
    let batch = WriteBatch::parse(b"cpu usage=1").unwrap();
    assert_eq!(forever.write(b"t", b"ns", &batch), Ok(()));
    assert_eq!(forever.retention_hours(b"t", b"ns"), Some(None));
    assert_eq!(forever.retention_hours(b"t", b"nope"), None);

    let mut week = NamespaceGuardrailState::new(true, Some(168), 1000);
    assert_eq!(week.write(b"t", b"ns", &batch), Ok(()));
    assert_eq!(week.retention_hours(b"t", b"ns"), Some(Some(168)));
    assert_eq!(week.namespace_count(), 1);
    assert_eq!(week.write(b"t", b"ns", &batch), Ok(()));
    assert_eq!(week.namespace_count(), 1);
}

#[test]
fn creation_is_idempotent() {
    let mut catalog = NamespaceGuardrailState::new(false, None, 10);
    assert!(catalog.create_namespace(b"t", b"ns", Some(1)));
    let batch = WriteBatch::parse(b"cpu a=1,b=2").unwrap();
    assert_eq!(catalog.write(b"t", b"ns", &batch), Ok(()));
    assert!(!catalog.create_namespace(b"t", b"ns", Some(99)));
    assert_eq!(catalog.namespace_count(), 1);
    assert_eq!(catalog.retention_hours(b"t", b"ns"), Some(Some(1)));
    assert_eq!(catalog.column_count(b"t", b"ns", b"cpu"), Some(2));
}

#[test]
fn write_adds_new_columns_and_tables() {
    let mut catalog = NamespaceGuardrailState::new(true, None, 5);
    let first = WriteBatch::parse(b"cpu,host=a usage=1\nmem free=1").unwrap();
    assert_eq!(catalog.write(b"t", b"ns", &first), Ok(()));
    assert_eq!(catalog.column_count(b"t", b"ns", b"cpu"), Some(2));
    assert_eq!(catalog.column_count(b"t", b"ns", b"mem"), Some(1));
    let second = WriteBatch::parse(b"cpu,host=a,rack=r usage=1,idle=2").unwrap();
    assert_eq!(catalog.write(b"t", b"ns", &second), Ok(()));
    assert_eq!(catalog.column_count(b"t", b"ns", b"cpu"), Some(4));
    assert_eq!(catalog.column_count(b"t", b"ns", b"disk"), None);
}

#[test]
fn write_beyond_the_limit_is_refused_and_changes_no_table() {
    let mut catalog = NamespaceGuardrailState::new(true, None, 3);
    let first = WriteBatch::parse(b"cpu a=1,b=2").unwrap();
    assert_eq!(catalog.write(b"t", b"ns", &first), Ok(()));
    let too_wide = WriteBatch::parse(b"mem x=1\ncpu a=1,c=3,d=4\ndisk y=1").unwrap();
    assert_eq!(
        catalog.write(b"t", b"ns", &too_wide),
        Err(GuardrailError::ColumnLimitExceeded { table: b("cpu"), limit: 3 })
    );
    assert_eq!(catalog.column_count(b"t", b"ns", b"cpu"), Some(2));
    assert_eq!(catalog.column_count(b"t", b"ns", b"mem"), None);
    assert_eq!(catalog.column_count(b"t", b"ns", b"disk"), None);
    let fits = WriteBatch::parse(b"cpu a=1,c=3").unwrap();
    assert_eq!(catalog.write(b"t", b"ns", &fits), Ok(()));
    assert_eq!(catalog.column_count(b"t", b"ns", b"cpu"), Some(3));
}

#[test]
fn new_table_wider_than_the_limit_is_refused() {
    let mut catalog = NamespaceGuardrailState::new(true, None, 2);
    let batch = WriteBatch::parse(b"cpu a=1,b=2,c=3").unwrap();
    assert_eq!(
        catalog.write(b"t", b"ns", &batch),
        Err(GuardrailError::ColumnLimitExceeded { table: b("cpu"), limit: 2 })
    );
    assert!(!catalog.namespace_exists(b"t", b"ns"));
    assert_eq!(catalog.namespace_count(), 0);
    assert_eq!(catalog.column_count(b"t", b"ns", b"cpu"), None);
}

#[test]
fn first_table_beyond_the_limit_is_the_one_reported() {
    let mut catalog = NamespaceGuardrailState::new(true, None, 1);
    let batch = WriteBatch::parse(b"ok a=1\nbad1 a=1,b=2\nbad2 a=1,b=2").unwrap();
    assert_eq!(
        catalog.write(b"t", b"ns", &batch),
        Err(GuardrailError::ColumnLimitExceeded { table: b("bad1"), limit: 1 })
    );
}

#[test]
fn table_above_the_limit_takes_known_columns_and_refuses_new_ones() {
    let mut catalog = NamespaceGuardrailState::new(true, None, 2000);
    let seed = WriteBatch::parse(&wide_line("wide", 1005)).unwrap();
    assert_eq!(catalog.write(b"t", b"ns", &seed), Ok(()));
    assert_eq!(catalog.column_count(b"t", b"ns", b"wide"), Some(1005));
    catalog.set_column_limit(1000);
    assert_eq!(catalog.column_limit(), 1000);

    let known = WriteBatch::parse(b"wide c0=5,c1004=6,c500=7").unwrap();
    assert_eq!(catalog.write(b"t", b"ns", &known), Ok(()));
    assert_eq!(catalog.column_count(b"t", b"ns", b"wide"), Some(1005));

    let grows = WriteBatch::parse(b"wide c0=5,brand_new=1").unwrap();
    assert_eq!(
        catalog.write(b"t", b"ns", &grows),
        Err(GuardrailError::ColumnLimitExceeded { table: b("wide"), limit: 1000 })
    );
    assert_eq!(catalog.column_count(b"t", b"ns", b"wide"), Some(1005));

    let other = WriteBatch::parse(b"narrow a=1").unwrap();
    assert_eq!(catalog.write(b"t", b"ns", &other), Ok(()));
    assert_eq!(catalog.column_count(b"t", b"ns", b"narrow"), Some(1));
}

#[test]
fn table_exactly_at_the_limit() {
    let mut catalog = NamespaceGuardrailState::new(true, None, 3);
    let full = WriteBatch::parse(b"t a=1,b=2,c=3").unwrap();
    assert_eq!(catalog.write(b"x", b"ns", &full), Ok(()));
    assert_eq!(catalog.write(b"x", b"ns", &full), Ok(()));
    let more = WriteBatch::parse(b"t d=4").unwrap();
    assert_eq!(
        catalog.write(b"x", b"ns", &more),
        Err(GuardrailError::ColumnLimitExceeded { table: b("t"), limit: 3 })
    );
}

#[test]
fn check_columns_counts_only_what_is_added() {
    let existing = vec![b("a"), b("b"), b("c")];
    assert!(check_columns(&existing, &vec![b("a"), b("c")], 0));
    assert!(check_columns(&existing, &vec![b("a"), b("d")], 4));
    assert!(!check_columns(&existing, &vec![b("a"), b("d")], 3));
    assert!(check_columns(&existing, &vec![b("d"), b("d")], 4));
    assert!(!check_columns(&existing, &vec![b("d"), b("e")], 4));
    assert!(check_columns(&Vec::new(), &Vec::new(), 0));
    assert!(!check_columns(&Vec::new(), &vec![b("a")], 0));
    assert!(check_columns(&existing, &vec![b("z")], usize::MAX));
}
