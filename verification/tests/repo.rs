use customer_repo::customer::CustomerInput;
use customer_repo::oid::Oid;
use customer_repo::repo::{
    delete_customer_by_id, find_customer, find_customer_by_id, insert_customer,
    insert_customer_doc, update_customer_by_id, update_customer_doc, CustomerStore,
};
use customer_repo::RepoError;

fn store_with_customers(n: usize) -> CustomerStore {
    let mut store = CustomerStore::new();
    for i in 1..=n {
        let input = CustomerInput { name: format!("Customer {}", i) };
        insert_customer(&mut store, &input).unwrap();
    }
    store
}

#[test]
fn test_find_customer() {
    let store = store_with_customers(20);

    let page1 = find_customer(&store, 10, 1).unwrap();
    assert_eq!(page1.len(), 10);
    assert_eq!(page1[0].name, "Customer 1");
    assert_eq!(page1[9].name, "Customer 10");

    let page2 = find_customer(&store, 10, 2).unwrap();
    assert_eq!(page2.len(), 10);
    assert_eq!(page2[0].name, "Customer 11");
    assert_eq!(page2[9].name, "Customer 20");

    let page3 = find_customer(&store, 10, 3).unwrap();
    assert_eq!(page3.len(), 0);

    // Consecutive pages never share an identifier.
    for a in &page1 {
        for b in &page2 {
            assert_ne!(a.id, b.id);
        }
    }
}

#[test]
fn find_customer_rejects_nonpositive_limit_or_page() {
    let store = store_with_customers(3);
    assert!(matches!(find_customer(&store, 0, 1), Err(RepoError::InvalidPagination)));
    assert!(matches!(find_customer(&store, -1, 1), Err(RepoError::InvalidPagination)));
    assert!(matches!(find_customer(&store, 10, 0), Err(RepoError::InvalidPagination)));
    assert!(matches!(find_customer(&store, 10, -2), Err(RepoError::InvalidPagination)));
}

#[test]
fn find_customer_returns_partial_last_page() {
    let store = store_with_customers(7);
    let page = find_customer(&store, 5, 2).unwrap();
    assert_eq!(page.len(), 2);
    assert_eq!(page[0].name, "Customer 6");
    assert_eq!(page[1].name, "Customer 7");
}

#[test]
fn test_insert_customer() {
    let mut store = CustomerStore::new();
    let input = CustomerInput { name: "John Doe".to_string() };

    let inserted_id = insert_customer(&mut store, &input).unwrap();
    assert!(!inserted_id.is_empty());
    assert_eq!(inserted_id.len(), 24);

    // The returned identifier is usable immediately.
    let oid = Oid::parse(&inserted_id).unwrap();
    let customer = find_customer_by_id(&store, &oid).unwrap();
    assert_eq!(customer.name, "John Doe");
    assert_eq!(customer.id, inserted_id);
    assert!(!customer.created_at.is_empty());
}

#[test]
fn insert_customer_yields_distinct_identifiers_for_identical_input() {
    let mut store = CustomerStore::new();
    let input = CustomerInput { name: "Twin".to_string() };
    let first = insert_customer(&mut store, &input).unwrap();
    let second = insert_customer(&mut store, &input).unwrap();
    assert_ne!(first, second);
    assert_eq!(store.len(), 2);
}

#[test]
fn insert_customer_accepts_empty_name() {
    let mut store = CustomerStore::new();
    let input = CustomerInput { name: String::new() };
    let id = insert_customer(&mut store, &input).unwrap();
    let oid = Oid::parse(&id).unwrap();
    let customer = find_customer_by_id(&store, &oid).unwrap();
    assert_eq!(customer.name, "");
}

#[test]
fn insert_customer_doc_rejects_duplicate_identifier() {
    let mut store = CustomerStore::new();
    let oid = Oid::parse("0123456789abcdef01234567").unwrap();
    let id = insert_customer_doc(&mut store, oid, "First", 0).unwrap();
    assert_eq!(id, "0123456789abcdef01234567");
    let again = insert_customer_doc(&mut store, oid, "Second", 0);
    assert_eq!(again, Err(RepoError::DuplicateId));
    assert_eq!(store.len(), 1);
}

#[test]
fn test_find_customer_by_id() {
    let mut store = CustomerStore::new();
    let input = CustomerInput { name: "Test Customer".to_string() };
    let id = insert_customer(&mut store, &input).unwrap();

    let oid = Oid::parse(&id).unwrap();
    let found = find_customer_by_id(&store, &oid);
    assert!(found.is_some());
    assert_eq!(found.unwrap().name, "Test Customer");

    let absent = Oid::parse("0123456789abcdef01234567").unwrap();
    if absent.to_hex() != id {
        assert!(find_customer_by_id(&store, &absent).is_none());
    }
}

#[test]
fn test_update_customer_by_id() {
    let mut store = CustomerStore::new();
    let input = CustomerInput { name: "Test Customer".to_string() };
    let id = insert_customer(&mut store, &input).unwrap();
    let oid = Oid::parse(&id).unwrap();

    let new_input = CustomerInput { name: "Updated Name".to_string() };
    let updated = update_customer_by_id(&mut store, &oid, &new_input);
    assert!(updated.is_some());
    let customer = updated.unwrap();
    assert_eq!(customer.name, "Updated Name");
    assert_eq!(customer.id, id);

    // The stored document now carries the new name.
    let fetched = find_customer_by_id(&store, &oid).unwrap();
    assert_eq!(fetched.name, "Updated Name");
}

#[test]
fn update_customer_by_id_not_found_leaves_collection_unchanged() {
    let mut store = store_with_customers(3);
    let before = find_customer(&store, 10, 1).unwrap();

    let absent = Oid::parse("ffffffffffffffffffffffff").unwrap();
    let input = CustomerInput { name: "Updated Name".to_string() };
    assert!(update_customer_by_id(&mut store, &absent, &input).is_none());

    assert_eq!(store.len(), 3);
    let after = find_customer(&store, 10, 1).unwrap();
    assert_eq!(before, after);
}

#[test]
fn update_customer_doc_stamps_the_given_instant() {
    let mut store = CustomerStore::new();
    let oid = Oid::parse("0123456789abcdef01234567").unwrap();
    insert_customer_doc(&mut store, oid, "Stamped", 0).unwrap();

    let updated = update_customer_doc(&mut store, &oid, "Stamped", 947638923004).unwrap();
    assert_eq!(updated.created_at, "2000-01-12 01:02:03.004 UTC");

    let epoch = update_customer_doc(&mut store, &oid, "Stamped", 0).unwrap();
    assert_eq!(epoch.created_at, "1970-01-01 00:00:00 UTC");
}

#[test]
fn test_delete_customer_by_id() {
    let mut store = CustomerStore::new();
    let input = CustomerInput { name: "Test Customer".to_string() };
    let id = insert_customer(&mut store, &input).unwrap();
    let oid = Oid::parse(&id).unwrap();

    let deleted = delete_customer_by_id(&mut store, &oid);
    assert!(deleted.is_some());
    assert_eq!(deleted.unwrap().name, "Test Customer");
    assert_eq!(store.len(), 0);

    // Deleting the same identifier again reports "not found".
    assert!(delete_customer_by_id(&mut store, &oid).is_none());
    assert_eq!(store.len(), 0);
}

#[test]
fn delete_customer_by_id_not_found_is_not_an_error() {
    let mut store = store_with_customers(2);
    let absent = Oid::parse("ffffffffffffffffffffffff").unwrap();
    assert!(delete_customer_by_id(&mut store, &absent).is_none());
    assert_eq!(store.len(), 2);
}
