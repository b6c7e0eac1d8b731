use books::store::AccountId;
use books::store::Library;
use books::store::UpdateStatus;

#[test]
fn create_and_update_book_works() {
    let alice = AccountId { id: 1 };
    let bob = AccountId { id: 2 };
    let mut contract = Library::new(
        vec![
            "Book1;Category1;Author1".to_string(),
            "Book2;Category2;Author2".to_string(),
        ],
        vec![(alice, 0), (bob, 1)],
    );

    contract.create_book(
        "Book3".to_string(),
        "Category3".to_string(),
        "Author3".to_string(),
        alice,
    );

    let result = contract.update_book(alice, 0, Some("UpdatedBook1".to_string()), None, None);
    assert_eq!(result.message(), "Success: Book updated".to_string());

    let books = contract.get_books_by_owner_id(alice);
    assert_eq!(books.len(), 2);
    assert_eq!(books[0], "UpdatedBook1;Category1;Author1");
    assert_eq!(books[1], "Book3;Category3;Author3");
}

#[test]
fn update_book_out_of_range_fails() {
    let alice = AccountId { id: 1 };
    let bob = AccountId { id: 2 };
    let mut contract = Library::new(
        vec![
            "Book1;Category1;Author1".to_string(),
            "Book2;Category2;Author2".to_string(),
        ],
        vec![(alice, 0), (bob, 1)],
    );

    let result = contract.update_book(alice, 10, Some("NewName".to_string()), None, None);
    assert_eq!(result.message(), "Error: Book index out of range".to_string());
}

#[test]
fn get_books_by_owner_id_works() {
    let alice = AccountId { id: 1 };
    let bob = AccountId { id: 2 };
    let mut contract = Library::new(
        vec![
            "Book1;Category1;Author1".to_string(),
            "Book2;Category2;Author2".to_string(),
            "Book3;Category3;Author3".to_string(),
        ],
        vec![(alice, 0), (alice, 1), (bob, 2)],
    );

    contract.create_book(
        "Book4".to_string(),
        "Category4".to_string(),
        "Author4".to_string(),
        alice,
    );

    let alice_books = contract.get_books_by_owner_id(alice);
    assert_eq!(alice_books.len(), 3);
    assert_eq!(alice_books[0], "Book1;Category1;Author1");
    assert_eq!(alice_books[1], "Book2;Category2;Author2");
    assert_eq!(alice_books[2], "Book4;Category4;Author4");

    let bob_books = contract.get_books_by_owner_id(bob);
    assert_eq!(bob_books.len(), 1);
    assert_eq!(bob_books[0], "Book3;Category3;Author3");
}

#[test]
fn update_by_non_owner_is_rejected_and_state_kept() {
    let alice = AccountId { id: 1 };
    let bob = AccountId { id: 2 };
    let mut contract = Library::new(
        vec!["Book1;Category1;Author1".to_string()],
        vec![(alice, 0)],
    );

    let result = contract.update_book(bob, 0, Some("Stolen".to_string()), None, None);
    assert_eq!(result, UpdateStatus::NotOwner);
    assert_eq!(
        result.message(),
        "Error: You are not the owner of this book".to_string()
    );

    let alice_books = contract.get_books_by_owner_id(alice);
    assert_eq!(alice_books, vec!["Book1;Category1;Author1".to_string()]);
}

#[test]
fn update_out_of_range_keeps_state() {
    let alice = AccountId { id: 1 };
    let mut contract = Library::new(
        vec!["Book1;Category1;Author1".to_string()],
        vec![(alice, 0)],
    );

    let result = contract.update_book(alice, 1, Some("NewName".to_string()), None, None);
    assert_eq!(result, UpdateStatus::OutOfRange);

    let alice_books = contract.get_books_by_owner_id(alice);
    assert_eq!(alice_books, vec!["Book1;Category1;Author1".to_string()]);
}

#[test]
fn update_any_subset_of_fields() {
    let alice = AccountId { id: 1 };
    let mut contract = Library::new(vec!["N;C;A".to_string()], vec![(alice, 0)]);

    let none_changed = contract.update_book(alice, 0, None, None, None);
    assert_eq!(none_changed, UpdateStatus::Updated);
    assert_eq!(
        contract.get_books_by_owner_id(alice),
        vec!["N;C;A".to_string()]
    );

    let two_changed = contract.update_book(
        alice,
        0,
        None,
        Some("C2".to_string()),
        Some("A2".to_string()),
    );
    assert_eq!(two_changed, UpdateStatus::Updated);
    assert_eq!(
        contract.get_books_by_owner_id(alice),
        vec!["N;C2;A2".to_string()]
    );

    let all_changed = contract.update_book(
        alice,
        0,
        Some("N3".to_string()),
        Some("C3".to_string()),
        Some("A3".to_string()),
    );
    assert_eq!(all_changed, UpdateStatus::Updated);
    assert_eq!(
        contract.get_books_by_owner_id(alice),
        vec!["N3;C3;A3".to_string()]
    );
}

#[test]
fn update_name_of_record_without_delimiter() {
    let alice = AccountId { id: 1 };
    let mut contract = Library::new(vec!["plain".to_string()], vec![(alice, 0)]);

    let result = contract.update_book(alice, 0, Some("renamed".to_string()), None, None);
    assert_eq!(result, UpdateStatus::Updated);
    assert_eq!(
        contract.get_books_by_owner_id(alice),
        vec!["renamed".to_string()]
    );
}

#[test]
fn update_when_ownership_entry_is_missing() {
    let alice = AccountId { id: 1 };
    // two records but only one ownership entry: the second record has no owner
    let mut contract = Library::new(
        vec!["N;C;A".to_string(), "M;D;B".to_string()],
        vec![(alice, 0)],
    );

    let result = contract.update_book(alice, 1, Some("New".to_string()), None, None);
    assert_eq!(result, UpdateStatus::OutOfRange);
    assert_eq!(contract.get_books_by_owner_id(alice), vec!["N;C;A".to_string()]);
}

#[test]
fn query_without_matches_is_empty() {
    let alice = AccountId { id: 1 };
    let stranger = AccountId { id: 9 };
    let contract = Library::new(vec!["N;C;A".to_string()], vec![(alice, 0)]);

    let books = contract.get_books_by_owner_id(stranger);
    assert_eq!(books, Vec::<String>::new());
}

#[test]
fn query_skips_entries_with_dangling_index() {
    let alice = AccountId { id: 1 };
    let contract = Library::new(
        vec!["N;C;A".to_string()],
        vec![(alice, 10), (alice, 0)],
    );

    let books = contract.get_books_by_owner_id(alice);
    assert_eq!(books, vec!["N;C;A".to_string()]);
}

#[test]
fn create_on_empty_store() {
    let alice = AccountId { id: 1 };
    let mut contract = Library::new(Vec::new(), Vec::new());

    contract.create_book(
        "Name".to_string(),
        "Category".to_string(),
        "Author".to_string(),
        alice,
    );

    let books = contract.get_books_by_owner_id(alice);
    assert_eq!(books, vec!["Name;Category;Author".to_string()]);
}

#[test]
fn create_with_empty_fields() {
    let alice = AccountId { id: 1 };
    let mut contract = Library::new(Vec::new(), Vec::new());

    contract.create_book(String::new(), String::new(), String::new(), alice);

    let books = contract.get_books_by_owner_id(alice);
    assert_eq!(books, vec![";;".to_string()]);
}

#[test]
fn created_book_is_last_among_owners_books() {
    let alice = AccountId { id: 1 };
    let bob = AccountId { id: 2 };
    let mut contract = Library::new(
        vec!["N;C;A".to_string(), "M;D;B".to_string()],
        vec![(alice, 0), (bob, 1)],
    );

    contract.create_book(
        "Late".to_string(),
        "Cat".to_string(),
        "Auth".to_string(),
        alice,
    );

    let alice_books = contract.get_books_by_owner_id(alice);
    assert_eq!(alice_books.len(), 2);
    assert_eq!(alice_books.last().unwrap(), "Late;Cat;Auth");
}
