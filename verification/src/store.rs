//! The record store: the book records, the ownership index, and the three
//! operations on them.

use vstd::prelude::*;

use crate::codec::encode_book;
use crate::codec::encode_record;
use crate::codec::join_parts;
use crate::codec::join_parts_spec;
use crate::codec::lemma_split_len;
use crate::codec::split_record;
use crate::codec::split_record_spec;
use crate::codec::updated_parts;

verus! {

/// An opaque, equality-comparable identity supplied by the host with each call.
#[derive(Clone, Copy, PartialEq, Eq, Structural, Debug, Hash)]
pub struct AccountId {
    pub id: u64,
}

/// The three distinguishable outcomes of an update.
#[derive(Clone, Copy, PartialEq, Eq, Structural, Debug)]
pub enum UpdateStatus {
    Updated,
    OutOfRange,
    NotOwner,
}

impl UpdateStatus {
    /// The human-readable status line for this outcome.
    pub fn message(&self) -> (r: String)
        ensures
            *self == UpdateStatus::Updated ==> r@ == "Success: Book updated"@,
            *self == UpdateStatus::OutOfRange ==> r@ == "Error: Book index out of range"@,
            *self == UpdateStatus::NotOwner ==> r@ == "Error: You are not the owner of this book"@,
    {
        match self {
            UpdateStatus::Updated => "Success: Book updated".to_owned(),
            UpdateStatus::OutOfRange => "Error: Book index out of range".to_owned(),
            UpdateStatus::NotOwner => "Error: You are not the owner of this book".to_owned(),
        }
    }
}

/// The record store: an ordered sequence of encoded book records and an
/// ordered sequence of (owner, record index) ownership entries. The two
/// sequences grow in lockstep under `create_book`; the ownership entry at
/// position `i` guards updates to the record at position `i`.
pub struct Library {
    pub books: Vec<String>,
    pub owners: Vec<(AccountId, u32)>,
}

impl Library {
    /// The records, as the sequence of their encoded contents.
    pub open spec fn books_view(&self) -> Seq<Seq<char>> {
        self.books.deep_view()
    }

    /// The ownership entries, in stored order.
    pub open spec fn owners_view(&self) -> Seq<(AccountId, u32)> {
        self.owners@
    }

    /// Whether an update by `owner_id` at `book_index` passes every check and
    /// reaches the record: the index is in range of both sequences and the
    /// ownership entry at that position names the caller.
    pub open spec fn can_update(&self, owner_id: AccountId, book_index: u32) -> bool {
        &&& (book_index as int) < self.books_view().len()
        &&& (book_index as int) < self.owners_view().len()
        &&& self.owners_view()[book_index as int].0 == owner_id
    }

    /// Stores the two seed sequences verbatim, with no cross-validation.
    pub fn new(book_list: Vec<String>, owner_list: Vec<(AccountId, u32)>) -> (store: Library)
        ensures
            store.books_view() == book_list.deep_view(),
            store.owners_view() == owner_list@,
    {
        Library { books: book_list, owners: owner_list }
    }

    /// Appends the record encoded from the three fields, then appends the
    /// ownership entry naming `owner_id` and the new record's index.
    pub fn create_book(&mut self, name: String, category: String, author: String, owner_id: AccountId)
        requires
            old(self).books.len() < u32::MAX as usize,
        ensures
            final(self).books_view() == old(self).books_view().push(
                encode_record(name@, category@, author@),
            ),
            final(self).owners_view() == old(self).owners_view().push(
                (owner_id, old(self).books_view().len() as u32),
            ),
    {
        let new_book = encode_book(name.as_str(), category.as_str(), author.as_str());
        let ghost encoded = new_book@;
        self.books.push(new_book);
        let index = (self.books.len() - 1) as u32;
        self.owners.push((owner_id, index));
        proof {
            assert(self.books.deep_view() =~~= old(self).books.deep_view().push(encoded));
        }
    }

    /// Rewrites the record at `book_index` from the supplied replacement
    /// fields, provided the index is in range and the caller is the owner
    /// registered at that position; otherwise reports the failure and leaves
    /// the store untouched. The record is split on the delimiter, the parts at
    /// the three field positions are replaced where a replacement is supplied,
    /// and the parts are rejoined.
    ///
    /// A replacement for the category or the author lands at the second or
    /// third part, so where the update reaches the record, the record must
    /// split into at least that many parts; every record built by
    /// `create_book` splits into three or more. A replacement for the name
    /// needs nothing: a split always yields at least one part.
    pub fn update_book(
        &mut self,
        owner_id: AccountId,
        book_index: u32,
        new_name: Option<String>,
        new_category: Option<String>,
        new_author: Option<String>,
    ) -> (status: UpdateStatus)
        requires
            old(self).can_update(owner_id, book_index) ==> {
                let n = split_record_spec(old(self).books_view()[book_index as int]).len();
                &&& (new_category is Some ==> n >= 2)
                &&& (new_author is Some ==> n >= 3)
            },
        ensures
            status == (if (book_index as int) >= old(self).books_view().len()
                || (book_index as int) >= old(self).owners_view().len() {
                UpdateStatus::OutOfRange
            } else if old(self).owners_view()[book_index as int].0 != owner_id {
                UpdateStatus::NotOwner
            } else {
                UpdateStatus::Updated
            }),
            final(self).owners_view() == old(self).owners_view(),
            !old(self).can_update(owner_id, book_index) ==> final(self).books_view() == old(
                self,
            ).books_view(),
            old(self).can_update(owner_id, book_index) ==> final(self).books_view() == old(
                self,
            ).books_view().update(
                book_index as int,
                join_parts_spec(
                    updated_parts(
                        split_record_spec(old(self).books_view()[book_index as int]),
                        new_name.deep_view(),
                        new_category.deep_view(),
                        new_author.deep_view(),
                    ),
                ),
            ),
    {
        let idx = book_index as usize;
        if idx >= self.books.len() {
            return UpdateStatus::OutOfRange;
        }
        if idx >= self.owners.len() {
            return UpdateStatus::OutOfRange;
        }
        let current_owner_id = self.owners[idx].0;
        if current_owner_id != owner_id {
            return UpdateStatus::NotOwner;
        }
        let mut parts = split_record(self.books[idx].as_str());
        proof {
            lemma_split_len(self.books_view()[idx as int]);
        }
        if let Some(name) = new_name {
            parts.set(0, name);
        }
        if let Some(category) = new_category {
            parts.set(1, category);
        }
        if let Some(author) = new_author {
            parts.set(2, author);
        }
        proof {
            assert(parts.deep_view() =~~= updated_parts(
                split_record_spec(old(self).books_view()[book_index as int]),
                new_name.deep_view(),
                new_category.deep_view(),
                new_author.deep_view(),
            ));
        }
        let joined = join_parts(&parts);
        self.books.set(idx, joined);
        proof {
            assert(self.books.deep_view() =~~= old(self).books_view().update(
                book_index as int,
                join_parts_spec(
                    updated_parts(
                        split_record_spec(old(self).books_view()[book_index as int]),
                        new_name.deep_view(),
                        new_category.deep_view(),
                        new_author.deep_view(),
                    ),
                ),
            ));
        }
        UpdateStatus::Updated
    }

    /// Returns the records owned by `target_owner_id`, in the stored order of
    /// their ownership entries; entries whose record index is out of range are
    /// skipped.
    pub fn get_books_by_owner_id(&self, target_owner_id: AccountId) -> (matches: Vec<String>)
        ensures
            matches.deep_view() == owned_books(
                self.books_view(),
                self.owners_view(),
                target_owner_id,
            ),
    {
        let mut matches: Vec<String> = Vec::new();
        let mut i: usize = 0;
        proof {
            assert(self.owners_view().subrange(0, 0) =~= Seq::<(AccountId, u32)>::empty());
        }
        while i < self.owners.len()
            invariant
                i <= self.owners.len(),
                matches.deep_view() == owned_books(
                    self.books_view(),
                    self.owners_view().subrange(0, i as int),
                    target_owner_id,
                ),
            decreases self.owners.len() - i,
        {
            let entry = self.owners[i];
            proof {
                let prefix = self.owners_view().subrange(0, i as int + 1);
                assert(prefix.drop_last() =~= self.owners_view().subrange(0, i as int));
                assert(prefix.last() == self.owners_view()[i as int]);
            }
            if entry.0 == target_owner_id && (entry.1 as usize) < self.books.len() {
                let ghost pre_matches = matches.deep_view();
                let found = self.books[entry.1 as usize].clone();
                let ghost found_view = found@;
                matches.push(found);
                proof {
                    assert(matches.deep_view() =~~= pre_matches.push(found_view));
                }
            }
            i += 1;
        }
        proof {
            assert(self.owners_view().subrange(0, self.owners@.len() as int) =~= self.owners_view());
        }
        matches
    }
}

/// The records among `books` owned by `target`: for every ownership entry in
/// `owners` naming `target`, in stored order, the record its index resolves
/// to, skipping entries whose index lies outside `books`.
pub open spec fn owned_books(
    books: Seq<Seq<char>>,
    owners: Seq<(AccountId, u32)>,
    target: AccountId,
) -> Seq<Seq<char>>
    decreases owners.len(),
{
    if owners.len() == 0 {
        Seq::empty()
    } else {
        let prefix = owned_books(books, owners.drop_last(), target);
        let entry = owners.last();
        if entry.0 == target && (entry.1 as int) < books.len() {
            prefix.push(books[entry.1 as int])
        } else {
            prefix
        }
    }
}

/// Law: creating a book appends it to its owner's query result — after the
/// two lockstep appends, the new owner's books are what a query of the grown
/// record sequence gave before, with the new record as the last entry.
pub proof fn lemma_create_appends_for_owner(
    books: Seq<Seq<char>>,
    owners: Seq<(AccountId, u32)>,
    record: Seq<char>,
    owner: AccountId,
)
    requires
        books.len() <= u32::MAX,
    ensures
        ({
            let after = owned_books(
                books.push(record),
                owners.push((owner, books.len() as u32)),
                owner,
            );
            &&& after == owned_books(books.push(record), owners, owner).push(record)
            &&& after.len() >= 1
            &&& after.last() == record
        }),
{
    let grown = books.push(record);
    let entries = owners.push((owner, books.len() as u32));
    assert(entries.drop_last() =~= owners);
    assert(grown[books.len() as int] == record);
}

/// Law: a query for an identity that no ownership entry names returns the
/// empty sequence.
pub proof fn lemma_query_without_matches_is_empty(
    books: Seq<Seq<char>>,
    owners: Seq<(AccountId, u32)>,
    target: AccountId,
)
    requires
        forall|i: int| 0 <= i < owners.len() ==> owners[i].0 != target,
    ensures
        owned_books(books, owners, target) == Seq::<Seq<char>>::empty(),
    decreases owners.len(),
{
    if owners.len() > 0 {
        lemma_query_without_matches_is_empty(books, owners.drop_last(), target);
    }
}

} // verus!
