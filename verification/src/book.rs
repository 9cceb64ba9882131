//! Address-book ingestion and lookup: a headerless two-column tabular
//! source is read fault-tolerantly into an immutable, deduplicated set of
//! (display name, hardware address) entries. Malformed rows are skipped,
//! never fatal; each skip is reported with its row index so the caller
//! can log it.

use vstd::prelude::*;

use crate::codec::{mac_of_text, parse, valid_mac_text, HardwareAddress};

verus! {

/// One entry of the address book: a display name and a hardware address.
/// Two entries are duplicates only if both fields match exactly.
#[derive(Debug)]
pub struct AddressBookEntry {
    pub name: String,
    pub address: HardwareAddress,
}

impl View for AddressBookEntry {
    type V = (Seq<char>, Seq<u8>);

    open spec fn view(&self) -> (Seq<char>, Seq<u8>) {
        (self.name@, self.address@)
    }
}

/// Why a row of the source was skipped.
#[derive(Clone, Copy, Debug, PartialEq, Eq, Structural)]
pub enum SkipReason {
    /// The row could not be tokenized into columns at all.
    Unreadable,
    /// The row does not have exactly two columns.
    WrongColumnCount,
    /// The address column does not parse as a hardware address.
    BadAddress,
}

/// The records of a tabular source, in order: one item per row, `None`
/// where the row could not be tokenized, otherwise the column texts.
pub uninterp spec fn csv_rows(s: Seq<char>) -> Seq<Option<Seq<Seq<char>>>>;

/// Relies on csv's `ReaderBuilder::has_headers(false)` and
/// `Reader::records`: reading records from an in-memory text is a
/// function of the text alone; each row yields one record, an error
/// where the row cannot be tokenized under the default dialect.
#[verifier::external_body]
fn csv_records(text: &str) -> (r: Vec<Option<Vec<String>>>)
    ensures
        r.deep_view() == csv_rows(text@),
{
    let mut reader =
        csv::ReaderBuilder::new().has_headers(false).from_reader(text.as_bytes());
    let mut out: Vec<Option<Vec<String>>> = Vec::new();
    for record in reader.records() {
        match record {
            Ok(rec) => out.push(Some(rec.iter().map(|f| f.to_string()).collect())),
            Err(_) => out.push(None),
        }
    }
    out
}

/// The entry a readable row denotes: its name and address, provided it
/// has exactly two columns and the second parses as a hardware address.
pub open spec fn row_entry(row: Seq<Seq<char>>) -> Option<(Seq<char>, Seq<u8>)> {
    if row.len() == 2 && valid_mac_text(row[1]) {
        Some((row[0], mac_of_text(row[1])))
    } else {
        None
    }
}

/// Why a row is skipped, or `None` if it yields an entry.
pub open spec fn row_skip(row: Option<Seq<Seq<char>>>) -> Option<SkipReason> {
    match row {
        None => Some(SkipReason::Unreadable),
        Some(r) => if r.len() != 2 {
            Some(SkipReason::WrongColumnCount)
        } else if !valid_mac_text(r[1]) {
            Some(SkipReason::BadAddress)
        } else {
            None
        },
    }
}

/// The set of entries a sequence of rows denotes: every well-formed row
/// contributes its entry, duplicates collapse, malformed rows are dropped.
pub open spec fn book_of(rows: Seq<Option<Seq<Seq<char>>>>) -> Set<(Seq<char>, Seq<u8>)>
    decreases rows.len(),
{
    if rows.len() == 0 {
        Set::empty()
    } else {
        let rest = book_of(rows.drop_last());
        match rows.last() {
            Some(row) => match row_entry(row) {
                Some(p) => rest.insert(p),
                None => rest,
            },
            None => rest,
        }
    }
}

/// The skipped rows, each with its index and reason, in row order.
pub open spec fn skips_of(rows: Seq<Option<Seq<Seq<char>>>>) -> Seq<(usize, SkipReason)>
    decreases rows.len(),
{
    if rows.len() == 0 {
        Seq::empty()
    } else {
        let front = skips_of(rows.drop_last());
        match row_skip(rows.last()) {
            Some(reason) => front.push(((rows.len() - 1) as usize, reason)),
            None => front,
        }
    }
}

/// The entry a row yields, if any: readable, two columns, parsable
/// address.
pub open spec fn row_value(row: Option<Seq<Seq<char>>>) -> Option<(Seq<char>, Seq<u8>)> {
    match row {
        Some(r) => row_entry(r),
        None => None,
    }
}

/// What loading yields, row for row: a pair is in the loaded book
/// exactly when some row of the source yields it — every well-formed
/// row contributes its entry and nothing else gets in, however many
/// malformed rows surround it.
pub proof fn lemma_book_of_membership(rows: Seq<Option<Seq<Seq<char>>>>, p: (Seq<char>, Seq<u8>))
    ensures
        book_of(rows).contains(p) <==> exists|i: int|
            0 <= i < rows.len() && row_value(#[trigger] rows[i]) == Some(p),
    decreases rows.len(),
{
    if rows.len() > 0 {
        let front = rows.drop_last();
        lemma_book_of_membership(front, p);
        if book_of(rows).contains(p) {
            if row_value(rows.last()) == Some(p) {
                assert(rows[rows.len() - 1] == rows.last());
            } else {
                assert(book_of(front).contains(p));
                let i = choose|i: int| 0 <= i < front.len() && row_value(#[trigger] front[i])
                    == Some(p);
                assert(rows[i] == front[i]);
            }
        }
        if exists|i: int| 0 <= i < rows.len() && row_value(#[trigger] rows[i]) == Some(p) {
            let i = choose|i: int| 0 <= i < rows.len() && row_value(#[trigger] rows[i])
                == Some(p);
            if i < rows.len() - 1 {
                assert(front[i] == rows[i]);
                assert(book_of(front).contains(p));
            } else {
                assert(rows[i] == rows.last());
            }
            assert(book_of(rows).contains(p));
        }
    }
}

/// An immutable, deduplicated set of address-book entries, built once
/// at startup. No operation adds or removes entries after construction.
#[derive(Debug)]
pub struct AddressBook {
    entries: Vec<AddressBookEntry>,
}

impl View for AddressBook {
    type V = Set<(Seq<char>, Seq<u8>)>;

    closed spec fn view(&self) -> Set<(Seq<char>, Seq<u8>)> {
        self.spec_entries().to_set()
    }
}

impl AddressBook {
    /// The stored entries, as (name, address) pairs, in storage order.
    pub closed spec fn spec_entries(&self) -> Seq<(Seq<char>, Seq<u8>)> {
        self.entries@.map_values(|e: AddressBookEntry| e@)
    }

    /// Well-formed: no pair is stored twice, so the stored sequence
    /// faithfully represents the set.
    pub closed spec fn wf(&self) -> bool {
        self.spec_entries().no_duplicates()
    }

    /// The empty book.
    pub fn empty() -> (r: AddressBook)
        ensures
            r.wf(),
            r@ == Set::<(Seq<char>, Seq<u8>)>::empty(),
            r.spec_entries().len() == 0,
    {
        let book = AddressBook { entries: Vec::new() };
        proof {
            assert(book.spec_entries() =~= Seq::empty());
            assert(book@ =~= Set::empty());
        }
        book
    }

    /// How many entries the book holds; equals the size of the set it
    /// denotes.
    pub fn len(&self) -> (r: usize)
        requires
            self.wf(),
        ensures
            r == self.spec_entries().len(),
            r == self@.len(),
    {
        proof {
            self.spec_entries().unique_seq_to_set();
        }
        self.entries.len()
    }

    /// How many entries are stored.
    pub fn len_entries(&self) -> (r: usize)
        ensures
            r == self.spec_entries().len(),
    {
        self.entries.len()
    }

    /// A stored entry, by position.
    pub fn entry(&self, i: usize) -> (r: &AddressBookEntry)
        requires
            i < self.spec_entries().len(),
        ensures
            r@ == self.spec_entries()[i as int],
    {
        &self.entries[i]
    }

    /// Whether the book already holds this exact (name, address) pair.
    fn contains_entry(&self, e: &AddressBookEntry) -> (r: bool)
        ensures
            r == self.spec_entries().contains(e@),
    {
        let mut i: usize = 0;
        let n = self.entries.len();
        while i < n
            invariant
                i <= n,
                n == self.entries@.len(),
                forall|j: int| 0 <= j < i ==> self.spec_entries()[j] != e@,
            decreases n - i,
        {
            if self.entries[i].name == e.name && self.entries[i].address.same(&e.address) {
                proof {
                    assert(self.spec_entries()[i as int] == e@);
                }
                return true;
            }
            i = i + 1;
        }
        proof {
            assert(!self.spec_entries().contains(e@));
        }
        false
    }

    /// Adds the entry unless the same pair is already present, keeping
    /// the book duplicate-free.
    fn insert_entry(&mut self, e: AddressBookEntry)
        requires
            old(self).wf(),
        ensures
            final(self).wf(),
            final(self)@ == old(self)@.insert(e@),
    {
        if !self.contains_entry(&e) {
            let ghost before = self.spec_entries();
            self.entries.push(e);
            proof {
                assert(self.spec_entries() =~= before.push(e@));
                before.lemma_push_to_set_commute(self.spec_entries().last());
                assert(self@ =~= old(self)@.insert(e@));
            }
        } else {
            proof {
                assert(self@ =~= old(self)@.insert(e@));
            }
        }
    }
}

/// Folds tokenized rows into a deduplicated address book, skipping every
/// malformed row; the skipped indices and reasons are returned alongside.
pub fn load_rows(rows: &Vec<Option<Vec<String>>>) -> (r: (AddressBook, Vec<(usize, SkipReason)>))
    ensures
        r.0.wf(),
        r.0@ == book_of(rows.deep_view()),
        r.1@ == skips_of(rows.deep_view()),
{
    let mut book = AddressBook::empty();
    let mut skips: Vec<(usize, SkipReason)> = Vec::new();
    let n = rows.len();
    let mut idx: usize = 0;
    while idx < n
        invariant
            idx <= n,
            n == rows@.len(),
            book.wf(),
            book@ == book_of(rows.deep_view().take(idx as int)),
            skips@ == skips_of(rows.deep_view().take(idx as int)),
        decreases n - idx,
    {
        let ghost prefix = rows.deep_view().take(idx as int);
        let ghost step = rows.deep_view().take(idx + 1);
        proof {
            assert(step.drop_last() =~= prefix);
            assert(step.last() == rows.deep_view()[idx as int]);
        }
        match &rows[idx] {
            None => {
                skips.push((idx, SkipReason::Unreadable));
            },
            Some(row) => {
                if row.len() != 2 {
                    proof {
                        assert(rows.deep_view()[idx as int]->0.len() == row@.len());
                    }
                    skips.push((idx, SkipReason::WrongColumnCount));
                } else {
                    proof {
                        assert(rows.deep_view()[idx as int]->0 =~= row.deep_view());
                        assert(row.deep_view()[1] == row@[1]@);
                        assert(row.deep_view()[0] == row@[0]@);
                    }
                    match parse(&row[1]) {
                        Err(_) => {
                            skips.push((idx, SkipReason::BadAddress));
                        },
                        Ok(address) => {
                            let e = AddressBookEntry { name: row[0].clone(), address };
                            proof {
                                assert(e@ == row_entry(row.deep_view())->0);
                            }
                            book.insert_entry(e);
                        },
                    }
                }
            },
        }
        idx = idx + 1;
    }
    proof {
        assert(rows.deep_view().take(n as int) =~= rows.deep_view());
    }
    (book, skips)
}

/// Loads an address book from the text of a tabular source. Row-level
/// malformation never fails the load: it only shrinks the book.
pub fn load(source: &str) -> (r: (AddressBook, Vec<(usize, SkipReason)>))
    ensures
        r.0.wf(),
        r.0@ == book_of(csv_rows(source@)),
        r.1@ == skips_of(csv_rows(source@)),
{
    let rows = csv_records(source);
    load_rows(&rows)
}

/// Loads from a source text when one could be read, and falls back to
/// the empty book when the source was unavailable: startup availability
/// is preferred over strict configuration correctness.
pub fn load_or_default(source: Option<&str>) -> (r: (AddressBook, Vec<(usize, SkipReason)>))
    ensures
        r.0.wf(),
        match source {
            Some(s) => r.0@ == book_of(csv_rows(s@)) && r.1@ == skips_of(csv_rows(s@)),
            None => r.0@ == Set::<(Seq<char>, Seq<u8>)>::empty() && r.1@ == Seq::<(
                usize,
                SkipReason,
            )>::empty(),
        },
{
    match source {
        Some(s) => load(s),
        None => (AddressBook::empty(), Vec::new()),
    }
}

} // verus!
