//! Loading the catalog at startup from what reading a directory of record
//! files gave. There is a catalog only if every entry gave a record.

use crate::catalog::{catalog_of, lemma_catalog_of_absent, lemma_catalog_of_last_wins, Catalog};
use crate::record::{CatalogRecord, RecordView};
use vstd::prelude::*;

verus! {

/// What came of reading one entry of the directory that holds the records.
#[derive(Debug)]
pub enum EntryRead {
    /// The entry was read and holds this record.
    Record(CatalogRecord),
    /// The entry could not be read.
    Unreadable,
    /// The entry was read and does not hold a record.
    Malformed,
}

/// Why no catalog was loaded.
#[derive(Clone, Copy, Debug, PartialEq, Eq)]
pub enum LoadError {
    /// The directory could not be listed.
    DirectoryUnreadable,
    /// The entry at `position` could not be read.
    EntryUnreadable { position: usize },
    /// The entry at `position` does not hold a record.
    EntryMalformed { position: usize },
}

/// Whether every entry gave a record.
pub open spec fn all_loaded(entries: Seq<EntryRead>) -> bool {
    forall|i: int| 0 <= i < entries.len() ==> #[trigger] entries[i] is Record
}

/// Whether the entry at `position` is the first that gave no record.
pub open spec fn first_failure(entries: Seq<EntryRead>, position: int) -> bool {
    &&& 0 <= position < entries.len()
    &&& !(entries[position] is Record)
    &&& forall|i: int| 0 <= i < position ==> #[trigger] entries[i] is Record
}

/// The records that the entries gave, in order.
pub open spec fn loaded_records(entries: Seq<EntryRead>) -> Seq<RecordView>
    decreases entries.len(),
{
    if entries.len() == 0 {
        Seq::empty()
    } else {
        match entries.last() {
            EntryRead::Record(record) => loaded_records(entries.drop_last()).push(record@),
            _ => loaded_records(entries.drop_last()),
        }
    }
}

/// What loading gives for a listing: the catalog of all its records where
/// every entry gave one, else the failure of the first entry that gave none;
/// and a failure where there is no listing.
pub open spec fn load_outcome(
    listing: Option<Seq<EntryRead>>,
    outcome: Result<Map<Seq<char>, RecordView>, LoadError>,
) -> bool {
    match listing {
        None => outcome == Err::<Map<Seq<char>, RecordView>, LoadError>(
            LoadError::DirectoryUnreadable,
        ),
        Some(entries) => match outcome {
            Ok(catalog) => all_loaded(entries) && catalog == catalog_of(loaded_records(entries)),
            Err(LoadError::DirectoryUnreadable) => false,
            Err(LoadError::EntryUnreadable { position }) => first_failure(entries, position as int)
                && entries[position as int] is Unreadable,
            Err(LoadError::EntryMalformed { position }) => first_failure(entries, position as int)
                && entries[position as int] is Malformed,
        },
    }
}

/// Where every entry gave a record, the records loaded are those of the
/// entries, one for one.
pub proof fn lemma_loaded_records_all(entries: Seq<EntryRead>)
    requires
        all_loaded(entries),
    ensures
        loaded_records(entries).len() == entries.len(),
        forall|i: int|
            0 <= i < entries.len() ==> #[trigger] loaded_records(entries)[i]
                == entries[i]->Record_0@,
    decreases entries.len(),
{
    if entries.len() > 0 {
        let front = entries.drop_last();
        assert forall|i: int| 0 <= i < front.len() implies #[trigger] front[i] is Record by {
            assert(entries[i] is Record);
        }
        lemma_loaded_records_all(front);
        assert(entries[entries.len() - 1] is Record);
        assert forall|i: int| 0 <= i < entries.len() implies #[trigger] loaded_records(entries)[i]
            == entries[i]->Record_0@ by {
            if i < front.len() {
                assert(loaded_records(front)[i] == front[i]->Record_0@);
            }
        }
    }
}

/// After a load in which every entry gave a record, the catalog holds under
/// the identifier of the entry at `i` that entry's record, where no later
/// entry carries the same identifier.
pub proof fn lemma_load_keeps_last(entries: Seq<EntryRead>, i: int)
    requires
        all_loaded(entries),
        0 <= i < entries.len(),
        forall|j: int|
            i < j < entries.len() ==> (#[trigger] entries[j])->Record_0@.id
                != entries[i]->Record_0@.id,
    ensures
        catalog_of(loaded_records(entries)).contains_key(entries[i]->Record_0@.id),
        catalog_of(loaded_records(entries))[entries[i]->Record_0@.id] == entries[i]->Record_0@,
{
    let records = loaded_records(entries);
    lemma_loaded_records_all(entries);
    assert(records[i] == entries[i]->Record_0@);
    assert forall|j: int| i < j < records.len() implies #[trigger] records[j].id
        != records[i].id by {
        assert(records[j] == entries[j]->Record_0@);
    }
    lemma_catalog_of_last_wins(records, i);
}

/// After a load in which every entry gave a record, the catalog holds no
/// identifier that none of the entries carries.
pub proof fn lemma_load_adds_nothing(entries: Seq<EntryRead>, id: Seq<char>)
    requires
        all_loaded(entries),
        forall|i: int| 0 <= i < entries.len() ==> (#[trigger] entries[i])->Record_0@.id != id,
    ensures
        !catalog_of(loaded_records(entries)).contains_key(id),
{
    let records = loaded_records(entries);
    lemma_loaded_records_all(entries);
    assert forall|i: int| 0 <= i < records.len() implies #[trigger] records[i].id != id by {
        assert(records[i] == entries[i]->Record_0@);
    }
    lemma_catalog_of_absent(records, id);
}

impl Catalog {
    /// Loads the catalog from what reading the directory gave: `None` where the
    /// directory could not be listed, else one outcome per entry. There is a
    /// catalog only if every entry gave a record.
    #[verifier::loop_isolation(false)]
    pub fn load(listing: Option<Vec<EntryRead>>) -> (outcome: Result<Catalog, LoadError>)
        ensures
            load_outcome(
                match listing {
                    Some(entries) => Some(entries@),
                    None => None,
                },
                match outcome {
                    Ok(catalog) => Ok(catalog@),
                    Err(e) => Err(e),
                },
            ),
    {
        let entries = match listing {
            Some(entries) => entries,
            None => {
                return Err(LoadError::DirectoryUnreadable);
            },
        };
        let ghost all = entries@;
        let total: usize = entries.len();
        let mut catalog = Catalog::new();
        let mut position: usize = 0;
        for entry in it: entries
            invariant
                it.seq() == all,
                all.len() == total,
                position == it.index(),
                forall|i: int| 0 <= i < position ==> #[trigger] all[i] is Record,
                catalog@ == catalog_of(loaded_records(all.subrange(0, position as int))),
        {
            let ghost taken = all.subrange(0, position + 1);
            assert(taken.drop_last() =~= all.subrange(0, position as int));
            assert(taken.last() == entry);
            match entry {
                EntryRead::Record(record) => {
                    let ghost earlier = loaded_records(taken.drop_last());
                    assert(loaded_records(taken) == earlier.push(record@));
                    assert(earlier.push(record@).drop_last() =~= earlier);
                    catalog = catalog.with_record(record);
                },
                EntryRead::Unreadable => {
                    return Err(LoadError::EntryUnreadable { position });
                },
                EntryRead::Malformed => {
                    return Err(LoadError::EntryMalformed { position });
                },
            }
            position = position + 1;
        }
        assert(all.subrange(0, position as int) =~= all);
        Ok(catalog)
    }
}

} // verus!
