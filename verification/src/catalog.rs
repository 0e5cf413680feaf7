//! The catalog of projects: a mapping from identifier to record that is built
//! once and then only read.

use crate::record::{button_markup, details_markup, CatalogRecord, RecordView};
use vstd::hash_map::*;
use vstd::prelude::*;
use vstd::string::*;

verus! {

/// What is shown for a request that names no project.
pub const BAD_REQUEST: &'static str = "<p> bad request! </p>";

/// What is shown for an identifier that the catalog does not hold.
pub const PROJECT_NOT_FOUND: &'static str = "<p>Project not Found!</p>";

/// Opens the box of selector buttons.
pub const SELECTOR_OPEN: &'static str =
    "<div class=\"centered-vertical-flexbox project_selector_box\">";

/// Closes the box of selector buttons.
pub const SELECTOR_CLOSE: &'static str = "</div>";

/// The views of a sequence of records, in order.
pub open spec fn views(records: Seq<CatalogRecord>) -> Seq<RecordView> {
    records.map_values(|r: CatalogRecord| r@)
}

/// The catalog that holds the given records. Where two of them carry one
/// identifier, the later one is kept.
pub open spec fn catalog_of(records: Seq<RecordView>) -> Map<Seq<char>, RecordView>
    decreases records.len(),
{
    if records.len() == 0 {
        Map::empty()
    } else {
        catalog_of(records.drop_last()).insert(records.last().id, records.last())
    }
}

/// Whether `entries` lists the records of `catalog`: each record once, and
/// nothing else.
pub open spec fn enumerates(entries: Seq<RecordView>, catalog: Map<Seq<char>, RecordView>) -> bool {
    &&& forall|i: int|
        0 <= i < entries.len() ==> catalog.contains_key(#[trigger] entries[i].id)
            && catalog[entries[i].id] == entries[i]
    &&& forall|i: int, j: int|
        0 <= i < j < entries.len() ==> #[trigger] entries[i].id != #[trigger] entries[j].id
    &&& forall|id: Seq<char>| #[trigger]
        catalog.contains_key(id) ==> exists|i: int|
            0 <= i < entries.len() && #[trigger] entries[i].id == id
}

/// The identifiers of the given records, in order.
pub open spec fn ids(entries: Seq<RecordView>) -> Seq<Seq<char>> {
    entries.map_values(|r: RecordView| r.id)
}

/// A catalog holds an identifier exactly where one of its records carries it.
pub proof fn lemma_catalog_of_keys(records: Seq<RecordView>, id: Seq<char>)
    ensures
        catalog_of(records).contains_key(id) <==> exists|i: int|
            0 <= i < records.len() && #[trigger] records[i].id == id,
    decreases records.len(),
{
    if records.len() > 0 {
        let front = records.drop_last();
        lemma_catalog_of_keys(front, id);
        if catalog_of(records).contains_key(id) {
            if records.last().id == id {
                assert(records[records.len() - 1].id == id);
            } else {
                let i = choose|i: int| 0 <= i < front.len() && #[trigger] front[i].id == id;
                assert(records[i].id == id);
            }
        }
        if exists|i: int| 0 <= i < records.len() && #[trigger] records[i].id == id {
            let i = choose|i: int| 0 <= i < records.len() && #[trigger] records[i].id == id;
            if i < front.len() {
                assert(front[i].id == id);
            }
        }
    }
}

/// Under an identifier a catalog holds the last of its records that carries
/// it: the record at `i`, where none after `i` has the same identifier.
pub proof fn lemma_catalog_of_last_wins(records: Seq<RecordView>, i: int)
    requires
        0 <= i < records.len(),
        forall|j: int| i < j < records.len() ==> #[trigger] records[j].id != records[i].id,
    ensures
        catalog_of(records).contains_key(records[i].id),
        catalog_of(records)[records[i].id] == records[i],
    decreases records.len(),
{
    if i < records.len() - 1 {
        let front = records.drop_last();
        assert(records[records.len() - 1].id != records[i].id);
        assert forall|j: int| i < j < front.len() implies #[trigger] front[j].id
            != front[i].id by {
            assert(records[j].id != records[i].id);
        }
        lemma_catalog_of_last_wins(front, i);
    }
}

/// A catalog holds no identifier that none of its records carries.
pub proof fn lemma_catalog_of_absent(records: Seq<RecordView>, id: Seq<char>)
    requires
        forall|i: int| 0 <= i < records.len() ==> #[trigger] records[i].id != id,
    ensures
        !catalog_of(records).contains_key(id),
{
    lemma_catalog_of_keys(records, id);
}

/// A listing of a catalog's records has as many entries as the catalog has
/// records.
pub proof fn lemma_enumeration_counts(
    entries: Seq<RecordView>,
    catalog: Map<Seq<char>, RecordView>,
)
    requires
        enumerates(entries, catalog),
    ensures
        catalog.dom().finite(),
        catalog.len() == entries.len(),
{
    let keys = ids(entries);
    assert(keys.no_duplicates()) by {
        assert forall|i: int, j: int|
            0 <= i < keys.len() && 0 <= j < keys.len() && i != j implies keys[i] != keys[j] by {
            if i < j {
                assert(entries[i].id != entries[j].id);
            } else {
                assert(entries[j].id != entries[i].id);
            }
        }
    }
    assert(keys.to_set() =~= catalog.dom()) by {
        assert forall|id: Seq<char>| keys.to_set().contains(id) implies catalog.dom().contains(
            id,
        ) by {
            let i = choose|i: int| 0 <= i < keys.len() && keys[i] == id;
            assert(catalog.contains_key(entries[i].id));
        }
        assert forall|id: Seq<char>| catalog.dom().contains(id) implies keys.to_set().contains(
            id,
        ) by {
            assert(catalog.contains_key(id));
            let i = choose|i: int| 0 <= i < entries.len() && #[trigger] entries[i].id == id;
            assert(keys[i] == id);
        }
    }
    keys.unique_seq_to_set();
    vstd::seq_lib::seq_to_set_is_finite(keys);
}

/// One selector button per record, in the order given.
pub open spec fn buttons_markup(entries: Seq<RecordView>) -> Seq<char>
    decreases entries.len(),
{
    if entries.len() == 0 {
        Seq::empty()
    } else {
        buttons_markup(entries.drop_last()) + button_markup(entries.last())
    }
}

/// The box that holds one selector button per record.
pub open spec fn selector_markup(entries: Seq<RecordView>) -> Seq<char> {
    SELECTOR_OPEN@ + buttons_markup(entries) + SELECTOR_CLOSE@
}

/// What a request for the project `id` is answered with: the project's
/// details, or a notice where the request names no project or one that the
/// catalog does not hold.
pub open spec fn project_markup(catalog: Map<Seq<char>, RecordView>, id: Option<Seq<char>>) -> Seq<
    char,
> {
    match id {
        None => BAD_REQUEST@,
        Some(id) => if catalog.contains_key(id) {
            details_markup(catalog[id])
        } else {
            PROJECT_NOT_FOUND@
        },
    }
}

/// The text of an optional parameter.
pub open spec fn param_text(param: Option<&str>) -> Option<Seq<char>> {
    match param {
        Some(text) => Some(text@),
        None => None,
    }
}

/// The projects of the site, each found by its identifier.
pub struct Catalog {
    index: StringHashMap<usize>,
    records: Vec<CatalogRecord>,
}

impl View for Catalog {
    type V = Map<Seq<char>, RecordView>;

    closed spec fn view(&self) -> Map<Seq<char>, RecordView> {
        Map::new(
            |id: Seq<char>| self.index@.contains_key(id),
            |id: Seq<char>| self.records[self.index@[id] as int]@,
        )
    }
}

impl Catalog {
    #[verifier::type_invariant]
    spec fn indexed(&self) -> bool {
        &&& forall|i: int|
            0 <= i < self.records.len() ==> self.index@.contains_key(
                #[trigger] self.records[i]@.id,
            ) && self.index@[self.records[i]@.id] == i
        &&& forall|id: Seq<char>| #[trigger]
            self.index@.contains_key(id) ==> self.index@[id] < self.records.len()
                && self.records[self.index@[id] as int]@.id == id
    }

    /// The records in the order in which the catalog lists them.
    pub closed spec fn entries(&self) -> Seq<RecordView> {
        views(self.records@)
    }

    /// A catalog without records.
    pub fn new() -> (catalog: Catalog)
        ensures
            catalog@ == Map::<Seq<char>, RecordView>::empty(),
            catalog.entries() == Seq::<RecordView>::empty(),
    {
        let catalog = Catalog { index: StringHashMap::new(), records: Vec::new() };
        assert(catalog@ =~= Map::<Seq<char>, RecordView>::empty());
        assert(catalog.entries() =~= Seq::<RecordView>::empty());
        catalog
    }

    /// The catalog with `record` under its identifier, in place of the record
    /// that was there before, if there was one.
    pub fn with_record(self, record: CatalogRecord) -> (catalog: Catalog)
        ensures
            catalog@ == self@.insert(record@.id, record@),
    {
        proof {
            use_type_invariant(&self);
        }
        let ghost before = self;
        let Catalog { mut index, mut records } = self;
        let found: Option<usize> = match index.get(record.id()) {
            Some(at) => Some(*at),
            None => None,
        };
        match found {
            Some(at) => {
                records.set(at, record);
            },
            None => {
                let key = String::from_str(record.id());
                index.insert(key, records.len());
                records.push(record);
            },
        }
        let catalog = Catalog { index, records };
        assert(catalog@ =~= before@.insert(record@.id, record@));
        catalog
    }

    /// The catalog of the given records, taken in order: a later record
    /// replaces an earlier one with the same identifier.
    pub fn from_records(records: Vec<CatalogRecord>) -> (catalog: Catalog)
        ensures
            catalog@ == catalog_of(views(records@)),
    {
        let ghost all = views(records@);
        let mut catalog = Catalog::new();
        for record in it: records
            invariant
                it.seq() == records@,
                all == views(records@),
                catalog@ == catalog_of(all.subrange(0, it.index() as int)),
        {
            let ghost taken = all.subrange(0, it.index() + 1);
            assert(taken.drop_last() =~= all.subrange(0, it.index() as int));
            assert(taken.last() == record@);
            catalog = catalog.with_record(record);
        }
        assert(all.subrange(0, all.len() as int) =~= all);
        catalog
    }

    /// All records of the catalog, each once.
    pub fn records(&self) -> (records: &Vec<CatalogRecord>)
        ensures
            views(records@) == self.entries(),
            enumerates(self.entries(), self@),
            self@.dom().finite(),
            records@.len() == self@.len(),
    {
        proof {
            use_type_invariant(self);
            let entries = self.entries();
            assert forall|i: int| 0 <= i < entries.len() implies self@.contains_key(
                #[trigger] entries[i].id,
            ) && self@[entries[i].id] == entries[i] by {
                assert(self.index@.contains_key(self.records[i]@.id));
            }
            assert forall|i: int, j: int| 0 <= i < j < entries.len() implies #[trigger] entries[i].id
                != #[trigger] entries[j].id by {
                assert(self.index@[self.records[i]@.id] == i);
                assert(self.index@[self.records[j]@.id] == j);
            }
            assert forall|id: Seq<char>| #[trigger] self@.contains_key(id) implies exists|i: int|
                0 <= i < entries.len() && #[trigger] entries[i].id == id by {
                assert(self.index@.contains_key(id));
                let at = self.index@[id] as int;
                assert(entries[at].id == id);
            }
            lemma_enumeration_counts(entries, self@);
        }
        &self.records
    }

    /// The record with the identifier `id`, if the catalog has one.
    pub fn get(&self, id: &str) -> (found: Option<&CatalogRecord>)
        ensures
            match found {
                Some(record) => self@.contains_key(id@) && record@ == self@[id@],
                None => !self@.contains_key(id@),
            },
    {
        proof {
            use_type_invariant(self);
        }
        match self.index.get(id) {
            Some(at) => Some(&self.records[*at]),
            None => None,
        }
    }
}

impl Catalog {
    /// Answers a request for the details of the project `id`.
    pub fn project_html(&self, id: Option<&str>) -> (html: String)
        ensures
            html@ == project_markup(self@, param_text(id)),
    {
        match id {
            None => String::from_str(BAD_REQUEST),
            Some(id) => match self.get(id) {
                Some(record) => record.details_html(),
                None => String::from_str(PROJECT_NOT_FOUND),
            },
        }
    }

    /// The box of selector buttons, one for each record of the catalog.
    pub fn selector_html(&self) -> (html: String)
        ensures
            html@ == selector_markup(self.entries()),
            enumerates(self.entries(), self@),
    {
        let records = self.records();
        let mut html = String::from_str(SELECTOR_OPEN);
        let mut done: usize = 0;
        while done < records.len()
            invariant
                done <= records.len(),
                html@ == SELECTOR_OPEN@ + buttons_markup(views(records@).subrange(0, done as int)),
            decreases records.len() - done,
        {
            let ghost before = views(records@).subrange(0, done as int);
            let ghost after = views(records@).subrange(0, done + 1);
            let button = records[done].button_html();
            html.append(button.as_str());
            assert(after.drop_last() =~= before);
            assert(after.last() == records[done as int]@);
            assert(html@ =~= SELECTOR_OPEN@ + buttons_markup(after));
            done = done + 1;
        }
        assert(views(records@).subrange(0, done as int) =~= views(records@));
        html.append(SELECTOR_CLOSE);
        html
    }
}

} // verus!
