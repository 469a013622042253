//! The vault table manager: the catalog of table and column descriptors and
//! the vault tables' contents, with creation, insert, fetch, row deletion
//! and table deletion.
//!
//! The relational state is held as a value so that every operation can say
//! exactly what it does to it.  Each multi-statement sequence (table
//! creation, table deletion, import) acts on that value as one atomic
//! step: a failing operation leaves the state untouched, which is the
//! explicit transaction-boundary choice.  The SQL text that a relational
//! store would receive for each step is generated, verified, in
//! [`crate::sql`].

use vstd::prelude::*;
use crate::data::{ColumnIndexEntry, TableCell, TableIndexEntry, TableRow, VaultTable};
use crate::crypt::KeyPair;
use crate::errors::VaultError;
use crate::naming;
use crate::search;

verus! {

/// One stored row of a vault table: its id and one value per column of the
/// owning table, in column order.  A column omitted at insert time holds the
/// empty string (the storage default of a nullable column).
pub struct StoredRow {
    /// The row's id, assigned by the table's auto-increment counter.
    pub id: u64,
    /// One value per column, in column order.
    pub values: Vec<String>,
}

/// One vault table: its index entry, its column descriptors, and its rows.
pub struct StoredTable {
    /// The table-index entry describing this table.
    pub index: TableIndexEntry,
    /// The column-index entries of this table, in physical column order.
    pub columns: Vec<ColumnIndexEntry>,
    /// The auto-increment counter for row ids; starts at 1.
    pub next_row_id: u64,
    /// The rows, in insertion order.
    pub rows: Vec<StoredRow>,
}

/// The whole relational state of the engine.
pub struct VaultDb {
    /// The auto-increment counter of the table index; starts at 1.
    pub next_table_id: u64,
    /// The auto-increment counter of the column index; starts at 1.
    pub next_column_id: u64,
    /// The vault tables, in creation order.
    pub tables: Vec<StoredTable>,
}

impl StoredTable {
    /// The canonical column shape every vault table has: `key_` (required,
    /// not encrypted), `password` (required, encrypted), then `extra_<n>`
    /// (optional, not encrypted), all tagged with the physical table name.
    pub open spec fn columns_wf(self) -> bool {
        let name = naming::spec_vault_table_name(self.index.id);
        &&& self.columns.len() >= 2
        &&& forall|j: int|
            0 <= j < self.columns.len() ==> (#[trigger] self.columns[j]).table_name@ == name
        &&& self.columns[0].column_name@ == "key_"@
        &&& self.columns[0].required
        &&& !self.columns[0].encrypted
        &&& self.columns[1].column_name@ == "password"@
        &&& self.columns[1].required
        &&& self.columns[1].encrypted
        &&& forall|j: int|
            2 <= j < self.columns.len() ==> {
                &&& (#[trigger] self.columns[j]).column_name@ == naming::spec_extra_column_name(
                    (j - 2) as nat,
                )
                &&& !self.columns[j].required
                &&& !self.columns[j].encrypted
            }
    }

    /// Every row has one value per column; row ids are unique and below the
    /// auto-increment counter.
    pub open spec fn rows_wf(self) -> bool {
        &&& forall|i: int|
            0 <= i < self.rows.len() ==> (#[trigger] self.rows[i]).values.len()
                == self.columns.len()
        &&& forall|i: int|
            0 <= i < self.rows.len() ==> (#[trigger] self.rows[i]).id < self.next_row_id
        &&& forall|i: int, j: int|
            0 <= i < j < self.rows.len() ==> (#[trigger] self.rows[i]).id != (
            #[trigger] self.rows[j]).id
        &&& self.next_row_id >= 1
    }

    /// A well-formed vault table.
    pub open spec fn wf(self) -> bool {
        &&& self.columns_wf()
        &&& self.rows_wf()
    }
}

impl VaultDb {
    /// The invariant of the whole state: every table is well-formed, table
    /// ids and labels are unique, and ids are below the counters.
    pub open spec fn wf(self) -> bool {
        &&& forall|k: int| 0 <= k < self.tables.len() ==> (#[trigger] self.tables[k]).wf()
        &&& forall|k: int|
            0 <= k < self.tables.len() ==> (#[trigger] self.tables[k]).index.id
                < self.next_table_id
        &&& forall|k: int, l: int|
            0 <= k < l < self.tables.len() ==> (#[trigger] self.tables[k]).index.id != (
            #[trigger] self.tables[l]).index.id
        &&& forall|k: int, l: int|
            0 <= k < l < self.tables.len() ==> (#[trigger] self.tables[k]).index.ui_name@ != (
            #[trigger] self.tables[l]).index.ui_name@
        &&& self.next_table_id >= 1
        &&& self.next_column_id >= 1
    }

    /// Whether some table has the given id.
    pub open spec fn spec_has_table(self, id: u64) -> bool {
        exists|k: int| 0 <= k < self.tables.len() && (#[trigger] self.tables[k]).index.id == id
    }

    /// Whether some table has the given human label.
    pub open spec fn spec_has_table_named(self, ui_name: Seq<char>) -> bool {
        exists|k: int|
            0 <= k < self.tables.len() && (#[trigger] self.tables[k]).index.ui_name@ == ui_name
    }

    /// A fresh, empty state: no tables, counters at 1.
    pub fn new() -> (r: Self)
        ensures
            r.wf(),
            r.tables@.len() == 0,
            r.next_table_id == 1,
            r.next_column_id == 1,
    {
        VaultDb { next_table_id: 1, next_column_id: 1, tables: Vec::new() }
    }

    /// Whether creating a table with the given number of extra columns would
    /// exhaust an id counter.
    pub open spec fn spec_create_overflows(self, n_extra: nat) -> bool {
        ||| self.next_table_id == u64::MAX
        ||| self.next_column_id as nat + 2 + n_extra > u64::MAX as nat
    }

    /// The column descriptors a successful create gives the new table.
    pub open spec fn spec_created_columns(
        columns: Seq<ColumnIndexEntry>,
        table_id: u64,
        first_column_id: u64,
        key_ui_name: Seq<char>,
        password_ui_name: Seq<char>,
        extra: Seq<Seq<char>>,
    ) -> bool {
        &&& columns.len() == 2 + extra.len()
        &&& columns[0].ui_name@ == key_ui_name
        &&& columns[1].ui_name@ == password_ui_name
        &&& forall|j: int|
            2 <= j < columns.len() ==> (#[trigger] columns[j]).ui_name@ == extra[j - 2]
        &&& forall|j: int|
            0 <= j < columns.len() ==> (#[trigger] columns[j]).id == first_column_id + j
    }

    /// Creates a new vault table: a table-index entry for `ui_name`, column
    /// entries for the key column, the password column and one extra column
    /// per entry of `extra` (in that order), and the empty physical table.
    /// The whole sequence is one atomic step: on failure nothing changes.
    /// Fails with `StorageError` exactly when the label is already taken or
    /// an id counter would overflow (the store's unique-constraint and
    /// key-exhaustion failures).
    pub fn create_vault_table(
        &mut self,
        ui_name: &str,
        key_ui_name: &str,
        password_ui_name: &str,
        extra: &Vec<String>,
    ) -> (r: Result<u64, VaultError>)
        requires
            old(self).wf(),
        ensures
            final(self).wf(),
            match r {
                Ok(id) => {
                    &&& !old(self).spec_has_table_named(ui_name@)
                    &&& !old(self).spec_create_overflows(extra@.len())
                    &&& id == old(self).next_table_id
                    &&& final(self).next_table_id == old(self).next_table_id + 1
                    &&& final(self).next_column_id == old(self).next_column_id + 2 + extra@.len()
                    &&& final(self).tables@.len() == old(self).tables@.len() + 1
                    &&& final(self).tables@.subrange(0, old(self).tables@.len() as int) == old(
                        self,
                    ).tables@
                    &&& {
                        let t = final(self).tables@.last();
                        &&& t.index.id == id
                        &&& t.index.ui_name@ == ui_name@
                        &&& t.rows@.len() == 0
                        &&& t.next_row_id == 1
                        &&& t.wf()
                        &&& Self::spec_created_columns(
                            t.columns@,
                            id,
                            old(self).next_column_id,
                            key_ui_name@,
                            password_ui_name@,
                            extra@.map_values(|s: String| s@),
                        )
                    }
                },
                Err(e) => {
                    &&& e == VaultError::StorageError
                    &&& *final(self) == *old(self)
                    &&& (old(self).spec_has_table_named(ui_name@) || old(
                        self,
                    ).spec_create_overflows(extra@.len()))
                },
            },
    {
        // The store's UNIQUE constraint on the label.
        let owned_ui_name = String::from_str(ui_name);
        let mut k: usize = 0;
        while k < self.tables.len()
            invariant
                old(self).wf(),
                self.next_table_id == old(self).next_table_id && self.next_column_id == old(self).next_column_id && self.tables == old(self).tables,
                owned_ui_name@ == ui_name@,
                k <= self.tables.len(),
                forall|m: int|
                    0 <= m < k ==> (#[trigger] self.tables[m]).index.ui_name@ != ui_name@,
            decreases self.tables.len() - k,
        {
            if self.tables[k].index.ui_name == owned_ui_name {
                return Err(VaultError::StorageError);
            }
            k = k + 1;
        }
        // Id-counter exhaustion.
        if self.next_table_id == u64::MAX {
            return Err(VaultError::StorageError);
        }
        if extra.len() as u64 > u64::MAX - 2 || self.next_column_id > u64::MAX - 2 - (
        extra.len() as u64) {
            return Err(VaultError::StorageError);
        }
        let id = self.next_table_id;
        let table_name = naming::gen_vault_table_name(id);
        let first_column_id = self.next_column_id;

        let mut columns: Vec<ColumnIndexEntry> = Vec::new();
        columns.push(
            ColumnIndexEntry {
                id: first_column_id,
                table_name: table_name.clone(),
                column_name: String::from_str("key_"),
                ui_name: String::from_str(key_ui_name),
                required: true,
                encrypted: false,
            },
        );
        columns.push(
            ColumnIndexEntry {
                id: first_column_id + 1,
                table_name: table_name.clone(),
                column_name: String::from_str("password"),
                ui_name: String::from_str(password_ui_name),
                required: true,
                encrypted: true,
            },
        );
        let mut x: usize = 0;
        while x < extra.len()
            invariant
                x <= extra.len(),
                extra.len() as u64 <= u64::MAX - 2,
                first_column_id <= u64::MAX - 2 - extra.len() as u64,
                table_name@ == naming::spec_vault_table_name(id),
                columns@.len() == 2 + x,
                columns[0].ui_name@ == key_ui_name@,
                columns[0].column_name@ == "key_"@,
                columns[0].required,
                !columns[0].encrypted,
                columns[1].ui_name@ == password_ui_name@,
                columns[1].column_name@ == "password"@,
                columns[1].required,
                columns[1].encrypted,
                forall|j: int|
                    0 <= j < columns@.len() ==> (#[trigger] columns[j]).table_name@
                        == naming::spec_vault_table_name(id),
                forall|j: int|
                    0 <= j < columns@.len() ==> (#[trigger] columns[j]).id == first_column_id + j,
                forall|j: int|
                    2 <= j < columns@.len() ==> {
                        &&& (#[trigger] columns[j]).column_name@
                            == naming::spec_extra_column_name((j - 2) as nat)
                        &&& columns[j].ui_name@ == extra[j - 2]@
                        &&& !columns[j].required
                        &&& !columns[j].encrypted
                    },
            decreases extra.len() - x,
        {
            columns.push(
                ColumnIndexEntry {
                    id: first_column_id + 2 + x as u64,
                    table_name: table_name.clone(),
                    column_name: naming::gen_extra_column_name(x as u64),
                    ui_name: extra[x].clone(),
                    required: false,
                    encrypted: false,
                },
            );
            x = x + 1;
        }

        let table = StoredTable {
            index: TableIndexEntry { id, ui_name: owned_ui_name },
            columns,
            next_row_id: 1,
            rows: Vec::new(),
        };
        self.next_table_id = id + 1;
        self.next_column_id = first_column_id + 2 + extra.len() as u64;
        self.tables.push(table);
        proof {
            assert(final(self).tables@.subrange(0, old(self).tables@.len() as int) =~= old(
                self,
            ).tables@);
            assert(final(self).tables@.last().wf());
        }
        Ok(id)
    }
}

/// Whether a stored row's key column matches a search query.
pub open spec fn spec_row_matches(q: Seq<char>, row: StoredRow) -> bool {
    row.values.len() > 0 && search::spec_search_matches(q, row.values[0]@)
}

/// How a fetched row mirrors a stored row: same id, one cell per column in
/// column order, each cell's text the stored value and its `encrypted` flag
/// copied from the column descriptor.
pub open spec fn spec_row_projection(tr: TableRow, sr: StoredRow, cols: Seq<ColumnIndexEntry>) -> bool {
    &&& tr.id == sr.id
    &&& tr.cells.len() == cols.len()
    &&& sr.values.len() == cols.len()
    &&& forall|j: int|
        0 <= j < cols.len() ==> {
            &&& (#[trigger] tr.cells[j]).data@ == sr.values[j]@
            &&& tr.cells[j].encrypted == cols[j].encrypted
        }
}

/// The rows of `rows` a fetch with the given query selects.
pub open spec fn spec_selected_rows(rows: Seq<StoredRow>, query: Option<Seq<char>>) -> Seq<
    StoredRow,
> {
    match query {
        Option::Some(q) => rows.filter(|row: StoredRow| spec_row_matches(q, row)),
        Option::None => rows,
    }
}

proof fn lemma_filter_push<A>(s: Seq<A>, pred: spec_fn(A) -> bool, x: A)
    ensures
        (s.push(x)).filter(pred) == if pred(x) {
            s.filter(pred).push(x)
        } else {
            s.filter(pred)
        },
{
    reveal(Seq::filter);
    assert((s.push(x)).drop_last() =~= s);
    assert((s.push(x)).last() == x);
}

/// One fetched row, projected from a stored row and the column descriptors.
fn project_row(sr: &StoredRow, cols: &Vec<ColumnIndexEntry>) -> (r: TableRow)
    requires
        sr.values.len() == cols.len(),
    ensures
        spec_row_projection(r, *sr, cols@),
{
    let mut cells: Vec<TableCell> = Vec::new();
    let mut j: usize = 0;
    while j < cols.len()
        invariant
            sr.values.len() == cols.len(),
            j <= cols.len(),
            cells@.len() == j,
            forall|m: int|
                0 <= m < j ==> {
                    &&& (#[trigger] cells[m]).data@ == sr.values[m]@
                    &&& cells[m].encrypted == cols[m].encrypted
                },
        decreases cols.len() - j,
    {
        cells.push(TableCell { data: sr.values[j].clone(), encrypted: cols[j].encrypted });
        j = j + 1;
    }
    TableRow { id: sr.id, cells }
}

impl VaultDb {
    /// The position of the table with the given id, if any.
    pub(crate) fn find_table(&self, id: u64) -> (r: Option<usize>)
        ensures
            match r {
                Some(k) => k < self.tables.len() && self.tables[k as int].index.id == id,
                None => !self.spec_has_table(id),
            },
    {
        let mut k: usize = 0;
        while k < self.tables.len()
            invariant
                k <= self.tables.len(),
                forall|m: int| 0 <= m < k ==> (#[trigger] self.tables[m]).index.id != id,
            decreases self.tables.len() - k,
        {
            if self.tables[k].index.id == id {
                return Some(k);
            }
            k = k + 1;
        }
        None
    }

    /// The whole table index, in creation order.
    pub fn fetch_table_index(&self) -> (r: Vec<TableIndexEntry>)
        ensures
            r@.len() == self.tables@.len(),
            forall|k: int|
                0 <= k < self.tables@.len() ==> r@[k] == (#[trigger] self.tables@[k]).index,
    {
        let mut r: Vec<TableIndexEntry> = Vec::new();
        let mut k: usize = 0;
        while k < self.tables.len()
            invariant
                k <= self.tables@.len(),
                r@.len() == k,
                forall|m: int|
                    0 <= m < k ==> r@[m] == (#[trigger] self.tables@[m]).index,
            decreases self.tables@.len() - k,
        {
            r.push(self.tables[k].index.duplicate());
            k = k + 1;
        }
        r
    }

    /// The table-index entry with the given id, or nothing when no vault
    /// table has that id.
    pub fn fetch_table_index_entry(&self, id: u64) -> (r: Option<TableIndexEntry>)
        ensures
            match r {
                Some(e) => exists|k: int|
                    0 <= k < self.tables@.len() && e == (#[trigger] self.tables@[k]).index
                        && e.id == id,
                None => !self.spec_has_table(id),
            },
    {
        match self.find_table(id) {
            Some(k) => Some(self.tables[k].index.duplicate()),
            None => None,
        }
    }

    /// Whether some table's physical name is `table_name`.
    pub open spec fn spec_has_physical_table(self, table_name: Seq<char>) -> bool {
        exists|k: int|
            0 <= k < self.tables.len() && naming::spec_vault_table_name(
                (#[trigger] self.tables[k]).index.id,
            ) == table_name
    }

    /// The column-index entries of the table whose physical name is
    /// `table_name`, in column order; empty when there is no such table.
    pub fn fetch_column_index(&self, table_name: &str) -> (r: Vec<ColumnIndexEntry>)
        ensures
            self.spec_has_physical_table(table_name@) ==> exists|k: int|
                0 <= k < self.tables@.len() && naming::spec_vault_table_name(
                    (#[trigger] self.tables@[k]).index.id,
                ) == table_name@ && r@ == self.tables@[k].columns@,
            !self.spec_has_physical_table(table_name@) ==> r@.len() == 0,
    {
        let owned = String::from_str(table_name);
        let mut k: usize = 0;
        while k < self.tables.len()
            invariant
                owned@ == table_name@,
                k <= self.tables.len(),
                forall|m: int|
                    0 <= m < k ==> naming::spec_vault_table_name(
                        (#[trigger] self.tables[m]).index.id,
                    ) != table_name@,
            decreases self.tables.len() - k,
        {
            let name = naming::gen_vault_table_name(self.tables[k].index.id);
            if name == owned {
                return crate::data::duplicate_columns(&self.tables[k].columns);
            }
            k = k + 1;
        }
        Vec::new()
    }

    /// The column-index entries of the table with the given id, resolved
    /// through the deterministic naming function; empty when there is no
    /// such table.
    pub fn fetch_column_index_by_id(&self, id: u64) -> (r: Vec<ColumnIndexEntry>)
        ensures
            self.spec_has_table(id) ==> exists|k: int|
                0 <= k < self.tables@.len() && (#[trigger] self.tables@[k]).index.id == id && r@
                    == self.tables@[k].columns@,
            !self.spec_has_table(id) ==> r@.len() == 0,
    {
        let name = naming::gen_vault_table_name(id);
        let r = self.fetch_column_index(name.as_str());
        proof {
            if self.spec_has_table(id) {
                let k = choose|k: int|
                    0 <= k < self.tables.len() && (#[trigger] self.tables[k]).index.id == id;
                assert(naming::spec_vault_table_name(self.tables[k].index.id) == name@);
                assert(self.spec_has_physical_table(name@));
                let m = choose|m: int|
                    0 <= m < self.tables@.len() && naming::spec_vault_table_name(
                        (#[trigger] self.tables@[m]).index.id,
                    ) == name@ && r@ == self.tables@[m].columns@;
                naming::lemma_vault_table_name_injective(self.tables@[m].index.id, id);
                assert(self.tables@[m].index.id == id);
            } else {
                if self.spec_has_physical_table(name@) {
                    let m = choose|m: int|
                        0 <= m < self.tables.len() && naming::spec_vault_table_name(
                            (#[trigger] self.tables[m]).index.id,
                        ) == name@;
                    naming::lemma_vault_table_name_injective(self.tables@[m].index.id, id);
                }
            }
        }
        r
    }

    /// Fetches a vault table and its rows.  Nothing is returned when the id
    /// is unknown.  With a search query, exactly the rows whose key column
    /// matches the compiled pattern (case-insensitively) are returned; the
    /// duplicate-suppressing (DISTINCT) read such a search uses drops
    /// nothing here because row ids are unique.  No cell is decrypted: each cell
    /// carries its column's `encrypted` flag.
    pub fn fetch_table(&self, id: u64, query: &Option<String>) -> (r: Option<VaultTable>)
        requires
            self.wf(),
        ensures
            match r {
                Some(vt) => exists|k: int|
                    {
                        &&& 0 <= k < self.tables@.len()
                        &&& (#[trigger] self.tables@[k]).index.id == id
                        &&& vt.id == id
                        &&& vt.name@ == self.tables@[k].index.ui_name@
                        &&& vt.columns@ == self.tables@[k].columns@
                        &&& {
                            let selected = spec_selected_rows(
                                self.tables@[k].rows@,
                                match *query {
                                    Option::Some(ref q) => Option::Some(q@),
                                    Option::None => Option::None,
                                },
                            );
                            &&& vt.rows@.len() == selected.len()
                            &&& forall|i: int|
                                0 <= i < selected.len() ==> spec_row_projection(
                                    #[trigger] vt.rows@[i],
                                    selected[i],
                                    self.tables@[k].columns@,
                                )
                        }
                    },
                None => !self.spec_has_table(id),
            },
    {
        let k = match self.find_table(id) {
            Some(k) => k,
            None => {
                return None;
            },
        };
        let table = &self.tables[k];
        let columns = crate::data::duplicate_columns(&table.columns);
        let name = table.index.ui_name.clone();
        let mut rows: Vec<TableRow> = Vec::new();
        match query {
            None => {
                let mut i: usize = 0;
                while i < table.rows.len()
                    invariant
                        self.wf(),
                        0 <= k < self.tables.len(),
                        table == &self.tables[k as int],
                        i <= table.rows.len(),
                        rows@.len() == i,
                        forall|m: int|
                            0 <= m < i ==> spec_row_projection(
                                #[trigger] rows@[m],
                                table.rows@[m],
                                table.columns@,
                            ),
                    decreases table.rows.len() - i,
                {
                    assert(table.rows@[i as int].values.len() == table.columns.len());
                    rows.push(project_row(&table.rows[i], &table.columns));
                    i = i + 1;
                }
            },
            Some(q) => {
                let ghost pred = |row: StoredRow| spec_row_matches(q@, row);
                let mut i: usize = 0;
                while i < table.rows.len()
                    invariant
                        self.wf(),
                        0 <= k < self.tables.len(),
                        table == &self.tables[k as int],
                        i <= table.rows.len(),
                        pred == (|row: StoredRow| spec_row_matches(q@, row)),
                        ({
                            let sel = table.rows@.subrange(0, i as int).filter(pred);
                            &&& rows@.len() == sel.len()
                            &&& forall|m: int|
                                0 <= m < sel.len() ==> spec_row_projection(
                                    #[trigger] rows@[m],
                                    sel[m],
                                    table.columns@,
                                )
                        }),
                    decreases table.rows.len() - i,
                {
                    assert(table.rows@[i as int].values.len() == table.columns.len());
                    assert(table.rows@[i as int].values.len() >= 2);
                    let sr = &table.rows[i];
                    proof {
                        assert(table.rows@.subrange(0, i + 1 as int) =~= table.rows@.subrange(
                            0,
                            i as int,
                        ).push(table.rows@[i as int]));
                        lemma_filter_push(
                            table.rows@.subrange(0, i as int),
                            pred,
                            table.rows@[i as int],
                        );
                    }
                    if search::search_matches(q.as_str(), sr.values[0].as_str()) {
                        rows.push(project_row(sr, &table.columns));
                    }
                    i = i + 1;
                }
                proof {
                    assert(table.rows@.subrange(0, table.rows@.len() as int) =~= table.rows@);
                }
            },
        }
        Some(VaultTable { id, name, columns, rows })
    }
}

/// The value the first pair of `data` with the given key carries, if any.
pub open spec fn spec_lookup(data: Seq<(String, String)>, name: Seq<char>) -> Option<Seq<char>>
    decreases data.len(),
{
    if data.len() == 0 {
        Option::None
    } else if data[0].0@ == name {
        Option::Some(data[0].1@)
    } else {
        spec_lookup(data.drop_first(), name)
    }
}

/// Whether the keys of `data` are pairwise distinct.
pub open spec fn spec_keys_distinct(data: Seq<(String, String)>) -> bool {
    forall|i: int, j: int|
        0 <= i < j < data.len() ==> (#[trigger] data[i]).0@ != (#[trigger] data[j]).0@
}

/// Whether some column of `cols` has the given physical name.
pub open spec fn spec_column_named(cols: Seq<ColumnIndexEntry>, name: Seq<char>) -> bool {
    exists|j: int| 0 <= j < cols.len() && (#[trigger] cols[j]).column_name@ == name
}

impl StoredTable {
    /// When the store accepts an insert of `data` (keyed by physical column
    /// name) into this table: at least one named column, no column named
    /// twice, no unknown column, no required (NOT NULL) column missing, and
    /// a free row id.
    pub open spec fn spec_insert_valid(self, data: Seq<(String, String)>) -> bool {
        &&& data.len() > 0
        &&& spec_keys_distinct(data)
        &&& forall|i: int|
            0 <= i < data.len() ==> spec_column_named(self.columns@, (#[trigger] data[i]).0@)
        &&& forall|j: int|
            0 <= j < self.columns@.len() && (#[trigger] self.columns@[j]).required
                ==> spec_lookup(data, self.columns@[j].column_name@) is Some
        &&& self.next_row_id < u64::MAX
    }
}

/// The value of the first pair of `data` whose key equals `name`.
fn lookup_value(data: &Vec<(String, String)>, name: &String) -> (r: Option<String>)
    ensures
        match r {
            Some(v) => spec_lookup(data@, name@) == Some(v@),
            None => spec_lookup(data@, name@) is None,
        },
{
    let mut i: usize = 0;
    proof {
        assert(data@.skip(0) =~= data@);
    }
    while i < data.len()
        invariant
            i <= data@.len(),
            spec_lookup(data@, name@) == spec_lookup(data@.skip(i as int), name@),
        decreases data@.len() - i,
    {
        let ghost s = data@.skip(i as int);
        proof {
            assert(s[0] == data@[i as int]);
            assert(s.drop_first() =~= data@.skip(i + 1 as int));
        }
        if data[i].0 == *name {
            return Some(data[i].1.clone());
        }
        i = i + 1;
    }
    proof {
        assert(data@.skip(data@.len() as int).len() == 0);
    }
    None
}

impl VaultDb {
    /// Inserts a row into the vault table with the given id.  `data` maps
    /// physical column names to values; a column that is not named holds
    /// the storage default (the empty string for a nullable column).  Fails
    /// with `NotFound` when the table does not exist and with
    /// `StorageError` exactly when the store would reject the statement:
    /// no named column at all, a column named twice or unknown, a required
    /// column missing, or an exhausted row-id counter.
    #[verifier::loop_isolation(false)]
    pub fn insert_vault_data(&mut self, table_id: u64, data: &Vec<(String, String)>) -> (r:
        Result<u64, VaultError>)
        requires
            old(self).wf(),
        ensures
            final(self).wf(),
            match r {
                Ok(row_id) => exists|k: int|
                    {
                        &&& 0 <= k < old(self).tables@.len()
                        &&& (#[trigger] old(self).tables@[k]).index.id == table_id
                        &&& old(self).tables@[k].spec_insert_valid(data@)
                        &&& row_id == old(self).tables@[k].next_row_id
                        &&& final(self).tables@.len() == old(self).tables@.len()
                        &&& final(self).next_table_id == old(self).next_table_id
                        &&& final(self).next_column_id == old(self).next_column_id
                        &&& forall|l: int|
                            0 <= l < old(self).tables@.len() && l != k
                                ==> final(self).tables@[l] == old(self).tables@[l]
                        &&& {
                            let t0 = old(self).tables@[k];
                            let t1 = final(self).tables@[k];
                            &&& t1.index == t0.index
                            &&& t1.columns == t0.columns
                            &&& t1.next_row_id == t0.next_row_id + 1
                            &&& t1.rows@.len() == t0.rows@.len() + 1
                            &&& t1.rows@.subrange(0, t0.rows@.len() as int) == t0.rows@
                            &&& {
                                let nr = t1.rows@.last();
                                &&& nr.id == row_id
                                &&& nr.values@.len() == t0.columns@.len()
                                &&& forall|j: int|
                                    0 <= j < t0.columns@.len()
                                        ==> (#[trigger] nr.values@[j])@ == match spec_lookup(
                                        data@,
                                        t0.columns@[j].column_name@,
                                    ) {
                                        Option::Some(v) => v,
                                        Option::None => Seq::<char>::empty(),
                                    }
                            }
                        }
                    },
                Err(e) => {
                    &&& *final(self) == *old(self)
                    &&& match e {
                        VaultError::NotFound => !old(self).spec_has_table(table_id),
                        VaultError::StorageError => exists|k: int|
                            {
                                &&& 0 <= k < old(self).tables@.len()
                                &&& (#[trigger] old(self).tables@[k]).index.id == table_id
                                &&& !old(self).tables@[k].spec_insert_valid(data@)
                            },
                        _ => false,
                    }
                },
            },
    {
        let k = match self.find_table(table_id) {
            Some(k) => k,
            None => {
                return Err(VaultError::NotFound);
            },
        };
        if data.len() == 0 {
            return Err(VaultError::StorageError);
        }
        // No column may be named twice.
        let mut i: usize = 0;
        while i < data.len()
            invariant
                i <= data@.len(),
                forall|a: int, b: int|
                    0 <= a < b < data@.len() && a < i ==> (#[trigger] data@[a]).0@ != (
                    #[trigger] data@[b]).0@,
            decreases data@.len() - i,
        {
            let mut j: usize = i + 1;
            while j < data.len()
                invariant
                    i < j,
                    j <= data@.len(),
                    i < data@.len(),
                    forall|b: int| i < b < j ==> (#[trigger] data@[b]).0@ != data@[i as int].0@,
                decreases data@.len() - j,
            {
                if data[i].0 == data[j].0 {
                    return Err(VaultError::StorageError);
                }
                j = j + 1;
            }
            i = i + 1;
        }
        // Every named column must exist.
        let table = &self.tables[k];
        let mut i: usize = 0;
        while i < data.len()
            invariant
                0 <= k < self.tables.len(),
                table == &self.tables[k as int],
                i <= data@.len(),
                forall|a: int|
                    0 <= a < i ==> spec_column_named(table.columns@, (#[trigger] data@[a]).0@),
            decreases data@.len() - i,
        {
            let mut found = false;
            let mut j: usize = 0;
            while j < table.columns.len()
                invariant
                    0 <= k < self.tables.len(),
                    table == &self.tables[k as int],
                    i < data@.len(),
                    j <= table.columns@.len(),
                    found ==> spec_column_named(table.columns@, data@[i as int].0@),
                    !found ==> forall|m: int|
                        0 <= m < j ==> (#[trigger] table.columns@[m]).column_name@ != data@[
                            i as int
                        ].0@,
                decreases table.columns@.len() - j,
            {
                if table.columns[j].column_name == data[i].0 {
                    found = true;
                }
                j = j + 1;
            }
            if !found {
                return Err(VaultError::StorageError);
            }
            i = i + 1;
        }
        // Every required column must be given.
        let mut j: usize = 0;
        while j < table.columns.len()
            invariant
                0 <= k < self.tables.len(),
                table == &self.tables[k as int],
                j <= table.columns@.len(),
                forall|m: int|
                    0 <= m < j && (#[trigger] table.columns@[m]).required ==> spec_lookup(
                        data@,
                        table.columns@[m].column_name@,
                    ) is Some,
            decreases table.columns@.len() - j,
        {
            if table.columns[j].required {
                if lookup_value(data, &table.columns[j].column_name).is_none() {
                    return Err(VaultError::StorageError);
                }
            }
            j = j + 1;
        }
        if table.next_row_id == u64::MAX {
            return Err(VaultError::StorageError);
        }
        // Build the stored values, one per column, in column order.
        let mut values: Vec<String> = Vec::new();
        let mut j: usize = 0;
        while j < table.columns.len()
            invariant
                0 <= k < self.tables.len(),
                table == &self.tables[k as int],
                j <= table.columns@.len(),
                values@.len() == j,
                forall|m: int|
                    0 <= m < j ==> (#[trigger] values@[m])@ == match spec_lookup(
                        data@,
                        table.columns@[m].column_name@,
                    ) {
                        Option::Some(v) => v,
                        Option::None => Seq::<char>::empty(),
                    },
            decreases table.columns@.len() - j,
        {
            match lookup_value(data, &table.columns[j].column_name) {
                Some(v) => values.push(v),
                None => values.push(String::new()),
            }
            j = j + 1;
        }
        let mut t = self.tables.remove(k);
        let row_id = t.next_row_id;
        t.rows.push(StoredRow { id: row_id, values });
        t.next_row_id = row_id + 1;
        self.tables.insert(k, t);
        proof {
            assert(final(self).tables@ =~= old(self).tables@.update(
                k as int,
                final(self).tables@[k as int],
            ));
            let t0 = old(self).tables@[k as int];
            let t1 = final(self).tables@[k as int];
            assert(t1.rows@.subrange(0, t0.rows@.len() as int) =~= t0.rows@);
            assert(t1.wf());
        }
        Ok(row_id)
    }

    /// Deletes the row with the given id from the vault table with the
    /// given id.  Deleting an absent row is a no-op that succeeds, as a
    /// DELETE that matches nothing does; an absent table is `NotFound`.
    pub fn delete_vault_row(&mut self, table_id: u64, row_id: u64) -> (r: Result<
        (),
        VaultError,
    >)
        requires
            old(self).wf(),
        ensures
            final(self).wf(),
            match r {
                Ok(_) => exists|k: int|
                    {
                        &&& 0 <= k < old(self).tables@.len()
                        &&& (#[trigger] old(self).tables@[k]).index.id == table_id
                        &&& final(self).tables@.len() == old(self).tables@.len()
                        &&& final(self).next_table_id == old(self).next_table_id
                        &&& final(self).next_column_id == old(self).next_column_id
                        &&& forall|l: int|
                            0 <= l < old(self).tables@.len() && l != k
                                ==> final(self).tables@[l] == old(self).tables@[l]
                        &&& {
                            let t0 = old(self).tables@[k];
                            let t1 = final(self).tables@[k];
                            &&& t1.index == t0.index
                            &&& t1.columns == t0.columns
                            &&& t1.next_row_id == t0.next_row_id
                            &&& ((exists|i: int|
                                0 <= i < t0.rows@.len() && (#[trigger] t0.rows@[i]).id == row_id
                                    && t1.rows@ == t0.rows@.remove(i)) || ((forall|i: int|
                                0 <= i < t0.rows@.len() ==> (#[trigger] t0.rows@[i]).id != row_id)
                                && t1.rows@ == t0.rows@))
                        }
                    },
                Err(e) => {
                    &&& e == VaultError::NotFound
                    &&& !old(self).spec_has_table(table_id)
                    &&& *final(self) == *old(self)
                },
            },
    {
        let k = match self.find_table(table_id) {
            Some(k) => k,
            None => {
                return Err(VaultError::NotFound);
            },
        };
        let table = &self.tables[k];
        let mut at: Option<usize> = None;
        let mut i: usize = 0;
        while i < table.rows.len()
            invariant
                0 <= k < self.tables.len(),
                table == &self.tables[k as int],
                i <= table.rows@.len(),
                match at {
                    Some(a) => a < table.rows@.len() && table.rows@[a as int].id == row_id,
                    None => forall|m: int|
                        0 <= m < i ==> (#[trigger] table.rows@[m]).id != row_id,
                },
            decreases table.rows@.len() - i,
        {
            if at.is_none() && table.rows[i].id == row_id {
                at = Some(i);
            }
            i = i + 1;
        }
        match at {
            Some(a) => {
                let mut t = self.tables.remove(k);
                t.rows.remove(a);
                self.tables.insert(k, t);
                proof {
                    assert(final(self).tables@ =~= old(self).tables@.update(
                        k as int,
                        final(self).tables@[k as int],
                    ));
                    let t0 = old(self).tables@[k as int];
                    let t1 = final(self).tables@[k as int];
                    assert(t1.rows@ == t0.rows@.remove(a as int));
                    assert forall|i2: int| 0 <= i2 < t1.rows@.len() implies (
                    #[trigger] t1.rows@[i2]).values.len() == t1.columns.len() && t1.rows@[i2].id
                        < t1.next_row_id by {
                        if i2 < a {
                            assert(t1.rows@[i2] == t0.rows@[i2]);
                        } else {
                            assert(t1.rows@[i2] == t0.rows@[i2 + 1]);
                        }
                    }
                    assert forall|i2: int, j2: int| 0 <= i2 < j2 < t1.rows@.len() implies (
                    #[trigger] t1.rows@[i2]).id != (#[trigger] t1.rows@[j2]).id by {
                        let oi = if i2 < a {
                            i2
                        } else {
                            i2 + 1
                        };
                        let oj = if j2 < a {
                            j2
                        } else {
                            j2 + 1
                        };
                        assert(t1.rows@[i2] == t0.rows@[oi]);
                        assert(t1.rows@[j2] == t0.rows@[oj]);
                    }
                    assert(t1.wf());
                }
                Ok(())
            },
            None => Ok(()),
        }
    }

    /// Deletes a whole vault table: its column-index entries, its
    /// table-index entry and its contents, as one atomic step.  Afterwards
    /// neither the id nor the physical name resolves to anything.  An
    /// unknown id is `NotFound` and changes nothing.
    pub fn delete_vault_table(&mut self, id: u64) -> (r: Result<(), VaultError>)
        requires
            old(self).wf(),
        ensures
            final(self).wf(),
            match r {
                Ok(_) => {
                    &&& exists|k: int|
                        {
                            &&& 0 <= k < old(self).tables@.len()
                            &&& (#[trigger] old(self).tables@[k]).index.id == id
                            &&& final(self).tables@ == old(self).tables@.remove(k)
                        }
                    &&& final(self).next_table_id == old(self).next_table_id
                    &&& final(self).next_column_id == old(self).next_column_id
                    &&& !final(self).spec_has_table(id)
                    &&& !final(self).spec_has_physical_table(naming::spec_vault_table_name(id))
                },
                Err(e) => {
                    &&& e == VaultError::NotFound
                    &&& !old(self).spec_has_table(id)
                    &&& *final(self) == *old(self)
                },
            },
    {
        let k = match self.find_table(id) {
            Some(k) => k,
            None => {
                return Err(VaultError::NotFound);
            },
        };
        self.tables.remove(k);
        proof {
            let t0 = old(self).tables@;
            let t1 = final(self).tables@;
            assert(t1 =~= t0.remove(k as int));
            assert forall|l: int| 0 <= l < t1.len() implies (#[trigger] t1[l]).index.id != id by {
                if l < k {
                    assert(t1[l] == t0[l]);
                } else {
                    assert(t1[l] == t0[l + 1]);
                }
            }
            assert forall|l: int| 0 <= l < t1.len() implies naming::spec_vault_table_name(
                (#[trigger] t1[l]).index.id,
            ) != naming::spec_vault_table_name(id) by {
                if naming::spec_vault_table_name(t1[l].index.id) == naming::spec_vault_table_name(
                    id,
                ) {
                    naming::lemma_vault_table_name_injective(t1[l].index.id, id);
                }
            }
            assert forall|l: int| 0 <= l < t1.len() implies (#[trigger] t1[l]).wf() && t1[l].index.id
                < final(self).next_table_id by {
                if l < k {
                    assert(t1[l] == t0[l]);
                } else {
                    assert(t1[l] == t0[l + 1]);
                }
            }
            assert forall|l: int, m: int| 0 <= l < m < t1.len() implies (
            #[trigger] t1[l]).index.id != (#[trigger] t1[m]).index.id && t1[l].index.ui_name@ != t1[
                m
            ].index.ui_name@ by {
                let ol = if l < k {
                    l
                } else {
                    l + 1
                };
                let om = if m < k {
                    m
                } else {
                    m + 1
                };
                assert(t1[l] == t0[ol]);
                assert(t1[m] == t0[om]);
            }
        }
        Ok(())
    }
}

/// The deletion law: once no table has an id, nothing resolves its
/// physical name either, so a fetch by the id returns nothing and a
/// column-index listing of `vault_<id>` is empty.
pub proof fn lemma_deleted_table_is_gone(db: VaultDb, id: u64)
    requires
        !db.spec_has_table(id),
    ensures
        !db.spec_has_physical_table(naming::spec_vault_table_name(id)),
{
    if db.spec_has_physical_table(naming::spec_vault_table_name(id)) {
        let k = choose|k: int|
            0 <= k < db.tables.len() && naming::spec_vault_table_name(
                (#[trigger] db.tables[k]).index.id,
            ) == naming::spec_vault_table_name(id);
        naming::lemma_vault_table_name_injective(db.tables@[k].index.id, id);
    }
}

/// The position of the first column of `cols` with the given human label,
/// if any.
pub open spec fn spec_column_for_ui(cols: Seq<ColumnIndexEntry>, ui: Seq<char>) -> Option<int>
    decreases cols.len(),
{
    if cols.len() == 0 {
        Option::None
    } else if cols[0].ui_name@ == ui {
        Option::Some(0int)
    } else {
        match spec_column_for_ui(cols.drop_first(), ui) {
            Option::Some(j) => Option::Some(j + 1),
            Option::None => Option::None,
        }
    }
}

proof fn lemma_column_for_ui_skip(cols: Seq<ColumnIndexEntry>, ui: Seq<char>, i: int)
    requires
        0 <= i <= cols.len(),
        forall|m: int| 0 <= m < i ==> (#[trigger] cols[m]).ui_name@ != ui,
    ensures
        spec_column_for_ui(cols, ui) == match spec_column_for_ui(cols.skip(i), ui) {
            Option::Some(j) => Option::Some(j + i),
            Option::None => Option::<int>::None,
        },
    decreases i,
{
    if i == 0 {
        assert(cols.skip(0) =~= cols);
    } else {
        lemma_column_for_ui_skip(cols, ui, i - 1);
        let s = cols.skip(i - 1);
        assert(s[0] == cols[i - 1]);
        assert(s.drop_first() =~= cols.skip(i));
    }
}

/// The plaintext the first pair of `data` that resolves to column `j`
/// carries, if any.
pub open spec fn spec_ui_value_for_column(
    data: Seq<(String, String)>,
    cols: Seq<ColumnIndexEntry>,
    j: int,
) -> Option<Seq<char>>
    decreases data.len(),
{
    if data.len() == 0 {
        Option::None
    } else if spec_column_for_ui(cols, data[0].0@) == Option::Some(j) {
        Option::Some(data[0].1@)
    } else {
        spec_ui_value_for_column(data.drop_first(), cols, j)
    }
}

/// What one stored value of a label-keyed insert must be: the resolved
/// plaintext for a plain column, a ciphertext that decrypts back to the
/// resolved plaintext for an encrypted column, and the storage default when
/// nothing resolves to the column.
pub open spec fn spec_stored_value_ok(
    key_id: Seq<char>,
    data: Seq<(String, String)>,
    cols: Seq<ColumnIndexEntry>,
    j: int,
    v: Seq<char>,
) -> bool {
    match spec_ui_value_for_column(data, cols, j) {
        Option::Some(plain) => if cols[j].encrypted {
            crate::crypt::spec_decrypt(key_id, v) == Ok::<_, crate::crypt::DecryptionError>(plain)
        } else {
            v == plain
        },
        Option::None => v == Seq::<char>::empty(),
    }
}

impl StoredTable {
    /// When an insert of `data` (keyed by human label) can succeed: at
    /// least one pair resolves to a column, no two pairs resolve to the
    /// same column, every required column is fed, and a row id is free.
    pub open spec fn spec_insert_row_valid(self, data: Seq<(String, String)>) -> bool {
        &&& exists|i: int|
            0 <= i < data.len() && spec_column_for_ui(self.columns@, (#[trigger] data[i]).0@)
                is Some
        &&& forall|i1: int, i2: int|
            0 <= i1 < i2 < data.len() ==> !(spec_column_for_ui(
                self.columns@,
                (#[trigger] data[i1]).0@,
            ) is Some && spec_column_for_ui(self.columns@, (#[trigger] data[i2]).0@)
                == spec_column_for_ui(self.columns@, data[i1].0@))
        &&& forall|j: int|
            0 <= j < self.columns@.len() && (#[trigger] self.columns@[j]).required
                ==> spec_ui_value_for_column(data, self.columns@, j) is Some
        &&& self.next_row_id < u64::MAX
    }
}

/// The position of the first column with the given human label.
fn find_column_for_ui(cols: &Vec<ColumnIndexEntry>, ui: &String) -> (r: Option<usize>)
    ensures
        match r {
            Some(j) => j < cols@.len() && spec_column_for_ui(cols@, ui@) == Some(j as int),
            None => spec_column_for_ui(cols@, ui@) is None,
        },
{
    let mut i: usize = 0;
    while i < cols.len()
        invariant
            i <= cols@.len(),
            forall|m: int| 0 <= m < i ==> (#[trigger] cols@[m]).ui_name@ != ui@,
        decreases cols@.len() - i,
    {
        if cols[i].ui_name == *ui {
            proof {
                lemma_column_for_ui_skip(cols@, ui@, i as int);
                assert(cols@.skip(i as int)[0] == cols@[i as int]);
            }
            return Some(i);
        }
        i = i + 1;
    }
    proof {
        lemma_column_for_ui_skip(cols@, ui@, cols@.len() as int);
        assert(cols@.skip(cols@.len() as int).len() == 0);
    }
    None
}

/// The plaintext of the first pair of `data` that resolves to column `j`.
fn find_ui_value(data: &Vec<(String, String)>, cols: &Vec<ColumnIndexEntry>, j: usize) -> (r:
    Option<String>)
    ensures
        match r {
            Some(v) => spec_ui_value_for_column(data@, cols@, j as int) == Some(v@),
            None => spec_ui_value_for_column(data@, cols@, j as int) is None,
        },
{
    let mut i: usize = 0;
    proof {
        assert(data@.skip(0) =~= data@);
    }
    while i < data.len()
        invariant
            i <= data@.len(),
            spec_ui_value_for_column(data@, cols@, j as int) == spec_ui_value_for_column(
                data@.skip(i as int),
                cols@,
                j as int,
            ),
        decreases data@.len() - i,
    {
        let ghost s = data@.skip(i as int);
        proof {
            assert(s[0] == data@[i as int]);
            assert(s.drop_first() =~= data@.skip(i + 1 as int));
        }
        let hit = match find_column_for_ui(cols, &data[i].0) {
            Some(jj) => jj == j,
            None => false,
        };
        if hit {
            return Some(data[i].1.clone());
        }
        i = i + 1;
    }
    None
}

/// The value a label-keyed insert stores for one column: the resolved
/// plaintext (encrypted when the column demands it), nothing when no pair
/// of `data` feeds the column, and a `CryptoError` exactly when the
/// resolved plaintext of an encrypted column does not fit the key.
fn stored_value_for_column(
    keypair: &KeyPair,
    cols: &Vec<ColumnIndexEntry>,
    data: &Vec<(String, String)>,
    j: usize,
) -> (r: Result<Option<String>, VaultError>)
    requires
        j < cols@.len(),
    ensures
        match r {
            Ok(opt) => match opt {
                Option::Some(v) => {
                    &&& spec_ui_value_for_column(data@, cols@, j as int) is Some
                    &&& spec_stored_value_ok(keypair.key_id(), data@, cols@, j as int, v@)
                    &&& (cols@[j as int].encrypted ==> match spec_ui_value_for_column(
                        data@,
                        cols@,
                        j as int,
                    ) {
                        Option::Some(plain) => crate::crypt::spec_can_encrypt(
                            keypair.key_id(),
                            plain,
                        ),
                        Option::None => true,
                    })
                },
                Option::None => spec_ui_value_for_column(data@, cols@, j as int) is None,
            },
            Err(e) => {
                &&& e == VaultError::CryptoError
                &&& cols@[j as int].encrypted
                &&& match spec_ui_value_for_column(data@, cols@, j as int) {
                    Option::Some(plain) => !crate::crypt::spec_can_encrypt(
                        keypair.key_id(),
                        plain,
                    ),
                    Option::None => false,
                }
            },
        },
{
    match find_ui_value(data, cols, j) {
        Some(plain) => {
            if cols[j].encrypted {
                match keypair.encrypt_string_to_hex(plain.as_str()) {
                    Ok(h) => Ok(Some(h)),
                    Err(_) => Err(VaultError::CryptoError),
                }
            } else {
                Ok(Some(plain))
            }
        },
        None => Ok(None),
    }
}

impl VaultDb {
    /// Inserts a row given by human label: each pair of `data` whose label
    /// is a column's label feeds that column, a pair with an unknown label
    /// is dropped silently, and a value for a column marked encrypted is
    /// encrypted before it is stored.  Fails with `NotFound` when the
    /// table does not exist, with `StorageError` exactly when the resolved
    /// data cannot be stored (nothing resolves, two pairs feed one column,
    /// a required column is not fed, or the row-id counter is exhausted),
    /// and with `CryptoError` when encryption of a resolved value fails;
    /// in every failing case nothing changes.
    #[verifier::loop_isolation(false)]
    pub fn insert_row(
        &mut self,
        keypair: &KeyPair,
        table_id: u64,
        data: &Vec<(String, String)>,
    ) -> (r: Result<u64, VaultError>)
        requires
            old(self).wf(),
        ensures
            final(self).wf(),
            match r {
                Ok(row_id) => exists|k: int|
                    {
                        &&& 0 <= k < old(self).tables@.len()
                        &&& (#[trigger] old(self).tables@[k]).index.id == table_id
                        &&& old(self).tables@[k].spec_insert_row_valid(data@)
                        &&& row_id == old(self).tables@[k].next_row_id
                        &&& final(self).tables@.len() == old(self).tables@.len()
                        &&& final(self).next_table_id == old(self).next_table_id
                        &&& final(self).next_column_id == old(self).next_column_id
                        &&& forall|l: int|
                            0 <= l < old(self).tables@.len() && l != k
                                ==> final(self).tables@[l] == old(self).tables@[l]
                        &&& {
                            let t0 = old(self).tables@[k];
                            let t1 = final(self).tables@[k];
                            &&& t1.index == t0.index
                            &&& t1.columns == t0.columns
                            &&& t1.next_row_id == t0.next_row_id + 1
                            &&& t1.rows@.len() == t0.rows@.len() + 1
                            &&& t1.rows@.subrange(0, t0.rows@.len() as int) == t0.rows@
                            &&& {
                                let nr = t1.rows@.last();
                                &&& nr.id == row_id
                                &&& nr.values@.len() == t0.columns@.len()
                                &&& forall|j: int|
                                    0 <= j < t0.columns@.len() ==> spec_stored_value_ok(
                                        keypair.key_id(),
                                        data@,
                                        t0.columns@,
                                        j,
                                        (#[trigger] nr.values@[j])@,
                                    )
                                &&& forall|j: int|
                                    0 <= j < t0.columns@.len() && (
                                    #[trigger] t0.columns@[j]).encrypted
                                        ==> match spec_ui_value_for_column(data@, t0.columns@, j) {
                                        Option::Some(plain) => crate::crypt::spec_can_encrypt(
                                            keypair.key_id(),
                                            plain,
                                        ),
                                        Option::None => true,
                                    }
                            }
                        }
                    },
                Err(e) => {
                    &&& *final(self) == *old(self)
                    &&& match e {
                        VaultError::NotFound => !old(self).spec_has_table(table_id),
                        VaultError::StorageError => exists|k: int|
                            {
                                &&& 0 <= k < old(self).tables@.len()
                                &&& (#[trigger] old(self).tables@[k]).index.id == table_id
                                &&& !old(self).tables@[k].spec_insert_row_valid(data@)
                            },
                        VaultError::CryptoError => exists|k: int|
                            {
                                &&& 0 <= k < old(self).tables@.len()
                                &&& (#[trigger] old(self).tables@[k]).index.id == table_id
                                &&& old(self).tables@[k].spec_insert_row_valid(data@)
                                &&& exists|j: int|
                                    0 <= j < old(self).tables@[k].columns@.len() && (#[trigger] old(
                                        self,
                                    ).tables@[k].columns@[j]).encrypted && match spec_ui_value_for_column(
                                        data@,
                                        old(self).tables@[k].columns@,
                                        j,
                                    ) {
                                        Option::Some(plain) => !crate::crypt::spec_can_encrypt(
                                            keypair.key_id(),
                                            plain,
                                        ),
                                        Option::None => false,
                                    }
                            },
                        _ => false,
                    }
                },
            },
    {
        let k = match self.find_table(table_id) {
            Some(k) => k,
            None => {
                return Err(VaultError::NotFound);
            },
        };
        let table = &self.tables[k];
        // At least one pair must resolve to a column.
        let mut any: bool = false;
        let mut i: usize = 0;
        while i < data.len()
            invariant
                i <= data@.len(),
                any ==> exists|m: int|
                    0 <= m < data@.len() && spec_column_for_ui(
                        table.columns@,
                        (#[trigger] data@[m]).0@,
                    ) is Some,
                !any ==> forall|m: int|
                    0 <= m < i ==> spec_column_for_ui(table.columns@, (#[trigger] data@[m]).0@)
                        is None,
            decreases data@.len() - i,
        {
            if find_column_for_ui(&table.columns, &data[i].0).is_some() {
                any = true;
            }
            i = i + 1;
        }
        if !any {
            return Err(VaultError::StorageError);
        }
        // No two pairs may feed the same column.
        let mut i: usize = 0;
        while i < data.len()
            invariant
                i <= data@.len(),
                forall|a: int, b: int|
                    0 <= a < b < data@.len() && a < i ==> !(spec_column_for_ui(
                        table.columns@,
                        (#[trigger] data@[a]).0@,
                    ) is Some && spec_column_for_ui(table.columns@, (#[trigger] data@[b]).0@)
                        == spec_column_for_ui(table.columns@, data@[a].0@)),
            decreases data@.len() - i,
        {
            let ra = find_column_for_ui(&table.columns, &data[i].0);
            let mut b: usize = i + 1;
            while b < data.len()
                invariant
                    i < b,
                    b <= data@.len(),
                    i < data@.len(),
                    match ra {
                        Some(j) => j < table.columns@.len() && spec_column_for_ui(
                            table.columns@,
                            data@[i as int].0@,
                        ) == Some(j as int),
                        None => spec_column_for_ui(table.columns@, data@[i as int].0@) is None,
                    },
                    forall|b2: int|
                        i < b2 < b ==> !(spec_column_for_ui(
                            table.columns@,
                            data@[i as int].0@,
                        ) is Some && spec_column_for_ui(table.columns@, (#[trigger] data@[b2]).0@)
                            == spec_column_for_ui(table.columns@, data@[i as int].0@)),
                decreases data@.len() - b,
            {
                if let Some(ja) = ra {
                    let rb = find_column_for_ui(&table.columns, &data[b].0);
                    if let Some(jb) = rb {
                        if ja == jb {
                            return Err(VaultError::StorageError);
                        }
                    }
                }
                b = b + 1;
            }
            i = i + 1;
        }
        // Every required column must be fed.
        let mut j: usize = 0;
        while j < table.columns.len()
            invariant
                j <= table.columns@.len(),
                forall|m: int|
                    0 <= m < j && (#[trigger] table.columns@[m]).required
                        ==> spec_ui_value_for_column(data@, table.columns@, m) is Some,
            decreases table.columns@.len() - j,
        {
            if table.columns[j].required {
                if find_ui_value(data, &table.columns, j).is_none() {
                    return Err(VaultError::StorageError);
                }
            }
            j = j + 1;
        }
        if table.next_row_id == u64::MAX {
            return Err(VaultError::StorageError);
        }
        assert(self.tables@[k as int].spec_insert_row_valid(data@));
        // Build the stored values: resolved plaintext, encrypted where the
        // column demands it, the storage default where nothing resolves.
        let mut values: Vec<String> = Vec::new();
        let mut j: usize = 0;
        while j < table.columns.len()
            invariant
                j <= table.columns@.len(),
                values@.len() == j,
                forall|m: int|
                    0 <= m < j ==> spec_stored_value_ok(
                        keypair.key_id(),
                        data@,
                        table.columns@,
                        m,
                        (#[trigger] values@[m])@,
                    ),
                forall|m: int|
                    0 <= m < j && (#[trigger] table.columns@[m]).encrypted
                        ==> match spec_ui_value_for_column(data@, table.columns@, m) {
                        Option::Some(plain) => crate::crypt::spec_can_encrypt(
                            keypair.key_id(),
                            plain,
                        ),
                        Option::None => true,
                    },
            decreases table.columns@.len() - j,
        {
            match stored_value_for_column(keypair, &table.columns, data, j) {
                Ok(Some(v)) => values.push(v),
                Ok(None) => values.push(String::new()),
                Err(e) => {
                    return Err(e);
                },
            }
            j = j + 1;
        }
        let mut t = self.tables.remove(k);
        let row_id = t.next_row_id;
        t.rows.push(StoredRow { id: row_id, values });
        t.next_row_id = row_id + 1;
        self.tables.insert(k, t);
        proof {
            assert(final(self).tables@ =~= old(self).tables@.update(
                k as int,
                final(self).tables@[k as int],
            ));
            let t0 = old(self).tables@[k as int];
            let t1 = final(self).tables@[k as int];
            assert(t1.rows@.subrange(0, t0.rows@.len() as int) =~= t0.rows@);
            assert(t1.wf());
        }
        Ok(row_id)
    }
}

/// That one resolved pair is right: its key is the physical name of some
/// column that `data` feeds, and its value is what that column stores for
/// the resolved plaintext.
pub open spec fn spec_resolved_pair_ok(
    key_id: Seq<char>,
    data: Seq<(String, String)>,
    cols: Seq<ColumnIndexEntry>,
    pair: (String, String),
) -> bool {
    exists|j: int|
        {
            &&& 0 <= j < cols.len()
            &&& pair.0@ == (#[trigger] cols[j]).column_name@
            &&& spec_ui_value_for_column(data, cols, j) is Some
            &&& spec_stored_value_ok(key_id, data, cols, j, pair.1@)
        }
}

/// That column `j` is served by some pair of `out`: a pair whose key is
/// the column's physical name and whose value is what the column stores.
pub open spec fn spec_column_resolved_in(
    key_id: Seq<char>,
    data: Seq<(String, String)>,
    cols: Seq<ColumnIndexEntry>,
    j: int,
    out: Seq<(String, String)>,
) -> bool {
    exists|i: int|
        {
            &&& 0 <= i < out.len()
            &&& (#[trigger] out[i]).0@ == cols[j].column_name@
            &&& spec_stored_value_ok(key_id, data, cols, j, out[i].1@)
        }
}

proof fn lemma_column_resolved_grows(
    key_id: Seq<char>,
    data: Seq<(String, String)>,
    cols: Seq<ColumnIndexEntry>,
    j: int,
    out: Seq<(String, String)>,
    pair: (String, String),
)
    requires
        spec_column_resolved_in(key_id, data, cols, j, out),
    ensures
        spec_column_resolved_in(key_id, data, cols, j, out.push(pair)),
{
    let i = choose|i: int|
        {
            &&& 0 <= i < out.len()
            &&& (#[trigger] out[i]).0@ == cols[j].column_name@
            &&& spec_stored_value_ok(key_id, data, cols, j, out[i].1@)
        };
    assert(out.push(pair)[i] == out[i]);
}

/// Resolves a label-keyed row into the `(column name, stored text)` pairs
/// a row insert names: one pair for every column that some pair of `data`
/// feeds — the resolved plaintext as it stands for a plain column,
/// encrypted for an encrypted column — and nothing for a pair with an
/// unknown label.  Fails with `CryptoError` exactly when a resolved value
/// of an encrypted column does not fit the key; nothing else can fail.
#[verifier::loop_isolation(false)]
pub fn resolve_row(
    keypair: &KeyPair,
    columns: &Vec<ColumnIndexEntry>,
    data: &Vec<(String, String)>,
) -> (r: Result<Vec<(String, String)>, VaultError>)
    ensures
        r is Ok <==> forall|j: int|
            0 <= j < columns@.len() && (#[trigger] columns@[j]).encrypted
                ==> match spec_ui_value_for_column(data@, columns@, j) {
                Option::Some(plain) => crate::crypt::spec_can_encrypt(keypair.key_id(), plain),
                Option::None => true,
            },
        match r {
            Ok(out) => {
                &&& forall|i: int|
                    0 <= i < out@.len() ==> spec_resolved_pair_ok(
                        keypair.key_id(),
                        data@,
                        columns@,
                        #[trigger] out@[i],
                    )
                &&& forall|j: int|
                    0 <= j < columns@.len() && (#[trigger] spec_ui_value_for_column(
                        data@,
                        columns@,
                        j,
                    )) is Some ==> spec_column_resolved_in(
                        keypair.key_id(),
                        data@,
                        columns@,
                        j,
                        out@,
                    )
            },
            Err(e) => e == VaultError::CryptoError,
        },
{
    let mut out: Vec<(String, String)> = Vec::new();
    let mut j: usize = 0;
    while j < columns.len()
        invariant
            j <= columns@.len(),
            forall|m: int|
                0 <= m < j && (#[trigger] columns@[m]).encrypted ==> match spec_ui_value_for_column(
                    data@,
                    columns@,
                    m,
                ) {
                    Option::Some(plain) => crate::crypt::spec_can_encrypt(
                        keypair.key_id(),
                        plain,
                    ),
                    Option::None => true,
                },
            forall|i: int|
                0 <= i < out@.len() ==> spec_resolved_pair_ok(
                    keypair.key_id(),
                    data@,
                    columns@,
                    #[trigger] out@[i],
                ),
            forall|m: int|
                0 <= m < j && (#[trigger] spec_ui_value_for_column(data@, columns@, m)) is Some
                    ==> spec_column_resolved_in(keypair.key_id(), data@, columns@, m, out@),
        decreases columns@.len() - j,
    {
        match stored_value_for_column(keypair, columns, data, j) {
            Ok(Some(v)) => {
                let ghost out0 = out@;
                let pair = (columns[j].column_name.clone(), v);
                let ghost pair_snapshot = pair;
                out.push(pair);
                proof {
                    assert(out@ == out0.push(pair_snapshot));
                    let i0 = out@.len() - 1;
                    assert(out@[i0] == pair_snapshot);
                    assert(spec_resolved_pair_ok(
                        keypair.key_id(),
                        data@,
                        columns@,
                        out@[i0],
                    )) by {
                        assert(out@[i0].0@ == (#[trigger] columns@[j as int]).column_name@);
                        assert(spec_ui_value_for_column(data@, columns@, j as int) is Some);
                        assert(spec_stored_value_ok(
                            keypair.key_id(),
                            data@,
                            columns@,
                            j as int,
                            out@[i0].1@,
                        ));
                    }
                    assert(spec_column_resolved_in(
                        keypair.key_id(),
                        data@,
                        columns@,
                        j as int,
                        out@,
                    )) by {
                        assert((#[trigger] out@[i0]).0@ == columns@[j as int].column_name@);
                        assert(spec_stored_value_ok(
                            keypair.key_id(),
                            data@,
                            columns@,
                            j as int,
                            out@[i0].1@,
                        ));
                    }
                    assert forall|m: int|
                        0 <= m < j && (#[trigger] spec_ui_value_for_column(
                            data@,
                            columns@,
                            m,
                        )) is Some implies spec_column_resolved_in(
                        keypair.key_id(),
                        data@,
                        columns@,
                        m,
                        out@,
                    ) by {
                        lemma_column_resolved_grows(
                            keypair.key_id(),
                            data@,
                            columns@,
                            m,
                            out0,
                            pair_snapshot,
                        );
                    }
                }
            },
            Ok(None) => {
                proof {
                    assert(spec_ui_value_for_column(data@, columns@, j as int) is None);
                }
            },
            Err(e) => {
                return Err(e);
            },
        }
        j = j + 1;
    }
    Ok(out)
}

} // verus!
