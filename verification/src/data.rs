//! The data types of the engine: catalog entries and the in-memory read
//! projection of a vault table, plus in-place table decryption.

use vstd::prelude::*;
use crate::crypt::{spec_decrypt, KeyPair};

verus! {

/// One row of the table index: a vault table's id and its human label.
#[derive(Debug)]
pub struct TableIndexEntry {
    /// The table's id; the physical table is named `vault_<id>`.
    pub id: u64,
    /// The table's unique human label.
    pub ui_name: String,
}

/// One row of the column index: a column of a vault table.
#[derive(Debug)]
pub struct ColumnIndexEntry {
    /// The entry's id.
    pub id: u64,
    /// The physical name of the table this column belongs to.
    pub table_name: String,
    /// The physical column identifier: `key_`, `password` or `extra_<n>`.
    pub column_name: String,
    /// The column's human label.
    pub ui_name: String,
    /// Whether the column must be filled when inserting a row.
    pub required: bool,
    /// Whether the column's cells are stored encrypted.
    pub encrypted: bool,
}

/// One cell of a fetched row: its text, and whether that text is (still)
/// ciphertext.
#[derive(Debug)]
pub struct TableCell {
    /// Hex ciphertext while `encrypted` holds and decryption has not
    /// (successfully) run; plaintext otherwise.
    pub data: String,
    /// Copied from the owning column descriptor at fetch time.
    pub encrypted: bool,
}

/// One fetched row: its id and one cell per declared column, in column
/// order.
#[derive(Debug)]
pub struct TableRow {
    /// The row's id.
    pub id: u64,
    /// The row's cells, one per column of the owning table.
    pub cells: Vec<TableCell>,
}

/// A fetched vault table: an in-memory read projection, not itself stored.
#[derive(Debug)]
pub struct VaultTable {
    /// The table's id.
    pub id: u64,
    /// The table's human label.
    pub name: String,
    /// The table's column descriptors, in column order.
    pub columns: Vec<ColumnIndexEntry>,
    /// The table's rows.
    pub rows: Vec<TableRow>,
}

impl TableIndexEntry {
    /// An equal copy of this entry.
    pub fn duplicate(&self) -> (r: Self)
        ensures
            r == *self,
    {
        TableIndexEntry { id: self.id, ui_name: self.ui_name.clone() }
    }
}

impl ColumnIndexEntry {
    /// An equal copy of this entry.
    pub fn duplicate(&self) -> (r: Self)
        ensures
            r == *self,
    {
        ColumnIndexEntry {
            id: self.id,
            table_name: self.table_name.clone(),
            column_name: self.column_name.clone(),
            ui_name: self.ui_name.clone(),
            required: self.required,
            encrypted: self.encrypted,
        }
    }
}

/// An equal copy of a column descriptor list.
pub fn duplicate_columns(v: &Vec<ColumnIndexEntry>) -> (r: Vec<ColumnIndexEntry>)
    ensures
        r@ == v@,
{
    let mut r: Vec<ColumnIndexEntry> = Vec::new();
    let mut i: usize = 0;
    while i < v.len()
        invariant
            i <= v@.len(),
            r@ =~= v@.subrange(0, i as int),
        decreases v@.len() - i,
    {
        r.push(v[i].duplicate());
        i = i + 1;
    }
    assert(r@ =~= v@);
    r
}

/// What one cell's text is after a decryption pass: an encrypted cell whose
/// text decrypts becomes the plaintext; every other cell keeps its text.
pub open spec fn spec_decrypt_cell_data(key: Seq<char>, data: Seq<char>, encrypted: bool) -> Seq<
    char,
> {
    if encrypted {
        match spec_decrypt(key, data) {
            Ok(plain) => plain,
            Err(_) => data,
        }
    } else {
        data
    }
}

/// The storage/decryption round-trip law: a cell stored by encryption (so
/// that its ciphertext decrypts back to the plaintext, which is what every
/// insert path guarantees) and fetched with its `encrypted` flag comes out
/// of a decryption pass holding exactly the original plaintext.
pub proof fn lemma_encrypted_cell_round_trip(key_id: Seq<char>, stored: Seq<char>, plain: Seq<
    char,
>)
    requires
        spec_decrypt(key_id, stored) == Ok::<Seq<char>, crate::crypt::DecryptionError>(plain),
    ensures
        spec_decrypt_cell_data(key_id, stored, true) == plain,
{
}

impl VaultTable {
    /// Decrypts every cell flagged as encrypted, in place.  A cell that
    /// fails to decrypt keeps its ciphertext, and the pass never fails as a
    /// whole; `encrypted` flags are left untouched.
    pub fn decrypt(&mut self, keypair: &KeyPair)
        ensures
            final(self).id == old(self).id,
            final(self).name == old(self).name,
            final(self).columns == old(self).columns,
            final(self).rows.len() == old(self).rows.len(),
            forall|i: int|
                0 <= i < old(self).rows.len() ==> {
                    let r0 = old(self).rows[i];
                    let r1 = #[trigger] final(self).rows[i];
                    &&& r1.id == r0.id
                    &&& r1.cells.len() == r0.cells.len()
                    &&& forall|j: int|
                        0 <= j < r0.cells.len() ==> {
                            let c0 = r0.cells[j];
                            let c1 = #[trigger] r1.cells[j];
                            &&& c1.encrypted == c0.encrypted
                            &&& c1.data@ == spec_decrypt_cell_data(
                                keypair.key_id(),
                                c0.data@,
                                c0.encrypted,
                            )
                        }
                },
    {
        let row_count = self.rows.len();
        let mut i: usize = 0;
        while i < row_count
            invariant
                row_count == self.rows.len(),
                self.rows.len() == old(self).rows.len(),
                i <= row_count,
                self.id == old(self).id,
                self.name == old(self).name,
                self.columns == old(self).columns,
                forall|k: int| i <= k < row_count ==> #[trigger] self.rows[k] == old(self).rows[k],
                forall|k: int|
                    0 <= k < i ==> {
                        let r0 = old(self).rows[k];
                        let r1 = #[trigger] self.rows[k];
                        &&& r1.id == r0.id
                        &&& r1.cells.len() == r0.cells.len()
                        &&& forall|j: int|
                            0 <= j < r0.cells.len() ==> {
                                let c0 = r0.cells[j];
                                let c1 = #[trigger] r1.cells[j];
                                &&& c1.encrypted == c0.encrypted
                                &&& c1.data@ == spec_decrypt_cell_data(
                                    keypair.key_id(),
                                    c0.data@,
                                    c0.encrypted,
                                )
                            }
                    },
            decreases row_count - i,
        {
            let cell_count = self.rows[i].cells.len();
            let mut new_cells: Vec<TableCell> = Vec::new();
            let mut j: usize = 0;
            while j < cell_count
                invariant
                    0 <= i < self.rows.len(),
                    self.rows[i as int] == old(self).rows[i as int],
                    cell_count == self.rows[i as int].cells.len(),
                    j <= cell_count,
                    new_cells@.len() == j,
                    forall|m: int|
                        0 <= m < j ==> {
                            let c0 = self.rows[i as int].cells[m];
                            let c1 = #[trigger] new_cells[m];
                            &&& c1.encrypted == c0.encrypted
                            &&& c1.data@ == spec_decrypt_cell_data(
                                keypair.key_id(),
                                c0.data@,
                                c0.encrypted,
                            )
                        },
                decreases cell_count - j,
            {
                let cell = &self.rows[i].cells[j];
                if cell.encrypted {
                    match keypair.decrypt_string_from_hex(cell.data.as_str()) {
                        Ok(plain) => {
                            new_cells.push(TableCell { data: plain, encrypted: true });
                        },
                        Err(_) => {
                            new_cells.push(
                                TableCell { data: cell.data.clone(), encrypted: true },
                            );
                        },
                    }
                } else {
                    new_cells.push(TableCell { data: cell.data.clone(), encrypted: false });
                }
                j = j + 1;
            }
            let row_id = self.rows[i].id;
            self.rows.set(i, TableRow { id: row_id, cells: new_cells });
            i = i + 1;
        }
    }
}

} // verus!
