//! The SQL text of every statement the engine would hand a relational
//! store, generated so that each composed identifier comes from the
//! deterministic forms of [`crate::naming`] and never from user text; cell
//! values always travel as `?` placeholders.

use vstd::prelude::*;
use crate::naming;

verus! {

/// The DDL of the table index.
pub fn create_table_index_sql() -> (r: String)
    ensures
        r@ == "CREATE TABLE IF NOT EXISTS table_index (id int UNSIGNED PRIMARY KEY AUTO_INCREMENT, ui_name varchar(64) NOT NULL UNIQUE)"@,
{
    String::from_str(
        "CREATE TABLE IF NOT EXISTS table_index (id int UNSIGNED PRIMARY KEY AUTO_INCREMENT, ui_name varchar(64) NOT NULL UNIQUE)",
    )
}

/// The DDL of the column index.
pub fn create_column_index_sql() -> (r: String)
    ensures
        r@ == "CREATE TABLE IF NOT EXISTS column_index (id int UNSIGNED PRIMARY KEY AUTO_INCREMENT, table_name varchar(64) NOT NULL, column_name varchar(64) NOT NULL, ui_name varchar(64) NOT NULL, required boolean NOT NULL, encrypted boolean NOT NULL)"@,
{
    String::from_str(
        "CREATE TABLE IF NOT EXISTS column_index (id int UNSIGNED PRIMARY KEY AUTO_INCREMENT, table_name varchar(64) NOT NULL, column_name varchar(64) NOT NULL, ui_name varchar(64) NOT NULL, required boolean NOT NULL, encrypted boolean NOT NULL)",
    )
}

/// The insert into the table index; the label is bound as a parameter.
pub fn insert_table_index_entry_sql() -> (r: String)
    ensures
        r@ == "INSERT INTO table_index (ui_name) VALUES (?)"@,
{
    String::from_str("INSERT INTO table_index (ui_name) VALUES (?)")
}

/// The insert into the column index; every value is bound as a parameter.
pub fn insert_column_index_entry_sql() -> (r: String)
    ensures
        r@ == "INSERT INTO column_index (table_name, column_name, ui_name, required, encrypted) VALUES (?, ?, ?, ?, ?)"@,
{
    String::from_str(
        "INSERT INTO column_index (table_name, column_name, ui_name, required, encrypted) VALUES (?, ?, ?, ?, ?)",
    )
}

/// The whole-table-index read.
pub fn fetch_table_index_sql() -> (r: String)
    ensures
        r@ == "SELECT * FROM table_index"@,
{
    String::from_str("SELECT * FROM table_index")
}

/// The single-table-index-entry read; the id is bound as a parameter.
pub fn fetch_table_index_entry_sql() -> (r: String)
    ensures
        r@ == "SELECT * FROM table_index WHERE id = ?"@,
{
    String::from_str("SELECT * FROM table_index WHERE id = ?")
}

/// The column-index read; the table name is bound as a parameter.
pub fn fetch_column_index_sql() -> (r: String)
    ensures
        r@ == "SELECT * FROM column_index WHERE table_name = ?"@,
{
    String::from_str("SELECT * FROM column_index WHERE table_name = ?")
}

/// The column-index delete; the table name is bound as a parameter.
pub fn delete_column_index_sql() -> (r: String)
    ensures
        r@ == "DELETE FROM column_index WHERE table_name = ?"@,
{
    String::from_str("DELETE FROM column_index WHERE table_name = ?")
}

/// The table-index delete; the id is bound as a parameter.
pub fn delete_table_index_entry_sql() -> (r: String)
    ensures
        r@ == "DELETE FROM table_index WHERE id = ?"@,
{
    String::from_str("DELETE FROM table_index WHERE id = ?")
}

/// The column list of the physical CREATE TABLE: one `, extra_<i> text`
/// per extra column, in order.
pub open spec fn spec_extra_columns_sql(n: nat) -> Seq<char>
    decreases n,
{
    if n == 0 {
        Seq::<char>::empty()
    } else {
        spec_extra_columns_sql((n - 1) as nat) + ", "@ + naming::spec_extra_column_name(
            (n - 1) as nat,
        ) + " text"@
    }
}

fn extra_columns_sql(n: u64) -> (r: String)
    ensures
        r@ == spec_extra_columns_sql(n as nat),
{
    let mut acc = String::new();
    let mut i: u64 = 0;
    proof {
        assert(acc@ =~= spec_extra_columns_sql(0));
    }
    while i < n
        invariant
            i <= n,
            acc@ == spec_extra_columns_sql(i as nat),
        decreases n - i,
    {
        let cname = naming::gen_extra_column_name(i);
        acc = acc.concat(", ").concat(cname.as_str()).concat(" text");
        proof {
            assert(acc@ =~= spec_extra_columns_sql((i + 1) as nat));
        }
        i = i + 1;
    }
    acc
}

/// The text of the physical CREATE TABLE for a vault table.
pub open spec fn spec_create_vault_table_sql(id: u64, n_extra: nat) -> Seq<char> {
    "CREATE TABLE "@ + naming::spec_vault_table_name(id)
        + " (id int UNSIGNED PRIMARY KEY AUTO_INCREMENT, key_ varchar(256) NOT NULL, password text NOT NULL"@
        + spec_extra_columns_sql(n_extra) + ")"@
}

/// The physical CREATE TABLE statement: its table and column identifiers
/// are all drawn from the deterministic naming forms.
pub fn create_vault_table_sql(id: u64, n_extra: u64) -> (r: String)
    ensures
        r@ == spec_create_vault_table_sql(id, n_extra as nat),
{
    let name = naming::gen_vault_table_name(id);
    let extras = extra_columns_sql(n_extra);
    let r = String::from_str("CREATE TABLE ").concat(name.as_str()).concat(
        " (id int UNSIGNED PRIMARY KEY AUTO_INCREMENT, key_ varchar(256) NOT NULL, password text NOT NULL",
    ).concat(extras.as_str()).concat(")");
    proof {
        assert(r@ =~= spec_create_vault_table_sql(id, n_extra as nat));
    }
    r
}

/// A comma-separated list of names.
pub open spec fn spec_join_comma(names: Seq<Seq<char>>) -> Seq<char>
    decreases names.len(),
{
    if names.len() == 0 {
        Seq::<char>::empty()
    } else if names.len() == 1 {
        names[0]
    } else {
        spec_join_comma(names.drop_last()) + ", "@ + names.last()
    }
}

/// `n` parameter placeholders, comma-separated.
pub open spec fn spec_placeholders(n: nat) -> Seq<char>
    decreases n,
{
    if n == 0 {
        Seq::<char>::empty()
    } else if n == 1 {
        "?"@
    } else {
        spec_placeholders((n - 1) as nat) + ", ?"@
    }
}

/// The row insert into a vault table: the named columns come from the
/// catalog, the values are bound as parameters.
pub open spec fn spec_insert_vault_data_sql(id: u64, names: Seq<Seq<char>>) -> Seq<char> {
    "INSERT INTO "@ + naming::spec_vault_table_name(id) + " ("@ + spec_join_comma(names)
        + ") VALUES ("@ + spec_placeholders(names.len()) + ")"@
}

/// The row-insert statement for the given column names; every name spliced
/// into the text must come from the allow-list (callers outside the proof
/// gate each name through `naming::identifier_is_allowed` first).
#[verifier::loop_isolation(false)]
pub fn insert_vault_data_sql(id: u64, column_names: &Vec<String>) -> (r: String)
    requires
        forall|j: int|
            0 <= j < column_names@.len() ==> naming::is_allowed_identifier(
                (#[trigger] column_names@[j])@,
            ),
    ensures
        r@ == spec_insert_vault_data_sql(id, column_names@.map_values(|s: String| s@)),
{
    let ghost names = column_names@.map_values(|s: String| s@);
    let mut cols = String::new();
    let mut ph = String::new();
    let mut i: usize = 0;
    proof {
        assert(cols@ =~= spec_join_comma(names.subrange(0, 0)));
        assert(ph@ =~= spec_placeholders(0));
    }
    while i < column_names.len()
        invariant
            i <= column_names@.len(),
            cols@ == spec_join_comma(names.subrange(0, i as int)),
            ph@ == spec_placeholders(i as nat),
        decreases column_names@.len() - i,
    {
        if i == 0 {
            cols = cols.concat(column_names[0].as_str());
            ph = ph.concat("?");
        } else {
            cols = cols.concat(", ").concat(column_names[i].as_str());
            ph = ph.concat(", ?");
        }
        proof {
            let pre = names.subrange(0, i + 1 as int);
            assert(pre.drop_last() =~= names.subrange(0, i as int));
            assert(pre.last() == names[i as int]);
            assert(names[i as int] == column_names@[i as int]@);
            assert(cols@ =~= spec_join_comma(pre));
            assert(ph@ =~= spec_placeholders((i + 1) as nat));
        }
        i = i + 1;
    }
    proof {
        assert(names.subrange(0, names.len() as int) =~= names);
    }
    let name = naming::gen_vault_table_name(id);
    let r = String::from_str("INSERT INTO ").concat(name.as_str()).concat(" (").concat(
        cols.as_str(),
    ).concat(") VALUES (").concat(ph.as_str()).concat(")");
    proof {
        assert(r@ =~= spec_insert_vault_data_sql(id, names));
    }
    r
}

/// The row read of a vault table, plain or filtered: the search variant
/// matches the key column case-insensitively against a bound pattern with
/// `!` as the escape character, suppressing duplicates.
pub open spec fn spec_fetch_table_sql(id: u64, searched: bool) -> Seq<char> {
    if searched {
        "SELECT DISTINCT * FROM "@ + naming::spec_vault_table_name(id)
            + " WHERE LOWER(key_) LIKE LOWER(?) ESCAPE '!'"@
    } else {
        "SELECT * FROM "@ + naming::spec_vault_table_name(id)
    }
}

/// The row-read statement, with or without the search filter.
pub fn fetch_table_sql(id: u64, searched: bool) -> (r: String)
    ensures
        r@ == spec_fetch_table_sql(id, searched),
{
    let name = naming::gen_vault_table_name(id);
    if searched {
        let r = String::from_str("SELECT DISTINCT * FROM ").concat(name.as_str()).concat(
            " WHERE LOWER(key_) LIKE LOWER(?) ESCAPE '!'",
        );
        proof {
            assert(r@ =~= spec_fetch_table_sql(id, true));
        }
        r
    } else {
        let r = String::from_str("SELECT * FROM ").concat(name.as_str());
        proof {
            assert(r@ =~= spec_fetch_table_sql(id, false));
        }
        r
    }
}

/// The single-row delete in a vault table; the row id is bound as a
/// parameter.
pub fn delete_vault_row_sql(id: u64) -> (r: String)
    ensures
        r@ == "DELETE FROM "@ + naming::spec_vault_table_name(id) + " WHERE id = ?"@,
{
    let name = naming::gen_vault_table_name(id);
    let r = String::from_str("DELETE FROM ").concat(name.as_str()).concat(" WHERE id = ?");
    proof {
        assert(r@ =~= "DELETE FROM "@ + naming::spec_vault_table_name(id) + " WHERE id = ?"@);
    }
    r
}

/// The physical drop of a vault table.
pub fn drop_vault_table_sql(id: u64) -> (r: String)
    ensures
        r@ == "DROP TABLE "@ + naming::spec_vault_table_name(id),
{
    let name = naming::gen_vault_table_name(id);
    String::from_str("DROP TABLE ").concat(name.as_str())
}

} // verus!
