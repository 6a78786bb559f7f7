//! An in-memory model of the SQLite database that a GeoPackage is: named
//! tables with a column list and rows addressed by an auto-incremented rowid.

use crate::sqlval::{copy_row, row_view, SqlVal, SqlValV};
use crate::text::{eq_ignore_ascii_case, eq_ignore_case, str_eq, to_owned_string};
use vstd::prelude::*;

verus! {

/// Errors of the GeoPackage layer.
#[derive(Debug)]
pub enum GeoError {
    /// The GeoPackage schema is missing something or is inconsistent.
    GpkgSchema(String),
    /// A database statement could not be carried out.
    Sql(String),
    /// A geometry blob could not be decoded.
    Wkb(String),
}

/// The mathematical value of an error.
pub enum GeoErrorV {
    GpkgSchema(Seq<char>),
    Sql(Seq<char>),
    Wkb(Seq<char>),
}

impl View for GeoError {
    type V = GeoErrorV;

    open spec fn view(&self) -> GeoErrorV {
        match self {
            GeoError::GpkgSchema(s) => GeoErrorV::GpkgSchema(s@),
            GeoError::Sql(s) => GeoErrorV::Sql(s@),
            GeoError::Wkb(s) => GeoErrorV::Wkb(s@),
        }
    }
}

/// One table: its name, column names, the DDL that created it and its rows.
pub struct Table {
    name: String,
    columns: Vec<String>,
    sql: String,
    rows: Vec<(i64, Vec<SqlVal>)>,
}

/// The mathematical value of a table.
pub struct TableV {
    pub name: Seq<char>,
    pub columns: Seq<Seq<char>>,
    pub sql: Seq<char>,
    pub rows: Seq<(i64, Seq<SqlValV>)>,
}

/// The views of a list of strings.
pub open spec fn strings_view(v: Seq<String>) -> Seq<Seq<char>> {
    v.map_values(|s: String| s@)
}

/// The view of rows with their rowids.
pub open spec fn rows_view(v: Seq<(i64, Vec<SqlVal>)>) -> Seq<(i64, Seq<SqlValV>)> {
    v.map_values(|r: (i64, Vec<SqlVal>)| (r.0, row_view(r.1@)))
}

/// The views of rows without their rowids.
pub open spec fn cells_view(v: Seq<Vec<SqlVal>>) -> Seq<Seq<SqlValV>> {
    v.map_values(|r: Vec<SqlVal>| row_view(r@))
}

/// The cells of each row of a table view, in rowid order.
pub open spec fn table_cells(t: TableV) -> Seq<Seq<SqlValV>> {
    t.rows.map_values(|r: (i64, Seq<SqlValV>)| r.1)
}

impl View for Table {
    type V = TableV;

    closed spec fn view(&self) -> TableV {
        TableV {
            name: self.name@,
            columns: strings_view(self.columns@),
            sql: self.sql@,
            rows: rows_view(self.rows@),
        }
    }
}

/// An in-memory SQLite database.
pub struct Db {
    tables: Vec<Table>,
}

/// The names in the list differ pairwise, ignoring ASCII case.
pub open spec fn distinct_ignore_case(names: Seq<Seq<char>>) -> bool {
    forall|i: int, j: int|
        0 <= i < names.len() && 0 <= j < names.len() && i != j ==> !eq_ignore_case(
            #[trigger] names[i],
            #[trigger] names[j],
        )
}

/// A table is well formed: distinct column names, rows as wide as the
/// column list, rowids numbering the rows from 1 in insertion order.
pub open spec fn table_wf(t: TableV) -> bool {
    &&& t.columns.len() > 0
    &&& distinct_ignore_case(t.columns)
    &&& forall|k: int| 0 <= k < t.rows.len() ==> (#[trigger] t.rows[k]).1.len() == t.columns.len()
    &&& forall|k: int| 0 <= k < t.rows.len() ==> (#[trigger] t.rows[k]).0 == k + 1
}

/// Index of the table named `name`.
pub open spec fn find_table_spec(d: Seq<TableV>, name: Seq<char>) -> Option<int> {
    if exists|i: int| 0 <= i < d.len() && (#[trigger] d[i]).name == name {
        Some(choose|i: int| 0 <= i < d.len() && (#[trigger] d[i]).name == name)
    } else {
        None
    }
}

/// The table named `name`, if there is one.
pub open spec fn table_spec(d: Seq<TableV>, name: Seq<char>) -> Option<TableV> {
    match find_table_spec(d, name) {
        Some(i) => Some(d[i]),
        None => None,
    }
}

/// The database is well formed: distinct table names, well-formed tables.
pub open spec fn db_wf(d: Seq<TableV>) -> bool {
    &&& forall|i: int| 0 <= i < d.len() ==> table_wf(#[trigger] d[i])
    &&& forall|i: int, j: int|
        0 <= i < d.len() && 0 <= j < d.len() && i != j ==> (#[trigger] d[i]).name != (
        #[trigger] d[j]).name
}

/// The rowid that the next row inserted into `t` receives.
pub open spec fn next_rowid(t: TableV) -> int {
    t.rows.len() as int + 1
}

/// The database after inserting `row` into the table named `name`.
pub open spec fn insert_spec(d: Seq<TableV>, name: Seq<char>, row: Seq<SqlValV>) -> Seq<TableV> {
    let i = find_table_spec(d, name)->0;
    let t = d[i];
    d.update(i, TableV { rows: t.rows.push((next_rowid(t) as i64, row)), ..t })
}

/// Whether inserting a row of `width` cells into the table named `name` succeeds.
pub open spec fn insert_ok(d: Seq<TableV>, name: Seq<char>, width: int) -> bool {
    match table_spec(d, name) {
        Some(t) => width == t.columns.len() && next_rowid(t) <= i64::MAX,
        None => false,
    }
}


/// In a well-formed database, the table named like the `i`-th is the `i`-th.
pub proof fn lemma_find_unique(d: Seq<TableV>, i: int)
    requires
        db_wf(d),
        0 <= i < d.len(),
    ensures
        find_table_spec(d, d[i].name) == Some(i),
{
    let k = choose|k: int| 0 <= k < d.len() && (#[trigger] d[k]).name == d[i].name;
    if k != i {
        assert(d[k].name != d[i].name);
    }
}

/// No table of a database is named `n`.
pub proof fn lemma_find_none(d: Seq<TableV>, n: Seq<char>)
    requires
        forall|i: int| 0 <= i < d.len() ==> (#[trigger] d[i]).name != n,
    ensures
        find_table_spec(d, n) is None,
{
}

/// Appending a table keeps the positions of the others.
pub proof fn lemma_find_push(d: Seq<TableV>, t: TableV, n: Seq<char>)
    requires
        db_wf(d.push(t)),
        t.name != n,
    ensures
        find_table_spec(d.push(t), n) == find_table_spec(d, n),
{
    let e = d.push(t);
    if exists|i: int| 0 <= i < d.len() && (#[trigger] d[i]).name == n {
        let i = choose|i: int| 0 <= i < d.len() && (#[trigger] d[i]).name == n;
        assert(e[i] == d[i]);
        lemma_find_unique(e, i);
        assert(db_wf(d)) by {
            assert forall|a: int| 0 <= a < d.len() implies table_wf(#[trigger] d[a]) by {
                assert(e[a] == d[a]);
            }
            assert forall|a: int, b: int|
                0 <= a < d.len() && 0 <= b < d.len() && a != b implies (#[trigger] d[a]).name != (
            #[trigger] d[b]).name by {
                assert(e[a] == d[a] && e[b] == d[b]);
            }
        }
        lemma_find_unique(d, i);
    } else {
        assert forall|i: int| 0 <= i < e.len() implies (#[trigger] e[i]).name != n by {
            if i < d.len() {
                assert(e[i] == d[i]);
            }
        }
    }
}

/// Inserting into a table other than the last appended one commutes with
/// the append.
pub proof fn lemma_insert_push(d: Seq<TableV>, t: TableV, n: Seq<char>, row: Seq<SqlValV>)
    requires
        db_wf(d.push(t)),
        t.name != n,
        find_table_spec(d, n) is Some,
    ensures
        insert_spec(d.push(t), n, row) == insert_spec(d, n, row).push(t),
{
    lemma_find_push(d, t, n);
    let i = find_table_spec(d, n)->0;
    assert(d.push(t)[i] == d[i]);
    assert(insert_spec(d.push(t), n, row) =~= insert_spec(d, n, row).push(t));
}

/// Inserting keeps the table names and the well-formedness.
pub proof fn lemma_insert_wf(d: Seq<TableV>, n: Seq<char>, row: Seq<SqlValV>)
    requires
        db_wf(d),
        insert_ok(d, n, row.len() as int),
    ensures
        db_wf(insert_spec(d, n, row)),
        insert_spec(d, n, row).len() == d.len(),
        forall|k: int| 0 <= k < d.len() ==> (#[trigger] insert_spec(d, n, row)[k]).name == d[k].name,
        forall|k: int| 0 <= k < d.len() ==> (#[trigger] insert_spec(d, n, row)[k]).columns == d[k].columns,
{
    let i = find_table_spec(d, n)->0;
    let t = d[i];
    let nt = TableV { rows: t.rows.push((next_rowid(t) as i64, row)), ..t };
    let e = insert_spec(d, n, row);
    assert(table_wf(nt));
    assert forall|a: int, b: int|
        0 <= a < e.len() && 0 <= b < e.len() && a != b implies (#[trigger] e[a]).name != (
    #[trigger] e[b]).name by {
        assert(d[a].name != d[b].name);
    }
}

/// Inserting into the last table of a database changes only that table.
pub proof fn lemma_insert_last(d: Seq<TableV>, t: TableV, row: Seq<SqlValV>)
    requires
        db_wf(d.push(t)),
    ensures
        table_spec(d.push(t), t.name) == Some(t),
        insert_spec(d.push(t), t.name, row) == d.push(
            TableV { rows: t.rows.push((next_rowid(t) as i64, row)), ..t },
        ),
{
    lemma_find_unique(d.push(t), d.len() as int);
    assert(insert_spec(d.push(t), t.name, row) =~= d.push(
        TableV { rows: t.rows.push((next_rowid(t) as i64, row)), ..t },
    ));
}

/// Which tables exist, and their columns, do not change by an insert; only
/// the table inserted into gains the row.
pub proof fn lemma_insert_table_spec(d: Seq<TableV>, n: Seq<char>, row: Seq<SqlValV>, m: Seq<char>)
    requires
        db_wf(d),
        insert_ok(d, n, row.len() as int),
    ensures
        (table_spec(insert_spec(d, n, row), m) is Some) == (table_spec(d, m) is Some),
        table_spec(d, m) is Some ==> table_spec(insert_spec(d, n, row), m)->0.columns == table_spec(
            d,
            m,
        )->0.columns,
        m != n ==> table_spec(insert_spec(d, n, row), m) == table_spec(d, m),
        m == n ==> table_spec(insert_spec(d, n, row), m) == Some(
            TableV {
                rows: table_spec(d, n)->0.rows.push(
                    (next_rowid(table_spec(d, n)->0) as i64, row),
                ),
                ..table_spec(d, n)->0
            },
        ),
{
    let e = insert_spec(d, n, row);
    lemma_insert_wf(d, n, row);
    let i = find_table_spec(d, n)->0;
    if exists|k: int| 0 <= k < d.len() && (#[trigger] d[k]).name == m {
        let k = choose|k: int| 0 <= k < d.len() && (#[trigger] d[k]).name == m;
        lemma_find_unique(d, k);
        assert(e[k].name == m);
        lemma_find_unique(e, k);
    } else {
        assert forall|k: int| 0 <= k < e.len() implies (#[trigger] e[k]).name != m by {
            assert(e[k].name == d[k].name);
        }
    }
}

/// Appending a well-formed table of a new name keeps a database well formed.
pub proof fn lemma_push_wf(d: Seq<TableV>, t: TableV)
    requires
        db_wf(d),
        table_wf(t),
        find_table_spec(d, t.name) is None,
    ensures
        db_wf(d.push(t)),
{
    let e = d.push(t);
    assert forall|i: int| 0 <= i < e.len() implies table_wf(#[trigger] e[i]) by {
        if i < d.len() {
            assert(e[i] == d[i]);
        }
    }
    assert forall|i: int, j: int|
        0 <= i < e.len() && 0 <= j < e.len() && i != j implies (#[trigger] e[i]).name != (
    #[trigger] e[j]).name by {
        if i < d.len() {
            assert(e[i] == d[i]);
        }
        if j < d.len() {
            assert(e[j] == d[j]);
        }
    }
}

/// A copy of a list of strings.
pub fn copy_strings(v: &Vec<String>) -> (r: Vec<String>)
    ensures
        strings_view(r@) == strings_view(v@),
{
    let mut out: Vec<String> = Vec::new();
    let mut i: usize = 0;
    while i < v.len()
        invariant
            i <= v.len(),
            strings_view(out@) == strings_view(v@.take(i as int)),
        decreases v.len() - i,
    {
        out.push(v[i].clone());
        assert(v@.take(i + 1) == v@.take(i as int).push(v@[i as int]));
        assert(strings_view(v@.take(i + 1)) =~= strings_view(v@.take(i as int)).push(
            v@[i as int]@,
        ));
        assert(strings_view(out@) =~= strings_view(v@.take(i as int)).push(v@[i as int]@));
        i += 1;
    }
    assert(v@.take(v@.len() as int) == v@);
    out
}

/// Whether `name` equals, ignoring ASCII case, one of `names[..n]`.
fn any_equal_ignore_case(names: &Vec<String>, n: usize, name: &String) -> (r: bool)
    requires
        n <= names.len(),
    ensures
        r == exists|j: int| 0 <= j < n && eq_ignore_case(names@[j]@, name@),
{
    let mut j: usize = 0;
    while j < n
        invariant
            n <= names.len(),
            j <= n,
            forall|k: int| 0 <= k < j ==> !eq_ignore_case(names@[k]@, name@),
        decreases n - j,
    {
        if eq_ignore_ascii_case(names[j].as_str(), name.as_str()) {
            return true;
        }
        j += 1;
    }
    false
}

/// Whether the names differ pairwise, ignoring ASCII case.
pub fn names_distinct(names: &Vec<String>) -> (r: bool)
    ensures
        r == distinct_ignore_case(strings_view(names@)),
{
    let ghost v = strings_view(names@);
    let mut i: usize = 0;
    while i < names.len()
        invariant
            v == strings_view(names@),
            i <= names.len(),
            forall|a: int, b: int| 0 <= a < i && 0 <= b < i && a != b ==> !eq_ignore_case(v[a], v[b]),
        decreases names.len() - i,
    {
        if any_equal_ignore_case(names, i, &names[i]) {
            proof {
                let j = choose|j: int| 0 <= j < i && eq_ignore_case(names@[j]@, names@[i as int]@);
                assert(v[j] == names@[j]@);
                assert(v[i as int] == names@[i as int]@);
                assert(!distinct_ignore_case(v));
            }
            return false;
        }
        proof {
            assert forall|a: int, b: int|
                0 <= a < i + 1 && 0 <= b < i + 1 && a != b implies !eq_ignore_case(v[a], v[b]) by {
                if a == i {
                    assert(v[b] == names@[b]@);
                    assert(v[a] == names@[a]@);
                } else if b == i {
                    assert(v[b] == names@[b]@);
                    assert(v[a] == names@[a]@);
                    assert(!eq_ignore_case(names@[a]@, names@[b]@));
                }
            }
        }
        i += 1;
    }
    true
}

impl View for Db {
    type V = Seq<TableV>;

    closed spec fn view(&self) -> Seq<TableV> {
        self.tables@.map_values(|t: Table| t@)
    }
}

impl Db {
    /// The database is well formed.
    pub open spec fn wf(&self) -> bool {
        db_wf(self@)
    }

    /// A database without tables.
    pub fn new_empty() -> (r: Db)
        ensures
            r@ == Seq::<TableV>::empty(),
            r.wf(),
    {
        let r = Db { tables: Vec::new() };
        assert(r@ =~= Seq::<TableV>::empty());
        r
    }

    /// Index of the table named `name`.
    pub fn find_table(&self, name: &str) -> (r: Option<usize>)
        requires
            self.wf(),
        ensures
            r matches Some(i) ==> find_table_spec(self@, name@) == Some(i as int),
            r is None ==> find_table_spec(self@, name@) is None,
    {
        let mut i: usize = 0;
        while i < self.tables.len()
            invariant
                i <= self.tables.len(),
                db_wf(self@),
                forall|k: int| 0 <= k < i ==> (#[trigger] self@[k]).name != name@,
            decreases self.tables.len() - i,
        {
            if str_eq(self.tables[i].name.as_str(), name) {
                assert(self@[i as int].name == name@);
                proof {
                    let k = choose|k: int| 0 <= k < self@.len() && (#[trigger] self@[k]).name == name@;
                    if k != i {
                        assert(self@[k].name != self@[i as int].name);
                    }
                }
                return Some(i);
            }
            i += 1;
        }
        None
    }

    /// Creates a table named `name` with the given columns; `sql` is the DDL
    /// text recorded with it.  Fails when a table of that name exists, when
    /// there are no columns, or when two column names differ only in ASCII case.
    pub fn create_table(&mut self, name: &str, columns: &Vec<String>, sql: &str) -> (r: Result<
        (),
        GeoError,
    >)
        requires
            old(self).wf(),
        ensures
            final(self).wf(),
            r is Ok <==> (find_table_spec(old(self)@, name@) is None && columns.len() > 0
                && distinct_ignore_case(strings_view(columns@))),
            r is Ok ==> final(self)@ == old(self)@.push(
                TableV {
                    name: name@,
                    columns: strings_view(columns@),
                    sql: sql@,
                    rows: Seq::empty(),
                },
            ),
            r is Err ==> final(self)@ == old(self)@,
    {
        if self.find_table(name).is_some() {
            return Err(GeoError::Sql(to_owned_string("table already exists")));
        }
        if columns.len() == 0 || !names_distinct(columns) {
            return Err(GeoError::Sql(to_owned_string("duplicate or missing column names")));
        }
        let t = Table {
            name: to_owned_string(name),
            columns: copy_strings(columns),
            sql: to_owned_string(sql),
            rows: Vec::new(),
        };
        let ghost old_v = self@;
        self.tables.push(t);
        proof {
            assert(t@.rows =~= Seq::<(i64, Seq<SqlValV>)>::empty());
            assert(self@ =~= old_v.push(t@));
            assert forall|i: int, j: int|
                0 <= i < self@.len() && 0 <= j < self@.len() && i != j implies (
            #[trigger] self@[i]).name != (#[trigger] self@[j]).name by {
                if i == old_v.len() as int {
                    assert(!(old_v[j].name == name@));
                } else if j == old_v.len() as int {
                    assert(!(old_v[i].name == name@));
                }
            }
        }
        Ok(())
    }

    /// Appends `row` to the table named `name` with the next rowid.
    /// Fails when there is no such table, when the row is not as wide as
    /// the table, or when the rowids are exhausted.
    pub fn insert(&mut self, name: &str, row: Vec<SqlVal>) -> (r: Result<(), GeoError>)
        requires
            old(self).wf(),
        ensures
            final(self).wf(),
            r is Ok <==> insert_ok(old(self)@, name@, row.len() as int),
            r is Ok ==> final(self)@ == insert_spec(old(self)@, name@, row_view(row@)),
            r is Err ==> final(self)@ == old(self)@,
    {
        let idx = self.find_table(name);
        let i = match idx {
            Some(i) => i,
            None => {
                return Err(GeoError::Sql(to_owned_string("no such table")));
            },
        };
        if row.len() != self.tables[i].columns.len() {
            return Err(GeoError::Sql(to_owned_string("row width does not match table")));
        }
        let n = self.tables[i].rows.len();
        if n as u64 >= 0x7fff_ffff_ffff_ffffu64 {
            return Err(GeoError::Sql(to_owned_string("database or disk is full")));
        }
        let rowid: i64 = (n as u64 + 1) as i64;
        let ghost old_v = self@;
        let ghost t = old_v[i as int];
        let ghost rv = row_view(row@);
        assert(t.rows.len() == n);
        self.tables[i].rows.push((rowid, row));
        proof {
            let nt = TableV { rows: t.rows.push((rowid, rv)), ..t };
            assert(self.tables@[i as int]@.rows =~= t.rows.push((rowid, rv)));
            assert(self@ =~= old_v.update(i as int, nt));
            assert(table_wf(nt));
            assert forall|a: int, b: int|
                0 <= a < self@.len() && 0 <= b < self@.len() && a != b implies (
            #[trigger] self@[a]).name != (#[trigger] self@[b]).name by {
                assert(old_v[a].name != old_v[b].name);
            }
        }
        Ok(())
    }

    /// The number of rows of the table named `name`.
    pub fn row_count(&self, name: &str) -> (r: Option<usize>)
        requires
            self.wf(),
        ensures
            r is Some <==> table_spec(self@, name@) is Some,
            r matches Some(n) ==> n == table_spec(self@, name@)->0.rows.len(),
    {
        match self.find_table(name) {
            Some(i) => Some(self.tables[i].rows.len()),
            None => None,
        }
    }

    /// The column names of the table named `name`.
    pub fn table_columns(&self, name: &str) -> (r: Option<Vec<String>>)
        requires
            self.wf(),
        ensures
            r is Some <==> table_spec(self@, name@) is Some,
            r matches Some(c) ==> strings_view(c@) == table_spec(self@, name@)->0.columns,
    {
        match self.find_table(name) {
            Some(i) => Some(copy_strings(&self.tables[i].columns)),
            None => None,
        }
    }

    /// The rows of the table named `name`, in rowid order.
    pub fn select_all(&self, name: &str) -> (r: Result<Vec<Vec<SqlVal>>, GeoError>)
        requires
            self.wf(),
        ensures
            r is Ok <==> table_spec(self@, name@) is Some,
            r matches Ok(rows) ==> cells_view(rows@) == table_cells(table_spec(self@, name@)->0),
    {
        match self.find_table(name) {
            Some(i) => {
                let t = &self.tables[i];
                let ghost tv = self@[i as int];
                let mut out: Vec<Vec<SqlVal>> = Vec::new();
                let mut k: usize = 0;
                while k < t.rows.len()
                    invariant
                        k <= t.rows.len(),
                        tv == t@,
                        cells_view(out@) == table_cells(tv).take(k as int),
                    decreases t.rows.len() - k,
                {
                    let c = copy_row(&t.rows[k].1);
                    assert(tv.rows[k as int] == (t.rows@[k as int].0, row_view(t.rows@[k as int].1@)));
                    let ghost prev = out@;
                    out.push(c);
                    assert(cells_view(out@) =~= cells_view(prev).push(row_view(c@)));
                    assert(table_cells(tv).take(k + 1) =~= table_cells(tv).take(k as int).push(tv.rows[k as int].1));
                    assert(cells_view(out@) =~= table_cells(tv).take(k + 1));
                    k += 1;
                }
                assert(table_cells(tv).take(k as int) =~= table_cells(tv));
                Ok(out)
            },
            None => Err(GeoError::Sql(to_owned_string("no such table"))),
        }
    }

    /// The rows of the table named `name` with their rowids, in rowid order.
    pub fn select_all_with_rowid(&self, name: &str) -> (r: Result<
        Vec<(i64, Vec<SqlVal>)>,
        GeoError,
    >)
        requires
            self.wf(),
        ensures
            r is Ok <==> table_spec(self@, name@) is Some,
            r matches Ok(rows) ==> rows_view(rows@) == table_spec(self@, name@)->0.rows,
    {
        match self.find_table(name) {
            Some(i) => {
                let t = &self.tables[i];
                let ghost tv = self@[i as int];
                let mut out: Vec<(i64, Vec<SqlVal>)> = Vec::new();
                let mut k: usize = 0;
                while k < t.rows.len()
                    invariant
                        k <= t.rows.len(),
                        tv == t@,
                        rows_view(out@) == tv.rows.take(k as int),
                    decreases t.rows.len() - k,
                {
                    let c = copy_row(&t.rows[k].1);
                    assert(tv.rows[k as int] == (t.rows@[k as int].0, row_view(t.rows@[k as int].1@)));
                    let ghost prev = out@;
                    out.push((t.rows[k].0, c));
                    assert(rows_view(out@) =~= rows_view(prev).push((t.rows@[k as int].0, row_view(c@))));
                    assert(tv.rows.take(k + 1) =~= tv.rows.take(k as int).push(tv.rows[k as int]));
                    assert(rows_view(out@) =~= tv.rows.take(k + 1));
                    k += 1;
                }
                assert(tv.rows.take(k as int) =~= tv.rows);
                Ok(out)
            },
            None => Err(GeoError::Sql(to_owned_string("no such table"))),
        }
    }

    /// The names of all tables, in creation order.
    pub fn table_names(&self) -> (r: Vec<String>)
        ensures
            strings_view(r@) == self@.map_values(|t: TableV| t.name),
    {
        let mut out: Vec<String> = Vec::new();
        let mut k: usize = 0;
        while k < self.tables.len()
            invariant
                k <= self.tables.len(),
                strings_view(out@) == self@.map_values(|t: TableV| t.name).take(k as int),
            decreases self.tables.len() - k,
        {
            let nm = self.tables[k].name.clone();
            assert(self@[k as int].name == self.tables@[k as int].name@);
            let ghost prev = out@;
            out.push(nm);
            assert(strings_view(out@) =~= strings_view(prev).push(nm@));
            assert(strings_view(out@) =~= self@.map_values(|t: TableV| t.name).take(k + 1));
            k += 1;
        }
        assert(self@.map_values(|t: TableV| t.name).take(k as int) =~= self@.map_values(
            |t: TableV| t.name,
        ));
        out
    }
}

} // verus!
