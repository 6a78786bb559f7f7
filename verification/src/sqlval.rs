//! Cell values of the in-memory SQLite model.

use vstd::prelude::*;

verus! {

/// A value stored in one cell of a table row.
#[derive(Debug)]
pub enum SqlVal {
    Null,
    Int(i64),
    /// An IEEE-754 double held by its bit pattern.
    Real(u64),
    Text(String),
    Blob(Vec<u8>),
}

/// The mathematical value of a cell.
pub enum SqlValV {
    Null,
    Int(i64),
    Real(u64),
    Text(Seq<char>),
    Blob(Seq<u8>),
}

impl View for SqlVal {
    type V = SqlValV;

    open spec fn view(&self) -> SqlValV {
        match self {
            SqlVal::Null => SqlValV::Null,
            SqlVal::Int(n) => SqlValV::Int(*n),
            SqlVal::Real(b) => SqlValV::Real(*b),
            SqlVal::Text(s) => SqlValV::Text(s@),
            SqlVal::Blob(b) => SqlValV::Blob(b@),
        }
    }
}

/// The view of a row of cells.
pub open spec fn row_view(r: Seq<SqlVal>) -> Seq<SqlValV> {
    r.map_values(|v: SqlVal| v@)
}

/// A copy of a byte vector.
pub fn copy_bytes(b: &Vec<u8>) -> (r: Vec<u8>)
    ensures
        r@ == b@,
{
    let mut out: Vec<u8> = Vec::new();
    let mut i: usize = 0;
    while i < b.len()
        invariant
            i <= b.len(),
            out@ == b@.take(i as int),
        decreases b.len() - i,
    {
        out.push(b[i]);
        assert(b@.take(i + 1) == b@.take(i as int).push(b@[i as int]));
        i += 1;
    }
    assert(b@.take(b@.len() as int) == b@);
    out
}

impl SqlVal {
    /// A copy of this cell.
    pub fn copy(&self) -> (r: SqlVal)
        ensures
            r@ == self@,
    {
        match self {
            SqlVal::Null => SqlVal::Null,
            SqlVal::Int(n) => SqlVal::Int(*n),
            SqlVal::Real(b) => SqlVal::Real(*b),
            SqlVal::Text(s) => SqlVal::Text(s.clone()),
            SqlVal::Blob(b) => SqlVal::Blob(copy_bytes(b)),
        }
    }

    /// The integer held by an `Int` cell.
    pub fn as_i64(&self) -> (r: Option<i64>)
        ensures
            r == (match self@ {
                SqlValV::Int(n) => Some(n),
                _ => None,
            }),
    {
        match self {
            SqlVal::Int(n) => Some(*n),
            _ => None,
        }
    }

    /// The text held by a `Text` cell.
    pub fn as_str(&self) -> (r: Option<&str>)
        ensures
            r is Some <==> self@ is Text,
            r matches Some(s) ==> self@ == SqlValV::Text(s@),
    {
        match self {
            SqlVal::Text(s) => Some(s.as_str()),
            _ => None,
        }
    }

    /// The bytes held by a `Blob` cell.
    pub fn as_blob(&self) -> (r: Option<&Vec<u8>>)
        ensures
            r is Some <==> self@ is Blob,
            r matches Some(b) ==> self@ == SqlValV::Blob(b@),
    {
        match self {
            SqlVal::Blob(b) => Some(b),
            _ => None,
        }
    }
}

/// A copy of a row of cells.
pub fn copy_row(r: &Vec<SqlVal>) -> (out: Vec<SqlVal>)
    ensures
        row_view(out@) == row_view(r@),
{
    let mut out: Vec<SqlVal> = Vec::new();
    let mut i: usize = 0;
    while i < r.len()
        invariant
            i <= r.len(),
            row_view(out@) == row_view(r@.take(i as int)),
        decreases r.len() - i,
    {
        out.push(r[i].copy());
        assert(r@.take(i + 1) == r@.take(i as int).push(r@[i as int]));
        assert(row_view(r@.take(i + 1)) =~= row_view(r@.take(i as int)).push(r@[i as int]@));
        assert(row_view(out@) =~= row_view(r@.take(i as int)).push(r@[i as int]@));
        i += 1;
    }
    assert(r@.take(r@.len() as int) == r@);
    out
}

} // verus!
