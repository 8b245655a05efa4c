//! The exact parts of the schema synthesizer: the SQL dialects, the
//! dialect-specific column type names, and the integer column ranges and
//! generator expressions. The randomised sizing around them works in
//! floating point and lives with the command-line driver.

use vstd::prelude::*;
use crate::bytes::{dec_digits, dec_int, format_i128, format_u128};
use crate::error::Error;
use vstd::string::StringSliceAdditionalSpecFns;

verus! {

/// The SQL dialect used when generating the schemas.
#[derive(Debug, Copy, Clone, PartialEq, Eq, Structural)]
pub enum Dialect {
    /// MySQL dialect.
    MySQL,
    /// PostgreSQL dialect.
    PostgreSQL,
    /// SQLite dialect.
    SQLite,
}

/// The bytes of the text `mysql`.
pub open spec fn mysql_name() -> Seq<u8> {
    seq![109u8, 121u8, 115u8, 113u8, 108u8]
}

/// The bytes of the text `postgresql`.
pub open spec fn postgresql_name() -> Seq<u8> {
    seq![112u8, 111u8, 115u8, 116u8, 103u8, 114u8, 101u8, 115u8, 113u8, 108u8]
}

/// The bytes of the text `sqlite`.
pub open spec fn sqlite_name() -> Seq<u8> {
    seq![115u8, 113u8, 108u8, 105u8, 116u8, 101u8]
}

impl Dialect {
    /// Parses a dialect name; exactly `mysql`, `postgresql` and `sqlite`
    /// are accepted.
    pub fn from_str(name: &str) -> (r: Result<Dialect, Error>)
        ensures
            r == (if name.spec_bytes() == mysql_name() {
                Ok::<Dialect, Error>(Dialect::MySQL)
            } else if name.spec_bytes() == postgresql_name() {
                Ok::<Dialect, Error>(Dialect::PostgreSQL)
            } else if name.spec_bytes() == sqlite_name() {
                Ok::<Dialect, Error>(Dialect::SQLite)
            } else {
                Err::<Dialect, Error>(Error::UnsupportedCliParameter)
            }),
    {
        let bytes = name.as_bytes();
        if slice_eq(bytes, &[109u8, 121u8, 115u8, 113u8, 108u8]) {
            proof {
                assert(seq![109u8, 121u8, 115u8, 113u8, 108u8] =~= mysql_name());
            }
            Ok(Dialect::MySQL)
        } else if slice_eq(
            bytes,
            &[112u8, 111u8, 115u8, 116u8, 103u8, 114u8, 101u8, 115u8, 113u8, 108u8],
        ) {
            proof {
                assert(seq![112u8, 111u8, 115u8, 116u8, 103u8, 114u8, 101u8, 115u8, 113u8, 108u8]
                    =~= postgresql_name());
            }
            Ok(Dialect::PostgreSQL)
        } else if slice_eq(bytes, &[115u8, 113u8, 108u8, 105u8, 116u8, 101u8]) {
            proof {
                assert(seq![115u8, 113u8, 108u8, 105u8, 116u8, 101u8] =~= sqlite_name());
            }
            Ok(Dialect::SQLite)
        } else {
            Err(Error::UnsupportedCliParameter)
        }
    }
}

/// The dialect-specific type name of a random integer column of the given
/// byte width and signedness; every one is declared not null by the caller.
pub open spec fn spec_int_column_type(dialect: Dialect, unsigned: bool, bytes: u8) -> &'static str
    recommends
        bytes < 8,
{
    match (dialect, unsigned, bytes) {
        (Dialect::MySQL, false, 0) => "tinyint",
        (Dialect::MySQL, false, 1) => "smallint",
        (Dialect::MySQL, false, 2) => "mediumint",
        (Dialect::MySQL, false, 3) => "int",
        (Dialect::MySQL, false, _) => "bigint",
        (Dialect::MySQL, true, 0) => "tinyint unsigned",
        (Dialect::MySQL, true, 1) => "smallint unsigned",
        (Dialect::MySQL, true, 2) => "mediumint unsigned",
        (Dialect::MySQL, true, 3) => "int unsigned",
        (Dialect::MySQL, true, _) => "bigint unsigned",
        (Dialect::PostgreSQL, false, 0) => "smallint",
        (Dialect::PostgreSQL, false, 1) => "smallint",
        (Dialect::PostgreSQL, false, 2) => "int",
        (Dialect::PostgreSQL, false, 3) => "int",
        (Dialect::PostgreSQL, false, _) => "bigint",
        (Dialect::PostgreSQL, true, 0) => "smallint",
        (Dialect::PostgreSQL, true, 1) => "int",
        (Dialect::PostgreSQL, true, 2) => "int",
        (Dialect::PostgreSQL, true, 3) => "bigint",
        (Dialect::PostgreSQL, true, 4) => "bigint",
        (Dialect::PostgreSQL, true, 5) => "bigint",
        (Dialect::PostgreSQL, true, 6) => "bigint",
        (Dialect::PostgreSQL, true, _) => "numeric(20)",
        (Dialect::SQLite, _, _) => "integer",
    }
}

/// The dialect-specific type name of a random integer column.
pub fn int_column_type(dialect: Dialect, unsigned: bool, bytes: u8) -> (r: &'static str)
    requires
        bytes < 8,
    ensures
        r == spec_int_column_type(dialect, unsigned, bytes),
{
    match (dialect, unsigned, bytes) {
        (Dialect::MySQL, false, 0) => "tinyint",
        (Dialect::MySQL, false, 1) => "smallint",
        (Dialect::MySQL, false, 2) => "mediumint",
        (Dialect::MySQL, false, 3) => "int",
        (Dialect::MySQL, false, _) => "bigint",
        (Dialect::MySQL, true, 0) => "tinyint unsigned",
        (Dialect::MySQL, true, 1) => "smallint unsigned",
        (Dialect::MySQL, true, 2) => "mediumint unsigned",
        (Dialect::MySQL, true, 3) => "int unsigned",
        (Dialect::MySQL, true, _) => "bigint unsigned",
        (Dialect::PostgreSQL, false, 0) => "smallint",
        (Dialect::PostgreSQL, false, 1) => "smallint",
        (Dialect::PostgreSQL, false, 2) => "int",
        (Dialect::PostgreSQL, false, 3) => "int",
        (Dialect::PostgreSQL, false, _) => "bigint",
        (Dialect::PostgreSQL, true, 0) => "smallint",
        (Dialect::PostgreSQL, true, 1) => "int",
        (Dialect::PostgreSQL, true, 2) => "int",
        (Dialect::PostgreSQL, true, 3) => "bigint",
        (Dialect::PostgreSQL, true, 4) => "bigint",
        (Dialect::PostgreSQL, true, 5) => "bigint",
        (Dialect::PostgreSQL, true, 6) => "bigint",
        (Dialect::PostgreSQL, true, _) => "numeric(20)",
        (Dialect::SQLite, _, _) => "integer",
    }
}

/// The dialect-specific type of an auto-incrementing serial column.
pub fn serial_column_type(dialect: Dialect) -> (r: &'static str)
    ensures
        r == (match dialect {
            Dialect::MySQL => "bigint unsigned not null",
            Dialect::PostgreSQL => "bigserial",
            Dialect::SQLite => "integer not null",
        }),
{
    match dialect {
        Dialect::MySQL => "bigint unsigned not null",
        Dialect::PostgreSQL => "bigserial",
        Dialect::SQLite => "integer not null",
    }
}

/// The dialect-specific type of a 31-bit Unix-seconds timestamp column.
pub fn timestamp_column_type(dialect: Dialect) -> (r: &'static str)
    ensures
        r == (match dialect {
            Dialect::SQLite => "text not null",
            Dialect::MySQL => "timestamp not null",
            Dialect::PostgreSQL => "timestamp not null",
        }),
{
    match dialect {
        Dialect::SQLite => "text not null",
        Dialect::MySQL => "timestamp not null",
        Dialect::PostgreSQL => "timestamp not null",
    }
}

/// The dialect-specific type of a full-range datetime column.
pub fn datetime_column_type(dialect: Dialect) -> (r: &'static str)
    ensures
        r == (match dialect {
            Dialect::SQLite => "text not null",
            Dialect::MySQL => "datetime not null",
            Dialect::PostgreSQL => "timestamp not null",
        }),
{
    match dialect {
        Dialect::SQLite => "text not null",
        Dialect::MySQL => "datetime not null",
        Dialect::PostgreSQL => "timestamp not null",
    }
}

/// The inclusive value range of a random integer column of the given byte
/// width: `bytes + 1` bytes of storage, signed or unsigned.
pub fn int_column_range(unsigned: bool, bytes: u8) -> (r: (i128, i128))
    requires
        bytes < 8,
    ensures
        unsigned ==> r == (0i128, ((256i128 << (8 * bytes as u32)) - 1) as i128),
        !unsigned ==> r == (
            (-(128i128 << (8 * bytes as u32))) as i128,
            ((128i128 << (8 * bytes as u32)) - 1) as i128,
        ),
{
    let shift: u32 = 8 * (bytes as u32);
    proof {
        assert(0i128 < 256i128 << shift < i128::MAX) by (bit_vector)
            requires shift <= 56u32;
        assert(0i128 < 128i128 << shift < i128::MAX) by (bit_vector)
            requires shift <= 56u32;
    }
    if unsigned {
        (0, (256i128 << shift) - 1)
    } else {
        let base = 128i128 << shift;
        (-base, base - 1)
    }
}

/// The bytes of the text `rand.range_inclusive(`.
pub open spec fn range_expr_prefix() -> Seq<u8> {
    seq![
        114u8, 97u8, 110u8, 100u8, 46u8, 114u8, 97u8, 110u8, 103u8, 101u8, 95u8, 105u8, 110u8,
        99u8, 108u8, 117u8, 115u8, 105u8, 118u8, 101u8, 40u8,
    ]
}

/// The generator expression of an integer column: the text
/// `rand.range_inclusive(<min>, <max>)`.
pub open spec fn range_expr_text(min: int, max: int) -> Seq<u8> {
    range_expr_prefix() + dec_int(min) + seq![44u8, 32u8] + dec_int(max) + seq![41u8]
}

/// Builds the generator expression of an integer column.
pub fn int_column_expr(min: i128, max: i128) -> (r: Vec<u8>)
    ensures
        r@ == range_expr_text(min as int, max as int),
{
    let mut r: Vec<u8> = vstd::slice::slice_to_vec(
        &[
            114u8, 97u8, 110u8, 100u8, 46u8, 114u8, 97u8, 110u8, 103u8, 101u8, 95u8, 105u8,
            110u8, 99u8, 108u8, 117u8, 115u8, 105u8, 118u8, 101u8, 40u8,
        ],
    );
    proof {
        assert(r@ =~= range_expr_prefix());
    }
    let mut digits = format_i128(min);
    r.append(&mut digits);
    r.push(44u8);
    r.push(32u8);
    let mut digits2 = format_i128(max);
    r.append(&mut digits2);
    r.push(41u8);
    proof {
        assert(r@ =~= range_expr_text(min as int, max as int));
    }
    r
}

/// The bytes of the text `,\nPRIMARY KEY (`.
pub open spec fn primary_key_prefix() -> Seq<u8> {
    seq![
        44u8, 10u8, 80u8, 82u8, 73u8, 77u8, 65u8, 82u8, 89u8, 32u8, 75u8, 69u8, 89u8, 32u8,
        40u8,
    ]
}

/// The bytes of the text `,\nUNIQUE (`.
pub open spec fn unique_prefix() -> Seq<u8> {
    seq![44u8, 10u8, 85u8, 78u8, 73u8, 81u8, 85u8, 69u8, 32u8, 40u8]
}

/// The bytes of the text `,\nKEY (`.
pub open spec fn key_prefix() -> Seq<u8> {
    seq![44u8, 10u8, 75u8, 69u8, 89u8, 32u8, 40u8]
}

/// The text of one column in an index list: `c<i>`, with `, ` before every
/// column but the first.
pub open spec fn col_item_text(cols: Seq<u64>, i: int) -> Seq<u8>
    recommends
        0 <= i < cols.len(),
{
    (if i > 0 {
        seq![44u8, 32u8]
    } else {
        Seq::<u8>::empty()
    }) + seq![99u8] + dec_digits(cols[i] as nat)
}

/// The `c<i>, c<j>, ...` list of the columns from position `i` on.
pub open spec fn col_list_from(cols: Seq<u64>, i: int) -> Seq<u8>
    decreases cols.len() - i,
{
    if i < 0 || i >= cols.len() {
        Seq::<u8>::empty()
    } else {
        col_item_text(cols, i) + col_list_from(cols, i + 1)
    }
}

/// What the index clause of a synthesized table is: nothing when a primary
/// key is insufficiently unique or nullable, when no column was sampled, or
/// when the same set was already used; else `PRIMARY KEY`, `UNIQUE`, or --
/// on MySQL only -- `KEY`, over the ascending column names.
pub open spec fn spec_index_suffix(
    dialect: Dialect,
    is_primary_key: bool,
    is_unique: bool,
    is_nullable: bool,
    already_used: bool,
    cols: Seq<u64>,
) -> Option<Seq<u8>> {
    if is_primary_key && (!is_unique || is_nullable) {
        None
    } else if cols.len() == 0 || already_used {
        None
    } else {
        let body = col_list_from(cols, 0) + seq![41u8];
        if is_primary_key {
            Some(primary_key_prefix() + body)
        } else if is_unique {
            Some(unique_prefix() + body)
        } else if dialect is MySQL {
            Some(key_prefix() + body)
        } else {
            None
        }
    }
}

/// Consuming one column moves its text from the rest into the prefix.
proof fn col_list_step(cols: Seq<u64>, i: int)
    requires
        0 <= i < cols.len(),
    ensures
        forall|acc: Seq<u8>|
            #[trigger] (acc + col_list_from(cols, i)) == (acc + col_item_text(cols, i))
                + col_list_from(cols, i + 1),
{
    assert forall|acc: Seq<u8>|
        #[trigger] (acc + col_list_from(cols, i)) == (acc + col_item_text(cols, i))
            + col_list_from(cols, i + 1) by {
        assert(acc + (col_item_text(cols, i) + col_list_from(cols, i + 1)) =~= (acc
            + col_item_text(cols, i)) + col_list_from(cols, i + 1));
    }
}

/// Builds the index clause of a synthesized table, as `spec_index_suffix`
/// says.
pub fn index_suffix(
    dialect: Dialect,
    is_primary_key: bool,
    is_unique: bool,
    is_nullable: bool,
    already_used: bool,
    cols: &Vec<u64>,
) -> (r: Option<Vec<u8>>)
    ensures
        ({
            let t = spec_index_suffix(
                dialect,
                is_primary_key,
                is_unique,
                is_nullable,
                already_used,
                cols@,
            );
            &&& (t matches Some(b) ==> (r matches Some(v) && v@ == b))
            &&& (t is None ==> r is None)
        }),
{
    if is_primary_key && (!is_unique || is_nullable) {
        return None;
    }
    if cols.len() == 0 || already_used {
        return None;
    }
    let mut out: Vec<u8>;
    if is_primary_key {
        out = vstd::slice::slice_to_vec(
            &[
                44u8, 10u8, 80u8, 82u8, 73u8, 77u8, 65u8, 82u8, 89u8, 32u8, 75u8, 69u8, 89u8,
                32u8, 40u8,
            ],
        );
        proof {
            assert(out@ =~= primary_key_prefix());
        }
    } else if is_unique {
        out = vstd::slice::slice_to_vec(
            &[44u8, 10u8, 85u8, 78u8, 73u8, 81u8, 85u8, 69u8, 32u8, 40u8],
        );
        proof {
            assert(out@ =~= unique_prefix());
        }
    } else if matches!(dialect, Dialect::MySQL) {
        out = vstd::slice::slice_to_vec(&[44u8, 10u8, 75u8, 69u8, 89u8, 32u8, 40u8]);
        proof {
            assert(out@ =~= key_prefix());
        }
    } else {
        return None;
    }
    let ghost prefix = out@;
    let n = cols.len();
    let mut i: usize = 0;
    proof {
        assert(prefix + Seq::<u8>::empty() =~= prefix);
    }
    while i < n
        invariant
            0 <= i <= n,
            n == cols@.len(),
            prefix + col_list_from(cols@, 0) == out@ + col_list_from(cols@, i as int),
        decreases n - i,
    {
        proof {
            col_list_step(cols@, i as int);
        }
        let ghost before = out@;
        if i > 0 {
            out.push(44u8);
            out.push(32u8);
        }
        out.push(99u8);
        let mut digits = format_u128(cols[i] as u128);
        out.append(&mut digits);
        proof {
            assert(out@ =~= before + col_item_text(cols@, i as int));
        }
        i += 1;
    }
    out.push(41u8);
    proof {
        assert(out@ =~= prefix + (col_list_from(cols@, 0) + seq![41u8]));
    }
    Some(out)
}

/// Whether a byte slice holds exactly the given bytes.
fn slice_eq(a: &[u8], b: &[u8]) -> (r: bool)
    ensures
        r == (a@ == b@),
{
    let n = a.len();
    if n != b.len() {
        return false;
    }
    let mut i: usize = 0;
    while i < n
        invariant
            0 <= i <= n,
            n == a@.len(),
            n == b@.len(),
            forall|j: int| 0 <= j < i ==> a@[j] == b@[j],
        decreases n - i,
    {
        if a[i] != b[i] {
            return false;
        }
        i += 1;
    }
    proof {
        assert(a@ =~= b@);
    }
    true
}

} // verus!
