//! Rewriting the rows of a table: the two coordinate fields of each row
//! are formatted, every other field is copied, and a row that does not
//! reach both coordinate columns is left out.

use vstd::prelude::*;
use crate::columns::{resolve_columns, resolved, texts, ColumnIndex, ColumnSelector};
use crate::coordinate::{fixed_point, format_fixed, law_format_idempotent};
use crate::error::RewriteError;

verus! {

/// A row that was left out because it does not reach both coordinate
/// columns.
#[derive(Clone, Copy, Debug, PartialEq, Eq, Structural)]
pub struct SkippedRow {
    /// The place of the row among the data rows, counted from one.
    pub row: usize,
    /// The number of fields that the row has.
    pub fields: usize,
}

/// A rewritten table with what there is to report of the rewriting.
#[derive(Debug)]
pub struct Rewritten {
    /// The header as it was, then the rewritten rows.
    pub table: Vec<Vec<String>>,
    /// The coordinate columns that were rewritten.
    pub columns: ColumnIndex,
    /// The number of rows that were rewritten.
    pub processed: usize,
    /// The rows that were left out, in their order.
    pub skipped: Vec<SkippedRow>,
}

/// The texts that the rows of a table hold.
pub open spec fn table_texts(t: Seq<Vec<String>>) -> Seq<Seq<Seq<char>>> {
    t.map_values(|row: Vec<String>| texts(row@))
}

/// A row of `len` fields does not reach both coordinate columns.
pub open spec fn too_short(len: nat, idx: ColumnIndex) -> bool {
    len <= idx.lat || len <= idx.lon
}

/// `row` with its two coordinate fields formatted.
pub open spec fn transformed_row(row: Seq<Seq<char>>, idx: ColumnIndex, precision: nat) -> Seq<
    Seq<char>,
> {
    Seq::new(
        row.len(),
        |i: int|
            if i == idx.lat || i == idx.lon {
                fixed_point(row[i], precision)
            } else {
                row[i]
            },
    )
}

/// The rows that reach both coordinate columns, in their order.
pub open spec fn kept_rows(rows: Seq<Seq<Seq<char>>>, idx: ColumnIndex) -> Seq<Seq<Seq<char>>>
    decreases rows.len(),
{
    if rows.len() == 0 {
        Seq::empty()
    } else if too_short(rows.last().len(), idx) {
        kept_rows(rows.drop_last(), idx)
    } else {
        kept_rows(rows.drop_last(), idx).push(rows.last())
    }
}

/// The rows that do not reach both coordinate columns, in their order.
pub open spec fn skipped_rows(rows: Seq<Seq<Seq<char>>>, idx: ColumnIndex) -> Seq<SkippedRow>
    decreases rows.len(),
{
    if rows.len() == 0 {
        Seq::empty()
    } else if too_short(rows.last().len(), idx) {
        skipped_rows(rows.drop_last(), idx).push(
            SkippedRow { row: rows.len() as usize, fields: rows.last().len() as usize },
        )
    } else {
        skipped_rows(rows.drop_last(), idx)
    }
}

/// The rows that are kept, each with its coordinate fields formatted.
pub open spec fn transformed_rows(rows: Seq<Seq<Seq<char>>>, idx: ColumnIndex, precision: nat) -> Seq<
    Seq<Seq<char>>,
> {
    kept_rows(rows, idx).map_values(|row: Seq<Seq<char>>| transformed_row(row, idx, precision))
}

/// The first row of a table, or a row without fields where the table is
/// empty.
pub open spec fn header_of(table: Seq<Seq<Seq<char>>>) -> Seq<Seq<char>> {
    if table.len() > 0 {
        table[0]
    } else {
        Seq::empty()
    }
}

/// The rows of a table after its header.
pub open spec fn data_rows(table: Seq<Seq<Seq<char>>>) -> Seq<Seq<Seq<char>>> {
    if table.len() > 0 {
        table.skip(1)
    } else {
        Seq::empty()
    }
}

/// The table that rewriting makes of `table`: its header unchanged, then
/// its transformed rows; or the name of the column that its header lacks.
pub open spec fn rewritten_table(
    table: Seq<Seq<Seq<char>>>,
    selector: ColumnSelector,
    precision: nat,
) -> Result<Seq<Seq<Seq<char>>>, Seq<char>> {
    match resolved(header_of(table), selector) {
        Err(missing) => Err(missing),
        Ok(idx) => if table.len() == 0 {
            Ok(Seq::empty())
        } else {
            Ok(seq![table[0]] + transformed_rows(table.skip(1), idx, precision))
        },
    }
}

/// No more rows are kept than there are.
pub proof fn lemma_kept_rows_len(rows: Seq<Seq<Seq<char>>>, idx: ColumnIndex)
    ensures
        kept_rows(rows, idx).len() <= rows.len(),
    decreases rows.len(),
{
    if rows.len() > 0 {
        lemma_kept_rows_len(rows.drop_last(), idx);
    }
}

/// Every row that is kept reaches both coordinate columns.
pub proof fn lemma_kept_rows_reach(rows: Seq<Seq<Seq<char>>>, idx: ColumnIndex)
    ensures
        forall|j: int|
            0 <= j < kept_rows(rows, idx).len() ==> !too_short(
                (#[trigger] kept_rows(rows, idx)[j]).len(),
                idx,
            ),
    decreases rows.len(),
{
    if rows.len() > 0 {
        lemma_kept_rows_reach(rows.drop_last(), idx);
        let init = kept_rows(rows.drop_last(), idx);
        let kept = kept_rows(rows, idx);
        assert forall|j: int| 0 <= j < kept.len() implies !too_short(
            (#[trigger] kept[j]).len(),
            idx,
        ) by {
            if j < init.len() {
                assert(kept[j] == init[j]);
            }
        }
    }
}

/// Rows that all reach both coordinate columns are all kept.
pub proof fn lemma_kept_rows_all(rows: Seq<Seq<Seq<char>>>, idx: ColumnIndex)
    requires
        forall|j: int| 0 <= j < rows.len() ==> !too_short((#[trigger] rows[j]).len(), idx),
    ensures
        kept_rows(rows, idx) == rows,
    decreases rows.len(),
{
    if rows.len() > 0 {
        let init = rows.drop_last();
        assert forall|j: int| 0 <= j < init.len() implies !too_short(
            (#[trigger] init[j]).len(),
            idx,
        ) by {
            assert(init[j] == rows[j]);
        }
        lemma_kept_rows_all(init, idx);
        assert(init.push(rows.last()) =~= rows);
    } else {
        assert(rows =~= Seq::<Seq<Seq<char>>>::empty());
    }
}

/// A copy of a row.
pub fn copy_row(row: &Vec<String>) -> (r: Vec<String>)
    ensures
        texts(r@) == texts(row@),
{
    let mut r: Vec<String> = Vec::new();
    let mut i: usize = 0;
    while i < row.len()
        invariant
            i <= row.len(),
            r.len() == i,
            forall|j: int| 0 <= j < i ==> (#[trigger] r@[j])@ == row@[j]@,
        decreases row.len() - i,
    {
        r.push(row[i].clone());
        i += 1;
    }
    assert(texts(r@) =~= texts(row@));
    r
}

/// Formats the two coordinate fields of a row and copies the others.
/// A row that does not reach both coordinate columns gives `None`.
pub fn transform_row(row: &Vec<String>, idx: &ColumnIndex, precision: usize) -> (r: Option<
    Vec<String>,
>)
    ensures
        match r {
            Some(out) => {
                &&& !too_short(row@.len(), *idx)
                &&& texts(out@) == transformed_row(texts(row@), *idx, precision as nat)
                &&& out@.len() == row@.len()
                &&& forall|i: int|
                    0 <= i < row@.len() && i != idx.lat && i != idx.lon ==> (#[trigger] out@[i])@
                        == row@[i]@
            },
            None => too_short(row@.len(), *idx),
        },
{
    if row.len() <= idx.lat || row.len() <= idx.lon {
        return None;
    }
    let mut out: Vec<String> = Vec::new();
    let mut i: usize = 0;
    while i < row.len()
        invariant
            i <= row.len(),
            out.len() == i,
            forall|j: int|
                0 <= j < i ==> (#[trigger] out@[j])@ == transformed_row(
                    texts(row@),
                    *idx,
                    precision as nat,
                )[j],
        decreases row.len() - i,
    {
        let field = if i == idx.lat || i == idx.lon {
            format_fixed(row[i].as_str(), precision)
        } else {
            row[i].clone()
        };
        out.push(field);
        i += 1;
    }
    assert(texts(out@) =~= transformed_row(texts(row@), *idx, precision as nat));
    Some(out)
}

/// Rewrites a table whose first row is its header: resolves the
/// coordinate columns from the header, keeps the header as it is, formats
/// the coordinate fields of every row that reaches both columns, and
/// leaves the other rows out, reporting each.
pub fn rewrite_table(table: &Vec<Vec<String>>, selector: &ColumnSelector, precision: usize) -> (r:
    Result<Rewritten, RewriteError>)
    ensures
        match rewritten_table(table_texts(table@), *selector, precision as nat) {
            Err(missing) => r matches Err(RewriteError::ColumnNotFound(name)) && name@ == missing,
            Ok(out) => r matches Ok(w) && table_texts(w.table@) == out && ({
                let idx = resolved(header_of(table_texts(table@)), *selector)->Ok_0;
                let rows = data_rows(table_texts(table@));
                &&& w.columns == idx
                &&& w.processed == kept_rows(rows, idx).len()
                &&& w.skipped@ == skipped_rows(rows, idx)
            }),
        },
{
    let ghost tt = table_texts(table@);
    let empty_header: Vec<String> = Vec::new();
    assert(texts(empty_header@) =~= Seq::<Seq<char>>::empty());
    let resolution = if table.len() > 0 {
        resolve_columns(&table[0], selector)
    } else {
        resolve_columns(&empty_header, selector)
    };
    let idx = match resolution {
        Ok(idx) => idx,
        Err(e) => {
            return Err(e);
        },
    };
    let mut out: Vec<Vec<String>> = Vec::new();
    let mut skipped: Vec<SkippedRow> = Vec::new();
    let mut processed: usize = 0;
    if table.len() == 0 {
        assert(table_texts(out@) =~= Seq::<Seq<Seq<char>>>::empty());
        return Ok(Rewritten { table: out, columns: idx, processed, skipped });
    }
    out.push(copy_row(&table[0]));
    let mut i: usize = 1;
    proof {
        assert(tt.subrange(1, 1) =~= Seq::<Seq<Seq<char>>>::empty());
        assert(table_texts(out@) =~= seq![tt[0]] + transformed_rows(
            tt.subrange(1, 1),
            idx,
            precision as nat,
        ));
    }
    while i < table.len()
        invariant
            1 <= i <= table.len(),
            tt == table_texts(table@),
            processed <= i,
            processed == kept_rows(tt.subrange(1, i as int), idx).len(),
            skipped@ == skipped_rows(tt.subrange(1, i as int), idx),
            table_texts(out@) == seq![tt[0]] + transformed_rows(
                tt.subrange(1, i as int),
                idx,
                precision as nat,
            ),
        decreases table.len() - i,
    {
        let ghost before = tt.subrange(1, i as int);
        let ghost upto = tt.subrange(1, i + 1);
        let ghost old_out = table_texts(out@);
        proof {
            assert(upto.drop_last() =~= before);
            assert(upto.last() == texts(table@[i as int]@));
            lemma_kept_rows_len(before, idx);
        }
        match transform_row(&table[i], &idx, precision) {
            Some(row) => {
                out.push(row);
                processed += 1;
                proof {
                    let f = |row: Seq<Seq<char>>| transformed_row(row, idx, precision as nat);
                    assert(kept_rows(upto, idx).map_values(f) =~= kept_rows(before, idx).map_values(
                        f,
                    ).push(f(upto.last())));
                    assert(table_texts(out@) =~= old_out.push(texts(row@)));
                    assert(table_texts(out@) =~= seq![tt[0]] + transformed_rows(
                        upto,
                        idx,
                        precision as nat,
                    ));
                }
            },
            None => {
                skipped.push(SkippedRow { row: i, fields: table[i].len() });
            },
        }
        i += 1;
    }
    proof {
        assert(tt.subrange(1, table.len() as int) =~= tt.skip(1));
    }
    Ok(Rewritten { table: out, columns: idx, processed, skipped })
}

/// Every row is either rewritten or left out and reported.
pub proof fn law_rows_kept_or_skipped(rows: Seq<Seq<Seq<char>>>, idx: ColumnIndex, precision: nat)
    ensures
        transformed_rows(rows, idx, precision).len() + skipped_rows(rows, idx).len() == rows.len(),
    decreases rows.len(),
{
    if rows.len() > 0 {
        law_rows_kept_or_skipped(rows.drop_last(), idx, precision);
    }
}

/// Each row that is written has as many fields as the row it was made
/// from, and differs from it at most in the two coordinate fields, which
/// hold the formatted coordinates.
pub proof fn law_rows_keep_their_fields(
    rows: Seq<Seq<Seq<char>>>,
    idx: ColumnIndex,
    precision: nat,
)
    ensures
        transformed_rows(rows, idx, precision).len() == kept_rows(rows, idx).len(),
        forall|j: int|
            0 <= j < kept_rows(rows, idx).len() ==> (#[trigger] transformed_rows(
                rows,
                idx,
                precision,
            )[j]).len() == kept_rows(rows, idx)[j].len(),
        forall|j: int, i: int|
            0 <= j < kept_rows(rows, idx).len() && 0 <= i < kept_rows(rows, idx)[j].len() ==> (
            #[trigger] transformed_rows(rows, idx, precision)[j][i]) == (if i == idx.lat || i
                == idx.lon {
                fixed_point(kept_rows(rows, idx)[j][i], precision)
            } else {
                kept_rows(rows, idx)[j][i]
            }),
{
}

/// Transforming a transformed row changes nothing more.
pub proof fn law_row_idempotent(row: Seq<Seq<char>>, idx: ColumnIndex, precision: nat)
    ensures
        transformed_row(transformed_row(row, idx, precision), idx, precision) == transformed_row(
            row,
            idx,
            precision,
        ),
{
    let once = transformed_row(row, idx, precision);
    let twice = transformed_row(once, idx, precision);
    assert forall|i: int| 0 <= i < row.len() implies twice[i] == once[i] by {
        law_format_idempotent(row[i], precision);
    }
    assert(twice =~= once);
}

/// Rewriting a rewritten table changes nothing more.
pub proof fn law_rewrite_idempotent(
    table: Seq<Seq<Seq<char>>>,
    selector: ColumnSelector,
    precision: nat,
)
    ensures
        rewritten_table(table, selector, precision) matches Ok(out) ==> rewritten_table(
            out,
            selector,
            precision,
        ) == Ok::<Seq<Seq<Seq<char>>>, Seq<char>>(out),
{
    if let Ok(out) = rewritten_table(table, selector, precision) {
        if table.len() > 0 {
            let idx = resolved(header_of(table), selector)->Ok_0;
            let rows = table.skip(1);
            let kept = kept_rows(rows, idx);
            let f = |row: Seq<Seq<char>>| transformed_row(row, idx, precision);
            let once = transformed_rows(rows, idx, precision);
            assert(out[0] == table[0]);
            assert(out.skip(1) =~= once);
            lemma_kept_rows_reach(rows, idx);
            assert forall|j: int| 0 <= j < once.len() implies !too_short(
                (#[trigger] once[j]).len(),
                idx,
            ) by {
                assert(once[j] == f(kept[j]));
                assert(!too_short(kept[j].len(), idx));
            }
            lemma_kept_rows_all(once, idx);
            assert forall|j: int| 0 <= j < once.len() implies #[trigger] once.map_values(f)[j]
                == once[j] by {
                law_row_idempotent(kept[j], idx, precision);
            }
            assert(once.map_values(f) =~= once);
            assert(seq![out[0]] + once =~= out);
        }
    }
}

} // verus!
