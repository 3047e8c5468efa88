//! Row filtering by a search pattern: a row survives iff at least one of its
//! cells' display texts matches the pattern.
use vstd::prelude::*;
use crate::errors::RavroError;
use crate::service::AvroColumnarValue;

verus! {

/// Whether the regular-expression engine accepts `pattern`. The name stands
/// for the success of `regex::Regex::new`, which depends on the pattern text
/// alone.
pub uninterp spec fn regex_compiles(pattern: Seq<char>) -> bool;

/// Whether `pattern` matches anywhere inside `text` (search semantics, not
/// full-match). The name stands for the result of `regex::Regex::is_match`,
/// which depends on the pattern and the haystack alone.
pub uninterp spec fn regex_found(pattern: Seq<char>, text: Seq<char>) -> bool;

/// Relies on `regex::Regex::new`: it accepts or rejects a pattern
/// deterministically, by the pattern text alone.
#[verifier::external_body]
pub(crate) fn regex_compile_ok(pattern: &str) -> (r: bool)
    ensures
        r <==> regex_compiles(pattern@),
{
    regex::Regex::new(pattern).is_ok()
}

/// Relies on `regex::Regex::is_match`: whether the compiled pattern matches
/// anywhere in the haystack, deterministically in the two texts. Compiles
/// with `regex::Regex::new`, which succeeds by the precondition.
#[verifier::external_body]
pub(crate) fn regex_is_match(pattern: &str, text: &str) -> (r: bool)
    requires
        regex_compiles(pattern@),
    ensures
        r == regex_found(pattern@, text@),
{
    match regex::Regex::new(pattern) {
        Ok(re) => re.is_match(text),
        Err(_) => false,
    }
}

/// Whether a row survives the filter: at least one of its cells' display
/// texts matches the pattern.
pub open spec fn spec_row_kept(pattern: Seq<char>, row: Seq<AvroColumnarValue>) -> bool {
    exists|i: int| 0 <= i < row.len() && #[trigger] regex_found(pattern, row[i].value.spec_text())
}

/// The rows that survive the filter, in their original order.
pub open spec fn spec_kept_rows(pattern: Seq<char>, rows: Seq<Vec<AvroColumnarValue>>) -> Seq<
    Vec<AvroColumnarValue>,
> {
    rows.filter(|row: Vec<AvroColumnarValue>| spec_row_kept(pattern, row@))
}

/// Whether at least one cell of `row` matches the pattern.
fn row_matches(row: &Vec<AvroColumnarValue>, pattern: &String) -> (b: bool)
    requires
        regex_compiles(pattern@),
    ensures
        b == spec_row_kept(pattern@, row@),
{
    let mut j: usize = 0;
    while j < row.len()
        invariant
            j <= row@.len(),
            regex_compiles(pattern@),
            forall|jj: int|
                0 <= jj < j ==> !regex_found(pattern@, #[trigger] row@[jj].value.spec_text()),
        decreases row@.len() - j,
    {
        let text = row[j].value.to_string();
        if regex_is_match(pattern.as_str(), text.as_str()) {
            proof {
                assert(regex_found(pattern@, row@[j as int].value.spec_text()));
            }
            return true;
        }
        j += 1;
    }
    false
}

/// Filters the rows by the optional search pattern. Without a pattern the
/// rows pass through unchanged. With one, the pattern is checked first and
/// an uncompilable pattern fails fast; otherwise a row is kept iff at least
/// one of its cells' display texts matches, with no row reordered,
/// duplicated, or altered.
pub fn filter_rows(rows: Vec<Vec<AvroColumnarValue>>, search: &Option<String>) -> (r: Result<
    Vec<Vec<AvroColumnarValue>>,
    RavroError,
>)
    ensures
        match *search {
            Option::None => r == Ok::<Vec<Vec<AvroColumnarValue>>, RavroError>(rows),
            Option::Some(p) => if regex_compiles(p@) {
                r matches Ok(kept) && kept@ == spec_kept_rows(p@, rows@)
            } else {
                r == Err::<Vec<Vec<AvroColumnarValue>>, RavroError>(RavroError::InvalidPattern(p))
            },
        },
{
    match search {
        Option::None => Ok(rows),
        Option::Some(p) => {
            if !regex_compile_ok(p.as_str()) {
                return Err(RavroError::InvalidPattern(p.clone()));
            }
            let ghost orig = rows@;
            let mut remaining = rows;
            let mut kept: Vec<Vec<AvroColumnarValue>> = Vec::new();
            let ghost mut done: int = 0;
            proof {
                assert(orig.take(0) =~= Seq::<Vec<AvroColumnarValue>>::empty());
                assert(spec_kept_rows(p@, orig.take(0)) =~= Seq::<Vec<AvroColumnarValue>>::empty())
                    by {
                    reveal(Seq::filter);
                }
            }
            while remaining.len() > 0
                invariant
                    regex_compiles(p@),
                    0 <= done <= orig.len(),
                    remaining@ == orig.skip(done),
                    kept@ == spec_kept_rows(p@, orig.take(done)),
                decreases remaining@.len(),
            {
                let row = remaining.remove(0);
                proof {
                    assert(orig.skip(done)[0] == orig[done]);
                    assert(row == orig[done]);
                    assert(orig.skip(done).remove(0) =~= orig.skip(done + 1));
                    assert(orig.take(done + 1).drop_last() =~= orig.take(done));
                    assert(orig.take(done + 1).last() == orig[done]);
                }
                let keep = row_matches(&row, p);
                proof {
                    assert(spec_kept_rows(p@, orig.take(done + 1)) == if spec_row_kept(
                        p@,
                        orig[done]@,
                    ) {
                        spec_kept_rows(p@, orig.take(done)).push(orig[done])
                    } else {
                        spec_kept_rows(p@, orig.take(done))
                    }) by {
                        reveal(Seq::filter);
                    }
                }
                if keep {
                    kept.push(row);
                }
                proof {
                    done = done + 1;
                }
            }
            proof {
                assert(orig.take(orig.len() as int) =~= orig);
            }
            Ok(kept)
        },
    }
}

/// Filtering is order-preserving and monotone: there is a strictly
/// increasing index map from the surviving rows back into the input, each
/// surviving row is one of the input rows, unchanged, and every input row
/// with a matching cell survives. The returned sequence is that index map.
pub proof fn lemma_filter_order_preserving(
    pattern: Seq<char>,
    rows: Seq<Vec<AvroColumnarValue>>,
) -> (idx: Seq<int>)
    ensures
        idx.len() == spec_kept_rows(pattern, rows).len(),
        forall|k: int| 0 <= k < idx.len() ==> 0 <= #[trigger] idx[k] < rows.len(),
        forall|k: int|
            #![trigger idx[k], idx[k + 1]]
            0 <= k < idx.len() - 1 ==> idx[k] < idx[k + 1],
        forall|k: int|
            0 <= k < idx.len() ==> spec_kept_rows(pattern, rows)[k] == rows[#[trigger] idx[k]],
        forall|k: int|
            0 <= k < idx.len() ==> spec_row_kept(pattern, rows[#[trigger] idx[k]]@),
        forall|i: int|
            0 <= i < rows.len() && spec_row_kept(pattern, (#[trigger] rows[i])@) ==> exists|k: int|
                0 <= k < idx.len() && #[trigger] idx[k] == i,
    decreases rows.len(),
{
    if rows.len() == 0 {
        assert(spec_kept_rows(pattern, rows) =~= Seq::<Vec<AvroColumnarValue>>::empty()) by {
            reveal(Seq::filter);
        }
        Seq::empty()
    } else {
        let prev = lemma_filter_order_preserving(pattern, rows.drop_last());
        assert(forall|i: int| 0 <= i < rows.len() - 1 ==> rows.drop_last()[i] == #[trigger] rows[i]);
        assert(spec_kept_rows(pattern, rows) == if spec_row_kept(pattern, rows.last()@) {
            spec_kept_rows(pattern, rows.drop_last()).push(rows.last())
        } else {
            spec_kept_rows(pattern, rows.drop_last())
        }) by {
            reveal(Seq::filter);
        }
        let idx = if spec_row_kept(pattern, rows.last()@) {
            prev.push(rows.len() - 1)
        } else {
            prev
        };
        assert forall|i: int|
            0 <= i < rows.len() && spec_row_kept(pattern, (#[trigger] rows[i])@) implies exists|
            k: int,
        |
            0 <= k < idx.len() && #[trigger] idx[k] == i by {
            if i < rows.len() - 1 {
                assert(rows.drop_last()[i] == rows[i]);
                assert(spec_row_kept(pattern, rows.drop_last()[i]@));
                let k = choose|k: int| 0 <= k < prev.len() && #[trigger] prev[k] == i;
                assert(idx[k] == i);
            } else {
                assert(idx[idx.len() - 1] == i);
            }
        }
        idx
    }
}

} // verus!
