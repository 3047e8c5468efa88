//! Output rendering: the delimited-text form, and the per-cell plan the
//! table printer follows.
use vstd::prelude::*;
use vstd::string::StringExecFns;
use crate::errors::RavroError;
use crate::filter::regex_compiles;
use crate::filter::regex_found;
use crate::service::AvroColumnarValue;
use crate::value::AvroValue;

verus! {

/// The supported output forms.
#[derive(Debug, Clone, Copy, PartialEq, Eq, Structural)]
pub enum OutputFormat {
    /// A styled grid on standard output.
    Table,
    /// Delimited text: a header line, then one line per row.
    Csv,
}

/// Selects the output form from the configured name: no name means the
/// table, `"csv"` selects delimited text, and any other name fails fast
/// naming the unrecognized value.
pub fn parse_output_format(format: &Option<String>) -> (r: Result<OutputFormat, RavroError>)
    ensures
        match *format {
            Option::None => r == Ok::<OutputFormat, RavroError>(OutputFormat::Table),
            Option::Some(f) => if f@ == "csv"@ {
                r == Ok::<OutputFormat, RavroError>(OutputFormat::Csv)
            } else {
                r == Err::<OutputFormat, RavroError>(RavroError::UnsupportedFormat(f))
            },
        },
{
    match format {
        Option::None => Ok(OutputFormat::Table),
        Option::Some(f) => {
            let csv_name = "csv".to_owned();
            if f.eq(&csv_name) {
                Ok(OutputFormat::Csv)
            } else {
                Err(RavroError::UnsupportedFormat(f.clone()))
            }
        },
    }
}

/// One line of delimited text for the given cell texts, terminator
/// included: what the delimited-text writer produces for one record, with
/// standard quoting of embedded delimiters. The name stands for the result
/// of `csv::Writer::write_record` with the default configuration, which
/// depends on the cell texts alone.
pub uninterp spec fn csv_line_of(cells: Seq<Seq<char>>) -> Seq<char>;

/// Whether a cell text holds none of the characters the delimited-text
/// writer treats specially: the `','` delimiter, the `'"'` quote, and the
/// `'\n'` / `'\r'` record terminators.
pub open spec fn plain_text(t: Seq<char>) -> bool {
    forall|i: int|
        0 <= i < t.len() ==> (#[trigger] t[i]) != ',' && t[i] != '"' && t[i] != '\n' && t[i] != '\r'
}

/// Whether every cell text of a record is plain.
pub open spec fn all_plain(cells: Seq<Seq<char>>) -> bool {
    forall|i: int| 0 <= i < cells.len() ==> plain_text(#[trigger] cells[i])
}

/// The unquoted form of one record line: the cell texts joined by `','`,
/// closed by the `'\n'` terminator.
pub open spec fn plain_line(cells: Seq<Seq<char>>) -> Seq<char>
    decreases cells.len(),
{
    if cells.len() == 0 {
        seq!['\n']
    } else if cells.len() == 1 {
        cells[0] + seq!['\n']
    } else {
        cells[0] + seq![','] + plain_line(cells.drop_first())
    }
}

/// The number of `'\n'` characters in `s`: the delimited text holds this
/// many terminated lines.
pub open spec fn newline_count(s: Seq<char>) -> nat
    decreases s.len(),
{
    if s.len() == 0 {
        0
    } else {
        (if s[0] == '\n' {
            1nat
        } else {
            0nat
        }) + newline_count(s.drop_first())
    }
}

/// The terminator count distributes over concatenation.
proof fn lemma_newline_count_concat(a: Seq<char>, b: Seq<char>)
    ensures
        newline_count(a + b) == newline_count(a) + newline_count(b),
    decreases a.len(),
{
    if a.len() == 0 {
        assert(a + b =~= b);
    } else {
        assert((a + b)[0] == a[0]);
        assert((a + b).drop_first() =~= a.drop_first() + b);
        lemma_newline_count_concat(a.drop_first(), b);
    }
}

/// A plain cell text holds no terminator.
proof fn lemma_plain_no_newline(t: Seq<char>)
    requires
        plain_text(t),
    ensures
        newline_count(t) == 0,
    decreases t.len(),
{
    if t.len() > 0 {
        assert(forall|i: int| 0 <= i < t.len() - 1 ==> #[trigger] t.drop_first()[i] == t[i + 1]);
        lemma_plain_no_newline(t.drop_first());
    }
}

/// A plain record line holds exactly its one closing terminator.
proof fn lemma_plain_line_one_newline(cells: Seq<Seq<char>>)
    requires
        all_plain(cells),
    ensures
        newline_count(plain_line(cells)) == 1,
    decreases cells.len(),
{
    reveal_with_fuel(newline_count, 3);
    if cells.len() == 0 {
    } else if cells.len() == 1 {
        lemma_plain_no_newline(cells[0]);
        lemma_newline_count_concat(cells[0], seq!['\n']);
    } else {
        assert(forall|i: int|
            0 <= i < cells.len() - 1 ==> #[trigger] cells.drop_first()[i] == cells[i + 1]);
        lemma_plain_line_one_newline(cells.drop_first());
        lemma_plain_no_newline(cells[0]);
        lemma_newline_count_concat(cells[0] + seq![','], plain_line(cells.drop_first()));
        lemma_newline_count_concat(cells[0], seq![',']);
        assert((cells[0] + seq![',']) + plain_line(cells.drop_first()) =~= cells[0] + seq![',']
            + plain_line(cells.drop_first()));
    }
}

/// Whether a list of header names renders as one plain, unquoted line: all
/// names plain, and not the ambiguous single-empty-field record.
pub open spec fn plain_names(names: Seq<String>) -> bool {
    all_plain(views_of(names)) && (names.len() > 1 || (names.len() == 1 && names[0]@.len() > 0))
}

/// Whether a row renders as one plain, unquoted line: all cell texts plain,
/// and not the ambiguous single-empty-field record.
pub open spec fn plain_row(row: Seq<AvroColumnarValue>) -> bool {
    all_plain(spec_row_texts(row)) && (row.len() > 1 || (row.len() == 1
        && row[0].value.spec_text().len() > 0))
}

/// Relies on `csv::Writer::write_record` with `from_writer`'s default
/// configuration, writing one record to an in-memory buffer read back by
/// `into_inner`. This cannot fail: a growable buffer sees no I/O error, a
/// fresh writer has no earlier record to check lengths against, and the
/// delimited text of UTF-8 cell texts is UTF-8. The record becomes one
/// `','`-delimited line closed by one `'\n'` terminator, fields quoted
/// exactly where the configuration requires — so cell texts free of `','`,
/// `'"'`, `'\n'` and `'\r'` pass through verbatim, except that an empty
/// text standing as the only field of its record is quoted. The line
/// depends on the cell texts alone (named `csv_line_of`).
#[verifier::external_body]
fn csv_line(fields: &Vec<String>) -> (line: String)
    ensures
        line@ == csv_line_of(fields@.map_values(|s: String| s@)),
        line@.len() > 0,
        line@.last() == '\n',
        all_plain(fields@.map_values(|s: String| s@)) && (fields@.len() > 1 || (fields@.len() == 1
            && fields@[0]@.len() > 0)) ==> line@ == plain_line(
            fields@.map_values(|s: String| s@),
        ),
{
    let mut writer = csv::Writer::from_writer(Vec::new());
    writer.write_record(fields).expect("one record into a growable buffer");
    let bytes = writer.into_inner().expect("flushing a growable buffer");
    String::from_utf8(bytes).expect("delimited text of UTF-8 fields")
}

/// The views of a list of names.
pub open spec fn views_of(names: Seq<String>) -> Seq<Seq<char>> {
    names.map_values(|s: String| s@)
}

/// The display texts of a row's cells.
pub open spec fn spec_row_texts(row: Seq<AvroColumnarValue>) -> Seq<Seq<char>> {
    row.map_values(|c: AvroColumnarValue| c.value.spec_text())
}

/// The delimited-text lines of the rows, concatenated.
pub open spec fn spec_csv_lines(rows: Seq<Vec<AvroColumnarValue>>) -> Seq<char>
    decreases rows.len(),
{
    if rows.len() == 0 {
        Seq::empty()
    } else {
        csv_line_of(spec_row_texts(rows[0]@)) + spec_csv_lines(rows.drop_first())
    }
}

/// The whole delimited-text output: the header line, then one line per row.
pub open spec fn spec_csv_text(names: Seq<String>, rows: Seq<Vec<AvroColumnarValue>>) -> Seq<
    char,
> {
    csv_line_of(views_of(names)) + spec_csv_lines(rows)
}

/// Appending one row appends its line.
proof fn lemma_csv_lines_push(rows: Seq<Vec<AvroColumnarValue>>, row: Vec<AvroColumnarValue>)
    ensures
        spec_csv_lines(rows.push(row)) == spec_csv_lines(rows) + csv_line_of(spec_row_texts(row@)),
    decreases rows.len(),
{
    reveal_with_fuel(spec_csv_lines, 3);
    if rows.len() == 0 {
        assert(rows.push(row)[0] == row);
        assert(rows.push(row).drop_first() =~= Seq::<Vec<AvroColumnarValue>>::empty());
        assert(spec_csv_lines(rows.push(row)) =~= spec_csv_lines(rows) + csv_line_of(
            spec_row_texts(row@),
        ));
    } else {
        assert(rows.push(row)[0] == rows[0]);
        assert(rows.push(row).drop_first() =~= rows.drop_first().push(row));
        lemma_csv_lines_push(rows.drop_first(), row);
        assert(spec_csv_lines(rows.push(row)) =~= spec_csv_lines(rows) + csv_line_of(
            spec_row_texts(row@),
        ));
    }
}

/// The display texts of one row's cells, rendered.
pub(crate) fn row_texts(row: &Vec<AvroColumnarValue>) -> (texts: Vec<String>)
    ensures
        texts@.map_values(|s: String| s@) == spec_row_texts(row@),
{
    let mut texts: Vec<String> = Vec::new();
    let mut j: usize = 0;
    while j < row.len()
        invariant
            j <= row@.len(),
            texts@.len() == j,
            forall|jj: int| 0 <= jj < j ==> #[trigger] texts@[jj]@ == row@[jj].value.spec_text(),
        decreases row@.len() - j,
    {
        let text = row[j].value.to_string();
        texts.push(text);
        j += 1;
    }
    proof {
        assert(texts@.map_values(|s: String| s@) =~= spec_row_texts(row@));
    }
    texts
}

/// Renders the whole result as delimited text: the header names as the
/// first line, then each row's cell texts as one line, every line produced
/// by the delimited-text writer with its standard quoting. Building the
/// text cannot fail; only writing it out can, and that is its caller's
/// concern.
pub fn render_csv(names: &Vec<String>, rows: &Vec<Vec<AvroColumnarValue>>) -> (text: String)
    ensures
        text@ == spec_csv_text(names@, rows@),
        (plain_names(names@) && (forall|k: int|
            0 <= k < rows@.len() ==> plain_row(#[trigger] rows@[k]@))) ==> newline_count(text@) == 1
            + rows@.len(),
{
    let ghost gated = plain_names(names@) && (forall|k: int|
        0 <= k < rows@.len() ==> plain_row(#[trigger] rows@[k]@));
    let mut out = csv_line(names);
    let mut i: usize = 0;
    proof {
        assert(spec_csv_lines(rows@.subrange(0, 0)) == Seq::<char>::empty());
        assert(out@ =~= csv_line_of(views_of(names@)) + spec_csv_lines(rows@.subrange(0, 0)));
        if gated {
            lemma_plain_line_one_newline(views_of(names@));
        }
    }
    while i < rows.len()
        invariant
            i <= rows@.len(),
            out@ == csv_line_of(views_of(names@)) + spec_csv_lines(rows@.subrange(0, i as int)),
            gated == (plain_names(names@) && (forall|k: int|
                0 <= k < rows@.len() ==> plain_row(#[trigger] rows@[k]@))),
            gated ==> newline_count(out@) == 1 + i,
        decreases rows@.len() - i,
    {
        let ghost before = out@;
        let texts = row_texts(&rows[i]);
        let line = csv_line(&texts);
        proof {
            if gated {
                assert(plain_row(rows@[i as int]@));
                assert(texts@.map_values(|s: String| s@) == spec_row_texts(rows@[i as int]@));
                assert(texts@.len() == rows@[i as int]@.len());
                if texts@.len() == 1 {
                    assert(texts@[0]@ == spec_row_texts(rows@[i as int]@)[0]);
                }
                assert(line@ == plain_line(spec_row_texts(rows@[i as int]@)));
                lemma_plain_line_one_newline(spec_row_texts(rows@[i as int]@));
                lemma_newline_count_concat(before, line@);
            }
        }
        out.append(line.as_str());
        proof {
            assert(rows@.subrange(0, i as int + 1) =~= rows@.subrange(0, i as int).push(
                rows@[i as int]));
            lemma_csv_lines_push(rows@.subrange(0, i as int), rows@[i as int]);
        }
        i += 1;
    }
    proof {
        assert(rows@.subrange(0, rows@.len() as int) =~= rows@);
    }
    out
}

/// What the table printer needs of one cell: its display text, whether the
/// search pattern matched it, and whether it is the absent marker.
pub struct CellPlan {
    pub text: String,
    pub matched: bool,
    pub absent: bool,
}

/// Plans the table body: one plan per cell, in place, holding the cell's
/// display text, whether the pattern matched that text — never claimed
/// without a pattern — and whether the cell is the absent marker. An
/// uncompilable pattern fails fast.
pub fn plan_table(rows: &Vec<Vec<AvroColumnarValue>>, search: &Option<String>) -> (r: Result<
    Vec<Vec<CellPlan>>,
    RavroError,
>)
    ensures
        match *search {
            Option::Some(p) => if regex_compiles(p@) {
                r matches Ok(plans) && plans_ok(plans@, rows@, Option::Some(p))
            } else {
                r == Err::<Vec<Vec<CellPlan>>, RavroError>(RavroError::InvalidPattern(p))
            },
            Option::None => r matches Ok(plans) && plans_ok(plans@, rows@, Option::None),
        },
{
    if let Option::Some(p) = search {
        if !crate::filter::regex_compile_ok(p.as_str()) {
            return Err(RavroError::InvalidPattern(p.clone()));
        }
    }
    let mut plans: Vec<Vec<CellPlan>> = Vec::new();
    let mut i: usize = 0;
    while i < rows.len()
        invariant
            i <= rows@.len(),
            plans@.len() == i,
            search matches Option::Some(p) ==> regex_compiles(p@),
            forall|ii: int| 0 <= ii < i ==> #[trigger] row_plan_ok(plans@[ii]@, rows@[ii]@, *search),
        decreases rows@.len() - i,
    {
        let row = &rows[i];
        let mut row_plan: Vec<CellPlan> = Vec::new();
        let mut j: usize = 0;
        while j < row.len()
            invariant
                j <= row@.len(),
                row_plan@.len() == j,
                search matches Option::Some(p) ==> regex_compiles(p@),
                forall|jj: int|
                    0 <= jj < j ==> #[trigger] cell_plan_ok(row_plan@[jj], row@[jj], *search),
            decreases row@.len() - j,
        {
            let cell = &row[j];
            let text = cell.value.to_string();
            let matched = match search {
                Option::Some(p) => crate::filter::regex_is_match(p.as_str(), text.as_str()),
                Option::None => false,
            };
            let absent = match cell.value {
                AvroValue::Na => true,
                _ => false,
            };
            row_plan.push(CellPlan { text, matched, absent });
            j += 1;
        }
        plans.push(row_plan);
        i += 1;
    }
    Ok(plans)
}

/// What a correct cell plan holds of its cell.
pub open spec fn cell_plan_ok(plan: CellPlan, cell: AvroColumnarValue, search: Option<String>) -> bool {
    &&& plan.text@ == cell.value.spec_text()
    &&& plan.absent == (cell.value matches AvroValue::Na)
    &&& plan.matched == match search {
        Option::Some(p) => regex_found(p@, cell.value.spec_text()),
        Option::None => false,
    }
}

/// What a correct row of plans holds of its row.
pub open spec fn row_plan_ok(
    plans: Seq<CellPlan>,
    row: Seq<AvroColumnarValue>,
    search: Option<String>,
) -> bool {
    &&& plans.len() == row.len()
    &&& forall|j: int| 0 <= j < row.len() ==> #[trigger] cell_plan_ok(plans[j], row[j], search)
}

/// What a correct table plan holds of the whole result.
pub open spec fn plans_ok(
    plans: Seq<Vec<CellPlan>>,
    rows: Seq<Vec<AvroColumnarValue>>,
    search: Option<String>,
) -> bool {
    &&& plans.len() == rows.len()
    &&& forall|i: int| 0 <= i < rows.len() ==> #[trigger] row_plan_ok(plans[i]@, rows[i]@, search)
}

} // verus!
