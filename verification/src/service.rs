//! The projection engine: schema discovery, field-by-name projection with
//! absent-cell semantics, and row-limit truncation over decoded files.
use vstd::prelude::*;
use crate::avro_read::deflate_decompress;
use crate::avro_read::read_entries;
use crate::codec::Codec;
use crate::codec::parse_codec;
use crate::errors::RavroError;
use crate::value::AvroValue;
use crate::value::FieldValue;
use crate::value::ValueModel;
use crate::value::clone_value;
use crate::value::val_model;

verus! {

/// One entry of a decoded file: a decoded record-stream value, or the marker
/// for an entry whose bytes could not be decoded.
pub enum DecodedEntry {
    Value(FieldValue),
    Corrupt,
}

/// One loaded input file after decoding: its path, kept for error reporting,
/// and its decoded record-stream entries in file order.
pub struct DecodedFile {
    pub path: String,
    pub entries: Vec<DecodedEntry>,
}

/// One cell of a projected row: the field name it was requested under, and
/// the found value or the absent marker.
pub struct AvroColumnarValue {
    pub name: String,
    pub value: AvroValue,
}

impl AvroColumnarValue {
    /// Builds a cell from a name and a value.
    pub fn from(name: String, value: AvroValue) -> (r: Self)
        ensures
            r == (AvroColumnarValue { name, value }),
    {
        AvroColumnarValue { name, value }
    }

    /// The cell's value.
    pub fn value(&self) -> (v: &AvroValue)
        ensures
            v == &self.value,
    {
        &self.value
    }
}

/// Everything downstream stages observe of one cell: the name it was
/// requested under, the data it holds (`None` for the absent marker), and
/// its display text.
pub type CellData = (Seq<char>, Option<ValueModel>, Seq<char>);

/// The observable content of one projected row.
pub type RowData = Seq<CellData>;

/// The model of a cell's value: `None` for the absent marker, otherwise the
/// value's model.
pub open spec fn cell_model(v: AvroValue) -> Option<ValueModel> {
    match v {
        AvroValue::Value(f) => Option::Some(val_model(f)),
        AvroValue::Na => Option::None,
    }
}

/// The observable content of one cell.
pub open spec fn cell_view(c: AvroColumnarValue) -> CellData {
    (c.name@, cell_model(c.value), c.value.spec_text())
}

/// The observable content of a whole row, cell by cell.
pub open spec fn row_view(row: Seq<AvroColumnarValue>) -> RowData {
    row.map_values(|c: AvroColumnarValue| cell_view(c))
}

/// The observable content of a whole result, row by row.
pub open spec fn rows_view(rows: Seq<Vec<AvroColumnarValue>>) -> Seq<RowData> {
    rows.map_values(|row: Vec<AvroColumnarValue>| row_view(row@))
}

/// Looks a field name up among a record's fields: the first field whose name
/// matches, wrapped as a present value, or the absent marker when no field
/// matches. A missing field never fails the lookup.
pub open spec fn spec_lookup(fields: Seq<(String, FieldValue)>, name: Seq<char>) -> AvroValue
    decreases fields.len(),
{
    if fields.len() == 0 {
        AvroValue::Na
    } else if fields[0].0@ == name {
        AvroValue::Value(fields[0].1)
    } else {
        spec_lookup(fields.drop_first(), name)
    }
}

/// The observable content of the row projected from one record: one cell per
/// requested name, in the requested order, each holding that name's lookup.
pub open spec fn spec_row_view(fields: Seq<(String, FieldValue)>, names: Seq<String>) -> Seq<
    (Seq<char>, Option<ValueModel>, Seq<char>),
> {
    Seq::new(
        names.len(),
        |j: int|
            (
                names[j]@,
                cell_model(spec_lookup(fields, names[j]@)),
                spec_lookup(fields, names[j]@).spec_text(),
            ),
    )
}

/// The row budget a requested cap allows: `None` means unbounded.
pub open spec fn spec_take(take: Option<u32>) -> Option<nat> {
    match take {
        Option::None => Option::None,
        Option::Some(t) => Option::Some(t as nat),
    }
}

/// Whether the budget allows no further row.
pub open spec fn budget_spent(left: Option<nat>) -> bool {
    left == Option::Some(0nat)
}

/// The budget after producing one row.
pub open spec fn dec_budget(left: Option<nat>) -> Option<nat> {
    match left {
        Option::None => Option::None,
        Option::Some(n) => Option::Some((n - 1) as nat),
    }
}

/// The budget left after `produced` rows out of an initial cap.
pub open spec fn left_after(take: Option<u32>, produced: nat) -> Option<nat> {
    match take {
        Option::None => Option::None,
        Option::Some(t) => Option::Some(if produced <= t { (t - produced) as nat } else { 0nat }),
    }
}

/// Scans one file's entries from position `i` under the given budget: each
/// record entry yields one row and costs one unit of budget, a non-record
/// entry is passed over, a corrupt entry fails the scan naming the file and
/// the entry's index, and the scan stops — before examining the entry — once
/// the budget is spent. Returns the rows and the budget left.
pub open spec fn spec_scan_entries(
    path: String,
    entries: Seq<DecodedEntry>,
    i: int,
    names: Seq<String>,
    left: Option<nat>,
) -> Result<(Seq<RowData>, Option<nat>), RavroError>
    decreases entries.len() - i,
{
    if i < 0 || i >= entries.len() || budget_spent(left) {
        Ok((Seq::empty(), left))
    } else {
        match entries[i] {
            DecodedEntry::Corrupt => Err(RavroError::RecordDecode(path, i as usize)),
            DecodedEntry::Value(v) => match v {
                FieldValue::Record(fields) => match spec_scan_entries(
                    path,
                    entries,
                    i + 1,
                    names,
                    dec_budget(left),
                ) {
                    Ok((rows, after)) => Ok(
                        (seq![spec_row_view(fields@, names)] + rows, after),
                    ),
                    Err(e) => Err(e),
                },
                _ => spec_scan_entries(path, entries, i + 1, names, left),
            },
        }
    }
}

/// Scans the files from position `(fi, ei)` on, threading the budget from
/// file to file, in file order then entry order.
pub open spec fn spec_rest(
    files: Seq<DecodedFile>,
    fi: int,
    ei: int,
    names: Seq<String>,
    left: Option<nat>,
) -> Result<Seq<RowData>, RavroError>
    decreases files.len() - fi,
{
    if fi < 0 || fi >= files.len() {
        Ok(Seq::empty())
    } else {
        match spec_scan_entries(files[fi].path, files[fi].entries@, ei, names, left) {
            Err(e) => Err(e),
            Ok((rows, after)) => match spec_rest(files, fi + 1, 0, names, after) {
                Err(e) => Err(e),
                Ok(more) => Ok(rows + more),
            },
        }
    }
}

/// The whole projection: every file in order, every entry in order, one row
/// per record entry holding one cell per requested name, truncated to the
/// requested cap counted on the scanned record stream.
pub open spec fn spec_project(files: Seq<DecodedFile>, names: Seq<String>, take: Option<u32>) -> Result<
    Seq<RowData>,
    RavroError,
> {
    spec_rest(files, 0, 0, names, spec_take(take))
}

/// Finds `name` among `fields` and returns an owned copy of the first match,
/// or the absent marker: the executable form of `spec_lookup`.
fn lookup_field(fields: &Vec<(String, FieldValue)>, name: &String) -> (c: AvroValue)
    ensures
        cell_model(c) == cell_model(spec_lookup(fields@, name@)),
        c.spec_text() == spec_lookup(fields@, name@).spec_text(),
{
    let ghost len = fields@.len() as int;
    proof {
        assert(fields@.subrange(0, len) =~= fields@);
    }
    let mut k: usize = 0;
    while k < fields.len()
        invariant
            k <= fields@.len(),
            spec_lookup(fields@.subrange(k as int, len), name@) == spec_lookup(fields@, name@),
            len == fields@.len() as int,
        decreases fields@.len() - k,
    {
        let ghost suffix = fields@.subrange(k as int, len);
        if fields[k].0.eq(name) {
            proof {
                assert(suffix[0] == fields@[k as int]);
            }
            let copy = clone_value(&fields[k].1);
            return AvroValue::Value(copy);
        }
        proof {
            assert(suffix[0] == fields@[k as int]);
            assert(suffix.drop_first() =~= fields@.subrange(k as int + 1, len));
        }
        k += 1;
    }
    proof {
        assert(fields@.subrange(len, len) =~= Seq::<(String, FieldValue)>::empty());
    }
    AvroValue::Na
}

/// Projects one record into a row: one cell per requested name, in the
/// requested order, each present or absent by lookup.
fn build_row(fields: &Vec<(String, FieldValue)>, names: &Vec<String>) -> (row: Vec<
    AvroColumnarValue,
>)
    ensures
        row_view(row@) == spec_row_view(fields@, names@),
{
    let mut row: Vec<AvroColumnarValue> = Vec::new();
    let mut j: usize = 0;
    while j < names.len()
        invariant
            j <= names@.len(),
            row@.len() == j,
            forall|jj: int|
                0 <= jj < j ==> #[trigger] cell_view(row@[jj]) == spec_row_view(fields@, names@)[jj],
        decreases names@.len() - j,
    {
        let value = lookup_field(fields, &names[j]);
        let cell = AvroColumnarValue::from(names[j].clone(), value);
        row.push(cell);
        j += 1;
    }
    proof {
        assert(row_view(row@) =~= spec_row_view(fields@, names@));
    }
    row
}

/// The names of a record's fields, in the record's own order.
pub open spec fn field_names_of(fields: Seq<(String, FieldValue)>) -> Seq<String> {
    fields.map_values(|p: (String, FieldValue)| p.0)
}

/// Derives the default column order from the dataset: exactly the field
/// names of the first record of the first file, in that record's own order.
/// Fails when the first file holds no entry, when its first entry is
/// corrupt, or when that entry is not a record-shaped value; no other file
/// and no other record is inspected.
pub fn discover_field_names(files: &Vec<DecodedFile>) -> (r: Result<Vec<String>, RavroError>)
    requires
        files@.len() > 0,
    ensures
        ({
            let entries = files@[0].entries@;
            if entries.len() == 0 {
                r == Err::<Vec<String>, RavroError>(RavroError::EmptyDataset)
            } else {
                match entries[0] {
                    DecodedEntry::Corrupt => r == Err::<Vec<String>, RavroError>(
                        RavroError::RecordDecode(files@[0].path, 0),
                    ),
                    DecodedEntry::Value(v) => match v {
                        FieldValue::Record(fields) => r matches Ok(names) && names@
                            == field_names_of(fields@),
                        _ => r == Err::<Vec<String>, RavroError>(RavroError::SchemaShape),
                    },
                }
            }
        }),
{
    let first = &files[0];
    if first.entries.len() == 0 {
        return Err(RavroError::EmptyDataset);
    }
    match &first.entries[0] {
        DecodedEntry::Corrupt => Err(RavroError::RecordDecode(first.path.clone(), 0)),
        DecodedEntry::Value(v) => match v {
            FieldValue::Record(fields) => {
                let mut names: Vec<String> = Vec::new();
                let mut k: usize = 0;
                while k < fields.len()
                    invariant
                        k <= fields@.len(),
                        names@.len() == k,
                        forall|i: int| 0 <= i < k ==> names@[i] == fields@[i].0,
                    decreases fields@.len() - k,
                {
                    names.push(fields[k].0.clone());
                    k += 1;
                }
                proof {
                    assert(names@ =~= field_names_of(fields@));
                }
                Ok(names)
            },
            _ => Err(RavroError::SchemaShape),
        },
    }
}

/// A scan whose budget is spent yields no further row from any file.
proof fn lemma_rest_spent(files: Seq<DecodedFile>, fi: int, ei: int, names: Seq<String>)
    ensures
        spec_rest(files, fi, ei, names, Option::Some(0nat)) == Ok::<Seq<RowData>, RavroError>(
            Seq::empty(),
        ),
    decreases files.len() - fi,
{
    if 0 <= fi < files.len() {
        assert(spec_scan_entries(files[fi].path, files[fi].entries@, ei, names, Option::Some(0nat))
            == Ok::<(Seq<RowData>, Option<nat>), RavroError>((Seq::empty(), Option::Some(0nat))));
        lemma_rest_spent(files, fi + 1, 0, names);
        assert(Seq::<RowData>::empty() + Seq::<RowData>::empty() =~= Seq::<RowData>::empty());
    }
}

/// A corrupt entry reached under budget fails the scan, naming the file and
/// the entry's zero-based index.
proof fn lemma_rest_corrupt(
    files: Seq<DecodedFile>,
    fi: int,
    ei: int,
    names: Seq<String>,
    left: Option<nat>,
)
    requires
        0 <= fi < files.len(),
        0 <= ei < files[fi].entries@.len(),
        !budget_spent(left),
        files[fi].entries@[ei] == DecodedEntry::Corrupt,
    ensures
        spec_rest(files, fi, ei, names, left) == Err::<Seq<RowData>, RavroError>(
            RavroError::RecordDecode(files[fi].path, ei as usize),
        ),
{
}

/// A record entry reached under budget contributes exactly one row, in front
/// of whatever the rest of the scan yields under the reduced budget.
proof fn lemma_rest_record(
    files: Seq<DecodedFile>,
    fi: int,
    ei: int,
    names: Seq<String>,
    left: Option<nat>,
    fields: Vec<(String, FieldValue)>,
)
    requires
        0 <= fi < files.len(),
        0 <= ei < files[fi].entries@.len(),
        !budget_spent(left),
        files[fi].entries@[ei] == DecodedEntry::Value(FieldValue::Record(fields)),
    ensures
        spec_rest(files, fi, ei, names, left) == match spec_rest(
            files,
            fi,
            ei + 1,
            names,
            dec_budget(left),
        ) {
            Ok(rest) => Ok::<Seq<RowData>, RavroError>(seq![spec_row_view(fields@, names)] + rest),
            Err(e) => Err::<Seq<RowData>, RavroError>(e),
        },
{
    let path = files[fi].path;
    let entries = files[fi].entries@;
    match spec_scan_entries(path, entries, ei + 1, names, dec_budget(left)) {
        Ok(pair) => {
            let rows = pair.0;
            let after = pair.1;
            assert(spec_scan_entries(path, entries, ei, names, left) == Ok::<
                (Seq<RowData>, Option<nat>),
                RavroError,
            >((seq![spec_row_view(fields@, names)] + rows, after)));
            match spec_rest(files, fi + 1, 0, names, after) {
                Ok(more) => {
                    assert((seq![spec_row_view(fields@, names)] + rows) + more
                        =~= seq![spec_row_view(fields@, names)] + (rows + more));
                },
                Err(_) => {},
            }
        },
        Err(_) => {},
    }
}

/// A non-record entry reached under budget is passed over: it yields no row
/// and costs no budget.
proof fn lemma_rest_skip(
    files: Seq<DecodedFile>,
    fi: int,
    ei: int,
    names: Seq<String>,
    left: Option<nat>,
    v: FieldValue,
)
    requires
        0 <= fi < files.len(),
        0 <= ei < files[fi].entries@.len(),
        !budget_spent(left),
        files[fi].entries@[ei] == DecodedEntry::Value(v),
        !(v matches FieldValue::Record(_)),
    ensures
        spec_rest(files, fi, ei, names, left) == spec_rest(files, fi, ei + 1, names, left),
{
    let path = files[fi].path;
    let entries = files[fi].entries@;
    assert(spec_scan_entries(path, entries, ei, names, left) == spec_scan_entries(
        path,
        entries,
        ei + 1,
        names,
        left,
    ));
}

/// Reaching a file's end hands the budget on to the next file unchanged.
proof fn lemma_rest_file_end(
    files: Seq<DecodedFile>,
    fi: int,
    ei: int,
    names: Seq<String>,
    left: Option<nat>,
)
    requires
        0 <= fi < files.len(),
        ei >= files[fi].entries@.len(),
    ensures
        spec_rest(files, fi, ei, names, left) == spec_rest(files, fi + 1, 0, names, left),
{
    let path = files[fi].path;
    let entries = files[fi].entries@;
    assert(spec_scan_entries(path, entries, ei, names, left) == Ok::<
        (Seq<RowData>, Option<nat>),
        RavroError,
    >((Seq::empty(), left)));
    match spec_rest(files, fi + 1, 0, names, left) {
        Ok(more) => {
            assert(Seq::<RowData>::empty() + more =~= more);
        },
        Err(_) => {},
    }
}

/// Projects every file's record stream into rows: one row per record entry,
/// in file order then entry order, one cell per requested name in the
/// requested order, each cell present or absent by name lookup; the scan
/// stops once the requested cap of examined records is reached, and fails on
/// the first corrupt entry it examines, naming the file and the index.
pub fn project(
    files: &Vec<DecodedFile>,
    names: &Vec<String>,
    take: Option<u32>,
) -> (r: Result<Vec<Vec<AvroColumnarValue>>, RavroError>)
    ensures
        match spec_project(files@, names@, take) {
            Ok(views) => r matches Ok(rows) && rows_view(rows@) == views,
            Err(e) => r == Err::<Vec<Vec<AvroColumnarValue>>, RavroError>(e),
        },
{
    let mut out: Vec<Vec<AvroColumnarValue>> = Vec::new();
    let mut fi: usize = 0;
    proof {
        assert(left_after(take, 0) == spec_take(take));
        assert(rows_view(out@) =~= Seq::<RowData>::empty());
        match spec_rest(files@, 0, 0, names@, spec_take(take)) {
            Ok(rest) => {
                assert(rows_view(out@) + rest =~= rest);
            },
            Err(_) => {},
        }
    }
    while fi < files.len()
        invariant
            fi <= files@.len(),
            take matches Option::Some(t) ==> out@.len() <= t,
            match spec_rest(files@, fi as int, 0, names@, left_after(take, out@.len() as nat)) {
                Ok(rest) => spec_project(files@, names@, take) == Ok::<Seq<RowData>, RavroError>(
                    rows_view(out@) + rest,
                ),
                Err(e) => spec_project(files@, names@, take) == Err::<Seq<RowData>, RavroError>(e),
            },
        decreases files@.len() - fi,
    {
        let file = &files[fi];
        let mut ei: usize = 0;
        while ei < file.entries.len()
            invariant
                fi < files@.len(),
                file == &files@[fi as int],
                ei <= file.entries@.len(),
                take matches Option::Some(t) ==> out@.len() <= t,
                match spec_rest(
                    files@,
                    fi as int,
                    ei as int,
                    names@,
                    left_after(take, out@.len() as nat),
                ) {
                    Ok(rest) => spec_project(files@, names@, take) == Ok::<
                        Seq<RowData>,
                        RavroError,
                    >(rows_view(out@) + rest),
                    Err(e) => spec_project(files@, names@, take) == Err::<
                        Seq<RowData>,
                        RavroError,
                    >(e),
                },
            decreases file.entries@.len() - ei,
        {
            let reached = match take {
                Option::Some(t) => out.len() >= t as usize,
                Option::None => false,
            };
            if reached {
                proof {
                    assert(left_after(take, out@.len() as nat) == Option::Some(0nat));
                    lemma_rest_spent(files@, fi as int, ei as int, names@);
                    assert(rows_view(out@) + Seq::<RowData>::empty() =~= rows_view(out@));
                }
                return Ok(out);
            }
            let ghost cur = left_after(take, out@.len() as nat);
            match &file.entries[ei] {
                DecodedEntry::Corrupt => {
                    proof {
                        lemma_rest_corrupt(files@, fi as int, ei as int, names@, cur);
                    }
                    return Err(RavroError::RecordDecode(file.path.clone(), ei));
                },
                DecodedEntry::Value(v) => {
                    match v {
                        FieldValue::Record(fields) => {
                            let ghost prev = out@;
                            let row = build_row(fields, names);
                            out.push(row);
                            proof {
                                lemma_rest_record(files@, fi as int, ei as int, names@, cur, *fields);
                                assert(left_after(take, prev.len() + 1) == dec_budget(cur));
                                assert(rows_view(out@) =~= rows_view(prev).push(row_view(row@)));
                                match spec_rest(
                                    files@,
                                    fi as int,
                                    ei as int + 1,
                                    names@,
                                    dec_budget(cur),
                                ) {
                                    Ok(rest) => {
                                        assert(rows_view(prev) + (seq![
                                            spec_row_view(fields@, names@),
                                        ] + rest) =~= rows_view(prev).push(
                                            spec_row_view(fields@, names@),
                                        ) + rest);
                                    },
                                    Err(_) => {},
                                }
                            }
                        },
                        _ => {
                            proof {
                                lemma_rest_skip(files@, fi as int, ei as int, names@, cur, *v);
                            }
                        },
                    }
                },
            }
            ei += 1;
        }
        proof {
            lemma_rest_file_end(
                files@,
                fi as int,
                ei as int,
                names@,
                left_after(take, out@.len() as nat),
            );
        }
        fi += 1;
    }
    proof {
        match spec_rest(files@, fi as int, 0, names@, left_after(take, out@.len() as nat)) {
            Ok(rest) => {
                assert(rows_view(out@) + rest =~= rows_view(out@));
            },
            Err(_) => {},
        }
    }
    Ok(out)
}

/// Whether a codec name is one the loader understands: absent, or exactly
/// `"deflate"`.
pub open spec fn spec_codec_known(codec: Option<String>) -> bool {
    match codec {
        Option::None => true,
        Option::Some(c) => c@ == "deflate"@,
    }
}

/// Whether one source file's bytes survive the load under the chosen
/// codec: with no codec the bytes themselves must open as a container;
/// with the deflate codec they must inflate and the inflated bytes must
/// open. Meaningful only for a known codec.
pub open spec fn spec_source_loads(codec: Option<String>, bytes: Seq<u8>) -> bool {
    match codec {
        Option::None => crate::avro_read::avro_container_ok(bytes),
        Option::Some(_) => match crate::avro_read::inflate_of(bytes) {
            Option::Some(out) => crate::avro_read::avro_container_ok(out),
            Option::None => false,
        },
    }
}

/// Whether the bytes a source file would hand to the record decoder under
/// the chosen codec are ones the decoder completes on: the raw bytes with
/// no codec, the inflated bytes under deflate — bytes that fail to inflate
/// never reach the decoder. See `avro_decode_safe`: this cannot be tested,
/// only trusted.
pub open spec fn spec_source_safe(codec: Option<String>, bytes: Seq<u8>) -> bool {
    match codec {
        Option::None => crate::avro_read::avro_decode_safe(bytes),
        Option::Some(_) => match crate::avro_read::inflate_of(bytes) {
            Option::Some(out) => crate::avro_read::avro_decode_safe(out),
            Option::None => true,
        },
    }
}

/// The dataset service: every loaded input file, decoded, in load order.
pub struct CliService {
    pub files: Vec<DecodedFile>,
}

impl CliService {
    /// A well-formed service holds at least one file.
    pub open spec fn wf(self) -> bool {
        self.files@.len() > 0
    }

    /// Loads a dataset from the resolved input files: each file's raw bytes
    /// and its path, in order. The chosen codec is applied to every file's
    /// bytes before decoding; an empty input set and an unrecognized codec
    /// name fail fast, before any decompression. With a known codec the
    /// load succeeds exactly when every file's bytes survive decompression
    /// and envelope parse, and otherwise fails naming the first file in
    /// order whose bytes do not. File order is kept: it determines result
    /// row order.
    pub fn from(sources: Vec<(String, Vec<u8>)>, codec: Option<String>) -> (r: Result<
        CliService,
        RavroError,
    >)
        requires
            spec_codec_known(codec) ==> forall|i: int|
                0 <= i < sources@.len() ==> spec_source_safe(codec, #[trigger] sources@[i].1@),
        ensures
            sources@.len() == 0 <==> r == Err::<CliService, RavroError>(RavroError::NoInputFiles),
            sources@.len() > 0 ==> match codec {
                Option::Some(c) => c@ != "deflate"@ ==> r == Err::<CliService, RavroError>(
                    RavroError::UnknownCodec(c),
                ),
                Option::None => true,
            },
            (sources@.len() > 0 && spec_codec_known(codec)) ==> {
                &&& (r is Ok <==> (forall|i: int|
                    0 <= i < sources@.len() ==> spec_source_loads(
                        codec,
                        #[trigger] sources@[i].1@,
                    )))
                &&& (r matches Err(e) ==> exists|i: int|
                    #![trigger sources@[i].0]
                    0 <= i < sources@.len() && e == RavroError::Decode(sources@[i].0)
                        && !spec_source_loads(codec, sources@[i].1@) && (forall|j: int|
                        0 <= j < i ==> spec_source_loads(codec, #[trigger] sources@[j].1@)))
            },
            r matches Ok(s) ==> s.wf() && s.files@.len() == sources@.len() && forall|i: int|
                0 <= i < sources@.len() ==> #[trigger] s.files@[i].path == sources@[i].0,
    {
        if sources.len() == 0 {
            return Err(RavroError::NoInputFiles);
        }
        let chosen = match parse_codec(&codec) {
            Ok(c) => c,
            Err(e) => {
                return Err(e);
            },
        };
        let ghost orig = sources@;
        let mut remaining = sources;
        let mut files: Vec<DecodedFile> = Vec::new();
        let ghost mut done: int = 0;
        while remaining.len() > 0
            invariant
                orig == sources@,
                orig.len() > 0,
                spec_codec_known(codec),
                chosen == Codec::Null <==> codec is None,
                chosen == Codec::Deflate <==> codec is Some,
                0 <= done <= orig.len(),
                remaining@ == orig.skip(done),
                files@.len() == done,
                forall|i: int| 0 <= i < done ==> #[trigger] files@[i].path == orig[i].0,
                forall|j: int| 0 <= j < done ==> spec_source_loads(codec, #[trigger] orig[j].1@),
                forall|i: int|
                    0 <= i < orig.len() ==> spec_source_safe(codec, #[trigger] orig[i].1@),
            decreases remaining@.len(),
        {
            let (path, bytes) = remaining.remove(0);
            proof {
                assert(orig.skip(done)[0] == orig[done]);
                assert(orig.skip(done).remove(0) =~= orig.skip(done + 1));
                assert(0 <= done < sources@.len() && path == sources@[done].0);
                assert(bytes@ == sources@[done].1@);
            }
            proof {
                assert(spec_source_safe(codec, sources@[done].1@));
            }
            let data = match chosen {
                Codec::Null => bytes,
                Codec::Deflate => match deflate_decompress(bytes) {
                    Ok(d) => d,
                    Err(_) => {
                        proof {
                            assert(!spec_source_loads(codec, sources@[done].1@));
                        }
                        return Err(RavroError::Decode(path));
                    },
                },
            };
            let entries = match read_entries(&data) {
                Ok(entries) => entries,
                Err(_) => {
                    proof {
                        assert(!spec_source_loads(codec, sources@[done].1@));
                    }
                    return Err(RavroError::Decode(path));
                },
            };
            proof {
                assert(spec_source_loads(codec, sources@[done].1@));
            }
            files.push(DecodedFile { path, entries });
            proof {
                done = done + 1;
            }
        }
        Ok(CliService { files })
    }

    /// The default column order: the field names of the first record of the
    /// first file, in that record's own order.
    pub fn get_all_field_names(&self) -> (r: Result<Vec<String>, RavroError>)
        requires
            self.wf(),
        ensures
            ({
                let entries = self.files@[0].entries@;
                if entries.len() == 0 {
                    r == Err::<Vec<String>, RavroError>(RavroError::EmptyDataset)
                } else {
                    match entries[0] {
                        DecodedEntry::Corrupt => r == Err::<Vec<String>, RavroError>(
                            RavroError::RecordDecode(self.files@[0].path, 0),
                        ),
                        DecodedEntry::Value(v) => match v {
                            FieldValue::Record(fields) => r matches Ok(names) && names@
                                == field_names_of(fields@),
                            _ => r == Err::<Vec<String>, RavroError>(RavroError::SchemaShape),
                        },
                    }
                }
            }),
    {
        discover_field_names(&self.files)
    }

    /// All requested columns and values: the projection of every record in
    /// every file, in file order then record order, truncated to at most
    /// `take` scanned records.
    pub fn get_fields(&self, fields_to_get: &Vec<String>, take: Option<u32>) -> (r: Result<
        Vec<Vec<AvroColumnarValue>>,
        RavroError,
    >)
        ensures
            match spec_project(self.files@, fields_to_get@, take) {
                Ok(views) => r matches Ok(rows) && rows_view(rows@) == views,
                Err(e) => r == Err::<Vec<Vec<AvroColumnarValue>>, RavroError>(e),
            },
    {
        project(&self.files, fields_to_get, take)
    }
}

/// The display texts of one projected row's observable content.
pub open spec fn data_texts(rd: RowData) -> Seq<Seq<char>> {
    rd.map_values(|c: CellData| c.2)
}

/// The dataset as a union of all loaded files, serving already-rendered
/// rows.
pub struct Avro {
    pub files: Vec<DecodedFile>,
}

impl Avro {
    /// A well-formed dataset holds at least one file.
    pub open spec fn wf(self) -> bool {
        self.files@.len() > 0
    }

    /// Loads a dataset from the resolved input files, exactly as
    /// `CliService::from` does: fail-fast empty-set and unknown-codec
    /// checks, success exactly when every file's bytes survive the chosen
    /// codec and the envelope parse, failure naming the first file whose
    /// bytes do not, file order kept.
    pub fn from(sources: Vec<(String, Vec<u8>)>, codec: Option<String>) -> (r: Result<
        Avro,
        RavroError,
    >)
        requires
            spec_codec_known(codec) ==> forall|i: int|
                0 <= i < sources@.len() ==> spec_source_safe(codec, #[trigger] sources@[i].1@),
        ensures
            sources@.len() == 0 <==> r == Err::<Avro, RavroError>(RavroError::NoInputFiles),
            sources@.len() > 0 ==> match codec {
                Option::Some(c) => c@ != "deflate"@ ==> r == Err::<Avro, RavroError>(
                    RavroError::UnknownCodec(c),
                ),
                Option::None => true,
            },
            (sources@.len() > 0 && spec_codec_known(codec)) ==> {
                &&& (r is Ok <==> (forall|i: int|
                    0 <= i < sources@.len() ==> spec_source_loads(
                        codec,
                        #[trigger] sources@[i].1@,
                    )))
                &&& (r matches Err(e) ==> exists|i: int|
                    #![trigger sources@[i].0]
                    0 <= i < sources@.len() && e == RavroError::Decode(sources@[i].0)
                        && !spec_source_loads(codec, sources@[i].1@) && (forall|j: int|
                        0 <= j < i ==> spec_source_loads(codec, #[trigger] sources@[j].1@)))
            },
            r matches Ok(s) ==> s.wf() && s.files@.len() == sources@.len() && forall|i: int|
                0 <= i < sources@.len() ==> #[trigger] s.files@[i].path == sources@[i].0,
    {
        match CliService::from(sources, codec) {
            Ok(s) => Ok(Avro { files: s.files }),
            Err(e) => Err(e),
        }
    }

    /// The default column order: the field names of the first record of the
    /// first file, in that record's own order.
    pub fn get_all_field_names(&self) -> (r: Result<Vec<String>, RavroError>)
        requires
            self.wf(),
        ensures
            ({
                let entries = self.files@[0].entries@;
                if entries.len() == 0 {
                    r == Err::<Vec<String>, RavroError>(RavroError::EmptyDataset)
                } else {
                    match entries[0] {
                        DecodedEntry::Corrupt => r == Err::<Vec<String>, RavroError>(
                            RavroError::RecordDecode(self.files@[0].path, 0),
                        ),
                        DecodedEntry::Value(v) => match v {
                            FieldValue::Record(fields) => r matches Ok(names) && names@
                                == field_names_of(fields@),
                            _ => r == Err::<Vec<String>, RavroError>(RavroError::SchemaShape),
                        },
                    }
                }
            }),
    {
        discover_field_names(&self.files)
    }

    /// Every requested column of every record, already rendered to display
    /// strings: one row per record, in file order then record order, one
    /// text per requested name in the requested order.
    pub fn get_fields(&self, fields_to_get: &Vec<String>) -> (r: Result<
        Vec<Vec<String>>,
        RavroError,
    >)
        ensures
            match spec_project(self.files@, fields_to_get@, Option::None) {
                Ok(views) => r matches Ok(rows) && rows@.len() == views.len() && forall|i: int|
                    0 <= i < views.len() ==> (#[trigger] rows@[i])@.map_values(|s: String| s@)
                        == data_texts(views[i]),
                Err(e) => r == Err::<Vec<Vec<String>>, RavroError>(e),
            },
    {
        let cells = match project(&self.files, fields_to_get, Option::None) {
            Ok(cells) => cells,
            Err(e) => {
                return Err(e);
            },
        };
        let mut out: Vec<Vec<String>> = Vec::new();
        let mut i: usize = 0;
        while i < cells.len()
            invariant
                i <= cells@.len(),
                out@.len() == i,
                forall|ii: int|
                    0 <= ii < i ==> (#[trigger] out@[ii])@.map_values(|s: String| s@) == data_texts(
                        row_view(cells@[ii]@),
                    ),
            decreases cells@.len() - i,
        {
            let texts = crate::render::row_texts(&cells[i]);
            proof {
                assert(texts@.map_values(|s: String| s@) =~= data_texts(row_view(cells@[i as int]@)));
            }
            out.push(texts);
            i += 1;
        }
        proof {
            match spec_project(self.files@, fields_to_get@, Option::None) {
                Ok(views) => {
                    assert(views == rows_view(cells@));
                    assert(forall|ii: int|
                        0 <= ii < views.len() ==> #[trigger] views[ii] == row_view(cells@[ii]@));
                },
                Err(_) => {},
            }
        }
        Ok(out)
    }
}

/// Whether every entry of every file decoded.
pub open spec fn all_entries_decodable(files: Seq<DecodedFile>) -> bool {
    forall|fi: int, ei: int|
        0 <= fi < files.len() && 0 <= ei < files[fi].entries@.len() ==> !((
        #[trigger] files[fi].entries@[ei]) matches DecodedEntry::Corrupt)
}

/// The rows one file's entries yield, unbounded: one row per record entry,
/// in entry order, holding that record's projection; non-record entries
/// yield nothing. Meaningful where no entry is corrupt.
pub open spec fn record_rows(entries: Seq<DecodedEntry>, names: Seq<String>) -> Seq<RowData>
    decreases entries.len(),
{
    if entries.len() == 0 {
        Seq::empty()
    } else {
        match entries[0] {
            DecodedEntry::Value(v) => match v {
                FieldValue::Record(fields) => seq![spec_row_view(fields@, names)] + record_rows(
                    entries.drop_first(),
                    names,
                ),
                _ => record_rows(entries.drop_first(), names),
            },
            DecodedEntry::Corrupt => record_rows(entries.drop_first(), names),
        }
    }
}

/// The rows the whole dataset yields, file by file in order.
pub open spec fn dataset_rows(files: Seq<DecodedFile>, names: Seq<String>) -> Seq<RowData>
    decreases files.len(),
{
    if files.len() == 0 {
        Seq::empty()
    } else {
        record_rows(files[0].entries@, names) + dataset_rows(files.drop_first(), names)
    }
}

/// An unbounded scan of corruption-free entries yields exactly their record
/// rows and spends no budget.
proof fn lemma_scan_all_records(path: String, entries: Seq<DecodedEntry>, i: int, names: Seq<String>)
    requires
        0 <= i <= entries.len(),
        forall|ei: int|
            i <= ei < entries.len() ==> !((#[trigger] entries[ei]) matches DecodedEntry::Corrupt),
    ensures
        spec_scan_entries(path, entries, i, names, Option::None) == Ok::<
            (Seq<RowData>, Option<nat>),
            RavroError,
        >((record_rows(entries.skip(i), names), Option::None)),
    decreases entries.len() - i,
{
    if i == entries.len() {
        assert(entries.skip(i) =~= Seq::<DecodedEntry>::empty());
    } else {
        lemma_scan_all_records(path, entries, i + 1, names);
        assert(entries.skip(i)[0] == entries[i]);
        assert(entries.skip(i).drop_first() =~= entries.skip(i + 1));
        match entries[i] {
            DecodedEntry::Corrupt => {
                assert(false);
            },
            DecodedEntry::Value(v) => {},
        }
    }
}

/// An unbounded scan of a corruption-free dataset from file `fi` on yields
/// exactly the dataset rows of the remaining files.
proof fn lemma_rest_all_records(files: Seq<DecodedFile>, fi: int, names: Seq<String>)
    requires
        0 <= fi <= files.len(),
        all_entries_decodable(files),
    ensures
        spec_rest(files, fi, 0, names, Option::None) == Ok::<Seq<RowData>, RavroError>(
            dataset_rows(files.skip(fi), names),
        ),
    decreases files.len() - fi,
{
    if fi == files.len() {
        assert(files.skip(fi) =~= Seq::<DecodedFile>::empty());
    } else {
        assert(forall|ei: int|
            0 <= ei < files[fi].entries@.len() ==> !((#[trigger] files[fi].entries@[ei]) matches DecodedEntry::Corrupt));
        lemma_scan_all_records(files[fi].path, files[fi].entries@, 0, names);
        assert(files[fi].entries@.skip(0) =~= files[fi].entries@);
        lemma_rest_all_records(files, fi + 1, names);
        assert(files.skip(fi)[0] == files[fi]);
        assert(files.skip(fi).drop_first() =~= files.skip(fi + 1));
    }
}

/// On a dataset whose entries all decoded, the unbounded projection
/// succeeds and yields exactly one row per record entry, in file order then
/// entry order, each row the projection of its own record under the
/// requested names — so a missing name costs its row nothing but an absent
/// cell, and no record is ever skipped.
pub proof fn lemma_project_all_records(files: Seq<DecodedFile>, names: Seq<String>)
    requires
        all_entries_decodable(files),
    ensures
        spec_project(files, names, Option::None) == Ok::<Seq<RowData>, RavroError>(
            dataset_rows(files, names),
        ),
{
    lemma_rest_all_records(files, 0, names);
    assert(files.skip(0) =~= files);
}

/// The limit truncates the scanned record stream itself: wherever the
/// unbounded scan from a position yields a row sequence, the scan bounded by
/// `t` yields exactly that sequence's first `t` rows.
proof fn lemma_rest_prefix(
    files: Seq<DecodedFile>,
    fi: int,
    ei: int,
    names: Seq<String>,
    t: nat,
    all: Seq<RowData>,
)
    requires
        0 <= ei,
        spec_rest(files, fi, ei, names, Option::None) == Ok::<Seq<RowData>, RavroError>(all),
    ensures
        spec_rest(files, fi, ei, names, Option::Some(t)) == Ok::<Seq<RowData>, RavroError>(
            all.take(if t <= all.len() { t as int } else { all.len() as int }),
        ),
    decreases files.len() - fi, files[fi].entries@.len() - ei, t,
{
    let bound: int = if t <= all.len() { t as int } else { all.len() as int };
    if fi < 0 || fi >= files.len() {
        assert(all =~= Seq::<RowData>::empty());
        assert(all.take(bound) =~= all);
    } else if t == 0 {
        lemma_rest_spent(files, fi, ei, names);
        assert(all.take(0) =~= Seq::<RowData>::empty());
    } else if ei >= files[fi].entries@.len() {
        lemma_rest_file_end(files, fi, ei, names, Option::None);
        lemma_rest_file_end(files, fi, ei, names, Option::Some(t));
        lemma_rest_prefix(files, fi + 1, 0, names, t, all);
    } else {
        match files[fi].entries@[ei] {
            DecodedEntry::Corrupt => {
                lemma_rest_corrupt(files, fi, ei, names, Option::None);
                assert(false);
            },
            DecodedEntry::Value(v) => match v {
                FieldValue::Record(fields) => {
                    lemma_rest_record(files, fi, ei, names, Option::None, fields);
                    let rv = spec_row_view(fields@, names);
                    match spec_rest(files, fi, ei + 1, names, Option::None) {
                        Ok(rest_all) => {
                            assert(all == seq![rv] + rest_all);
                            lemma_rest_record(files, fi, ei, names, Option::Some(t), fields);
                            lemma_rest_prefix(files, fi, ei + 1, names, (t - 1) as nat, rest_all);
                            let inner: int = if t - 1 <= rest_all.len() {
                                t - 1
                            } else {
                                rest_all.len() as int
                            };
                            assert(dec_budget(Option::Some(t)) == Option::Some((t - 1) as nat));
                            assert((seq![rv] + rest_all).take(bound) =~= seq![rv] + rest_all.take(
                                inner,
                            ));
                        },
                        Err(_) => {
                            assert(false);
                        },
                    }
                },
                _ => {
                    lemma_rest_skip(files, fi, ei, names, Option::None, v);
                    lemma_rest_skip(files, fi, ei, names, Option::Some(t), v);
                    lemma_rest_prefix(files, fi, ei + 1, names, t, all);
                },
            },
        }
    }
}

/// What every projected row looks like: one cell per requested name, under
/// that name, in the requested order.
pub open spec fn row_shape_ok(rd: RowData, names: Seq<String>) -> bool {
    &&& rd.len() == names.len()
    &&& forall|j: int| 0 <= j < names.len() ==> (#[trigger] rd[j]).0 == names[j]@
}

/// Every row an entry scan yields has the requested shape.
proof fn lemma_scan_rows_shape(
    path: String,
    entries: Seq<DecodedEntry>,
    i: int,
    names: Seq<String>,
    left: Option<nat>,
)
    ensures
        spec_scan_entries(path, entries, i, names, left) matches Ok(pair) ==> forall|k: int|
            0 <= k < pair.0.len() ==> row_shape_ok(#[trigger] pair.0[k], names),
    decreases entries.len() - i,
{
    if i < 0 || i >= entries.len() || budget_spent(left) {
    } else {
        match entries[i] {
            DecodedEntry::Corrupt => {},
            DecodedEntry::Value(v) => match v {
                FieldValue::Record(fields) => {
                    lemma_scan_rows_shape(path, entries, i + 1, names, dec_budget(left));
                    assert(row_shape_ok(spec_row_view(fields@, names), names));
                },
                _ => {
                    lemma_scan_rows_shape(path, entries, i + 1, names, left);
                },
            },
        }
    }
}

/// Every row the whole scan yields has the requested shape.
proof fn lemma_rest_rows_shape(
    files: Seq<DecodedFile>,
    fi: int,
    ei: int,
    names: Seq<String>,
    left: Option<nat>,
)
    ensures
        spec_rest(files, fi, ei, names, left) matches Ok(rows) ==> forall|k: int|
            0 <= k < rows.len() ==> row_shape_ok(#[trigger] rows[k], names),
    decreases files.len() - fi,
{
    if fi < 0 || fi >= files.len() {
    } else {
        lemma_scan_rows_shape(files[fi].path, files[fi].entries@, ei, names, left);
        match spec_scan_entries(files[fi].path, files[fi].entries@, ei, names, left) {
            Err(_) => {},
            Ok(pair) => {
                lemma_rest_rows_shape(files, fi + 1, 0, names, pair.1);
            },
        }
    }
}

/// Every produced row has length equal to the requested field list's
/// length, its cells in exactly the requested order and under the requested
/// names, whatever the records held.
pub proof fn lemma_project_row_shape(files: Seq<DecodedFile>, names: Seq<String>, take: Option<u32>)
    ensures
        spec_project(files, names, take) matches Ok(rows) ==> forall|k: int|
            0 <= k < rows.len() ==> row_shape_ok(#[trigger] rows[k], names),
{
    lemma_rest_rows_shape(files, 0, 0, names, spec_take(take));
}

/// A field name absent from a record yields the absent marker for that cell
/// — and only then: the lookup is the absent marker exactly when no field
/// of the record bears the name. The record is never skipped and the run
/// never fails on that account: its row still holds a cell for the name,
/// displaying `"N/A"`.
pub proof fn lemma_absent_name_yields_na(fields: Seq<(String, FieldValue)>, name: Seq<char>)
    ensures
        (spec_lookup(fields, name) matches AvroValue::Na) <==> (forall|i: int|
            0 <= i < fields.len() ==> (#[trigger] fields[i].0)@ != name),
        forall|names: Seq<String>, j: int|
            0 <= j < names.len() && names[j]@ == name ==> (#[trigger] spec_row_view(fields, names)[j])
                == (name, cell_model(spec_lookup(fields, name)), spec_lookup(fields, name).spec_text()),
    decreases fields.len(),
{
    if fields.len() == 0 {
    } else if fields[0].0@ == name {
    } else {
        let rest = fields.drop_first();
        lemma_absent_name_yields_na(rest, name);
        assert(forall|i: int| 0 <= i < rest.len() ==> #[trigger] rest[i] == fields[i + 1]);
        if (spec_lookup(fields, name) matches AvroValue::Na) {
            assert forall|i: int| 0 <= i < fields.len() implies (#[trigger] fields[i].0)@
                != name by {
                if i > 0 {
                    assert(rest[i - 1] == fields[i]);
                    assert((rest[i - 1].0)@ != name);
                }
            }
        }
        if (forall|i: int| 0 <= i < fields.len() ==> (#[trigger] fields[i].0)@ != name) {
            assert forall|i: int| 0 <= i < rest.len() implies (#[trigger] rest[i].0)@ != name by {
                assert(rest[i] == fields[i + 1]);
                assert((fields[i + 1].0)@ != name);
            }
            assert(spec_lookup(rest, name) matches AvroValue::Na);
        }
    }
}

/// Row-limit truncation happens on the scanned record stream, before any
/// filtering: whenever the unbounded projection yields a row sequence, the
/// projection capped at `t` yields exactly the first `t` of those rows — the
/// cap bounds how many records are examined, not how many rows a later
/// filter keeps.
pub proof fn lemma_project_limit_prefix(
    files: Seq<DecodedFile>,
    names: Seq<String>,
    t: u32,
    all: Seq<RowData>,
)
    requires
        spec_project(files, names, Option::None) == Ok::<Seq<RowData>, RavroError>(all),
    ensures
        spec_project(files, names, Option::Some(t)) == Ok::<Seq<RowData>, RavroError>(
            all.take(if t as nat <= all.len() { t as int } else { all.len() as int }),
        ),
{
    lemma_rest_prefix(files, 0, 0, names, t as nat, all);
}

} // verus!
