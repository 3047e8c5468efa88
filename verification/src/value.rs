//! The tagged-union value model and its canonical string rendering.
use vstd::prelude::*;
use vstd::string::StringExecFns;

verus! {

/// One decoded field value. `Float` and `Double` hold the canonical decimal
/// text of the number, fixed once at decode time, since the rendering rule
/// only ever reads that text. `Fixed` keeps the declared width alongside the
/// bytes. `Union` always wraps exactly one inner value.
pub enum FieldValue {
    Null,
    Boolean(bool),
    Int(i32),
    Long(i64),
    Float(String),
    Double(String),
    Bytes(Vec<u8>),
    Str(String),
    Fixed(usize, Vec<u8>),
    Enum(i32, String),
    Union(Box<FieldValue>),
    Array(Vec<FieldValue>),
    Mapping(Vec<(String, FieldValue)>),
    Record(Vec<(String, FieldValue)>),
}

/// The decimal digit character for `n`.
pub open spec fn digit_char(n: nat) -> char {
    if n == 0 { '0' }
    else if n == 1 { '1' }
    else if n == 2 { '2' }
    else if n == 3 { '3' }
    else if n == 4 { '4' }
    else if n == 5 { '5' }
    else if n == 6 { '6' }
    else if n == 7 { '7' }
    else if n == 8 { '8' }
    else { '9' }
}

/// Decimal text of a non-negative integer, most significant digit first.
pub open spec fn dec_digits(n: nat) -> Seq<char>
    decreases n,
{
    if n < 10 { seq![digit_char(n)] } else { dec_digits(n / 10).push(digit_char(n % 10)) }
}

/// Canonical decimal text of an integer: a minus sign for negative values,
/// then the digits, no padding and no separators.
pub open spec fn int_text(i: int) -> Seq<char> {
    if i < 0 { seq!['-'] + dec_digits((-i) as nat) } else { dec_digits(i as nat) }
}

/// The separator placed between rendered list elements and map entries.
pub open spec fn list_sep() -> Seq<char> {
    seq![',', ' ']
}

/// The separator placed between a key and its rendered value.
pub open spec fn key_sep() -> Seq<char> {
    seq![':', ' ']
}

/// Decimal rendering of a byte sequence: each byte as a decimal integer,
/// joined by `", "`.
pub open spec fn byte_list_text(b: Seq<u8>) -> Seq<char>
    decreases b.len(),
{
    if b.len() == 0 { Seq::empty() }
    else if b.len() == 1 { dec_digits(b[0] as nat) }
    else { dec_digits(b[0] as nat) + list_sep() + byte_list_text(b.drop_first()) }
}

/// The canonical rendering of a value, exactly as the display rule states it:
/// scalars in decimal, strings unmodified, bytes as decimal integers joined
/// by `", "`, enums as `"<id> (<symbol>)"`, arrays joined by `", "`, maps and
/// records as `"<key>: <value>"` entries joined by `", "`, and a union
/// unwrapped one level.
pub open spec fn render_value(v: FieldValue) -> Seq<char>
    decreases v,
{
    match v {
        FieldValue::Null => seq!['n', 'u', 'l', 'l'],
        FieldValue::Boolean(b) => if b { seq!['t', 'r', 'u', 'e'] } else {
            seq!['f', 'a', 'l', 's', 'e']
        },
        FieldValue::Int(i) => int_text(i as int),
        FieldValue::Long(l) => int_text(l as int),
        FieldValue::Float(s) => s@,
        FieldValue::Double(s) => s@,
        FieldValue::Bytes(b) => byte_list_text(b@),
        FieldValue::Str(s) => s@,
        FieldValue::Fixed(_, b) => byte_list_text(b@),
        FieldValue::Enum(i, s) => int_text(i as int) + seq![' ', '('] + s@ + seq![')'],
        FieldValue::Union(u) => render_value(*u),
        FieldValue::Array(a) => render_list(a@),
        FieldValue::Mapping(m) => render_entries(m@),
        FieldValue::Record(r) => render_entries(r@),
    }
}

/// The renderings of the elements of `s`, joined by `", "`.
pub open spec fn render_list(s: Seq<FieldValue>) -> Seq<char>
    decreases s,
{
    if s.len() == 0 { Seq::empty() }
    else if s.len() == 1 { render_value(s[0]) }
    else { render_value(s[0]) + list_sep() + render_list(s.drop_first()) }
}

/// The `"<key>: <value>"` renderings of the entries of `s`, joined by `", "`.
pub open spec fn render_entries(s: Seq<(String, FieldValue)>) -> Seq<char>
    decreases s,
{
    if s.len() == 0 { Seq::empty() }
    else if s.len() == 1 { s[0].0@ + key_sep() + render_value(s[0].1) }
    else {
        s[0].0@ + key_sep() + render_value(s[0].1) + list_sep() + render_entries(s.drop_first())
    }
}

/// The mathematical model of a `FieldValue`: the same tree with every
/// executable container replaced by its view, so that two values with equal
/// models hold the same data.
pub enum ValueModel {
    Null,
    Boolean(bool),
    Int(int),
    Long(int),
    Float(Seq<char>),
    Double(Seq<char>),
    Bytes(Seq<u8>),
    Str(Seq<char>),
    Fixed(nat, Seq<u8>),
    Enum(int, Seq<char>),
    Union(Box<ValueModel>),
    Array(Seq<ValueModel>),
    Mapping(Seq<(Seq<char>, ValueModel)>),
    Record(Seq<(Seq<char>, ValueModel)>),
}

/// The model of a value.
pub open spec fn val_model(v: FieldValue) -> ValueModel
    decreases v,
{
    match v {
        FieldValue::Null => ValueModel::Null,
        FieldValue::Boolean(b) => ValueModel::Boolean(b),
        FieldValue::Int(i) => ValueModel::Int(i as int),
        FieldValue::Long(l) => ValueModel::Long(l as int),
        FieldValue::Float(s) => ValueModel::Float(s@),
        FieldValue::Double(s) => ValueModel::Double(s@),
        FieldValue::Bytes(b) => ValueModel::Bytes(b@),
        FieldValue::Str(s) => ValueModel::Str(s@),
        FieldValue::Fixed(w, b) => ValueModel::Fixed(w as nat, b@),
        FieldValue::Enum(i, s) => ValueModel::Enum(i as int, s@),
        FieldValue::Union(u) => ValueModel::Union(Box::new(val_model(*u))),
        FieldValue::Array(a) => ValueModel::Array(model_list(a@)),
        FieldValue::Mapping(m) => ValueModel::Mapping(model_entries(m@)),
        FieldValue::Record(r) => ValueModel::Record(model_entries(r@)),
    }
}

/// The models of the elements of `s`, in order.
pub open spec fn model_list(s: Seq<FieldValue>) -> Seq<ValueModel>
    decreases s,
{
    if s.len() == 0 { Seq::empty() } else {
        seq![val_model(s[0])] + model_list(s.drop_first())
    }
}

/// The models of the entries of `s`: each key's view paired with its value's
/// model, in order.
pub open spec fn model_entries(s: Seq<(String, FieldValue)>) -> Seq<(Seq<char>, ValueModel)>
    decreases s,
{
    if s.len() == 0 { Seq::empty() } else {
        seq![(s[0].0@, val_model(s[0].1))] + model_entries(s.drop_first())
    }
}

/// A cell's value: either a decoded field value, or the explicit marker for
/// "this record has no field of the requested name".
pub enum AvroValue {
    Value(FieldValue),
    Na,
}

impl AvroValue {
    /// The canonical display text: the value's rendering, or `"N/A"` for an
    /// absent field.
    pub open spec fn spec_text(self) -> Seq<char> {
        match self {
            AvroValue::Value(v) => render_value(v),
            AvroValue::Na => seq!['N', '/', 'A'],
        }
    }

    /// Wraps a present value.
    pub fn from(value: FieldValue) -> (r: Self)
        ensures
            r == AvroValue::Value(value),
    {
        AvroValue::Value(value)
    }

    /// The absent-field marker.
    pub fn na() -> (r: Self)
        ensures
            r == AvroValue::Na,
    {
        AvroValue::Na
    }

    /// Renders the cell text: the value's canonical rendering, or `"N/A"`.
    pub fn to_string(&self) -> (s: String)
        ensures
            s@ == self.spec_text(),
    {
        match self {
            AvroValue::Value(v) => render_field(v),
            AvroValue::Na => {
                let s = "N/A".to_owned();
                proof {
                    reveal_strlit("N/A");
                    assert(s@ =~= self.spec_text());
                }
                s
            },
        }
    }
}

/// The two fixed display texts: an absent cell always renders as `"N/A"` and
/// a null value always renders as `"null"`, at the top level and, through the
/// recursive rendering rule, in every nested position.
pub proof fn lemma_absent_and_null_text()
    ensures
        AvroValue::Na.spec_text() == seq!['N', '/', 'A'],
        render_value(FieldValue::Null) == seq!['n', 'u', 'l', 'l'],
        forall|v: FieldValue| #[trigger] AvroValue::Value(v).spec_text() == render_value(v),
{
}

/// How appending one element changes a rendered list: the first element
/// stands alone, every later one arrives behind a `", "` separator.
pub proof fn lemma_render_list_push(s: Seq<FieldValue>, x: FieldValue)
    ensures
        render_list(s.push(x)) == if s.len() == 0 { render_value(x) } else {
            render_list(s) + list_sep() + render_value(x)
        },
    decreases s.len(),
{
    if s.len() == 0 {
        assert(s.push(x)[0] == x);
    } else if s.len() == 1 {
        assert(s.push(x)[0] == s[0]);
        assert(s.push(x).drop_first() =~= seq![x]);
        assert(seq![x][0] == x);
        assert(render_list(seq![x]) == render_value(x));
        assert(render_list(s.push(x)) == render_value(s[0]) + list_sep() + render_value(x));
    } else {
        assert(s.push(x).drop_first() =~= s.drop_first().push(x));
        lemma_render_list_push(s.drop_first(), x);
        assert(render_list(s.push(x)) =~= render_list(s) + list_sep() + render_value(x));
    }
}

/// The same separator rule for map and record entries.
pub proof fn lemma_render_entries_push(s: Seq<(String, FieldValue)>, x: (String, FieldValue))
    ensures
        render_entries(s.push(x)) == if s.len() == 0 { x.0@ + key_sep() + render_value(x.1) } else {
            render_entries(s) + list_sep() + (x.0@ + key_sep() + render_value(x.1))
        },
    decreases s.len(),
{
    if s.len() == 0 {
        assert(s.push(x)[0] == x);
    } else if s.len() == 1 {
        assert(s.push(x)[0] == s[0]);
        assert(s.push(x).drop_first() =~= seq![x]);
        assert(seq![x][0] == x);
        assert(render_entries(seq![x]) == x.0@ + key_sep() + render_value(x.1));
        assert(render_entries(s.push(x)) =~= render_entries(s) + list_sep() + (x.0@ + key_sep()
            + render_value(x.1)));
    } else {
        assert(s.push(x).drop_first() =~= s.drop_first().push(x));
        lemma_render_entries_push(s.drop_first(), x);
        assert(render_entries(s.push(x)) =~= render_entries(s) + list_sep() + (x.0@ + key_sep()
            + render_value(x.1)));
    }
}

/// The decimal digit character for `d`, as a string slice.
fn digit_str(d: u64) -> (s: &'static str)
    requires
        d < 10,
    ensures
        s@ == seq![digit_char(d as nat)],
{
    proof {
        reveal_strlit("0");
        reveal_strlit("1");
        reveal_strlit("2");
        reveal_strlit("3");
        reveal_strlit("4");
        reveal_strlit("5");
        reveal_strlit("6");
        reveal_strlit("7");
        reveal_strlit("8");
        reveal_strlit("9");
    }
    let s = if d == 0 { "0" } else if d == 1 { "1" } else if d == 2 { "2" } else if d == 3 {
        "3"
    } else if d == 4 { "4" } else if d == 5 { "5" } else if d == 6 { "6" } else if d == 7 {
        "7"
    } else if d == 8 { "8" } else { "9" };
    proof {
        assert(s@ =~= seq![digit_char(d as nat)]);
    }
    s
}

/// Decimal text of `n`, proved equal to `dec_digits`.
fn u64_text(n: u64) -> (s: String)
    ensures
        s@ == dec_digits(n as nat),
    decreases n,
{
    if n < 10 {
        digit_str(n).to_owned()
    } else {
        let mut s = u64_text(n / 10);
        s.append(digit_str(n % 10));
        proof {
            assert(s@ =~= dec_digits(n as nat));
        }
        s
    }
}

/// Decimal text of an index, for error messages.
pub fn index_text(i: usize) -> (s: String)
    ensures
        s@ == dec_digits(i as nat),
{
    u64_text(i as u64)
}

/// Canonical decimal text of `i`, sign included, proved equal to `int_text`.
fn i64_text(i: i64) -> (s: String)
    ensures
        s@ == int_text(i as int),
{
    if i >= 0 {
        u64_text(i as u64)
    } else {
        let mag: u64 = ((-(i + 1)) as u64) + 1;
        proof {
            assert(mag as int == -(i as int));
        }
        let mut s = "-".to_owned();
        let digits = u64_text(mag);
        s.append(digits.as_str());
        proof {
            reveal_strlit("-");
            assert(s@ =~= int_text(i as int));
        }
        s
    }
}

/// Decimal rendering of the bytes of `b` from position `from` on, joined by
/// `", "`, proved equal to `byte_list_text` of that suffix.
fn byte_list_from(b: &Vec<u8>, from: usize) -> (s: String)
    requires
        from <= b@.len(),
    ensures
        s@ == byte_list_text(b@.subrange(from as int, b@.len() as int)),
    decreases b@.len() - from,
{
    let ghost suffix = b@.subrange(from as int, b@.len() as int);
    if from == b.len() {
        String::new()
    } else if from + 1 == b.len() {
        let s = u64_text(b[from] as u64);
        proof {
            assert(suffix.len() == 1 && suffix[0] == b@[from as int]);
        }
        s
    } else {
        let mut s = u64_text(b[from] as u64);
        s.append(", ");
        let rest = byte_list_from(b, from + 1);
        s.append(rest.as_str());
        proof {
            reveal_strlit(", ");
            assert(suffix[0] == b@[from as int]);
            assert(suffix.drop_first() =~= b@.subrange(from as int + 1, b@.len() as int));
            assert(s@ =~= byte_list_text(suffix));
        }
        s
    }
}

/// Renders one value to its canonical display string: the executable form of
/// `render_value`, proved to produce exactly that sequence of characters.
pub fn render_field(v: &FieldValue) -> (s: String)
    ensures
        s@ == render_value(*v),
    decreases *v,
{
    match v {
        FieldValue::Null => {
            let s = "null".to_owned();
            proof {
                reveal_strlit("null");
                assert(s@ =~= render_value(*v));
            }
            s
        },
        FieldValue::Boolean(b) => {
            let s = if *b { "true".to_owned() } else { "false".to_owned() };
            proof {
                reveal_strlit("true");
                reveal_strlit("false");
                assert(s@ =~= render_value(*v));
            }
            s
        },
        FieldValue::Int(i) => i64_text(*i as i64),
        FieldValue::Long(l) => i64_text(*l),
        FieldValue::Float(t) => t.clone(),
        FieldValue::Double(t) => t.clone(),
        FieldValue::Bytes(b) => {
            let s = byte_list_from(b, 0);
            proof {
                assert(b@.subrange(0, b@.len() as int) =~= b@);
            }
            s
        },
        FieldValue::Str(t) => t.clone(),
        FieldValue::Fixed(_, b) => {
            let s = byte_list_from(b, 0);
            proof {
                assert(b@.subrange(0, b@.len() as int) =~= b@);
            }
            s
        },
        FieldValue::Enum(i, t) => {
            let mut s = i64_text(*i as i64);
            s.append(" (");
            s.append(t.as_str());
            s.append(")");
            proof {
                reveal_strlit(" (");
                reveal_strlit(")");
                assert(s@ =~= render_value(*v));
            }
            s
        },
        FieldValue::Union(u) => render_field(&**u),
        FieldValue::Array(a) => render_value_vec(a),
        FieldValue::Mapping(m) => render_entry_vec(m),
        FieldValue::Record(r) => render_entry_vec(r),
    }
}

/// Renders the elements of `a` joined by `", "`: the array arm of
/// `render_field`.
fn render_value_vec(a: &Vec<FieldValue>) -> (s: String)
    ensures
        s@ == render_list(a@),
    decreases *a,
{
    let mut out = String::new();
    let mut idx: usize = 0;
    while idx < a.len()
        invariant
            idx <= a@.len(),
            out@ == render_list(a@.subrange(0, idx as int)),
        decreases a@.len() - idx,
    {
        if idx > 0 {
            out.append(", ");
        }
        let piece = render_field(&a[idx]);
        out.append(piece.as_str());
        proof {
            reveal_strlit(", ");
            assert(a@.subrange(0, idx as int + 1) =~= a@.subrange(0, idx as int).push(
                a@[idx as int]));
            lemma_render_list_push(a@.subrange(0, idx as int), a@[idx as int]);
        }
        idx += 1;
    }
    proof {
        assert(a@.subrange(0, a@.len() as int) =~= a@);
    }
    out
}

/// Renders `"<key>: <value>"` entries joined by `", "`; shared by the map and
/// record arms of `render_field`.
fn render_entry_vec(m: &Vec<(String, FieldValue)>) -> (s: String)
    ensures
        s@ == render_entries(m@),
    decreases *m,
{
    let mut out = String::new();
    let mut idx: usize = 0;
    while idx < m.len()
        invariant
            idx <= m@.len(),
            out@ == render_entries(m@.subrange(0, idx as int)),
        decreases m@.len() - idx,
    {
        if idx > 0 {
            out.append(", ");
        }
        out.append(m[idx].0.as_str());
        out.append(": ");
        let piece = render_field(&m[idx].1);
        out.append(piece.as_str());
        proof {
            reveal_strlit(", ");
            reveal_strlit(": ");
            assert(m@.subrange(0, idx as int + 1) =~= m@.subrange(0, idx as int).push(
                m@[idx as int]));
            lemma_render_entries_push(m@.subrange(0, idx as int), m@[idx as int]);
        }
        idx += 1;
    }
    proof {
        assert(m@.subrange(0, m@.len() as int) =~= m@);
    }
    out
}

/// Appending one element appends its model.
pub proof fn lemma_model_list_push(s: Seq<FieldValue>, x: FieldValue)
    ensures
        model_list(s.push(x)) == model_list(s).push(val_model(x)),
    decreases s.len(),
{
    reveal_with_fuel(model_list, 3);
    if s.len() == 0 {
        assert(s.push(x)[0] == x);
        assert(s.push(x).drop_first() =~= Seq::<FieldValue>::empty());
        assert(model_list(s.push(x)) =~= model_list(s).push(val_model(x)));
    } else {
        assert(s.push(x)[0] == s[0]);
        assert(s.push(x).drop_first() =~= s.drop_first().push(x));
        lemma_model_list_push(s.drop_first(), x);
        assert(model_list(s.push(x)) =~= model_list(s).push(val_model(x)));
    }
}

/// Appending one entry appends its keyed model.
pub proof fn lemma_model_entries_push(s: Seq<(String, FieldValue)>, x: (String, FieldValue))
    ensures
        model_entries(s.push(x)) == model_entries(s).push((x.0@, val_model(x.1))),
    decreases s.len(),
{
    reveal_with_fuel(model_entries, 3);
    if s.len() == 0 {
        assert(s.push(x)[0] == x);
        assert(s.push(x).drop_first() =~= Seq::<(String, FieldValue)>::empty());
        assert(model_entries(s.push(x)) =~= model_entries(s).push((x.0@, val_model(x.1))));
    } else {
        reveal_with_fuel(model_entries, 2);
        assert(s.push(x)[0] == s[0]);
        assert(s.push(x).drop_first() =~= s.drop_first().push(x));
        lemma_model_entries_push(s.drop_first(), x);
        assert(model_entries(s.push(x)) =~= model_entries(s).push((x.0@, val_model(x.1))));
    }
}

/// The number of positions where the element separator `", "` occurs in
/// `s`. Splitting `s` on `", "` yields exactly this count plus one chunk,
/// since two occurrences can never overlap.
pub open spec fn sep_count(s: Seq<char>) -> nat
    decreases s.len(),
{
    if s.len() < 2 {
        0
    } else {
        (if s[0] == ',' && s[1] == ' ' {
            1nat
        } else {
            0nat
        }) + sep_count(s.drop_first())
    }
}

/// How the separator count distributes over concatenation: occurrences lie
/// in `a`, in `b`, or straddle the boundary.
pub proof fn lemma_sep_count_concat(a: Seq<char>, b: Seq<char>)
    ensures
        sep_count(a + b) == sep_count(a) + sep_count(b) + if a.len() > 0 && b.len() > 0 && a.last()
            == ',' && b[0] == ' ' {
            1nat
        } else {
            0nat
        },
    decreases a.len(),
{
    reveal_with_fuel(sep_count, 3);
    if a.len() == 0 {
        assert(a + b =~= b);
    } else if a.len() == 1 {
        if b.len() == 0 {
            assert(a + b =~= a);
        } else {
            assert((a + b)[0] == a[0] && (a + b)[1] == b[0]);
            assert((a + b).drop_first() =~= b);
        }
    } else {
        assert((a + b)[0] == a[0] && (a + b)[1] == a[1]);
        assert((a + b).drop_first() =~= a.drop_first() + b);
        lemma_sep_count_concat(a.drop_first(), b);
        assert(a.drop_first().last() == a.last());
    }
}

/// A rendered entry `"<key>: <value>"` holds no `", "` of its own when its
/// key text and its value's rendering hold none.
proof fn lemma_entry_sep_count(key: Seq<char>, val: Seq<char>)
    requires
        sep_count(key) == 0,
        sep_count(val) == 0,
    ensures
        sep_count(key + key_sep() + val) == 0,
{
    reveal_with_fuel(sep_count, 3);
    lemma_sep_count_concat(key + key_sep(), val);
    lemma_sep_count_concat(key, key_sep());
    assert(sep_count(key_sep()) == 0);
    assert((key + key_sep()).last() == ' ');
}

/// The round-trip law for maps and records: when no key text and no
/// rendered value holds the element separator `", "` itself, the rendering
/// of the entries holds exactly one separator occurrence between
/// neighbouring entries — so re-splitting the rendering on `", "` yields
/// exactly one chunk per entry, recovering the entry count.
pub proof fn lemma_entries_roundtrip_count(entries: Seq<(String, FieldValue)>)
    requires
        forall|i: int| 0 <= i < entries.len() ==> sep_count(#[trigger] entries[i].0@) == 0,
        forall|i: int|
            0 <= i < entries.len() ==> sep_count(render_value(#[trigger] entries[i].1)) == 0,
    ensures
        entries.len() == 0 ==> sep_count(render_entries(entries)) == 0,
        entries.len() > 0 ==> sep_count(render_entries(entries)) == entries.len() - 1,
    decreases entries.len(),
{
    reveal_with_fuel(sep_count, 3);
    if entries.len() == 0 {
    } else if entries.len() == 1 {
        lemma_entry_sep_count(entries[0].0@, render_value(entries[0].1));
    } else {
        let head = entries[0].0@ + key_sep() + render_value(entries[0].1);
        let rest = render_entries(entries.drop_first());
        assert(render_entries(entries) == head + list_sep() + rest);
        assert(forall|i: int|
            0 <= i < entries.drop_first().len() ==> #[trigger] entries.drop_first()[i]
                == entries[i + 1]);
        lemma_entries_roundtrip_count(entries.drop_first());
        lemma_entry_sep_count(entries[0].0@, render_value(entries[0].1));
        lemma_sep_count_concat(head + list_sep(), rest);
        lemma_sep_count_concat(head, list_sep());
        assert(sep_count(list_sep()) == 1);
        assert((head + list_sep()).last() == ' ');
        assert(sep_count(render_entries(entries)) == entries.len() - 1);
    }
}

/// The same law stated of a rendered map or record value.
pub proof fn lemma_value_roundtrip_count(entries: Vec<(String, FieldValue)>)
    requires
        forall|i: int| 0 <= i < entries@.len() ==> sep_count(#[trigger] entries@[i].0@) == 0,
        forall|i: int|
            0 <= i < entries@.len() ==> sep_count(render_value(#[trigger] entries@[i].1)) == 0,
        entries@.len() > 0,
    ensures
        sep_count(render_value(FieldValue::Mapping(entries))) == entries@.len() - 1,
        sep_count(render_value(FieldValue::Record(entries))) == entries@.len() - 1,
{
    lemma_entries_roundtrip_count(entries@);
}

/// Copies a byte vector.
fn clone_bytes(b: &Vec<u8>) -> (r: Vec<u8>)
    ensures
        r@ == b@,
{
    let mut out: Vec<u8> = Vec::new();
    let mut idx: usize = 0;
    while idx < b.len()
        invariant
            idx <= b@.len(),
            out@ == b@.subrange(0, idx as int),
        decreases b@.len() - idx,
    {
        out.push(b[idx]);
        proof {
            assert(b@.subrange(0, idx as int + 1) =~= b@.subrange(0, idx as int).push(
                b@[idx as int]));
        }
        idx += 1;
    }
    proof {
        assert(b@.subrange(0, b@.len() as int) =~= b@);
    }
    out
}

/// Copies one value. The copy has the same model — it holds the same data —
/// and therefore also the same canonical rendering.
pub fn clone_value(v: &FieldValue) -> (r: FieldValue)
    ensures
        val_model(r) == val_model(*v),
        render_value(r) == render_value(*v),
    decreases *v,
{
    match v {
        FieldValue::Null => FieldValue::Null,
        FieldValue::Boolean(b) => FieldValue::Boolean(*b),
        FieldValue::Int(i) => FieldValue::Int(*i),
        FieldValue::Long(l) => FieldValue::Long(*l),
        FieldValue::Float(s) => FieldValue::Float(s.clone()),
        FieldValue::Double(s) => FieldValue::Double(s.clone()),
        FieldValue::Bytes(b) => FieldValue::Bytes(clone_bytes(b)),
        FieldValue::Str(s) => FieldValue::Str(s.clone()),
        FieldValue::Fixed(w, b) => FieldValue::Fixed(*w, clone_bytes(b)),
        FieldValue::Enum(i, s) => FieldValue::Enum(*i, s.clone()),
        FieldValue::Union(u) => FieldValue::Union(Box::new(clone_value(&**u))),
        FieldValue::Array(a) => FieldValue::Array(clone_values(a)),
        FieldValue::Mapping(m) => FieldValue::Mapping(clone_entries(m)),
        FieldValue::Record(r) => FieldValue::Record(clone_entries(r)),
    }
}

/// Copies a vector of values, element by element.
fn clone_values(a: &Vec<FieldValue>) -> (r: Vec<FieldValue>)
    ensures
        model_list(r@) == model_list(a@),
        render_list(r@) == render_list(a@),
    decreases *a,
{
    let mut out: Vec<FieldValue> = Vec::new();
    let mut idx: usize = 0;
    while idx < a.len()
        invariant
            idx <= a@.len(),
            model_list(out@) == model_list(a@.subrange(0, idx as int)),
            render_list(out@) == render_list(a@.subrange(0, idx as int)),
            out@.len() == idx,
        decreases a@.len() - idx,
    {
        let ghost prev = out@;
        let piece = clone_value(&a[idx]);
        out.push(piece);
        proof {
            let ghost prefix = a@.subrange(0, idx as int);
            assert(a@.subrange(0, idx as int + 1) =~= prefix.push(a@[idx as int]));
            lemma_model_list_push(prev, piece);
            lemma_model_list_push(prefix, a@[idx as int]);
            lemma_render_list_push(prev, piece);
            lemma_render_list_push(prefix, a@[idx as int]);
        }
        idx += 1;
    }
    proof {
        assert(a@.subrange(0, a@.len() as int) =~= a@);
    }
    out
}

/// Copies a vector of named entries, entry by entry.
fn clone_entries(m: &Vec<(String, FieldValue)>) -> (r: Vec<(String, FieldValue)>)
    ensures
        model_entries(r@) == model_entries(m@),
        render_entries(r@) == render_entries(m@),
    decreases *m,
{
    let mut out: Vec<(String, FieldValue)> = Vec::new();
    let mut idx: usize = 0;
    while idx < m.len()
        invariant
            idx <= m@.len(),
            model_entries(out@) == model_entries(m@.subrange(0, idx as int)),
            render_entries(out@) == render_entries(m@.subrange(0, idx as int)),
            out@.len() == idx,
        decreases m@.len() - idx,
    {
        let ghost prev = out@;
        let name = m[idx].0.clone();
        let piece = clone_value(&m[idx].1);
        let ghost entry = (name, piece);
        out.push((name, piece));
        proof {
            let ghost prefix = m@.subrange(0, idx as int);
            assert(m@.subrange(0, idx as int + 1) =~= prefix.push(m@[idx as int]));
            lemma_model_entries_push(prev, entry);
            lemma_model_entries_push(prefix, m@[idx as int]);
            lemma_render_entries_push(prev, entry);
            lemma_render_entries_push(prefix, m@[idx as int]);
        }
        idx += 1;
    }
    proof {
        assert(m@.subrange(0, m@.len() as int) =~= m@);
    }
    out
}

} // verus!
