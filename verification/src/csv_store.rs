//! Row-oriented persistence of records: serializing a sequence of records to
//! delimited text with a header row, and reading such text back.

use vstd::prelude::*;
use crate::digits::{dec_digits, is_u32_text, parse_u32_text, text_num, u64_to_string};
use crate::split::{comma_split, lemma_sep_run_is, line_split, split_commas, split_lines, str_views, strip_cr};

verus! {

/// One persisted row: an identifier, a name, and a numeric value carried as
/// its decimal rendering.
#[derive(Debug, Clone, PartialEq, Eq)]
pub struct Record {
    pub id: u32,
    pub name: String,
    pub value: String,
}

pub ghost struct RecView {
    pub id: u32,
    pub name: Seq<char>,
    pub value: Seq<char>,
}

impl View for Record {
    type V = RecView;

    open spec fn view(&self) -> RecView {
        RecView { id: self.id, name: self.name@, value: self.value@ }
    }
}

pub open spec fn rec_views(v: Seq<Record>) -> Seq<RecView> {
    v.map_values(|r: Record| r@)
}

/// The header row, naming the fields in struct order.
pub open spec fn csv_header() -> Seq<char> {
    "id,name,value\n"@
}

/// The line of one record, without its terminator.
pub open spec fn record_line(r: RecView) -> Seq<char> {
    dec_digits(r.id as nat) + ","@ + r.name + ","@ + r.value
}

/// The full row of one record, terminator included.
pub open spec fn record_row(r: RecView) -> Seq<char> {
    record_line(r) + "\n"@
}

/// The rows of a sequence of records, in input order.
pub open spec fn record_rows(v: Seq<RecView>) -> Seq<char>
    decreases v.len(),
{
    if v.len() == 0 {
        Seq::empty()
    } else {
        record_rows(v.drop_last()) + record_row(v.last())
    }
}

/// Serializes records for appending to a store that already carries a
/// header: one row per record in input order, no header row.
pub fn append_csv_text(records: &Vec<Record>) -> (r: String)
    ensures
        r@ == record_rows(rec_views(records@)),
{
    let mut s = String::new();
    let mut i: usize = 0;
    proof {
        assert(rec_views(records@).take(0) =~= Seq::<RecView>::empty());
        assert(s@ =~= record_rows(rec_views(records@).take(0)));
    }
    while i < records.len()
        invariant
            0 <= i <= records@.len(),
            s@ == record_rows(rec_views(records@).take(i as int)),
        decreases records@.len() - i,
    {
        let num = u64_to_string(records[i].id as u64);
        s.append(num.as_str());
        s.append(",");
        s.append(records[i].name.as_str());
        s.append(",");
        s.append(records[i].value.as_str());
        s.append("\n");
        proof {
            let rv = rec_views(records@);
            assert(rv.take(i + 1).drop_last() =~= rv.take(i as int));
            assert(rv.take(i + 1).last() == rv[i as int]);
            assert(rv[i as int] == records@[i as int]@);
            assert(s@ =~= record_rows(rv.take(i + 1)));
        }
        i += 1;
    }
    proof {
        assert(rec_views(records@).take(records@.len() as int) =~= rec_views(records@));
    }
    s
}

/// Serializes records for a fresh store: the header row first, then one row
/// per record in input order.
pub fn write_csv_text(records: &Vec<Record>) -> (r: String)
    ensures
        r@ == csv_header() + record_rows(rec_views(records@)),
{
    let body = append_csv_text(records);
    String::from_str("id,name,value\n").concat(body.as_str())
}

/// What is wrong with one stored row.
#[derive(Debug, Clone, Copy, PartialEq, Eq, Structural)]
pub enum RowIssue {
    /// The row does not have exactly three fields.
    Malformed,
    /// The id field is not a decimal number within u32 range.
    BadId,
}

/// The failure of reading a store: the zero-based index of the first bad
/// data row, and what is wrong with it.
#[derive(Debug, Clone, Copy, PartialEq, Eq, Structural)]
pub struct CsvError {
    pub row: usize,
    pub issue: RowIssue,
}

/// The record one stored line denotes, or what is wrong with it.
pub open spec fn parse_row(l: Seq<char>) -> Result<RecView, RowIssue> {
    let fs = comma_split(l);
    if fs.len() != 3 {
        Err(RowIssue::Malformed)
    } else if !is_u32_text(fs[0]) {
        Err(RowIssue::BadId)
    } else {
        Ok(RecView { id: text_num(fs[0]) as u32, name: fs[1], value: fs[2] })
    }
}

/// The records of the data lines, or the index of the first bad line and its
/// issue.
pub open spec fn parse_rows(ls: Seq<Seq<char>>) -> Result<Seq<RecView>, (int, RowIssue)>
    decreases ls.len(),
{
    if ls.len() == 0 {
        Ok(Seq::empty())
    } else {
        match parse_row(ls[0]) {
            Err(k) => Err((0, k)),
            Ok(r) => match parse_rows(ls.drop_first()) {
                Err(p) => Err((p.0 + 1, p.1)),
                Ok(rs) => Ok(seq![r] + rs),
            },
        }
    }
}

/// The records a whole store text denotes: the first line is the header and
/// is not inspected, every further line one record; empty text holds no
/// records.
pub open spec fn parse_csv_spec(s: Seq<char>) -> Result<Seq<RecView>, (int, RowIssue)> {
    let ls = line_split(s);
    if ls.len() == 0 {
        Ok(Seq::empty())
    } else {
        parse_rows(ls.drop_first())
    }
}

fn parse_row_exec(l: &str) -> (r: Result<Record, RowIssue>)
    ensures
        match r {
            Ok(rec) => parse_row(l@) == Ok::<RecView, RowIssue>(rec@),
            Err(k) => parse_row(l@) == Err::<RecView, RowIssue>(k),
        },
{
    let fields = split_commas(l);
    proof {
        assert(str_views(fields@).len() == fields@.len());
    }
    if fields.len() != 3 {
        return Err(RowIssue::Malformed);
    }
    proof {
        assert(str_views(fields@)[0] == fields@[0]@);
        assert(str_views(fields@)[1] == fields@[1]@);
        assert(str_views(fields@)[2] == fields@[2]@);
    }
    match parse_u32_text(fields[0].as_str()) {
        None => Err(RowIssue::BadId),
        Some(id) => Ok(Record { id, name: fields[1].clone(), value: fields[2].clone() }),
    }
}

/// Reads a store text back into records; fails exactly on the first data row
/// that is not three fields with a numeric id, naming that row.
pub fn parse_csv_text(text: &str) -> (r: Result<Vec<Record>, CsvError>)
    ensures
        match r {
            Ok(v) => parse_csv_spec(text@) == Ok::<Seq<RecView>, (int, RowIssue)>(rec_views(v@)),
            Err(e) => parse_csv_spec(text@) == Err::<Seq<RecView>, (int, RowIssue)>(
                (e.row as int, e.issue),
            ),
        },
{
    let lines = split_lines(text);
    if lines.len() == 0 {
        let out: Vec<Record> = Vec::new();
        proof {
            assert(rec_views(out@) =~= Seq::<RecView>::empty());
        }
        return Ok(out);
    }
    let ghost body = line_split(text@).drop_first();
    let mut out: Vec<Record> = Vec::new();
    let mut i: usize = 1;
    proof {
        assert(body.skip(0) =~= body);
        assert(rec_views(out@) =~= Seq::<RecView>::empty());
    }
    while i < lines.len()
        invariant
            1 <= i <= lines@.len(),
            str_views(lines@) == line_split(text@),
            lines@.len() == line_split(text@).len(),
            body == line_split(text@).drop_first(),
            match parse_rows(body.skip(i - 1)) {
                Ok(rs) => parse_rows(body) == Ok::<Seq<RecView>, (int, RowIssue)>(
                    rec_views(out@) + rs,
                ),
                Err(p) => parse_rows(body) == Err::<Seq<RecView>, (int, RowIssue)>(
                    (p.0 + i - 1, p.1),
                ),
            },
        decreases lines@.len() - i,
    {
        let ghost suffix = body.skip(i - 1);
        proof {
            assert(suffix.len() > 0);
            assert(suffix[0] == body[i - 1]);
            assert(body[i - 1] == line_split(text@)[i as int]);
            assert(line_split(text@)[i as int] == str_views(lines@)[i as int]);
            assert(suffix[0] == lines@[i as int]@);
            assert(suffix.drop_first() =~= body.skip(i as int));
        }
        let ghost before = out@;
        match parse_row_exec(lines[i].as_str()) {
            Ok(rec) => {
                out.push(rec);
                proof {
                    assert(rec_views(out@) =~= rec_views(before) + seq![rec@]);
                    match parse_rows(body.skip(i as int)) {
                        Ok(rs) => {
                            assert(parse_rows(suffix) == Ok::<Seq<RecView>, (int, RowIssue)>(
                                seq![rec@] + rs,
                            ));
                            assert(rec_views(before) + (seq![rec@] + rs) =~= rec_views(out@) + rs);
                        },
                        Err(p) => {},
                    }
                }
            },
            Err(issue) => {
                proof {
                    assert(parse_rows(suffix) == Err::<Seq<RecView>, (int, RowIssue)>((0, issue)));
                }
                return Err(CsvError { row: i - 1, issue });
            },
        }
        i += 1;
    }
    proof {
        assert(body.skip(lines@.len() - 1) =~= Seq::<Seq<char>>::empty());
        assert(parse_rows(body) == Ok::<Seq<RecView>, (int, RowIssue)>(rec_views(out@)));
    }
    Ok(out)
}

/// A field that survives the row format unchanged: it holds no delimiter and
/// no line break.
pub open spec fn plain_field(f: Seq<char>) -> bool {
    forall|j: int|
        0 <= j < f.len() ==> #[trigger] f[j] != ',' && f[j] != '\n' && f[j] != '\r'
}

pub open spec fn plain_record(r: RecView) -> bool {
    plain_field(r.name) && plain_field(r.value)
}

pub open spec fn plain_records(v: Seq<RecView>) -> bool {
    forall|i: int| 0 <= i < v.len() ==> plain_record(#[trigger] v[i])
}

/// A line free of line breaks.
spec fn no_nl_cr(l: Seq<char>) -> bool {
    forall|j: int| 0 <= j < l.len() ==> #[trigger] l[j] != '\n' && l[j] != '\r'
}

proof fn lemma_digits_plain(s: Seq<char>)
    requires
        crate::digits::all_digits(s),
    ensures
        plain_field(s),
{
    assert forall|j: int|
        0 <= j < s.len() implies #[trigger] s[j] != ',' && s[j] != '\n' && s[j] != '\r' by {
        assert(crate::digits::is_digit_char(s[j]));
    }
}

spec fn no_comma(f: Seq<char>) -> bool {
    forall|j: int| 0 <= j < f.len() ==> #[trigger] f[j] != ','
}

/// Splitting on commas inverts joining three comma-free fields.
proof fn lemma_comma_split_three(a: Seq<char>, b: Seq<char>, c: Seq<char>)
    requires
        no_comma(a),
        no_comma(b),
        no_comma(c),
    ensures
        comma_split(a + ","@ + b + ","@ + c) == seq![a, b, c],
{
    reveal_strlit(",");
    assert(","@ =~= seq![',']);
    let s = a + ","@ + b + ","@ + c;
    let s2 = b + ","@ + c;
    assert forall|j: int| 0 <= j < a.len() implies #[trigger] s[j] != ',' by {
        assert(s[j] == a[j]);
    }
    assert(s[a.len() as int] == ',');
    lemma_sep_run_is(s, ',', a.len());
    assert(s.take(a.len() as int) =~= a);
    assert(s.skip(a.len() as int + 1) =~= s2);
    assert(comma_split(s) == seq![a] + comma_split(s2));
    assert forall|j: int| 0 <= j < b.len() implies #[trigger] s2[j] != ',' by {
        assert(s2[j] == b[j]);
    }
    assert(s2[b.len() as int] == ',');
    lemma_sep_run_is(s2, ',', b.len());
    assert(s2.take(b.len() as int) =~= b);
    assert(s2.skip(b.len() as int + 1) =~= c);
    assert(comma_split(s2) == seq![b] + comma_split(c));
    lemma_sep_run_is(c, ',', c.len());
    assert(comma_split(c) == seq![c.take(c.len() as int)]);
    assert(c.take(c.len() as int) =~= c);
    assert(comma_split(s) =~= seq![a, b, c]);
}

/// Parsing one row inverts serializing one plain record, and the row holds
/// no line break.
proof fn lemma_parse_record_line(r: RecView)
    requires
        plain_record(r),
    ensures
        parse_row(record_line(r)) == Ok::<RecView, RowIssue>(r),
        no_nl_cr(record_line(r)),
{
    reveal_strlit(",");
    let d = dec_digits(r.id as nat);
    crate::digits::lemma_dec_digits_value(r.id as nat);
    lemma_digits_plain(d);
    lemma_comma_split_three(d, r.name, r.value);
    let l = record_line(r);
    assert(is_u32_text(d));
    let fs = comma_split(l);
    assert(fs == seq![d, r.name, r.value]);
    assert(fs.len() == 3);
    assert(fs[0] == d && fs[1] == r.name && fs[2] == r.value);
    assert(parse_row(l) == Ok::<RecView, RowIssue>(
        RecView { id: text_num(d) as u32, name: r.name, value: r.value },
    ));
    assert forall|j: int| 0 <= j < l.len() implies #[trigger] l[j] != '\n' && l[j] != '\r' by {
        if j < d.len() {
            assert(l[j] == d[j]);
        } else if j == d.len() {
            assert(l[j] == ',');
        } else if j < d.len() + 1 + r.name.len() {
            assert(l[j] == r.name[j - d.len() - 1]);
        } else if j == d.len() + 1 + r.name.len() {
            assert(l[j] == ',');
        } else {
            assert(l[j] == r.value[j - d.len() - r.name.len() - 2]);
        }
    }
}

/// Splitting into lines peels off one terminated, break-free line.
proof fn lemma_line_split_append_line(l: Seq<char>, rest: Seq<char>)
    requires
        no_nl_cr(l),
    ensures
        line_split(l + "\n"@ + rest) == seq![l] + line_split(rest),
{
    reveal_strlit("\n");
    assert("\n"@ =~= seq!['\n']);
    let s = l + "\n"@ + rest;
    assert forall|j: int| 0 <= j < l.len() implies #[trigger] s[j] != '\n' by {
        assert(s[j] == l[j]);
    }
    assert(s[l.len() as int] == '\n');
    lemma_sep_run_is(s, '\n', l.len());
    assert(s.take(l.len() as int) =~= l);
    assert(s.skip(l.len() as int + 1) =~= rest);
    assert(strip_cr(l) == l);
    assert(line_split(s) == seq![l] + line_split(rest));
}

/// The rows of records can be peeled from the front as well.
proof fn lemma_record_rows_front(v: Seq<RecView>)
    requires
        v.len() > 0,
    ensures
        record_rows(v) == record_row(v[0]) + record_rows(v.drop_first()),
    decreases v.len(),
{
    if v.len() == 1 {
        assert(v.drop_last() =~= Seq::<RecView>::empty());
        assert(v.drop_first() =~= Seq::<RecView>::empty());
        assert(record_rows(v) =~= record_row(v[0]) + record_rows(v.drop_first()));
    } else {
        let u = v.drop_last();
        lemma_record_rows_front(u);
        assert(u[0] == v[0]);
        assert(v.drop_first().drop_last() =~= u.drop_first());
        assert(v.drop_first().len() > 0);
        assert(record_rows(v.drop_first()) == record_rows(v.drop_first().drop_last())
            + record_row(v.drop_first().last()));
        assert(v.drop_first().last() == v.last());
        assert(record_rows(v) =~= record_row(v[0]) + record_rows(v.drop_first()));
    }
}

/// Parsing the data lines inverts serializing plain records.
proof fn lemma_rows_round_trip(v: Seq<RecView>)
    requires
        plain_records(v),
    ensures
        parse_rows(line_split(record_rows(v))) == Ok::<Seq<RecView>, (int, RowIssue)>(v),
        line_split(record_rows(v)).len() == v.len(),
    decreases v.len(),
{
    if v.len() == 0 {
        assert(v =~= Seq::<RecView>::empty());
        assert(record_rows(v) == Seq::<char>::empty());
        assert(line_split(record_rows(v)) == Seq::<Seq<char>>::empty());
    } else {
        lemma_record_rows_front(v);
        assert(plain_record(v[0]));
        lemma_parse_record_line(v[0]);
        let l0 = record_line(v[0]);
        let rest = record_rows(v.drop_first());
        assert(record_rows(v) =~= l0 + "\n"@ + rest);
        lemma_line_split_append_line(l0, rest);
        assert forall|i: int| 0 <= i < v.drop_first().len() implies plain_record(
            #[trigger] v.drop_first()[i],
        ) by {
            assert(v.drop_first()[i] == v[i + 1]);
        }
        lemma_rows_round_trip(v.drop_first());
        let ls = seq![l0] + line_split(rest);
        assert(ls[0] == l0);
        assert(ls.drop_first() =~= line_split(rest));
        assert(parse_rows(ls) == Ok::<Seq<RecView>, (int, RowIssue)>(
            seq![v[0]] + v.drop_first(),
        ));
        assert(seq![v[0]] + v.drop_first() =~= v);
    }
}

/// Writing plain records to a fresh store and reading the text back yields
/// the same records, in the same order, behind exactly one header row.
pub proof fn lemma_csv_round_trip(v: Seq<RecView>)
    requires
        plain_records(v),
    ensures
        parse_csv_spec(csv_header() + record_rows(v)) == Ok::<Seq<RecView>, (int, RowIssue)>(v),
        line_split(csv_header() + record_rows(v)).len() == v.len() + 1,
{
    reveal_strlit("id,name,value\n");
    reveal_strlit("id,name,value");
    let h = "id,name,value"@;
    assert(csv_header() =~= h + "\n"@) by {
        reveal_strlit("\n");
        assert(csv_header().len() == 14);
    }
    assert(no_nl_cr(h)) by {
        reveal_strlit("id,name,value");
    }
    assert(csv_header() + record_rows(v) =~= h + "\n"@ + record_rows(v));
    lemma_line_split_append_line(h, record_rows(v));
    lemma_rows_round_trip(v);
    let ls = seq![h] + line_split(record_rows(v));
    assert(ls.len() > 0);
    assert(ls.drop_first() =~= line_split(record_rows(v)));
}

/// Rows concatenate as the record sequences do.
proof fn lemma_record_rows_concat(v: Seq<RecView>, w: Seq<RecView>)
    ensures
        record_rows(v + w) == record_rows(v) + record_rows(w),
    decreases w.len(),
{
    if w.len() == 0 {
        assert(v + w =~= v);
        assert(record_rows(v) + record_rows(w) =~= record_rows(v));
    } else {
        assert((v + w).drop_last() =~= v + w.drop_last());
        assert((v + w).last() == w.last());
        lemma_record_rows_concat(v, w.drop_last());
        assert(record_rows(v + w) =~= record_rows(v) + record_rows(w));
    }
}

/// Appending plain records to a store that already holds a header and plain
/// records yields a text that reads back as the old records followed by the
/// appended ones, still behind exactly one header row.
pub proof fn lemma_append_round_trip(v: Seq<RecView>, w: Seq<RecView>)
    requires
        plain_records(v),
        plain_records(w),
    ensures
        parse_csv_spec(csv_header() + record_rows(v) + record_rows(w))
            == Ok::<Seq<RecView>, (int, RowIssue)>(v + w),
        line_split(csv_header() + record_rows(v) + record_rows(w)).len() == v.len() + w.len() + 1,
{
    assert forall|i: int| 0 <= i < (v + w).len() implies plain_record(#[trigger] (v + w)[i]) by {
        if i < v.len() {
            assert((v + w)[i] == v[i]);
        } else {
            assert((v + w)[i] == w[i - v.len()]);
        }
    }
    lemma_record_rows_concat(v, w);
    assert(csv_header() + record_rows(v) + record_rows(w) =~= csv_header() + record_rows(v + w));
    lemma_csv_round_trip(v + w);
}

} // verus!
