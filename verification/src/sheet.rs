//! Expense sheets: a named, period-bound, ordered list of expense
//! records, together with the stable line-based text form they are
//! persisted in, its decoder, and the proof that decoding undoes
//! encoding.

use vstd::prelude::*;

verus! {

use crate::dates::{Date, spec_date_le, valid_date};
use crate::error::{BtrError, BtrErrorKind, spec_kind};
use crate::period::Period;
use crate::record::{ExpenseRecord, RecordV, records_view, wf_record_v};
use crate::text::{
    chars_eq_str, chars_to_string, escape_chars, escape_spec, i32_dec, i32_to_chars, is_digit_char,
    join_lines, join_lines_spec, lemma_escape_no_newline, lemma_parse_i32_dec, lemma_parse_u64_dec,
    lemma_split_join, lemma_u64_dec_val, lines_view, parse_i32_chars, parse_i32_spec,
    parse_u64_chars, parse_u64_spec, split_lines, split_lines_spec, str_to_chars, u64_dec,
    u64_to_chars, unescape_chars, unescape_spec,
};

/// A named collection of expense records bound to a date period.
#[derive(Debug)]
pub struct ExpenseSheet {
    name: String,
    period: Period,
    expenses: Vec<ExpenseRecord>,
}

/// The mathematical value of a sheet.
pub ghost struct SheetV {
    pub name: Seq<char>,
    pub period: Period,
    pub expenses: Seq<RecordV>,
}

impl View for ExpenseSheet {
    type V = SheetV;

    closed spec fn view(&self) -> SheetV {
        SheetV {
            name: self.name@,
            period: self.period,
            expenses: records_view(self.expenses@),
        }
    }
}

/// A sheet is well formed when its period is and every record's date
/// is a valid calendar date.
pub open spec fn wf_sheet_v(v: SheetV) -> bool {
    &&& v.period.wf()
    &&& forall|i: int| 0 <= i < v.expenses.len() ==> wf_record_v(#[trigger] v.expenses[i])
}

/// One mutation of a sheet: appending a record, or removing the
/// record at an index.
pub enum SheetEdit {
    AddExpense(ExpenseRecord),
    RemoveExpense(usize),
}

/// What an edit does to a sheet's value. Removing at an index past
/// the end leaves the sheet unchanged.
pub open spec fn apply_edit_spec(v: SheetV, e: SheetEdit) -> SheetV {
    match e {
        SheetEdit::AddExpense(r) => SheetV { expenses: v.expenses.push(r@), ..v },
        SheetEdit::RemoveExpense(i) => if i < v.expenses.len() {
            SheetV { expenses: v.expenses.remove(i as int), ..v }
        } else {
            v
        },
    }
}

impl ExpenseSheet {
    /// Builds a sheet from its parts.
    pub fn new(name: String, period: Period, expenses: Vec<ExpenseRecord>) -> (r: ExpenseSheet)
        ensures
            r@ == (SheetV { name: name@, period, expenses: records_view(expenses@) }),
    {
        ExpenseSheet { name, period, expenses }
    }

    /// The sheet's name.
    pub fn name(&self) -> (r: &String)
        ensures
            r@ == self@.name,
    {
        &self.name
    }

    /// The sheet's period.
    pub fn period(&self) -> (r: Period)
        ensures
            r == self@.period,
    {
        self.period
    }

    /// The records logged on this sheet, in order.
    pub fn expenses(&self) -> (r: &Vec<ExpenseRecord>)
        ensures
            records_view(r@) == self@.expenses,
    {
        &self.expenses
    }

    /// Applies one edit to the in-memory sheet.
    pub fn apply_edit(&mut self, e: SheetEdit)
        ensures
            final(self)@ == apply_edit_spec(old(self)@, e),
    {
        match e {
            SheetEdit::AddExpense(r) => {
                let ghost rv = r@;
                let ghost ov = self@.expenses;
                self.expenses.push(r);
                proof {
                    assert(records_view(self.expenses@) =~= ov.push(rv));
                }
            },
            SheetEdit::RemoveExpense(i) => {
                if i < self.expenses.len() {
                    let ghost ov = self@.expenses;
                    self.expenses.remove(i);
                    proof {
                        assert(records_view(self.expenses@) =~= ov.remove(i as int));
                    }
                }
            },
        }
    }
}

// ------------------------------------------------------------------
// The on-disk text form
// ------------------------------------------------------------------
//
// A sheet file is line-based: a header line, the escaped name, three
// numeral lines for the period's start date, three for its end date,
// and then five lines per record: escaped category, cents, and three
// numeral lines for the logged date.

/// The header line of a sheet file.
pub open spec fn sheet_header() -> Seq<char> {
    "btr-sheet-1"@
}

/// The three numeral lines of a date.
pub open spec fn date_lines(d: Date) -> Seq<Seq<char>> {
    seq![i32_dec(d.year as int), u64_dec(d.month as int), u64_dec(d.day as int)]
}

/// The five lines of one record.
pub open spec fn record_lines(r: RecordV) -> Seq<Seq<char>> {
    seq![escape_spec(r.category), u64_dec(r.amount_cents as int)] + date_lines(r.logged_on)
}

/// The lines of a list of records, in order.
pub open spec fn records_lines(rs: Seq<RecordV>) -> Seq<Seq<char>>
    decreases rs.len(),
{
    if rs.len() == 0 {
        Seq::empty()
    } else {
        record_lines(rs[0]) + records_lines(rs.drop_first())
    }
}

/// The eight lines before the records.
pub open spec fn sheet_base_lines(v: SheetV) -> Seq<Seq<char>> {
    seq![sheet_header(), escape_spec(v.name)] + date_lines(v.period.start) + date_lines(
        v.period.end,
    )
}

/// All lines of a sheet file.
pub open spec fn sheet_lines(v: SheetV) -> Seq<Seq<char>> {
    sheet_base_lines(v) + records_lines(v.expenses)
}

/// The text of a sheet file.
pub open spec fn encode_sheet_spec(v: SheetV) -> Seq<char> {
    join_lines_spec(sheet_lines(v))
}

/// Parses three numeral lines as a date; only valid calendar dates
/// are accepted.
pub open spec fn parse_date_spec(ly: Seq<char>, lm: Seq<char>, ld: Seq<char>) -> Option<Date> {
    match (parse_i32_spec(ly), parse_u64_spec(lm), parse_u64_spec(ld)) {
        (Some(y), Some(m), Some(d)) => {
            if 1 <= m <= 12 && 1 <= d <= 31 {
                let date = Date { year: y, month: m as u8, day: d as u8 };
                if valid_date(date) {
                    Some(date)
                } else {
                    None
                }
            } else {
                None
            }
        },
        _ => None,
    }
}

/// Decodes record lines, five per record.
pub open spec fn decode_records_spec(ls: Seq<Seq<char>>) -> Option<Seq<RecordV>>
    decreases ls.len(),
{
    if ls.len() == 0 {
        Some(Seq::empty())
    } else if ls.len() < 5 {
        None
    } else {
        match (unescape_spec(ls[0]), parse_u64_spec(ls[1]), parse_date_spec(
            ls[2],
            ls[3],
            ls[4],
        )) {
            (Some(cat), Some(cents), Some(d)) => match decode_records_spec(ls.skip(5)) {
                Some(rest) => Some(
                    seq![RecordV { category: cat, amount_cents: cents, logged_on: d }] + rest,
                ),
                None => None,
            },
            _ => None,
        }
    }
}

/// Decodes the text of a sheet file.
pub open spec fn decode_sheet_spec(s: Seq<char>) -> Option<SheetV> {
    let ls = split_lines_spec(s);
    if ls.len() < 8 {
        None
    } else if ls[0] != sheet_header() {
        None
    } else {
        match (unescape_spec(ls[1]), parse_date_spec(ls[2], ls[3], ls[4]), parse_date_spec(
            ls[5],
            ls[6],
            ls[7],
        )) {
            (Some(name), Some(start), Some(end)) => {
                if spec_date_le(start, end) {
                    match decode_records_spec(ls.skip(8)) {
                        Some(rs) => Some(
                            SheetV { name, period: Period { start, end }, expenses: rs },
                        ),
                        None => None,
                    }
                } else {
                    None
                }
            },
            _ => None,
        }
    }
}

/// A decoded sheet is well formed.
pub proof fn lemma_decode_records_wf(ls: Seq<Seq<char>>)
    ensures
        decode_records_spec(ls) matches Some(rs) ==> forall|i: int|
            0 <= i < rs.len() ==> wf_record_v(#[trigger] rs[i]),
    decreases ls.len(),
{
    if ls.len() >= 5 {
        lemma_decode_records_wf(ls.skip(5));
        match decode_records_spec(ls) {
            Some(rs) => {
                match decode_records_spec(ls.skip(5)) {
                    Some(rest) => {
                        assert(forall|i: int| 1 <= i < rs.len() ==> rs[i] == #[trigger] rest[i
                            - 1]);
                        assert(wf_record_v(rs[0]));
                    },
                    None => {},
                }
            },
            None => {},
        }
    }
}

/// Whatever `decode_sheet_spec` accepts is well formed.
pub proof fn lemma_decode_sheet_wf(s: Seq<char>)
    ensures
        decode_sheet_spec(s) matches Some(v) ==> wf_sheet_v(v),
{
    let ls = split_lines_spec(s);
    if ls.len() >= 8 {
        lemma_decode_records_wf(ls.skip(8));
    }
}


// ------------------------------------------------------------------
// Round trip
// ------------------------------------------------------------------

/// A line that fits the on-disk form: it holds no newline.
pub open spec fn line_ok(l: Seq<char>) -> bool {
    forall|j: int| 0 <= j < l.len() ==> l[j] != '\n'
}

/// Digit runs hold no newline.
pub proof fn lemma_u64_dec_line_ok(n: int)
    requires
        0 <= n,
    ensures
        line_ok(u64_dec(n)),
{
    lemma_u64_dec_val(n);
    assert forall|j: int| 0 <= j < u64_dec(n).len() implies u64_dec(n)[j] != '\n' by {
        assert(is_digit_char(u64_dec(n)[j]));
    }
}

/// Signed numerals hold no newline.
pub proof fn lemma_i32_dec_line_ok(n: int)
    ensures
        line_ok(i32_dec(n)),
{
    if n < 0 {
        lemma_u64_dec_val(-n);
        assert forall|j: int| 0 <= j < i32_dec(n).len() implies i32_dec(n)[j] != '\n' by {
            if j > 0 {
                assert(i32_dec(n)[j] == u64_dec(-n)[j - 1]);
                assert(is_digit_char(u64_dec(-n)[j - 1]));
            } else {
                assert(i32_dec(n)[0] == '-');
            }
        }
    } else {
        lemma_u64_dec_line_ok(n);
    }
}

/// A date's lines hold no newline, and parse back to the date.
pub proof fn lemma_date_lines_rt(d: Date)
    requires
        valid_date(d),
    ensures
        date_lines(d).len() == 3,
        line_ok(date_lines(d)[0]),
        line_ok(date_lines(d)[1]),
        line_ok(date_lines(d)[2]),
        parse_date_spec(date_lines(d)[0], date_lines(d)[1], date_lines(d)[2]) == Some(d),
{
    lemma_i32_dec_line_ok(d.year as int);
    lemma_u64_dec_line_ok(d.month as int);
    lemma_u64_dec_line_ok(d.day as int);
    lemma_parse_i32_dec(d.year);
    lemma_parse_u64_dec(d.month as u64);
    lemma_parse_u64_dec(d.day as u64);
    assert(parse_i32_spec(i32_dec(d.year as int)) == Some(d.year));
    assert(parse_u64_spec(u64_dec(d.month as int)) == Some(d.month as u64));
    assert(parse_u64_spec(u64_dec(d.day as int)) == Some(d.day as u64));
}

/// One record's lines hold no newline and decode back to the record.
pub proof fn lemma_record_lines_rt(r: RecordV)
    requires
        wf_record_v(r),
    ensures
        record_lines(r).len() == 5,
        forall|k: int| 0 <= k < 5 ==> line_ok(#[trigger] record_lines(r)[k]),
        unescape_spec(record_lines(r)[0]) == Some(r.category),
        parse_u64_spec(record_lines(r)[1]) == Some(r.amount_cents),
        parse_date_spec(record_lines(r)[2], record_lines(r)[3], record_lines(r)[4]) == Some(
            r.logged_on,
        ),
{
    let ls = record_lines(r);
    lemma_escape_no_newline(r.category);
    crate::text::lemma_unescape_escape(r.category);
    lemma_u64_dec_line_ok(r.amount_cents as int);
    lemma_parse_u64_dec(r.amount_cents);
    lemma_date_lines_rt(r.logged_on);
    assert(ls[0] == escape_spec(r.category));
    assert(ls[1] == u64_dec(r.amount_cents as int));
    assert(ls[2] == date_lines(r.logged_on)[0]);
    assert(ls[3] == date_lines(r.logged_on)[1]);
    assert(ls[4] == date_lines(r.logged_on)[2]);
}

/// The lines of a record list hold no newline and decode back to the
/// list.
pub proof fn lemma_records_lines_rt(rs: Seq<RecordV>)
    requires
        forall|i: int| 0 <= i < rs.len() ==> wf_record_v(#[trigger] rs[i]),
    ensures
        records_lines(rs).len() == 5 * rs.len(),
        forall|k: int| 0 <= k < records_lines(rs).len() ==> line_ok(
            #[trigger] records_lines(rs)[k],
        ),
        decode_records_spec(records_lines(rs)) == Some(rs),
    decreases rs.len(),
{
    if rs.len() == 0 {
        assert(records_lines(rs) =~= Seq::<Seq<char>>::empty());
    } else {
        let first = record_lines(rs[0]);
        let rest = rs.drop_first();
        assert(forall|i: int| 0 <= i < rest.len() ==> rest[i] == #[trigger] rs[i + 1]);
        lemma_records_lines_rt(rest);
        lemma_record_lines_rt(rs[0]);
        let ls = records_lines(rs);
        assert(ls == first + records_lines(rest));
        assert(forall|k: int| 0 <= k < 5 ==> ls[k] == #[trigger] first[k]);
        assert(ls.skip(5) =~= records_lines(rest));
        assert(decode_records_spec(ls) == Some(seq![rs[0]] + rest));
        assert(seq![rs[0]] + rest =~= rs);
        assert forall|k: int| 0 <= k < ls.len() implies line_ok(#[trigger] ls[k]) by {
            if k < 5 {
                assert(ls[k] == first[k]);
            } else {
                assert(ls[k] == records_lines(rest)[k - 5]);
            }
        }
    }
}

/// The header line holds no newline.
pub proof fn lemma_sheet_header_ok()
    ensures
        line_ok(sheet_header()),
        sheet_header().len() == 11,
{
    reveal_strlit("btr-sheet-1");
}

/// Decoding undoes encoding: every well-formed sheet comes back from
/// its text form unchanged.
pub proof fn lemma_sheet_round_trip(v: SheetV)
    requires
        wf_sheet_v(v),
    ensures
        decode_sheet_spec(encode_sheet_spec(v)) == Some(v),
{
    let base = sheet_base_lines(v);
    let recs = records_lines(v.expenses);
    let lines = sheet_lines(v);
    lemma_sheet_header_ok();
    lemma_escape_no_newline(v.name);
    crate::text::lemma_unescape_escape(v.name);
    lemma_date_lines_rt(v.period.start);
    lemma_date_lines_rt(v.period.end);
    lemma_records_lines_rt(v.expenses);
    assert(base.len() == 8);
    assert(base[0] == sheet_header());
    assert(base[1] == escape_spec(v.name));
    assert(base[2] == date_lines(v.period.start)[0]);
    assert(base[3] == date_lines(v.period.start)[1]);
    assert(base[4] == date_lines(v.period.start)[2]);
    assert(base[5] == date_lines(v.period.end)[0]);
    assert(base[6] == date_lines(v.period.end)[1]);
    assert(base[7] == date_lines(v.period.end)[2]);
    assert(lines.len() == 8 + 5 * v.expenses.len());
    assert(forall|k: int| 0 <= k < 8 ==> lines[k] == #[trigger] base[k]);
    assert forall|i: int, j: int| 0 <= i < lines.len() && 0 <= j < lines[i].len() implies lines[i][j]
        != '\n' by {
        if i < 8 {
            assert(lines[i] == base[i]);
            if i == 0 {
                assert(line_ok(sheet_header()));
            } else if i == 1 {
            } else {
                assert(line_ok(base[i]));
            }
        } else {
            assert(lines[i] == recs[i - 8]);
            assert(line_ok(recs[i - 8]));
        }
    }
    lemma_split_join(lines);
    let ls = split_lines_spec(encode_sheet_spec(v));
    assert(ls == lines);
    assert(ls.skip(8) =~= recs);
    assert(decode_records_spec(ls.skip(8)) == Some(v.expenses));
    assert(spec_date_le(v.period.start, v.period.end));
    let dec = decode_sheet_spec(encode_sheet_spec(v));
    assert(dec == Some(
        SheetV {
            name: v.name,
            period: Period { start: v.period.start, end: v.period.end },
            expenses: v.expenses,
        },
    ));
    assert(Period { start: v.period.start, end: v.period.end } == v.period);
}


// ------------------------------------------------------------------
// Executable codec
// ------------------------------------------------------------------

/// Record lines distribute over appending one record.
pub proof fn lemma_records_lines_push(rs: Seq<RecordV>, r: RecordV)
    ensures
        records_lines(rs.push(r)) == records_lines(rs) + record_lines(r),
    decreases rs.len(),
{
    if rs.len() == 0 {
        assert(rs.push(r)[0] == r);
        assert(rs.push(r).drop_first() =~= Seq::<RecordV>::empty());
        assert(records_lines(rs.push(r)) == record_lines(r) + records_lines(
            Seq::<RecordV>::empty(),
        ));
        assert(record_lines(r) + Seq::<Seq<char>>::empty() =~= record_lines(r));
        assert(records_lines(rs) + record_lines(r) =~= record_lines(r));
    } else {
        assert(rs.push(r)[0] == rs[0]);
        assert(rs.push(r).drop_first() =~= rs.drop_first().push(r));
        lemma_records_lines_push(rs.drop_first(), r);
        assert(record_lines(rs[0]) + (records_lines(rs.drop_first()) + record_lines(r)) =~= (
        record_lines(rs[0]) + records_lines(rs.drop_first())) + record_lines(r));
    }
}

/// Writes a sheet into its on-disk text form.
pub fn encode_sheet(sheet: &ExpenseSheet) -> (r: String)
    ensures
        r@ == encode_sheet_spec(sheet@),
{
    let mut lines: Vec<Vec<char>> = Vec::new();
    lines.push(str_to_chars("btr-sheet-1"));
    let name_chars = str_to_chars(sheet.name().as_str());
    lines.push(escape_chars(&name_chars));
    let p = sheet.period();
    lines.push(i32_to_chars(p.start.year));
    lines.push(u64_to_chars(p.start.month as u64));
    lines.push(u64_to_chars(p.start.day as u64));
    lines.push(i32_to_chars(p.end.year));
    lines.push(u64_to_chars(p.end.month as u64));
    lines.push(u64_to_chars(p.end.day as u64));
    proof {
        assert(lines_view(lines@) =~= sheet_base_lines(sheet@));
        assert(sheet@.expenses.take(0) =~= Seq::<RecordV>::empty());
        assert(records_lines(Seq::<RecordV>::empty()) =~= Seq::<Seq<char>>::empty());
        assert(lines_view(lines@) =~= sheet_base_lines(sheet@) + records_lines(
            sheet@.expenses.take(0),
        ));
    }
    let rs = sheet.expenses();
    let n = rs.len();
    let ghost rv = sheet@.expenses;
    proof {
        assert(rv.len() == n);
    }
    let mut i: usize = 0;
    while i < n
        invariant
            i <= n,
            n == rs@.len(),
            records_view(rs@) == rv,
            lines_view(lines@) == sheet_base_lines(sheet@) + records_lines(rv.take(i as int)),
        decreases n - i,
    {
        let r = &rs[i];
        proof {
            assert(r@ == rv[i as int]);
        }
        let ghost lv = lines_view(lines@);
        let cat_chars = str_to_chars(r.category().as_str());
        lines.push(escape_chars(&cat_chars));
        lines.push(u64_to_chars(r.amount()));
        let d = r.logged_on();
        lines.push(i32_to_chars(d.year));
        lines.push(u64_to_chars(d.month as u64));
        lines.push(u64_to_chars(d.day as u64));
        proof {
            assert(lines_view(lines@) =~= lv + record_lines(rv[i as int]));
            lemma_records_lines_push(rv.take(i as int), rv[i as int]);
            assert(rv.take(i as int).push(rv[i as int]) =~= rv.take(i + 1 as int));
            assert(sheet_base_lines(sheet@) + (records_lines(rv.take(i as int)) + record_lines(
                rv[i as int],
            )) =~= (sheet_base_lines(sheet@) + records_lines(rv.take(i as int))) + record_lines(
                rv[i as int],
            ));
        }
        i = i + 1;
    }
    proof {
        assert(rv.take(n as int) =~= rv);
        assert(lines_view(lines@) == sheet_lines(sheet@));
    }
    let joined = join_lines(&lines);
    chars_to_string(&joined)
}

/// Parses three numeral lines as a date.
fn parse_date_lines(ly: &Vec<char>, lm: &Vec<char>, ld: &Vec<char>) -> (r: Option<Date>)
    ensures
        r == parse_date_spec(ly@, lm@, ld@),
{
    let y = match parse_i32_chars(ly) {
        Some(y) => y,
        None => {
            return None;
        },
    };
    let m = match parse_u64_chars(lm) {
        Some(m) => m,
        None => {
            return None;
        },
    };
    let d = match parse_u64_chars(ld) {
        Some(d) => d,
        None => {
            return None;
        },
    };
    if !(1 <= m && m <= 12 && 1 <= d && d <= 31) {
        return None;
    }
    let date = Date { year: y, month: m as u8, day: d as u8 };
    if crate::dates::days_in_month(y, m as u8) < d as u8 || y < crate::dates::MIN_YEAR || y
        > crate::dates::MAX_YEAR {
        proof {
            assert(!valid_date(date));
        }
        return None;
    }
    proof {
        assert(valid_date(date));
    }
    Some(date)
}

/// Joins already-decoded records with the rest still to decode.
pub open spec fn recs_join(pre: Seq<RecordV>, rest: Option<Seq<RecordV>>) -> Option<Seq<RecordV>> {
    match rest {
        Some(t) => Some(pre + t),
        None => None,
    }
}

/// The error a malformed sheet file is rejected with.
fn malformed() -> (e: BtrError)
    ensures
        spec_kind(e) == BtrErrorKind::InvalidData,
{
    BtrError::InvalidData(Some(String::from_str("Malformed sheet file.")))
}

/// Reads a sheet back from its on-disk text form. Fails with
/// `InvalidData` exactly when the text decodes as no sheet.
pub fn decode_sheet(text: &str) -> (r: Result<ExpenseSheet, BtrError>)
    ensures
        match r {
            Ok(sh) => decode_sheet_spec(text@) == Some(sh@),
            Err(e) => decode_sheet_spec(text@) is None && spec_kind(e)
                == BtrErrorKind::InvalidData,
        },
{
    let chars = str_to_chars(text);
    let lines = split_lines(&chars);
    let ghost ls = split_lines_spec(text@);
    let n = lines.len();
    if n < 8 {
        return Err(malformed());
    }
    if !chars_eq_str(&lines[0], "btr-sheet-1") {
        return Err(malformed());
    }
    let name = match unescape_chars(&lines[1]) {
        Some(nm) => nm,
        None => {
            return Err(malformed());
        },
    };
    let start = match parse_date_lines(&lines[2], &lines[3], &lines[4]) {
        Some(d) => d,
        None => {
            return Err(malformed());
        },
    };
    let end = match parse_date_lines(&lines[5], &lines[6], &lines[7]) {
        Some(d) => d,
        None => {
            return Err(malformed());
        },
    };
    if !Date::le(&start, &end) {
        return Err(malformed());
    }
    let ghost rls = ls.skip(8);
    let mut out: Vec<ExpenseRecord> = Vec::new();
    let mut base: usize = 8;
    proof {
        assert(rls.skip(0) =~= rls);
        match decode_records_spec(rls) {
            Some(t) => {
                assert(records_view(out@) + t =~= t);
            },
            None => {},
        }
    }
    while base < n
        invariant
            8 <= base <= n,
            n == lines@.len(),
            lines_view(lines@) == ls,
            ls == split_lines_spec(text@),
            rls == ls.skip(8),
            decode_records_spec(rls) == recs_join(
                records_view(out@),
                decode_records_spec(rls.skip(base - 8)),
            ),
        decreases n - base,
    {
        let ghost rem = rls.skip(base - 8);
        proof {
            assert(rem.len() == n - base);
        }
        if n - base < 5 {
            proof {
                assert(decode_records_spec(rem) is None);
            }
            return Err(malformed());
        }
        proof {
            assert(rem[0] == ls[base as int]);
            assert(rem[1] == ls[base + 1]);
            assert(rem[2] == ls[base + 2]);
            assert(rem[3] == ls[base + 3]);
            assert(rem[4] == ls[base + 4]);
            assert(lines@[base as int]@ == ls[base as int]);
            assert(lines@[base + 1]@ == ls[base + 1]);
            assert(lines@[base + 2]@ == ls[base + 2]);
            assert(lines@[base + 3]@ == ls[base + 3]);
            assert(lines@[base + 4]@ == ls[base + 4]);
            assert(rem.skip(5) =~= rls.skip(base - 8 + 5));
        }
        let cat = match unescape_chars(&lines[base]) {
            Some(c) => c,
            None => {
                return Err(malformed());
            },
        };
        let cents = match parse_u64_chars(&lines[base + 1]) {
            Some(c) => c,
            None => {
                return Err(malformed());
            },
        };
        let d = match parse_date_lines(&lines[base + 2], &lines[base + 3], &lines[base + 4]) {
            Some(d) => d,
            None => {
                return Err(malformed());
            },
        };
        let ghost dv = records_view(out@);
        let ghost cv = RecordV { category: cat@, amount_cents: cents, logged_on: d };
        proof {
            match decode_records_spec(rls.skip(base - 8 + 5)) {
                Some(t) => {
                    assert(dv + (seq![cv] + t) =~= dv.push(cv) + t);
                },
                None => {},
            }
        }
        let rec = ExpenseRecord::new(chars_to_string(&cat), cents, d);
        proof {
            assert(rec@ == cv);
        }
        out.push(rec);
        proof {
            assert(records_view(out@) =~= dv.push(cv));
        }
        base = base + 5;
    }
    proof {
        assert(rls.skip(n - 8) =~= Seq::<Seq<char>>::empty());
        assert(decode_records_spec(rls.skip(n - 8)) == Some(Seq::<RecordV>::empty()));
        assert(records_view(out@) + Seq::<RecordV>::empty() =~= records_view(out@));
    }
    let sheet = ExpenseSheet::new(chars_to_string(&name), Period { start, end }, out);
    Ok(sheet)
}

} // verus!
