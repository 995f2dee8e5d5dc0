//! The tracker manager: the composition root owning the configuration
//! and the at-most-one active sheet, and the lifecycle operations on
//! sheets. Every operation that persists returns the full file content
//! to write (or, for sheet creation, an exclusive-create request), so
//! the decisions here are verified while the filesystem stays outside.

use vstd::prelude::*;

verus! {

use std::collections::VecDeque;

use crate::category::{ExpenseCategory, cats_view};
use crate::clock::today_date;
use crate::config::{ConfigV, StateEdit, TrackerConfig};
use crate::error::{BtrError, BtrErrorKind, spec_kind};
use crate::paths::{FileWrite, sheet_file, sheet_file_spec};
use crate::period::Period;
use crate::record::{ExpenseRecord, RecordV, records_view};
use crate::sheet::{
    ExpenseSheet, SheetEdit, SheetV, apply_edit_spec, decode_sheet, decode_sheet_spec,
    encode_sheet, encode_sheet_spec, lemma_decode_sheet_wf, lemma_sheet_round_trip, wf_sheet_v,
};
use crate::state::push_history_spec;
use crate::text::strs_view;

/// An instruction to create the file at `path` with `content`. When
/// `create_new` holds, the creation must use the filesystem's
/// exclusive-create facility and fail if the file already exists;
/// otherwise an existing file is truncated.
#[derive(Debug)]
pub struct SheetCreateRequest {
    pub path: String,
    pub content: String,
    pub create_new: bool,
}

/// Whether an edit may be applied to a well-formed sheet without
/// breaking its well-formedness: an appended record must carry a
/// valid date.
pub open spec fn edit_wf(e: SheetEdit) -> bool {
    match e {
        SheetEdit::AddExpense(r) => crate::record::wf_record_v(r@),
        SheetEdit::RemoveExpense(_) => true,
    }
}

/// An edit keeps a sheet well formed.
proof fn lemma_apply_edit_wf(v: SheetV, e: SheetEdit)
    requires
        wf_sheet_v(v),
        edit_wf(e),
    ensures
        wf_sheet_v(apply_edit_spec(v, e)),
{
    let w = apply_edit_spec(v, e);
    match e {
        SheetEdit::AddExpense(r) => {
            assert(forall|i: int| 0 <= i < v.expenses.len() ==> w.expenses[i] == #[trigger] v
                .expenses[i]);
            assert(w.expenses.last() == r@);
        },
        SheetEdit::RemoveExpense(i) => {
            if i < v.expenses.len() {
                assert(forall|k: int|
                    0 <= k < w.expenses.len() ==> #[trigger] w.expenses[k] == (if k < i {
                        v.expenses[k]
                    } else {
                        v.expenses[k + 1]
                    }));
            }
        },
    }
}

/// The tracker manager.
pub struct TrackerManager {
    active_sheet: Option<ExpenseSheet>,
    config: TrackerConfig,
    sheets_dir: String,
}

/// The mathematical value of the manager.
pub ghost struct ManagerV {
    pub active_sheet: Option<SheetV>,
    pub config: ConfigV,
    pub sheets_dir: Seq<char>,
}

impl View for TrackerManager {
    type V = ManagerV;

    closed spec fn view(&self) -> ManagerV {
        ManagerV {
            active_sheet: match self.active_sheet {
                Some(ref s) => Some(s@),
                None => None,
            },
            config: self.config@,
            sheets_dir: self.sheets_dir@,
        }
    }
}

impl TrackerManager {
    /// The manager's invariant: an active sheet, when there is one, is
    /// well formed.
    pub open spec fn inv(self) -> bool {
        match self@.active_sheet {
            Some(s) => wf_sheet_v(s),
            None => true,
        }
    }

    /// Composes the manager. `active_text` is the content of the file
    /// the configuration's sheet selection points at, or `None` when
    /// nothing is selected or that file could not be read. A selection
    /// pointing at a missing or unreadable sheet is tolerated: the
    /// active sheet silently stays empty rather than failing startup.
    pub fn new(config: TrackerConfig, sheets_dir: String, active_text: Option<&str>) -> (r:
        TrackerManager)
        ensures
            r@.config == config@,
            r@.sheets_dir == sheets_dir@,
            r.inv(),
            config@.state.selected_sheet is None ==> r@.active_sheet is None,
            config@.state.selected_sheet is Some ==> r@.active_sheet == (match active_text {
                Some(t) => decode_sheet_spec(t@),
                None => None::<SheetV>,
            }),
    {
        let has_selection = match config.load_active_sheet() {
            Some(_) => true,
            None => false,
        };
        let active_sheet = if has_selection {
            match active_text {
                Some(t) => {
                    proof {
                        lemma_decode_sheet_wf(t@);
                    }
                    match decode_sheet(t) {
                        Ok(sh) => Some(sh),
                        Err(_) => None,
                    }
                },
                None => None,
            }
        } else {
            None
        };
        TrackerManager { active_sheet, config, sheets_dir }
    }

    /// The file the sheet of the given name is persisted in.
    pub fn sheet_path(&self, name: &str) -> (r: String)
        ensures
            r@ == sheet_file_spec(self@.sheets_dir, name@),
    {
        sheet_file(self.sheets_dir.as_str(), name)
    }

    /// Prepares the creation of a fresh, empty sheet. The returned
    /// content reads back as exactly that sheet; with `truncate`
    /// false the request demands exclusive creation, so an existing
    /// file makes the caller's create fail instead of being replaced.
    pub fn new_sheet(&self, sheet_name: &str, period: Period, truncate: bool) -> (req:
        SheetCreateRequest)
        requires
            period.wf(),
        ensures
            req.path@ == sheet_file_spec(self@.sheets_dir, sheet_name@),
            req.create_new == !truncate,
            req.content@ == encode_sheet_spec(
                SheetV { name: sheet_name@, period, expenses: Seq::empty() },
            ),
            decode_sheet_spec(req.content@) == Some(
                SheetV { name: sheet_name@, period, expenses: Seq::empty() },
            ),
    {
        let path = self.sheet_path(sheet_name);
        let empty = ExpenseSheet::new(String::from_str(sheet_name), period, Vec::new());
        proof {
            assert(records_view(Seq::<ExpenseRecord>::empty()) =~= Seq::<RecordV>::empty());
            assert(empty@ == (SheetV { name: sheet_name@, period, expenses: Seq::empty() }));
            lemma_sheet_round_trip(empty@);
        }
        let content = encode_sheet(&empty);
        SheetCreateRequest { path, content, create_new: !truncate }
    }

    /// Makes the sheet persisted as `sheet_text` the active one and
    /// persists the selection. Fails with `InvalidData`, leaving
    /// everything unchanged, exactly when the text decodes as no
    /// sheet.
    pub fn set_active_sheet(&mut self, name: &str, sheet_text: &str) -> (r: Result<
        FileWrite,
        BtrError,
    >)
        requires
            old(self).inv(),
        ensures
            final(self).inv(),
            match r {
                Ok(w) => {
                    &&& decode_sheet_spec(sheet_text@) matches Some(v)
                        && final(self)@.active_sheet == Some(v)
                    &&& final(self)@.config.state.cmd_history
                        == old(self)@.config.state.cmd_history
                    &&& final(self)@.config.state.selected_sheet == Some(
                        sheet_file_spec(old(self)@.sheets_dir, name@),
                    )
                    &&& final(self)@.config.expenses == old(self)@.config.expenses
                    &&& final(self)@.sheets_dir == old(self)@.sheets_dir
                    &&& w.path@ == old(self)@.config.state_file
                    &&& crate::state::decode_state_spec(w.content@) == final(self)@.config.state
                },
                Err(e) => {
                    &&& decode_sheet_spec(sheet_text@) is None
                    &&& spec_kind(e) == BtrErrorKind::InvalidData
                    &&& final(self)@ == old(self)@
                },
            },
    {
        let sheet = match decode_sheet(sheet_text) {
            Ok(sh) => sh,
            Err(e) => {
                return Err(e);
            },
        };
        proof {
            lemma_decode_sheet_wf(sheet_text@);
        }
        let path = self.sheet_path(name);
        let w = self.config.update_state(StateEdit::Select(Some(path)));
        self.active_sheet = Some(sheet);
        Ok(w)
    }

    /// Clears the active sheet and the persisted selection.
    pub fn clear_active_sheet(&mut self) -> (w: FileWrite)
        requires
            old(self).inv(),
        ensures
            final(self).inv(),
            final(self)@.active_sheet is None,
            final(self)@.config.state.selected_sheet is None,
            final(self)@.config.state.cmd_history == old(self)@.config.state.cmd_history,
            final(self)@.config.expenses == old(self)@.config.expenses,
            final(self)@.sheets_dir == old(self)@.sheets_dir,
            w.path@ == old(self)@.config.state_file,
            crate::state::decode_state_spec(w.content@) == final(self)@.config.state,
    {
        let w = self.config.update_state(StateEdit::Select(None));
        self.active_sheet = None;
        w
    }

    /// The active sheet, when one is selected.
    pub fn get_active_sheet(&self) -> (r: &Option<ExpenseSheet>)
        ensures
            match r {
                Some(s) => self@.active_sheet == Some(s@),
                None => self@.active_sheet is None,
            },
    {
        &self.active_sheet
    }

    /// The configured categories, in presentation order.
    pub fn get_categories(&self) -> (r: &Vec<ExpenseCategory>)
        ensures
            cats_view(r@) == self@.config.expenses,
    {
        self.config.expenses()
    }

    /// The directory the sheets are persisted in.
    pub fn get_sheets_dir(&self) -> (r: &String)
        ensures
            r@ == self@.sheets_dir,
    {
        &self.sheets_dir
    }

    /// The remembered command lines, oldest first.
    pub fn get_cmd_history(&self) -> (r: &VecDeque<String>)
        ensures
            strs_view(r@) == self@.config.state.cmd_history,
    {
        self.config.cmd_history()
    }

    /// Records one entered command line in the history and persists
    /// the state.
    pub fn record_command(&mut self, line: String) -> (w: FileWrite)
        requires
            old(self).inv(),
        ensures
            final(self).inv(),
            final(self)@.active_sheet == old(self)@.active_sheet,
            final(self)@.sheets_dir == old(self)@.sheets_dir,
            final(self)@.config.expenses == old(self)@.config.expenses,
            final(self)@.config.state.selected_sheet == old(self)@.config.state.selected_sheet,
            final(self)@.config.state.cmd_history == push_history_spec(
                old(self)@.config.state.cmd_history,
                line@,
            ),
            w.path@ == old(self)@.config.state_file,
            crate::state::decode_state_spec(w.content@) == final(self)@.config.state,
    {
        self.config.update_state(StateEdit::AddHistory(line))
    }

    /// Applies one edit to the active sheet and hands back the full
    /// sheet file to persist; the written content reads back as
    /// exactly the edited sheet. Fails with `ActiveSheetNotSelected`,
    /// leaving everything unchanged, exactly when no sheet is active.
    pub fn update_active_sheet(&mut self, edit: SheetEdit) -> (r: Result<FileWrite, BtrError>)
        requires
            old(self).inv(),
            edit_wf(edit),
        ensures
            final(self).inv(),
            old(self)@.active_sheet is None ==> (r matches Err(e) && e
                == BtrError::ActiveSheetNotSelected && final(self)@ == old(self)@),
            old(self)@.active_sheet matches Some(s) ==> (r matches Ok(w) && {
                let ns = apply_edit_spec(s, edit);
                &&& final(self)@.active_sheet == Some(ns)
                &&& final(self)@.config == old(self)@.config
                &&& final(self)@.sheets_dir == old(self)@.sheets_dir
                &&& w.path@ == sheet_file_spec(old(self)@.sheets_dir, ns.name)
                &&& w.content@ == encode_sheet_spec(ns)
                &&& decode_sheet_spec(w.content@) == Some(ns)
            }),
    {
        match self.active_sheet {
            None => Err(BtrError::ActiveSheetNotSelected),
            Some(ref mut sheet) => {
                let ghost oldv = sheet@;
                sheet.apply_edit(edit);
                proof {
                    lemma_apply_edit_wf(oldv, edit);
                    lemma_sheet_round_trip(sheet@);
                }
                let content = encode_sheet(sheet);
                let name_owned = sheet.name().clone();
                let path = sheet_file(self.sheets_dir.as_str(), name_owned.as_str());
                Ok(FileWrite { path, content })
            },
        }
    }

    /// Logs one expense on the active sheet, dated today, and hands
    /// back the sheet file to persist. Fails with
    /// `ActiveSheetNotSelected` when no sheet is active.
    pub fn add_expense_to_active_sheet(&mut self, category: String, amount_cents: u64) -> (r:
        Result<FileWrite, BtrError>)
        requires
            old(self).inv(),
        ensures
            final(self).inv(),
            old(self)@.active_sheet is None ==> (r matches Err(e) && e
                == BtrError::ActiveSheetNotSelected && final(self)@ == old(self)@),
            old(self)@.active_sheet matches Some(s) ==> (r matches Ok(w)
                && final(self)@.active_sheet matches Some(ns) && {
                &&& ns.name == s.name
                &&& ns.period == s.period
                &&& ns.expenses.len() == s.expenses.len() + 1
                &&& ns.expenses.take(s.expenses.len() as int) == s.expenses
                &&& ns.expenses.last().category == category@
                &&& ns.expenses.last().amount_cents == amount_cents
                &&& crate::dates::valid_date(ns.expenses.last().logged_on)
                &&& final(self)@.config == old(self)@.config
                &&& w.path@ == sheet_file_spec(old(self)@.sheets_dir, ns.name)
                &&& decode_sheet_spec(w.content@) == Some(ns)
            }),
    {
        let today = today_date();
        let record = ExpenseRecord::new(category, amount_cents, today);
        let ghost rv = record@;
        let r = self.update_active_sheet(SheetEdit::AddExpense(record));
        proof {
            match old(self)@.active_sheet {
                Some(s) => {
                    let ns = apply_edit_spec(s, SheetEdit::AddExpense(record));
                    assert(ns.expenses.take(s.expenses.len() as int) =~= s.expenses);
                },
                None => {},
            }
        }
        r
    }
}

// ------------------------------------------------------------------
// Sheet listing
// ------------------------------------------------------------------

/// The sheet extension, as a character sequence.
pub open spec fn sheet_ext() -> Seq<char> {
    ".btr"@
}

/// The sheet names among a directory's file names: the files carrying
/// the sheet extension, with it stripped, in the given order.
pub open spec fn sheet_list_spec(files: Seq<Seq<char>>) -> Seq<Seq<char>>
    decreases files.len(),
{
    if files.len() == 0 {
        Seq::empty()
    } else {
        let rest = sheet_list_spec(files.drop_first());
        let f = files[0];
        if f.len() > 4 && f.skip(f.len() - 4) == sheet_ext() {
            seq![f.take(f.len() - 4)] + rest
        } else {
            rest
        }
    }
}

/// The sheet names among a directory's file names.
pub fn get_sheet_list(entries: &Vec<String>) -> (r: Vec<String>)
    ensures
        strs_view(r@) == sheet_list_spec(strs_view(entries@)),
{
    let ghost fv = strs_view(entries@);
    let mut out: Vec<String> = Vec::new();
    let mut i: usize = 0;
    let n = entries.len();
    proof {
        assert(fv.skip(0) =~= fv);
        assert(strs_view(out@) + sheet_list_spec(fv) =~= sheet_list_spec(fv));
    }
    while i < n
        invariant
            i <= n,
            n == entries@.len(),
            fv == strs_view(entries@),
            sheet_list_spec(fv) == strs_view(out@) + sheet_list_spec(fv.skip(i as int)),
        decreases n - i,
    {
        let e = &entries[i];
        let chars = crate::text::str_to_chars(e.as_str());
        let m = chars.len();
        proof {
            assert(fv.skip(i as int)[0] == fv[i as int]);
            assert(fv.skip(i as int).drop_first() =~= fv.skip(i + 1 as int));
            assert(fv[i as int] == e@);
        }
        if m > 4 {
            let mut tail: Vec<char> = Vec::new();
            let mut k: usize = m - 4;
            while k < m
                invariant
                    4 < m,
                    m - 4 <= k <= m,
                    m == chars@.len(),
                    tail@ == chars@.subrange(m - 4, k as int),
                decreases m - k,
            {
                tail.push(chars[k]);
                proof {
                    assert(chars@.subrange(m - 4, k as int).push(chars@[k as int])
                        =~= chars@.subrange(m - 4, k + 1 as int));
                }
                k = k + 1;
            }
            proof {
                assert(tail@ =~= chars@.skip(m - 4));
            }
            if crate::text::chars_eq_str(&tail, ".btr") {
                let mut stem: Vec<char> = Vec::new();
                let mut k2: usize = 0;
                while k2 < m - 4
                    invariant
                        4 < m,
                        k2 <= m - 4,
                        m == chars@.len(),
                        stem@ == chars@.subrange(0, k2 as int),
                    decreases m - 4 - k2,
                {
                    stem.push(chars[k2]);
                    proof {
                        assert(chars@.subrange(0, k2 as int).push(chars@[k2 as int])
                            =~= chars@.subrange(0, k2 + 1 as int));
                    }
                    k2 = k2 + 1;
                }
                proof {
                    assert(stem@ =~= chars@.take(m - 4));
                }
                let ghost dv = strs_view(out@);
                let name = crate::text::chars_to_string(&stem);
                proof {
                    let rest = sheet_list_spec(fv.skip(i + 1 as int));
                    assert(sheet_list_spec(fv.skip(i as int)) == seq![e@.take(m - 4)] + rest);
                    assert(dv + (seq![stem@] + rest) =~= dv.push(stem@) + rest);
                }
                out.push(name);
                proof {
                    assert(strs_view(out@) =~= dv.push(stem@));
                }
            } else {
                proof {
                    assert(sheet_list_spec(fv.skip(i as int)) == sheet_list_spec(
                        fv.skip(i + 1 as int),
                    ));
                }
            }
        } else {
            proof {
                if fv[i as int].len() > 4 {
                    assert(false);
                }
                assert(sheet_list_spec(fv.skip(i as int)) == sheet_list_spec(
                    fv.skip(i + 1 as int),
                ));
            }
        }
        i = i + 1;
    }
    proof {
        assert(fv.skip(n as int) =~= Seq::<Seq<char>>::empty());
        assert(sheet_list_spec(fv.skip(n as int)) =~= Seq::<Seq<char>>::empty());
        assert(strs_view(out@) + Seq::<Seq<char>>::empty() =~= strs_view(out@));
    }
    out
}

// ------------------------------------------------------------------
// The overwrite-confirmation protocol
// ------------------------------------------------------------------

/// What to do after the first, exclusive attempt to create a sheet:
/// done on success; ask the user on `Io(AlreadyExists)`; any other
/// failure propagates without prompting.
pub enum CreateFlow {
    Done,
    AskOverwrite,
    Fail(BtrError),
}

/// Decides the next step of the overwrite-confirmation protocol from
/// the first attempt's outcome.
pub fn create_sheet_flow(first_attempt: Result<(), BtrError>) -> (r: CreateFlow)
    ensures
        match first_attempt {
            Ok(_) => r is Done,
            Err(e) => if spec_kind(e) == BtrErrorKind::Io(crate::error::IoErrorKind::AlreadyExists) {
                r is AskOverwrite
            } else {
                r matches CreateFlow::Fail(f) && f == e
            },
        },
{
    match first_attempt {
        Ok(_) => CreateFlow::Done,
        Err(e) => {
            let is_exists = match &e {
                BtrError::Io(k) => match k {
                    crate::error::IoErrorKind::AlreadyExists => true,
                    _ => false,
                },
                _ => false,
            };
            if is_exists {
                CreateFlow::AskOverwrite
            } else {
                CreateFlow::Fail(e)
            }
        },
    }
}

/// A user's answer to the overwrite prompt.
#[derive(Clone, Copy, Debug, PartialEq, Eq, Structural)]
pub enum OverwriteAnswer {
    Yes,
    No,
    Unrecognized,
}

/// What a prompt reply means: a lone `y` or `n`, either case, after
/// trimming; anything else asks again.
pub open spec fn overwrite_answer_spec(s: Seq<char>) -> OverwriteAnswer {
    let t = crate::text::trim_spec(s);
    if t.len() == 1 && (t[0] == 'y' || t[0] == 'Y') {
        OverwriteAnswer::Yes
    } else if t.len() == 1 && (t[0] == 'n' || t[0] == 'N') {
        OverwriteAnswer::No
    } else {
        OverwriteAnswer::Unrecognized
    }
}

/// Reads a reply to the overwrite prompt.
pub fn parse_overwrite_answer(input: &str) -> (r: OverwriteAnswer)
    ensures
        r == overwrite_answer_spec(input@),
{
    let chars = crate::text::str_to_chars(input);
    let t = crate::text::trim_chars(&chars);
    if t.len() == 1 && (t[0] == 'y' || t[0] == 'Y') {
        OverwriteAnswer::Yes
    } else if t.len() == 1 && (t[0] == 'n' || t[0] == 'N') {
        OverwriteAnswer::No
    } else {
        OverwriteAnswer::Unrecognized
    }
}

} // verus!
