//! The configuration store: category definitions with their built-in
//! fallback, the persisted interaction state, and the transactional
//! state update that re-persists the whole record after every
//! mutation.

use vstd::prelude::*;

verus! {

use std::collections::VecDeque;

use crate::category::{
    CategoryV, ExpenseCategory, cats_view, decode_categories_spec, default_categories,
    default_categories_spec, parse_categories,
};
use crate::error::{BtrError, BtrErrorKind, spec_kind};
use crate::paths::FileWrite;
use crate::state::{
    StateV, TrackerState, decode_state, decode_state_spec, encode_state, encode_state_spec,
    lemma_state_round_trip, push_history_spec,
};
use crate::text::{chars_eq_str, chars_to_string, str_to_chars, strs_view, trim_chars, trim_spec};

// ------------------------------------------------------------------
// The main configuration file
// ------------------------------------------------------------------
//
// The file may be empty (no external categories file configured), or
// hold `categories=` followed by the path of an external categories
// file. Anything else is invalid.

/// What a main configuration file's text stands for: no pointer, a
/// pointer to a categories file, or nothing (invalid).
pub open spec fn decode_cfg_spec(s: Seq<char>) -> Option<Option<Seq<char>>> {
    let t = trim_spec(s);
    if t.len() == 0 {
        Some(None)
    } else if t.len() >= 11 && t.take(11) == "categories="@ {
        Some(Some(t.skip(11)))
    } else {
        None
    }
}

/// A `~/`-prefixed path resolved against the home directory.
pub open spec fn expand_home_spec(p: Seq<char>, home: Seq<char>) -> Seq<char> {
    if p.len() >= 2 && p[0] == '~' && p[1] == '/' {
        home + "/"@ + p.skip(2)
    } else {
        p
    }
}

/// Reads the optional categories-file pointer out of the main
/// configuration file's text, resolving a leading `~/` against
/// `home`. Fails with `InvalidData` exactly when the text is neither
/// blank nor a pointer.
pub fn categories_path(cfg_text: &str, home: &str) -> (r: Result<Option<String>, BtrError>)
    ensures
        match r {
            Ok(Some(p)) => (decode_cfg_spec(cfg_text@) matches Some(Some(q)) && p@
                == expand_home_spec(q, home@)),
            Ok(None) => decode_cfg_spec(cfg_text@) == Some(None::<Seq<char>>),
            Err(e) => decode_cfg_spec(cfg_text@) is None && spec_kind(e)
                == BtrErrorKind::InvalidData,
        },
{
    let chars = str_to_chars(cfg_text);
    let t = trim_chars(&chars);
    if t.len() == 0 {
        return Ok(None);
    }
    if t.len() < 11 {
        return Err(
            BtrError::InvalidData(Some(String::from_str("Unrecognized configuration."))),
        );
    }
    let mut prefix: Vec<char> = Vec::new();
    let mut i: usize = 0;
    while i < 11
        invariant
            i <= 11,
            t@.len() >= 11,
            prefix@ == t@.take(i as int),
        decreases 11 - i,
    {
        prefix.push(t[i]);
        proof {
            assert(t@.take(i as int).push(t@[i as int]) =~= t@.take(i + 1 as int));
        }
        i = i + 1;
    }
    if !chars_eq_str(&prefix, "categories=") {
        return Err(
            BtrError::InvalidData(Some(String::from_str("Unrecognized configuration."))),
        );
    }
    let mut path: Vec<char> = Vec::new();
    let mut k: usize = 11;
    while k < t.len()
        invariant
            11 <= k <= t@.len(),
            path@ == t@.subrange(11, k as int),
        decreases t@.len() - k,
    {
        path.push(t[k]);
        proof {
            assert(t@.subrange(11, k as int).push(t@[k as int]) =~= t@.subrange(
                11,
                k + 1 as int,
            ));
        }
        k = k + 1;
    }
    proof {
        assert(path@ =~= t@.skip(11));
    }
    if path.len() >= 2 && path[0] == '~' && path[1] == '/' {
        let mut expanded = String::from_str(home);
        expanded.append("/");
        let mut rest: Vec<char> = Vec::new();
        let mut j: usize = 2;
        while j < path.len()
            invariant
                2 <= j <= path@.len(),
                rest@ == path@.subrange(2, j as int),
            decreases path@.len() - j,
        {
            rest.push(path[j]);
            proof {
                assert(path@.subrange(2, j as int).push(path@[j as int]) =~= path@.subrange(
                    2,
                    j + 1 as int,
                ));
            }
            j = j + 1;
        }
        proof {
            assert(rest@ =~= path@.skip(2));
        }
        let rest_s = chars_to_string(&rest);
        expanded.append(rest_s.as_str());
        proof {
            assert(expanded@ == expand_home_spec(t@.skip(11), home@));
        }
        Ok(Some(expanded))
    } else {
        Ok(Some(chars_to_string(&path)))
    }
}

// ------------------------------------------------------------------
// The configuration store
// ------------------------------------------------------------------

/// One mutation of the interaction state: selecting (or clearing) the
/// persisted sheet pointer, or recording a command line in the
/// history.
pub enum StateEdit {
    Select(Option<String>),
    AddHistory(String),
}

/// What a state edit does to the state's value.
pub open spec fn apply_state_edit_spec(v: StateV, e: StateEdit) -> StateV {
    match e {
        StateEdit::Select(p) => StateV {
            selected_sheet: match p {
                Some(s) => Some(s@),
                None => None,
            },
            ..v
        },
        StateEdit::AddHistory(c) => StateV {
            cmd_history: push_history_spec(v.cmd_history, c@),
            ..v
        },
    }
}

/// The loaded configuration: the category list, the interaction
/// state, and where the state is persisted.
#[derive(Debug)]
pub struct TrackerConfig {
    state: TrackerState,
    expenses: Vec<ExpenseCategory>,
    state_file: String,
}

/// The mathematical value of the configuration store.
pub ghost struct ConfigV {
    pub state: StateV,
    pub expenses: Seq<CategoryV>,
    pub state_file: Seq<char>,
}

impl View for TrackerConfig {
    type V = ConfigV;

    closed spec fn view(&self) -> ConfigV {
        ConfigV {
            state: self.state@,
            expenses: cats_view(self.expenses@),
            state_file: self.state_file@,
        }
    }
}

impl TrackerConfig {
    /// Assembles the configuration. `categories_text` is the content
    /// of the configured categories file, or `None` when none is
    /// configured or the configured one is missing: then the built-in
    /// default list is used. `state_text` is the state file's content;
    /// a fresh or malformed one stands for the default state.
    pub fn new(categories_text: Option<&str>, state_text: &str, state_file: String) -> (r: Result<
        TrackerConfig,
        BtrError,
    >)
        ensures
            match r {
                Ok(c) => {
                    &&& c@.state == decode_state_spec(state_text@)
                    &&& c@.state_file == state_file@
                    &&& match categories_text {
                        None => c@.expenses == default_categories_spec(),
                        Some(t) => decode_categories_spec(t@) == Some(c@.expenses),
                    }
                },
                Err(e) => {
                    &&& categories_text matches Some(t) && decode_categories_spec(t@) is None
                    &&& spec_kind(e) == BtrErrorKind::InvalidData
                },
            },
    {
        let expenses = match categories_text {
            Some(t) => match parse_categories(t) {
                Ok(cs) => cs,
                Err(e) => {
                    return Err(e);
                },
            },
            None => default_categories(),
        };
        let state = decode_state(state_text);
        Ok(TrackerConfig { state, expenses, state_file })
    }

    /// Applies one edit to the in-memory state and hands back the
    /// full state file to persist; the written content reads back as
    /// exactly the new state.
    pub fn update_state(&mut self, edit: StateEdit) -> (w: FileWrite)
        ensures
            final(self)@.state == apply_state_edit_spec(old(self)@.state, edit),
            final(self)@.expenses == old(self)@.expenses,
            final(self)@.state_file == old(self)@.state_file,
            w.path@ == old(self)@.state_file,
            w.content@ == encode_state_spec(final(self)@.state),
            decode_state_spec(w.content@) == final(self)@.state,
    {
        match edit {
            StateEdit::Select(p) => {
                self.state.selected_sheet = p;
            },
            StateEdit::AddHistory(c) => {
                self.state.add_cmd_to_history(c);
            },
        }
        let content = encode_state(&self.state);
        proof {
            lemma_state_round_trip(self.state@);
        }
        FileWrite { path: self.state_file.clone(), content }
    }

    /// The persisted sheet selection, for loading at startup.
    pub fn load_active_sheet(&self) -> (r: Option<&String>)
        ensures
            match r {
                Some(p) => self@.state.selected_sheet == Some(p@),
                None => self@.state.selected_sheet is None,
            },
    {
        self.state.selected_sheet.as_ref()
    }

    /// The configured categories, in presentation order.
    pub fn expenses(&self) -> (r: &Vec<ExpenseCategory>)
        ensures
            cats_view(r@) == self@.expenses,
    {
        &self.expenses
    }

    /// The remembered command lines, oldest first.
    pub fn cmd_history(&self) -> (r: &VecDeque<String>)
        ensures
            strs_view(r@) == self@.state.cmd_history,
    {
        &self.state.cmd_history
    }
}

} // verus!
