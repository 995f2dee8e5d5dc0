//! The persisted interaction state: which sheet is selected, and a
//! bounded history of entered command lines, together with its
//! on-disk text form.

use vstd::prelude::*;

verus! {

use std::collections::VecDeque;

use crate::text::{
    chars_eq_str, chars_to_string, escape_chars, escape_spec, join_lines, join_lines_spec,
    lemma_escape_no_newline, lemma_split_join, lemma_unescape_escape, lines_view, split_lines,
    split_lines_spec, str_to_chars, strs_view, unescape_chars, unescape_spec,
};

/// The most entries the command history keeps.
pub const HISTORY_CAP: usize = 100;

/// The persisted interaction state.
#[derive(Debug)]
pub struct TrackerState {
    pub selected_sheet: Option<String>,
    pub cmd_history: VecDeque<String>,
}

/// The mathematical value of the interaction state.
pub ghost struct StateV {
    pub selected_sheet: Option<Seq<char>>,
    pub cmd_history: Seq<Seq<char>>,
}

impl View for TrackerState {
    type V = StateV;

    open spec fn view(&self) -> StateV {
        StateV {
            selected_sheet: match self.selected_sheet {
                Some(ref p) => Some(p@),
                None => None,
            },
            cmd_history: strs_view(self.cmd_history@),
        }
    }
}

/// The state a fresh or unreadable state file stands for: nothing
/// selected, no history.
pub open spec fn default_state_spec() -> StateV {
    StateV { selected_sheet: None, cmd_history: Seq::empty() }
}

/// What recording one command line does to the history: the line is
/// appended unless it repeats the immediately preceding entry, and
/// the oldest entry falls out once the cap is passed.
pub open spec fn push_history_spec(h: Seq<Seq<char>>, c: Seq<char>) -> Seq<Seq<char>> {
    let h1 = if h.len() > 0 && h.last() == c {
        h
    } else {
        h.push(c)
    };
    if h1.len() > HISTORY_CAP {
        h1.drop_first()
    } else {
        h1
    }
}

impl TrackerState {
    /// A fresh state: nothing selected, no history.
    pub fn new() -> (r: TrackerState)
        ensures
            r@ == default_state_spec(),
    {
        let r = TrackerState { selected_sheet: None, cmd_history: VecDeque::new() };
        proof {
            assert(strs_view(r.cmd_history@) =~= Seq::<Seq<char>>::empty());
        }
        r
    }

    /// Records one entered command line in the history.
    pub fn add_cmd_to_history(&mut self, command: String)
        ensures
            final(self)@.selected_sheet == old(self)@.selected_sheet,
            final(self)@.cmd_history == push_history_spec(old(self)@.cmd_history, command@),
    {
        let len = self.cmd_history.len();
        let is_dup = if len > 0 {
            let last = &self.cmd_history[len - 1];
            proof {
                assert(old(self)@.cmd_history.last() == old(self).cmd_history@[len - 1]@);
            }
            *last == command
        } else {
            false
        };
        let ghost h = self@.cmd_history;
        if !is_dup {
            self.cmd_history.push_back(command);
            proof {
                assert(strs_view(self.cmd_history@) =~= h.push(command@));
            }
        }
        let ghost h1 = self@.cmd_history;
        if self.cmd_history.len() > HISTORY_CAP {
            let _dropped = self.cmd_history.pop_front();
            proof {
                assert(strs_view(self.cmd_history@) =~= h1.drop_first());
            }
        }
    }
}

// ------------------------------------------------------------------
// The on-disk text form
// ------------------------------------------------------------------
//
// A state file is line-based: a header line; a selection line that is
// `-` for no selection or `+` followed by the escaped path; and one
// escaped history line per remembered command.

/// The header line of a state file.
pub open spec fn state_header() -> Seq<char> {
    "btr-state-1"@
}

/// The selection line of a state value.
pub open spec fn sel_line(sel: Option<Seq<char>>) -> Seq<char> {
    match sel {
        None => seq!['-'],
        Some(p) => seq!['+'] + escape_spec(p),
    }
}

/// Decodes a selection line.
pub open spec fn decode_sel_spec(l: Seq<char>) -> Option<Option<Seq<char>>> {
    if l.len() == 1 && l[0] == '-' {
        Some(None)
    } else if l.len() >= 1 && l[0] == '+' {
        match unescape_spec(l.drop_first()) {
            Some(p) => Some(Some(p)),
            None => None,
        }
    } else {
        None
    }
}

/// The escaped history lines.
pub open spec fn hist_lines(h: Seq<Seq<char>>) -> Seq<Seq<char>> {
    h.map_values(|c: Seq<char>| escape_spec(c))
}

/// Decodes history lines, one entry per line.
pub open spec fn decode_hist_spec(ls: Seq<Seq<char>>) -> Option<Seq<Seq<char>>>
    decreases ls.len(),
{
    if ls.len() == 0 {
        Some(Seq::empty())
    } else {
        match (unescape_spec(ls[0]), decode_hist_spec(ls.drop_first())) {
            (Some(c), Some(rest)) => Some(seq![c] + rest),
            _ => None,
        }
    }
}

/// All lines of a state file.
pub open spec fn state_lines(v: StateV) -> Seq<Seq<char>> {
    seq![state_header(), sel_line(v.selected_sheet)] + hist_lines(v.cmd_history)
}

/// The text of a state file.
pub open spec fn encode_state_spec(v: StateV) -> Seq<char> {
    join_lines_spec(state_lines(v))
}

/// Decodes a state file's text when it is well formed.
pub open spec fn try_decode_state_spec(s: Seq<char>) -> Option<StateV> {
    let ls = split_lines_spec(s);
    if ls.len() < 2 {
        None
    } else if ls[0] != state_header() {
        None
    } else {
        match (decode_sel_spec(ls[1]), decode_hist_spec(ls.skip(2))) {
            (Some(sel), Some(h)) => Some(StateV { selected_sheet: sel, cmd_history: h }),
            _ => None,
        }
    }
}

/// The state a file's text stands for: a malformed or fresh file
/// stands for the default state. Reading the state never fails.
pub open spec fn decode_state_spec(s: Seq<char>) -> StateV {
    match try_decode_state_spec(s) {
        Some(v) => v,
        None => default_state_spec(),
    }
}

/// Decoding undoes encoding for every state value.
pub proof fn lemma_state_round_trip(v: StateV)
    ensures
        try_decode_state_spec(encode_state_spec(v)) == Some(v),
        decode_state_spec(encode_state_spec(v)) == v,
{
    let lines = state_lines(v);
    reveal_strlit("btr-state-1");
    lemma_escape_no_newline(v.cmd_history.last());
    assert(lines.len() == 2 + v.cmd_history.len());
    assert forall|i: int, j: int|
        0 <= i < lines.len() && 0 <= j < lines[i].len() implies lines[i][j] != '\n' by {
        if i == 0 {
        } else if i == 1 {
            match v.selected_sheet {
                Some(p) => {
                    lemma_escape_no_newline(p);
                    assert(lines[1] == seq!['+'] + escape_spec(p));
                    if j > 0 {
                        assert(lines[1][j] == escape_spec(p)[j - 1]);
                    }
                },
                None => {},
            }
        } else {
            assert(lines[i] == hist_lines(v.cmd_history)[i - 2]);
            assert(lines[i] == escape_spec(v.cmd_history[i - 2]));
            lemma_escape_no_newline(v.cmd_history[i - 2]);
        }
    }
    lemma_split_join(lines);
    let ls = split_lines_spec(encode_state_spec(v));
    assert(ls == lines);
    assert(ls[0] == state_header());
    assert(ls[1] == sel_line(v.selected_sheet));
    match v.selected_sheet {
        Some(p) => {
            lemma_unescape_escape(p);
            assert(ls[1].len() >= 1 && ls[1][0] == '+');
            assert(ls[1].drop_first() =~= escape_spec(p));
            assert(decode_sel_spec(ls[1]) == Some(Some(p)));
        },
        None => {
            assert(decode_sel_spec(ls[1]) == Some(None::<Seq<char>>));
        },
    }
    assert(ls.skip(2) =~= hist_lines(v.cmd_history));
    lemma_decode_hist_round_trip(v.cmd_history);
    assert(try_decode_state_spec(encode_state_spec(v)) == Some(
        StateV { selected_sheet: v.selected_sheet, cmd_history: v.cmd_history },
    ));
}

/// Decoding undoes encoding for the history lines.
pub proof fn lemma_decode_hist_round_trip(h: Seq<Seq<char>>)
    ensures
        decode_hist_spec(hist_lines(h)) == Some(h),
    decreases h.len(),
{
    if h.len() == 0 {
        assert(hist_lines(h) =~= Seq::<Seq<char>>::empty());
        assert(Seq::<Seq<char>>::empty() =~= h);
    } else {
        let ls = hist_lines(h);
        assert(ls[0] == escape_spec(h[0]));
        lemma_unescape_escape(h[0]);
        assert(ls.drop_first() =~= hist_lines(h.drop_first()));
        lemma_decode_hist_round_trip(h.drop_first());
        assert(decode_hist_spec(ls) == Some(seq![h[0]] + h.drop_first()));
        assert(seq![h[0]] + h.drop_first() =~= h);
    }
}

/// Writes a state into its on-disk text form.
pub fn encode_state(st: &TrackerState) -> (r: String)
    ensures
        r@ == encode_state_spec(st@),
{
    let mut lines: Vec<Vec<char>> = Vec::new();
    lines.push(str_to_chars("btr-state-1"));
    let sel: Vec<char> = match &st.selected_sheet {
        None => {
            let mut l: Vec<char> = Vec::new();
            l.push('-');
            proof {
                assert(l@ =~= sel_line(st@.selected_sheet));
            }
            l
        },
        Some(p) => {
            let mut l: Vec<char> = Vec::new();
            l.push('+');
            let pc = str_to_chars(p.as_str());
            let esc = escape_chars(&pc);
            crate::text::push_all(&mut l, &esc);
            proof {
                assert(l@ =~= sel_line(st@.selected_sheet));
            }
            l
        },
    };
    lines.push(sel);
    let ghost hv = st@.cmd_history;
    let n = st.cmd_history.len();
    proof {
        assert(hv.take(0).map_values(|c: Seq<char>| escape_spec(c)) =~= Seq::<Seq<char>>::empty());
        assert(lines_view(lines@) =~= seq![state_header(), sel_line(st@.selected_sheet)]
            + hist_lines(hv.take(0)));
    }
    let mut i: usize = 0;
    while i < n
        invariant
            i <= n,
            n == st.cmd_history@.len(),
            hv == strs_view(st.cmd_history@),
            lines_view(lines@) == seq![state_header(), sel_line(st@.selected_sheet)] + hist_lines(
                hv.take(i as int),
            ),
        decreases n - i,
    {
        let ghost lv = lines_view(lines@);
        let entry = &st.cmd_history[i];
        proof {
            assert(entry@ == hv[i as int]);
        }
        let ec = str_to_chars(entry.as_str());
        lines.push(escape_chars(&ec));
        proof {
            assert(hv.take(i + 1 as int) =~= hv.take(i as int).push(hv[i as int]));
            assert(hist_lines(hv.take(i as int).push(hv[i as int])) =~= hist_lines(
                hv.take(i as int),
            ).push(escape_spec(hv[i as int])));
            assert(lines_view(lines@) =~= lv.push(escape_spec(hv[i as int])));
            assert(lv.push(escape_spec(hv[i as int])) =~= seq![
                state_header(),
                sel_line(st@.selected_sheet),
            ] + hist_lines(hv.take(i + 1 as int)));
        }
        i = i + 1;
    }
    proof {
        assert(hv.take(n as int) =~= hv);
        assert(lines_view(lines@) == state_lines(st@));
    }
    let joined = join_lines(&lines);
    chars_to_string(&joined)
}

/// Joins already-decoded history with the rest still to decode.
pub open spec fn hist_join(pre: Seq<Seq<char>>, rest: Option<Seq<Seq<char>>>) -> Option<
    Seq<Seq<char>>,
> {
    match rest {
        Some(t) => Some(pre + t),
        None => None,
    }
}

/// Reads a state back from a state file's text. A malformed or fresh
/// file reads as the default state; this operation never fails.
pub fn decode_state(text: &str) -> (r: TrackerState)
    ensures
        r@ == decode_state_spec(text@),
{
    let chars = str_to_chars(text);
    let lines = split_lines(&chars);
    let ghost ls = split_lines_spec(text@);
    let n = lines.len();
    if n < 2 {
        return TrackerState::new();
    }
    if !chars_eq_str(&lines[0], "btr-state-1") {
        return TrackerState::new();
    }
    let sline = &lines[1];
    let sel: Option<String> = if sline.len() == 1 && sline[0] == '-' {
        None
    } else if sline.len() >= 1 && sline[0] == '+' {
        let mut rest_chars: Vec<char> = Vec::new();
        let mut k: usize = 1;
        while k < sline.len()
            invariant
                1 <= k <= sline@.len(),
                rest_chars@ == sline@.subrange(1, k as int),
            decreases sline@.len() - k,
        {
            rest_chars.push(sline[k]);
            proof {
                assert(sline@.subrange(1, k as int).push(sline@[k as int]) =~= sline@.subrange(
                    1,
                    k + 1 as int,
                ));
            }
            k = k + 1;
        }
        proof {
            assert(rest_chars@ =~= sline@.drop_first());
        }
        match unescape_chars(&rest_chars) {
            Some(p) => Some(chars_to_string(&p)),
            None => {
                proof {
                    assert(decode_sel_spec(ls[1]) is None);
                }
                return TrackerState::new();
            },
        }
    } else {
        proof {
            assert(decode_sel_spec(ls[1]) is None);
        }
        return TrackerState::new();
    };
    let ghost selv: Option<Seq<char>> = match sel {
        Some(ref p) => Some(p@),
        None => None,
    };
    proof {
        assert(decode_sel_spec(ls[1]) == Some(selv));
    }
    let mut hist: VecDeque<String> = VecDeque::new();
    let mut i: usize = 2;
    proof {
        assert(ls.skip(2).skip(0) =~= ls.skip(2));
        assert(strs_view(hist@) =~= Seq::<Seq<char>>::empty());
        match decode_hist_spec(ls.skip(2)) {
            Some(t) => {
                assert(strs_view(hist@) + t =~= t);
            },
            None => {},
        }
    }
    while i < n
        invariant
            2 <= i <= n,
            n == lines@.len(),
            lines_view(lines@) == ls,
            ls == split_lines_spec(text@),
            ls[0] == state_header(),
            decode_sel_spec(ls[1]) == Some(selv),
            selv == (match sel {
                Some(ref p) => Some(p@),
                None => None::<Seq<char>>,
            }),
            decode_hist_spec(ls.skip(2)) == hist_join(
                strs_view(hist@),
                decode_hist_spec(ls.skip(i as int)),
            ),
        decreases n - i,
    {
        let ghost rem = ls.skip(i as int);
        proof {
            assert(rem[0] == ls[i as int]);
            assert(lines@[i as int]@ == ls[i as int]);
            assert(rem.drop_first() =~= ls.skip(i + 1 as int));
        }
        let entry = match unescape_chars(&lines[i]) {
            Some(c) => c,
            None => {
                proof {
                    assert(decode_hist_spec(rem) is None);
                }
                return TrackerState::new();
            },
        };
        let ghost dv = strs_view(hist@);
        let ghost cv = entry@;
        proof {
            match decode_hist_spec(ls.skip(i + 1 as int)) {
                Some(t) => {
                    assert(dv + (seq![cv] + t) =~= dv.push(cv) + t);
                },
                None => {},
            }
        }
        hist.push_back(chars_to_string(&entry));
        proof {
            assert(strs_view(hist@) =~= dv.push(cv));
        }
        i = i + 1;
    }
    proof {
        assert(ls.skip(n as int) =~= Seq::<Seq<char>>::empty());
        assert(decode_hist_spec(ls.skip(n as int)) == Some(Seq::<Seq<char>>::empty()));
        assert(strs_view(hist@) + Seq::<Seq<char>>::empty() =~= strs_view(hist@));
    }
    TrackerState { selected_sheet: sel, cmd_history: hist }
}

} // verus!
