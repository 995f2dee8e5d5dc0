//! Small decisions behind the interactive prompts: validating numeric
//! choices, deriving sheet names, picking the select argument, and
//! stepping through the command history.

use vstd::prelude::*;

verus! {

use crate::text::{
    chars_to_string, i32_dec, i32_to_chars, parse_u64_range, parse_u64_spec, push_all,
    str_to_chars, strs_view, trim_chars, trim_spec, u64_dec, u64_to_chars,
};

/// The category a user's reply picks, as an index into a list of `n`
/// categories: the reply must be a number from 1 to `n`, and picks the
/// category one below it.
pub open spec fn category_choice_spec(s: Seq<char>, n: int) -> Option<usize> {
    match parse_u64_spec(trim_spec(s)) {
        Some(v) => if 1 <= v && v <= n {
            Some((v - 1) as usize)
        } else {
            None
        },
        None => None,
    }
}

/// Reads a category choice from 1 to `n`.
pub fn parse_category_choice(input: &str, n: usize) -> (r: Option<usize>)
    ensures
        r == category_choice_spec(input@, n as int),
        r matches Some(i) ==> i < n,
{
    let chars = str_to_chars(input);
    let t = trim_chars(&chars);
    proof {
        assert(t@.skip(0) =~= t@);
    }
    match parse_u64_range(&t, 0) {
        Some(v) => {
            if 1 <= v && v <= n as u64 {
                Some((v - 1) as usize)
            } else {
                None
            }
        },
        None => None,
    }
}

/// The index a user's reply picks out of a list of `len` entries: the
/// reply must be a number below `len`.
pub open spec fn index_choice_spec(s: Seq<char>, len: int) -> Option<usize> {
    match parse_u64_spec(trim_spec(s)) {
        Some(v) => if v < len {
            Some(v as usize)
        } else {
            None
        },
        None => None,
    }
}

/// Reads an index choice below `len`.
pub fn parse_index_choice(input: &str, len: usize) -> (r: Option<usize>)
    ensures
        r == index_choice_spec(input@, len as int),
        r matches Some(i) ==> i < len,
{
    let chars = str_to_chars(input);
    let t = trim_chars(&chars);
    proof {
        assert(t@.skip(0) =~= t@);
    }
    match parse_u64_range(&t, 0) {
        Some(v) => {
            if v < len as u64 {
                Some(v as usize)
            } else {
                None
            }
        },
        None => None,
    }
}

/// The default name of a sheet for month `m` of year `y`: the
/// zero-padded month, a dash, and the year.
pub open spec fn default_sheet_name_spec(m: int, y: int) -> Seq<char> {
    (if m < 10 {
        seq!['0']
    } else {
        Seq::empty()
    }) + u64_dec(m) + seq!['-'] + i32_dec(y)
}

/// The default sheet name for month `m` of year `y`.
pub fn default_sheet_name(m: u8, y: i32) -> (r: String)
    ensures
        r@ == default_sheet_name_spec(m as int, y as int),
{
    let mut v: Vec<char> = Vec::new();
    if m < 10 {
        v.push('0');
    }
    let mchars = u64_to_chars(m as u64);
    push_all(&mut v, &mchars);
    v.push('-');
    let ychars = i32_to_chars(y);
    push_all(&mut v, &ychars);
    proof {
        assert(v@ =~= default_sheet_name_spec(m as int, y as int));
    }
    chars_to_string(&v)
}

/// The sheet name the `add sheet` tokens ask for: the words after
/// `add sheet`, joined with spaces, when any are given.
pub open spec fn custom_sheet_name_spec(toks: Seq<Seq<char>>) -> Option<Seq<char>> {
    if toks.len() > 2 {
        Some(crate::text::join_words_spec(toks.skip(2)))
    } else {
        None
    }
}

/// The custom sheet name given after `add sheet`, when any.
pub fn custom_sheet_name(tokens: &Vec<String>) -> (r: Option<String>)
    ensures
        match r {
            Some(s) => custom_sheet_name_spec(strs_view(tokens@)) == Some(s@),
            None => custom_sheet_name_spec(strs_view(tokens@)) is None,
        },
{
    if tokens.len() > 2 {
        let joined = crate::text::join_words(tokens, 2);
        Some(joined)
    } else {
        None
    }
}

/// The sheet name a `select` line names: exactly one word after
/// `select`.
pub fn select_arg(tokens: &Vec<String>) -> (r: Option<&String>)
    ensures
        match r {
            Some(s) => tokens@.len() == 2 && s@ == strs_view(tokens@)[1],
            None => tokens@.len() != 2,
        },
{
    if tokens.len() == 2 {
        Some(&tokens[1])
    } else {
        None
    }
}

/// One step backwards through a history of `len` entries: from the
/// live line to the newest entry, then towards the oldest, stopping
/// there.
pub fn history_up(idx: Option<usize>, len: usize) -> (r: Option<usize>)
    requires
        len > 0,
        idx matches Some(i) ==> i < len,
    ensures
        match idx {
            None => r == Some((len - 1) as usize),
            Some(i) => r == Some(if i == 0 {
                0usize
            } else {
                (i - 1) as usize
            }),
        },
        r matches Some(i) ==> i < len,
{
    match idx {
        None => Some(len - 1),
        Some(i) => if i == 0 {
            Some(0)
        } else {
            Some(i - 1)
        },
    }
}

/// One step forwards through a history of `len` entries: towards the
/// newest entry, then back to the live line.
pub fn history_down(idx: Option<usize>, len: usize) -> (r: Option<usize>)
    requires
        idx matches Some(i) ==> i < len,
    ensures
        match idx {
            None => r is None,
            Some(i) => if i + 1 < len {
                r == Some((i + 1) as usize)
            } else {
                r is None
            },
        },
        r matches Some(i) ==> i < len,
{
    match idx {
        None => None,
        Some(i) => if i + 1 < len {
            Some(i + 1)
        } else {
            None
        },
    }
}

} // verus!
