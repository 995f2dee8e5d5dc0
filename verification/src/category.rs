//! Expense categories: named classifications sourced from
//! configuration, with a built-in default list, and the decoder for an
//! external categories file.

use vstd::prelude::*;

verus! {

use crate::error::{BtrError, BtrErrorKind, spec_kind};
use crate::text::{
    lines_view, split_lines, split_lines_spec, str_to_chars, unescape_chars, unescape_spec,
};

/// A named classification for expenses, with an optional description.
/// Order among categories is significant: it is the presentation and
/// selection order.
#[derive(Debug)]
pub struct ExpenseCategory {
    pub name: String,
    pub description: Option<String>,
}

/// The mathematical value of a category.
pub ghost struct CategoryV {
    pub name: Seq<char>,
    pub description: Option<Seq<char>>,
}

impl View for ExpenseCategory {
    type V = CategoryV;

    open spec fn view(&self) -> CategoryV {
        CategoryV {
            name: self.name@,
            description: match self.description {
                Some(d) => Some(d@),
                None => None,
            },
        }
    }
}

/// The views of a list of categories.
pub open spec fn cats_view(cs: Seq<ExpenseCategory>) -> Seq<CategoryV> {
    cs.map_values(|c: ExpenseCategory| c@)
}

/// The built-in default category list, used whenever no external
/// categories file is configured or the configured one is missing.
pub open spec fn default_categories_spec() -> Seq<CategoryV> {
    seq![
        CategoryV { name: "Groceries"@, description: Some("Groceries and dining"@) },
        CategoryV {
            name: "Cafe && Bar"@,
            description: Some("Coffee shops, bars, and related expenses"@),
        },
        CategoryV {
            name: "Transport"@,
            description: Some("Public transport tickets, taxi expenses"@),
        },
    ]
}

/// The built-in default category list.
pub fn default_categories() -> (r: Vec<ExpenseCategory>)
    ensures
        cats_view(r@) == default_categories_spec(),
        r@.len() == 3,
{
    let mut r: Vec<ExpenseCategory> = Vec::new();
    r.push(
        ExpenseCategory {
            name: String::from_str("Groceries"),
            description: Some(String::from_str("Groceries and dining")),
        },
    );
    r.push(
        ExpenseCategory {
            name: String::from_str("Cafe && Bar"),
            description: Some(String::from_str("Coffee shops, bars, and related expenses")),
        },
    );
    r.push(
        ExpenseCategory {
            name: String::from_str("Transport"),
            description: Some(String::from_str("Public transport tickets, taxi expenses")),
        },
    );
    proof {
        assert(cats_view(r@) =~= default_categories_spec());
    }
    r
}

// ------------------------------------------------------------------
// The categories file
// ------------------------------------------------------------------
//
// The file is line-based: a header line, then two lines per category.
// A category's first line is its escaped name; its second line is `-`
// for no description, or `+` followed by the escaped description.

/// The header line of a categories file.
pub open spec fn categories_header() -> Seq<char> {
    "btr-categories-1"@
}

/// Decodes a description line.
pub open spec fn decode_desc_spec(l: Seq<char>) -> Option<Option<Seq<char>>> {
    if l.len() == 1 && l[0] == '-' {
        Some(None)
    } else if l.len() >= 1 && l[0] == '+' {
        match unescape_spec(l.drop_first()) {
            Some(d) => Some(Some(d)),
            None => None,
        }
    } else {
        None
    }
}

/// Decodes the category lines that follow the header: two lines per
/// category.
pub open spec fn decode_category_lines_spec(ls: Seq<Seq<char>>) -> Option<Seq<CategoryV>>
    decreases ls.len(),
{
    if ls.len() == 0 {
        Some(Seq::empty())
    } else if ls.len() == 1 {
        None
    } else {
        match (unescape_spec(ls[0]), decode_desc_spec(ls[1])) {
            (Some(name), Some(desc)) => match decode_category_lines_spec(ls.skip(2)) {
                Some(rest) => Some(seq![CategoryV { name, description: desc }] + rest),
                None => None,
            },
            _ => None,
        }
    }
}

/// Decodes a whole categories file.
pub open spec fn decode_categories_spec(s: Seq<char>) -> Option<Seq<CategoryV>> {
    let ls = split_lines_spec(s);
    if ls[0] != categories_header() {
        None
    } else {
        decode_category_lines_spec(ls.drop_first())
    }
}

/// Joins already-decoded categories with the rest still to decode.
pub open spec fn cats_join(pre: Seq<CategoryV>, rest: Option<Seq<CategoryV>>) -> Option<
    Seq<CategoryV>,
> {
    match rest {
        Some(t) => Some(pre + t),
        None => None,
    }
}

/// Parses the text of an external categories file. Fails with
/// `InvalidData` exactly when the text is not a well-formed categories
/// file.
pub fn parse_categories(text: &str) -> (r: Result<Vec<ExpenseCategory>, BtrError>)
    ensures
        match r {
            Ok(cs) => decode_categories_spec(text@) == Some(cats_view(cs@)),
            Err(e) => decode_categories_spec(text@) is None && spec_kind(e)
                == BtrErrorKind::InvalidData,
        },
{
    let chars = str_to_chars(text);
    let lines = split_lines(&chars);
    let ghost ls = split_lines_spec(text@);
    if !crate::text::chars_eq_str(&lines[0], "btr-categories-1") {
        return Err(
            BtrError::InvalidData(Some(String::from_str("Not a categories file."))),
        );
    }
    let mut out: Vec<ExpenseCategory> = Vec::new();
    let mut i: usize = 1;
    let n = lines.len();
    proof {
        assert(ls.drop_first() =~= ls.skip(1));
        match decode_category_lines_spec(ls.skip(1)) {
            Some(t) => {
                assert(cats_view(out@) + t =~= t);
            },
            None => {},
        }
    }
    while i < n
        invariant
            1 <= i <= n,
            n == lines@.len(),
            lines_view(lines@) == ls,
            ls == split_lines_spec(text@),
            ls[0] == categories_header(),
            decode_category_lines_spec(ls.drop_first()) == cats_join(
                cats_view(out@),
                decode_category_lines_spec(ls.skip(i as int)),
            ),
        decreases n - i,
    {
        let ghost rem = ls.skip(i as int);
        proof {
            assert(rem[0] == ls[i as int]);
            assert(lines@[i as int]@ == ls[i as int]);
        }
        if i + 1 >= n {
            proof {
                assert(rem.len() == 1);
                assert(decode_category_lines_spec(rem) is None);
            }
            return Err(
                BtrError::InvalidData(Some(String::from_str("Truncated categories file."))),
            );
        }
        proof {
            assert(rem[1] == ls[i + 1]);
            assert(lines@[i + 1]@ == ls[i + 1]);
            assert(rem.skip(2) =~= ls.skip(i + 2));
        }
        let name = match unescape_chars(&lines[i]) {
            Some(nm) => nm,
            None => {
                return Err(
                    BtrError::InvalidData(Some(String::from_str("Bad category name."))),
                );
            },
        };
        let dline = &lines[i + 1];
        let desc: Option<String> = if dline.len() == 1 && dline[0] == '-' {
            None
        } else if dline.len() >= 1 && dline[0] == '+' {
            let mut rest_chars: Vec<char> = Vec::new();
            let mut k: usize = 1;
            while k < dline.len()
                invariant
                    1 <= k <= dline@.len(),
                    rest_chars@ == dline@.subrange(1, k as int),
                decreases dline@.len() - k,
            {
                rest_chars.push(dline[k]);
                proof {
                    assert(dline@.subrange(1, k as int).push(dline@[k as int]) =~= dline@.subrange(
                        1,
                        k + 1 as int,
                    ));
                }
                k = k + 1;
            }
            proof {
                assert(rest_chars@ =~= dline@.drop_first());
            }
            match unescape_chars(&rest_chars) {
                Some(d) => Some(crate::text::chars_to_string(&d)),
                None => {
                    return Err(
                        BtrError::InvalidData(
                            Some(String::from_str("Bad category description.")),
                        ),
                    );
                },
            }
        } else {
            proof {
                assert(decode_desc_spec(rem[1]) is None);
            }
            return Err(
                BtrError::InvalidData(Some(String::from_str("Bad category description."))),
            );
        };
        let ghost dv = cats_view(out@);
        let ghost cv = CategoryV {
            name: name@,
            description: match desc {
                Some(ref d) => Some(d@),
                None => None,
            },
        };
        proof {
            assert(decode_desc_spec(rem[1]) == Some(cv.description));
            assert(unescape_spec(rem[0]) == Some(cv.name));
            match decode_category_lines_spec(ls.skip(i + 2)) {
                Some(t) => {
                    assert(dv + (seq![cv] + t) =~= dv.push(cv) + t);
                },
                None => {},
            }
        }
        let cat = ExpenseCategory { name: crate::text::chars_to_string(&name), description: desc };
        proof {
            assert(cat@ == cv);
        }
        out.push(cat);
        proof {
            assert(cats_view(out@) =~= dv.push(cv));
        }
        i = i + 2;
    }
    proof {
        assert(ls.skip(n as int) =~= Seq::<Seq<char>>::empty());
        assert(decode_category_lines_spec(ls.skip(n as int)) == Some(Seq::<CategoryV>::empty()));
        assert(cats_view(out@) + Seq::<CategoryV>::empty() =~= cats_view(out@));
    }
    Ok(out)
}

} // verus!
