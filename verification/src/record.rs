//! A single expense record: a category name, an amount, and the date
//! it was logged on. Amounts are held in cents, so the library's
//! arithmetic stays exact.

use vstd::prelude::*;

verus! {

use crate::dates::{Date, valid_date};
use crate::text::{
    all_digits, digits_val, find_char, find_char_in, is_digit_char, lemma_digits_val_nonneg,
    parse_u64_range, parse_u64_spec, trim_chars, trim_spec,
};

/// One logged expense. `amount_cents` holds the amount in hundredths
/// of the currency unit.
#[derive(Debug)]
pub struct ExpenseRecord {
    category: String,
    amount_cents: u64,
    logged_on: Date,
}

/// The mathematical value of a record.
pub ghost struct RecordV {
    pub category: Seq<char>,
    pub amount_cents: u64,
    pub logged_on: Date,
}

impl View for ExpenseRecord {
    type V = RecordV;

    closed spec fn view(&self) -> RecordV {
        RecordV {
            category: self.category@,
            amount_cents: self.amount_cents,
            logged_on: self.logged_on,
        }
    }
}

/// A record is well formed when its date is a valid calendar date.
pub open spec fn wf_record_v(r: RecordV) -> bool {
    valid_date(r.logged_on)
}

/// The views of a list of records.
pub open spec fn records_view(rs: Seq<ExpenseRecord>) -> Seq<RecordV> {
    rs.map_values(|r: ExpenseRecord| r@)
}

impl ExpenseRecord {
    /// Builds a record from its parts.
    pub fn new(category: String, amount_cents: u64, logged_on: Date) -> (r: ExpenseRecord)
        ensures
            r@ == (RecordV { category: category@, amount_cents, logged_on }),
    {
        ExpenseRecord { category, amount_cents, logged_on }
    }

    /// The category this expense was logged under.
    pub fn category(&self) -> (r: &String)
        ensures
            r@ == self@.category,
    {
        &self.category
    }

    /// The amount spent, in cents.
    pub fn amount(&self) -> (r: u64)
        ensures
            r == self@.amount_cents,
    {
        self.amount_cents
    }

    /// The date the expense was logged on.
    pub fn logged_on(&self) -> (r: Date)
        ensures
            r == self@.logged_on,
    {
        self.logged_on
    }
}

// ------------------------------------------------------------------
// Amount entry
// ------------------------------------------------------------------

/// The amount, in cents, that a trimmed input line denotes: a nonempty
/// digit run, optionally followed by a point and one or two fraction
/// digits. Zero and values that do not fit are rejected.
pub open spec fn parse_amount_spec(s: Seq<char>) -> Option<u64> {
    let t = trim_spec(s);
    let dot = find_char(t, '.');
    if dot == -1 {
        match parse_u64_spec(t) {
            Some(v) => if v > 0 && v <= u64::MAX as int / 100 {
                Some((v * 100) as u64)
            } else {
                None
            },
            None => None,
        }
    } else {
        let whole = t.take(dot);
        let frac = t.skip(dot + 1);
        if whole.len() >= 1 && 1 <= frac.len() <= 2 && all_digits(whole) && all_digits(frac) {
            let f = if frac.len() == 1 {
                digits_val(frac) * 10
            } else {
                digits_val(frac)
            };
            let v = digits_val(whole) * 100 + f;
            if v > 0 && v <= u64::MAX {
                Some(v as u64)
            } else {
                None
            }
        } else {
            None
        }
    }
}

/// Parses an amount entered by the user, giving cents.
#[verifier::loop_isolation(false)]
pub fn parse_amount(input: &str) -> (r: Option<u64>)
    ensures
        r == parse_amount_spec(input@),
{
    let chars = crate::text::str_to_chars(input);
    let t = trim_chars(&chars);
    let ghost tv = trim_spec(input@);
    match find_char_in(&t, '.') {
        None => {
            let ghost z = t@.skip(0);
            proof {
                assert(z =~= tv);
            }
            match parse_u64_range(&t, 0) {
                Some(v) => {
                    if v > 0 && v <= u64::MAX / 100 {
                        Some(v * 100)
                    } else {
                        None
                    }
                },
                None => None,
            }
        },
        Some(dot) => {
            let ghost whole = tv.take(dot as int);
            let ghost frac = tv.skip(dot as int + 1);
            let n = t.len();
            if dot == 0 {
                proof {
                    assert(whole.len() == 0);
                }
                return None;
            }
            if n - dot - 1 < 1 || n - dot - 1 > 2 {
                proof {
                    assert(frac.len() == n - dot - 1);
                }
                return None;
            }
            // The whole part: digits up to the dot.
            let mut i: usize = 0;
            let mut wv: u64 = 0;
            while i < dot
                invariant
                    i <= dot < n,
                    n == t@.len(),
                    tv == t@,
                    whole == tv.take(dot as int),
                    all_digits(whole.take(i as int)),
                    wv as int == digits_val(whole.take(i as int)),
                decreases dot - i,
            {
                proof {
                    assert(whole[i as int] == t@[i as int]);
                    assert(whole.take(i + 1 as int).drop_last() =~= whole.take(i as int));
                    assert(whole.take(i + 1 as int).last() == whole[i as int]);
                }
                match crate::text::char_to_digit(t[i]) {
                    None => {
                        proof {
                            assert(!is_digit_char(whole[i as int]));
                        }
                        return None;
                    },
                    Some(dv) => {
                        if wv > (u64::MAX - dv) / 10 {
                            proof {
                                assert(digits_val(whole.take(i + 1 as int)) == wv as int * 10
                                    + dv as int);
                                assert(wv as int * 10 + dv as int > u64::MAX) by {
                                    assert(wv as int >= (u64::MAX - dv) as int / 10 + 1);
                                }
                                if all_digits(whole) && all_digits(frac) {
                                    crate::text::lemma_digits_val_prefix_le(whole, i + 1 as int);
                                    assert(digits_val(whole) > u64::MAX);
                                    lemma_digits_val_nonneg(whole);
                                    lemma_digits_val_nonneg(frac);
                                    assert(digits_val(whole) * 100 > u64::MAX);
                                }
                            }
                            return None;
                        }
                        proof {
                            assert(wv as int * 10 + dv as int <= u64::MAX) by {
                                assert(wv as int <= (u64::MAX - dv) as int / 10);
                            }
                        }
                        wv = wv * 10 + dv;
                    },
                }
                i = i + 1;
            }
            proof {
                assert(whole.take(dot as int) =~= whole);
            }
            // The fraction part: one or two digits after the dot.
            let mut f: u64 = 0;
            let mut k: usize = dot + 1;
            while k < n
                invariant
                    dot + 1 <= k <= n,
                    n == t@.len(),
                    tv == t@,
                    frac == tv.skip(dot as int + 1),
                    frac.len() == n - dot - 1,
                    n - dot - 1 <= 2,
                    all_digits(frac.take(k - dot - 1)),
                    f as int == digits_val(frac.take(k - dot - 1)),
                    k - dot - 1 == 0 ==> f == 0,
                    k - dot - 1 == 1 ==> f <= 9,
                    k - dot - 1 == 2 ==> f <= 99,
                decreases n - k,
            {
                proof {
                    assert(frac[k - dot - 1] == t@[k as int]);
                    assert(frac.take(k - dot) .drop_last() =~= frac.take(k - dot - 1));
                    assert(frac.take(k - dot).last() == frac[k - dot - 1]);
                }
                match crate::text::char_to_digit(t[k]) {
                    None => {
                        proof {
                            assert(!is_digit_char(frac[k - dot - 1]));
                        }
                        return None;
                    },
                    Some(dv) => {
                        f = f * 10 + dv;
                    },
                }
                k = k + 1;
            }
            proof {
                assert(frac.take(n - dot - 1) =~= frac);
            }
            let fr: u64 = if n - dot - 1 == 1 {
                f * 10
            } else {
                f
            };
            proof {
                lemma_digits_val_nonneg(whole);
            }
            if wv > (u64::MAX - fr) / 100 {
                proof {
                    assert(wv as int * 100 + fr as int > u64::MAX) by {
                        assert(wv as int >= (u64::MAX - fr) as int / 100 + 1);
                    }
                }
                return None;
            }
            proof {
                assert(wv as int * 100 + fr as int <= u64::MAX) by {
                    assert(wv as int <= (u64::MAX - fr) as int / 100);
                }
            }
            let v = wv * 100 + fr;
            if v > 0 {
                Some(v)
            } else {
                None
            }
        },
    }
}

} // verus!
