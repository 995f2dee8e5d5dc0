//! Reporting: per-category spending aggregated from a sheet's records,
//! sorted by total, and the text rows the reports are printed from.

use vstd::prelude::*;

verus! {

use vstd::multiset::Multiset;

use crate::record::{ExpenseRecord, RecordV, records_view};
use crate::text::{chars_to_string, digit_char, push_all, str_eq, str_to_chars, strs_view, u64_dec, u64_to_chars};

/// The spending recorded under one category: the sum of its amounts,
/// in cents, and how many records it has.
#[derive(Debug)]
pub struct CategoryStat {
    pub name: String,
    pub total_cents: u128,
    pub count: usize,
}

/// The mathematical value of a category's spending.
pub ghost struct StatV {
    pub name: Seq<char>,
    pub total_cents: int,
    pub count: int,
}

impl View for CategoryStat {
    type V = StatV;

    open spec fn view(&self) -> StatV {
        StatV { name: self.name@, total_cents: self.total_cents as int, count: self.count as int }
    }
}

/// The views of a list of stats.
pub open spec fn stats_view(ss: Seq<CategoryStat>) -> Seq<StatV> {
    ss.map_values(|s: CategoryStat| s@)
}

/// The names of a list of stats, in order.
pub open spec fn stat_names(sv: Seq<StatV>) -> Seq<Seq<char>> {
    sv.map_values(|s: StatV| s.name)
}

/// The cents spent under category `c` across the records.
pub open spec fn total_for(rs: Seq<RecordV>, c: Seq<char>) -> int
    decreases rs.len(),
{
    if rs.len() == 0 {
        0
    } else {
        total_for(rs.drop_last(), c) + if rs.last().category == c {
            rs.last().amount_cents as int
        } else {
            0
        }
    }
}

/// How many records are logged under category `c`.
pub open spec fn count_for(rs: Seq<RecordV>, c: Seq<char>) -> int
    decreases rs.len(),
{
    if rs.len() == 0 {
        0
    } else {
        count_for(rs.drop_last(), c) + if rs.last().category == c {
            1int
        } else {
            0
        }
    }
}

/// The cents spent across all the records.
pub open spec fn sum_cents(rs: Seq<RecordV>) -> int
    decreases rs.len(),
{
    if rs.len() == 0 {
        0
    } else {
        sum_cents(rs.drop_last()) + rs.last().amount_cents as int
    }
}

/// The categories the records mention, in order of first appearance.
pub open spec fn distinct_cats(rs: Seq<RecordV>) -> Seq<Seq<char>>
    decreases rs.len(),
{
    if rs.len() == 0 {
        Seq::empty()
    } else {
        let rest = distinct_cats(rs.drop_last());
        if rest.contains(rs.last().category) {
            rest
        } else {
            rest.push(rs.last().category)
        }
    }
}

/// A category's total never exceeds the whole sum, so its share of
/// the grand total is at most one.
pub proof fn lemma_total_le_sum(rs: Seq<RecordV>, c: Seq<char>)
    ensures
        total_for(rs, c) <= sum_cents(rs),
    decreases rs.len(),
{
    if rs.len() > 0 {
        lemma_total_le_sum(rs.drop_last(), c);
    }
}

/// The cents spent across all records of a sheet.
pub fn grand_total(records: &Vec<ExpenseRecord>) -> (r: u128)
    ensures
        r as int == sum_cents(records_view(records@)),
{
    let ghost rv = records_view(records@);
    let mut sum: u128 = 0;
    let mut i: usize = 0;
    let n = records.len();
    proof {
        assert(rv.take(0) =~= Seq::<RecordV>::empty());
    }
    while i < n
        invariant
            i <= n,
            n == records@.len(),
            rv == records_view(records@),
            sum as int == sum_cents(rv.take(i as int)),
            sum as int <= (i as int) * (u64::MAX as int),
        decreases n - i,
    {
        let a = records[i].amount();
        proof {
            assert(rv.take(i + 1 as int).drop_last() =~= rv.take(i as int));
            assert(rv.take(i + 1 as int).last() == rv[i as int]);
            assert(rv[i as int] == records@[i as int]@);
            assert((i as int) * (u64::MAX as int) + (u64::MAX as int) == (i + 1 as int) * (
            u64::MAX as int)) by (nonlinear_arith);
            assert((i + 1 as int) * (u64::MAX as int) <= (n as int) * (u64::MAX as int)) by (nonlinear_arith)
                requires
                    0 <= i + 1 <= n as int,
            ;
            assert((n as int) * (u64::MAX as int) < u128::MAX) by (nonlinear_arith)
                requires
                    n as int <= usize::MAX as int,
            ;
        }
        sum = sum + a as u128;
        i = i + 1;
    }
    proof {
        assert(rv.take(n as int) =~= rv);
    }
    sum
}

/// The per-category spending of the records, one stat per distinct
/// category, in order of first appearance, each carrying that
/// category's exact total and count.
pub fn category_totals(records: &Vec<ExpenseRecord>) -> (r: Vec<CategoryStat>)
    ensures
        ({
            let rv = records_view(records@);
            let sv = stats_view(r@);
            &&& stat_names(sv) == distinct_cats(rv)
            &&& forall|j: int|
                0 <= j < sv.len() ==> (#[trigger] sv[j]).total_cents == total_for(rv, sv[j].name)
                    && sv[j].count == count_for(rv, sv[j].name)
        }),
{
    let ghost rv = records_view(records@);
    let n = records.len();
    // First pass: the distinct categories, in order of first
    // appearance.
    let mut cats: Vec<String> = Vec::new();
    let mut i: usize = 0;
    proof {
        assert(rv.take(0) =~= Seq::<RecordV>::empty());
        assert(strs_view(cats@) =~= distinct_cats(rv.take(0)));
    }
    while i < n
        invariant
            i <= n,
            n == records@.len(),
            rv == records_view(records@),
            strs_view(cats@) == distinct_cats(rv.take(i as int)),
        decreases n - i,
    {
        let c = records[i].category();
        proof {
            assert(rv.take(i + 1 as int).drop_last() =~= rv.take(i as int));
            assert(rv.take(i + 1 as int).last() == rv[i as int]);
            assert(rv[i as int] == records@[i as int]@);
        }
        let mut seen = false;
        let mut k: usize = 0;
        let m = cats.len();
        while k < m
            invariant
                k <= m,
                m == cats@.len(),
                c@ == records@[i as int]@.category,
                seen ==> strs_view(cats@).contains(records@[i as int]@.category),
                !seen ==> forall|t: int| 0 <= t < k ==> strs_view(cats@)[t] != records@[
                    i as int
                ]@.category,
            decreases m - k,
        {
            if str_eq(cats[k].as_str(), c.as_str()) {
                proof {
                    assert(strs_view(cats@)[k as int] == records@[i as int]@.category);
                }
                seen = true;
                k = m;
            } else {
                k = k + 1;
            }
        }
        if !seen {
            proof {
                assert(!strs_view(cats@).contains(records@[i as int]@.category)) by {
                    if strs_view(cats@).contains(records@[i as int]@.category) {
                        let w = choose|w: int|
                            0 <= w < strs_view(cats@).len() && strs_view(cats@)[w] == records@[
                                i as int
                            ]@.category;
                        assert(false);
                    }
                }
            }
            let ghost dv = strs_view(cats@);
            let owned = c.clone();
            cats.push(owned);
            proof {
                assert(strs_view(cats@) =~= dv.push(records@[i as int]@.category));
            }
        }
        i = i + 1;
    }
    proof {
        assert(rv.take(n as int) =~= rv);
    }
    // Second pass: one stat per category, by a full scan each.
    let mut out: Vec<CategoryStat> = Vec::new();
    let mut j: usize = 0;
    let m = cats.len();
    while j < m
        invariant
            j <= m,
            m == cats@.len(),
            rv == records_view(records@),
            n == records@.len(),
            strs_view(cats@) == distinct_cats(rv),
            stat_names(stats_view(out@)) =~= strs_view(cats@).take(j as int),
            forall|t: int|
                0 <= t < out@.len() ==> (#[trigger] stats_view(out@)[t]).total_cents == total_for(
                    rv,
                    stats_view(out@)[t].name,
                ) && stats_view(out@)[t].count == count_for(rv, stats_view(out@)[t].name),
        decreases m - j,
    {
        let cat = &cats[j];
        let mut total: u128 = 0;
        let mut count: usize = 0;
        let mut k: usize = 0;
        proof {
            assert(rv.take(0) =~= Seq::<RecordV>::empty());
        }
        while k < n
            invariant
                k <= n,
                n == records@.len(),
                rv == records_view(records@),
                cat@ == strs_view(cats@)[j as int],
                total as int == total_for(rv.take(k as int), cat@),
                count as int == count_for(rv.take(k as int), cat@),
                count <= k,
                total as int <= (k as int) * (u64::MAX as int),
            decreases n - k,
        {
            proof {
                assert(rv.take(k + 1 as int).drop_last() =~= rv.take(k as int));
                assert(rv.take(k + 1 as int).last() == rv[k as int]);
                assert(rv[k as int] == records@[k as int]@);
                assert((k as int) * (u64::MAX as int) + (u64::MAX as int) == (k + 1 as int) * (
                u64::MAX as int)) by (nonlinear_arith);
                assert((k + 1 as int) * (u64::MAX as int) <= (n as int) * (u64::MAX as int))
                    by (nonlinear_arith)
                    requires
                        0 <= k + 1 <= n as int,
                ;
                assert((n as int) * (u64::MAX as int) < u128::MAX) by (nonlinear_arith)
                    requires
                        n as int <= usize::MAX as int,
                ;
            }
            let rec = &records[k];
            if str_eq(rec.category().as_str(), cat.as_str()) {
                total = total + rec.amount() as u128;
                count = count + 1;
            }
            k = k + 1;
        }
        proof {
            assert(rv.take(n as int) =~= rv);
        }
        let ghost sv = stats_view(out@);
        let stat = CategoryStat { name: cat.clone(), total_cents: total, count };
        proof {
            assert(stat@.name == strs_view(cats@)[j as int]);
        }
        out.push(stat);
        proof {
            let x = StatV {
                name: strs_view(cats@)[j as int],
                total_cents: total as int,
                count: count as int,
            };
            assert(stats_view(out@) =~= sv.push(x));
            assert(stat_names(sv) == strs_view(cats@).take(j as int));
            assert(stat_names(sv).len() == sv.len());
            assert(strs_view(cats@).take(j as int).len() == j);
            assert(sv.len() == j);
            assert forall|t: int|
                0 <= t < j + 1 implies stat_names(stats_view(out@))[t] == strs_view(cats@).take(
                j + 1 as int,
            )[t] by {
                assert(stat_names(stats_view(out@))[t] == stats_view(out@)[t].name);
                if t < j {
                    assert(stats_view(out@)[t] == sv[t]);
                    assert(stat_names(sv)[t] == sv[t].name);
                    assert(stat_names(sv)[t] == strs_view(cats@).take(j as int)[t]);
                } else {
                    assert(stats_view(out@)[t] == x);
                }
            }
            assert(stat_names(stats_view(out@)) =~= strs_view(cats@).take(j + 1 as int));
        }
        j = j + 1;
    }
    proof {
        assert(strs_view(cats@).take(m as int) =~= strs_view(cats@));
    }
    out
}

/// Sorted by total, largest first.
pub open spec fn sorted_desc(sv: Seq<StatV>) -> bool {
    forall|i: int, j: int| 0 <= i < j < sv.len() ==> sv[i].total_cents >= sv[j].total_cents
}

/// Sorts stats by their total, largest first, keeping exactly the
/// same stats.
pub fn sort_stats_desc(stats: Vec<CategoryStat>) -> (r: Vec<CategoryStat>)
    ensures
        sorted_desc(stats_view(r@)),
        stats_view(r@).to_multiset() == stats_view(stats@).to_multiset(),
{
    broadcast use vstd::seq_lib::group_to_multiset_ensures;

    let ghost orig = stats_view(stats@);
    let mut rest = stats;
    let mut out: Vec<CategoryStat> = Vec::new();
    proof {
        assert(stats_view(out@) =~= Seq::<StatV>::empty());
        assert(stats_view(out@).to_multiset().add(stats_view(rest@).to_multiset())
            =~= orig.to_multiset());
    }
    loop
        invariant
            sorted_desc(stats_view(out@)),
            stats_view(out@).to_multiset().add(stats_view(rest@).to_multiset())
                == orig.to_multiset(),
        ensures
            rest@.len() == 0,
            sorted_desc(stats_view(out@)),
            stats_view(out@).to_multiset().add(stats_view(rest@).to_multiset())
                == orig.to_multiset(),
        decreases rest@.len(),
    {
        let ghost rv = stats_view(rest@);
        match rest.pop() {
            None => {
                break ;
            },
            Some(s) => {
                proof {
                    assert(rv.drop_last().push(rv.last()) =~= rv);
                    assert(stats_view(rest@) =~= rv.drop_last());
                    assert(s@ == rv.last());
                    vstd::seq_lib::to_multiset_build(rv.drop_last(), rv.last());
                    assert(rv.to_multiset() =~= stats_view(rest@).to_multiset().insert(s@));
                }
                let ghost ov = stats_view(out@);
                let mut p: usize = 0;
                let olen = out.len();
                while p < olen
                    invariant
                        p <= olen,
                        olen == out@.len(),
                        ov == stats_view(out@),
                        forall|t: int| 0 <= t < p ==> (#[trigger] ov[t]).total_cents >= s@
                            .total_cents,
                    ensures
                        p <= olen,
                        ov == stats_view(out@),
                        olen == out@.len(),
                        forall|t: int| 0 <= t < p ==> (#[trigger] ov[t]).total_cents >= s@
                            .total_cents,
                        p < olen ==> ov[p as int].total_cents < s@.total_cents,
                    decreases olen - p,
                {
                    if out[p].total_cents < s.total_cents {
                        break ;
                    }
                    p = p + 1;
                }
                proof {
                    vstd::seq_lib::to_multiset_insert(ov, p as int, s@);
                }
                out.insert(p, s);
                proof {
                    assert(stats_view(out@) =~= ov.insert(p as int, s@));
                    let nv = stats_view(out@);
                    assert forall|a: int, b: int|
                        0 <= a < b < nv.len() implies nv[a].total_cents >= nv[b].total_cents by {
                        if b < p {
                        } else if a > p {
                            assert(nv[a] == ov[a - 1]);
                            assert(nv[b] == ov[b - 1]);
                        } else if a == p {
                            assert(nv[a] == s@);
                            assert(nv[b] == ov[b - 1]);
                            assert(ov[p as int].total_cents < s@.total_cents);
                            assert(ov[b - 1].total_cents <= ov[p as int].total_cents);
                        } else if b == p {
                            assert(nv[a] == ov[a]);
                            assert(nv[b] == s@);
                        } else {
                            assert(nv[a] == ov[a]);
                            assert(nv[b] == ov[b - 1]);
                        }
                    }
                    assert(stats_view(out@).to_multiset().add(stats_view(rest@).to_multiset())
                        =~= orig.to_multiset());
                }
            },
        }
    }
    proof {
        assert(stats_view(rest@).to_multiset().len() == 0);
        assert(stats_view(out@).to_multiset().add(Multiset::<StatV>::empty()) =~= stats_view(
            out@,
        ).to_multiset());
        assert(stats_view(rest@).to_multiset() =~= Multiset::<StatV>::empty());
    }
    out
}


// ------------------------------------------------------------------
// Report text
// ------------------------------------------------------------------

/// `n` spaces.
pub open spec fn spaces_spec(n: int) -> Seq<char> {
    if n <= 0 {
        Seq::empty()
    } else {
        Seq::new(n as nat, |i: int| ' ')
    }
}

/// `s` padded with spaces on the left up to width `w`.
pub open spec fn pad_left_spec(s: Seq<char>, w: int) -> Seq<char> {
    spaces_spec(w - s.len()) + s
}

/// `s` padded with spaces on the right up to width `w`.
pub open spec fn pad_right_spec(s: Seq<char>, w: int) -> Seq<char> {
    s + spaces_spec(w - s.len())
}

/// Pushes `n` spaces onto `v`.
fn push_spaces(v: &mut Vec<char>, n: usize)
    ensures
        final(v)@ == old(v)@ + spaces_spec(n as int),
{
    let mut i: usize = 0;
    while i < n
        invariant
            i <= n,
            v@ == old(v)@ + spaces_spec(i as int),
        decreases n - i,
    {
        v.push(' ');
        proof {
            assert(old(v)@ + spaces_spec(i as int).push(' ') =~= old(v)@ + spaces_spec(
                i + 1 as int,
            ));
        }
        i = i + 1;
    }
}

/// Pushes `s` onto `v`, padded with spaces on the left up to `w`.
fn push_pad_left(v: &mut Vec<char>, s: &Vec<char>, w: usize)
    ensures
        final(v)@ == old(v)@ + pad_left_spec(s@, w as int),
{
    let len = s.len();
    if len < w {
        push_spaces(v, w - len);
    } else {
        proof {
            assert(spaces_spec(w - s@.len()) =~= Seq::<char>::empty());
            assert(old(v)@ + Seq::<char>::empty() =~= old(v)@);
        }
    }
    push_all(v, s);
    proof {
        assert(v@ =~= old(v)@ + (spaces_spec(w - s@.len()) + s@));
    }
}

/// Pushes `s` onto `v`, padded with spaces on the right up to `w`.
fn push_pad_right(v: &mut Vec<char>, s: &Vec<char>, w: usize)
    ensures
        final(v)@ == old(v)@ + pad_right_spec(s@, w as int),
{
    push_all(v, s);
    let len = s.len();
    if len < w {
        push_spaces(v, w - len);
    } else {
        proof {
            assert(spaces_spec(w - s@.len()) =~= Seq::<char>::empty());
            assert(v@ + Seq::<char>::empty() =~= v@);
        }
    }
    proof {
        assert(v@ =~= old(v)@ + (s@ + spaces_spec(w - s@.len())));
    }
}

/// The decimal numeral of a 128-bit number.
pub fn u128_to_chars(n: u128) -> (r: Vec<char>)
    ensures
        r@ == u64_dec(n as int),
    decreases n,
{
    let d = (n % 10) as u64;
    let c = crate::text::digit_to_char(d);
    if n < 10 {
        let mut v: Vec<char> = Vec::new();
        v.push(c);
        proof {
            assert(v@ =~= seq![digit_char(n as int)]);
        }
        v
    } else {
        let mut v = u128_to_chars(n / 10);
        v.push(c);
        v
    }
}

/// An amount of cents written with two fraction digits.
pub open spec fn cents_text_spec(c: int) -> Seq<char> {
    u64_dec(c / 100) + seq!['.'] + (if c % 100 < 10 {
        seq!['0']
    } else {
        Seq::empty()
    }) + u64_dec(c % 100)
}

/// Writes an amount of cents with two fraction digits.
pub fn cents_text(c: u128) -> (r: Vec<char>)
    ensures
        r@ == cents_text_spec(c as int),
{
    let mut v = u128_to_chars(c / 100);
    v.push('.');
    let f = c % 100;
    if f < 10 {
        v.push('0');
    }
    let fchars = u128_to_chars(f);
    push_all(&mut v, &fchars);
    proof {
        assert(v@ =~= cents_text_spec(c as int));
    }
    v
}

/// A per-thousand ratio written with one fraction digit.
pub open spec fn permille_text_spec(p: int) -> Seq<char> {
    u64_dec(p / 10) + seq!['.'] + u64_dec(p % 10)
}

/// One data row of the expenses summary: the category name, its total,
/// its record count, and its share of the grand total, in tenths of a
/// percent.
pub open spec fn summary_row_spec(s: StatV, grand: int) -> Seq<char> {
    let permille = s.total_cents * 1000 / grand;
    pad_right_spec(s.name, 20) + seq![' '] + pad_left_spec(cents_text_spec(s.total_cents), 9)
        + " PLN "@ + pad_left_spec(u64_dec(s.count), 8) + "  "@ + pad_left_spec(
        permille_text_spec(permille),
        10,
    ) + seq!['%']
}

/// Writes one data row of the expenses summary. The grand total must
/// be positive, at least the stat's total, and small enough that the
/// share can be computed in 128 bits.
pub fn summary_row(stat: &CategoryStat, grand: u128) -> (r: String)
    requires
        0 < grand,
        stat@.total_cents <= grand as int,
        grand as int * 1000 <= u128::MAX as int,
    ensures
        r@ == summary_row_spec(stat@, grand as int),
{
    let mut v: Vec<char> = Vec::new();
    let name_chars = str_to_chars(stat.name.as_str());
    push_pad_right(&mut v, &name_chars, 20);
    v.push(' ');
    let amount = cents_text(stat.total_cents);
    push_pad_left(&mut v, &amount, 9);
    push_all(&mut v, &str_to_chars(" PLN "));
    let count_chars = u64_to_chars(stat.count as u64);
    push_pad_left(&mut v, &count_chars, 8);
    push_all(&mut v, &str_to_chars("  "));
    proof {
        assert(stat@.total_cents * 1000 <= grand as int * 1000) by (nonlinear_arith)
            requires
                0 <= stat@.total_cents <= grand as int,
        ;
    }
    let permille = stat.total_cents * 1000 / grand;
    let ptext = {
        let mut p = u128_to_chars(permille / 10);
        p.push('.');
        let fr = u128_to_chars(permille % 10);
        push_all(&mut p, &fr);
        proof {
            assert(p@ =~= permille_text_spec(permille as int));
        }
        p
    };
    push_pad_left(&mut v, &ptext, 10);
    v.push('%');
    proof {
        assert(permille as int == stat@.total_cents * 1000 / (grand as int));
        assert(v@ =~= summary_row_spec(stat@, grand as int));
    }
    chars_to_string(&v)
}

/// The closing row of the expenses summary.
pub open spec fn total_row_spec(grand: int) -> Seq<char> {
    pad_right_spec("TOTAL"@, 20) + seq![' '] + pad_left_spec(cents_text_spec(grand), 9) + " PLN"@
}

/// Writes the closing row of the expenses summary.
pub fn total_row(grand: u128) -> (r: String)
    ensures
        r@ == total_row_spec(grand as int),
{
    let mut v: Vec<char> = Vec::new();
    let title = str_to_chars("TOTAL");
    push_pad_right(&mut v, &title, 20);
    v.push(' ');
    let amount = cents_text(grand);
    push_pad_left(&mut v, &amount, 9);
    push_all(&mut v, &str_to_chars(" PLN"));
    proof {
        assert(v@ =~= total_row_spec(grand as int));
    }
    chars_to_string(&v)
}

/// One line of the sheet listing: the index, the name, and an ACTIVE
/// marker on the sheet currently selected.
pub open spec fn sheet_line_spec(i: int, name: Seq<char>, is_active: bool) -> Seq<char> {
    if is_active {
        ">  "@ + u64_dec(i) + ". "@ + pad_right_spec(name, 20) + " (ACTIVE)"@
    } else {
        ">  "@ + u64_dec(i) + ". "@ + name
    }
}

/// The lines of the sheet listing, one per sheet name, marking the
/// active one.
pub fn sheet_list_lines(names: &Vec<String>, active: Option<&String>) -> (r: Vec<String>)
    ensures
        r@.len() == names@.len(),
        forall|i: int|
            0 <= i < r@.len() ==> (#[trigger] r@[i])@ == sheet_line_spec(
                i,
                names@[i]@,
                match active {
                    Some(a) => names@[i]@ == a@,
                    None => false,
                },
            ),
{
    let mut out: Vec<String> = Vec::new();
    let mut i: usize = 0;
    let n = names.len();
    while i < n
        invariant
            i <= n,
            n == names@.len(),
            out@.len() == i,
            forall|t: int|
                0 <= t < i ==> (#[trigger] out@[t])@ == sheet_line_spec(
                    t,
                    names@[t]@,
                    match active {
                        Some(a) => names@[t]@ == a@,
                        None => false,
                    },
                ),
        decreases n - i,
    {
        let name = &names[i];
        let is_active = match active {
            Some(a) => str_eq(name.as_str(), a.as_str()),
            None => false,
        };
        let mut v: Vec<char> = Vec::new();
        push_all(&mut v, &str_to_chars(">  "));
        let idx_chars = u64_to_chars(i as u64);
        push_all(&mut v, &idx_chars);
        push_all(&mut v, &str_to_chars(". "));
        let name_chars = str_to_chars(name.as_str());
        if is_active {
            push_pad_right(&mut v, &name_chars, 20);
            push_all(&mut v, &str_to_chars(" (ACTIVE)"));
        } else {
            push_all(&mut v, &name_chars);
        }
        proof {
            assert(v@ =~= sheet_line_spec(
                i as int,
                names@[i as int]@,
                match active {
                    Some(a) => names@[i as int]@ == a@,
                    None => false,
                },
            ));
        }
        out.push(chars_to_string(&v));
        i = i + 1;
    }
    out
}


/// A number written with at least two digits, zero-padded.
pub open spec fn two_digit_spec(v: int) -> Seq<char> {
    (if v < 10 {
        seq!['0']
    } else {
        Seq::empty()
    }) + u64_dec(v)
}

/// A date written `year-month-day`, month and day zero-padded to two
/// digits.
pub open spec fn date_text_spec(d: crate::dates::Date) -> Seq<char> {
    crate::text::i32_dec(d.year as int) + seq!['-'] + two_digit_spec(d.month as int) + seq!['-']
        + two_digit_spec(d.day as int)
}

/// Writes a date as `year-month-day`.
pub fn date_text(d: crate::dates::Date) -> (r: Vec<char>)
    ensures
        r@ == date_text_spec(d),
{
    let mut v = crate::text::i32_to_chars(d.year);
    v.push('-');
    if d.month < 10 {
        v.push('0');
    }
    let mchars = u64_to_chars(d.month as u64);
    push_all(&mut v, &mchars);
    v.push('-');
    if d.day < 10 {
        v.push('0');
    }
    let dchars = u64_to_chars(d.day as u64);
    push_all(&mut v, &dchars);
    proof {
        assert(v@ =~= date_text_spec(d));
    }
    v
}

/// One line of the expense listing: the index, the category, the
/// amount and the logged date.
pub open spec fn expense_line_spec(i: int, r: RecordV) -> Seq<char> {
    "> "@ + u64_dec(i) + ". "@ + pad_right_spec(r.category, 20) + seq![' '] + pad_left_spec(
        cents_text_spec(r.amount_cents as int),
        8,
    ) + seq![' '] + date_text_spec(r.logged_on)
}

/// The lines of the expense listing, one per record, in order.
pub fn expense_lines(records: &Vec<ExpenseRecord>) -> (r: Vec<String>)
    ensures
        r@.len() == records@.len(),
        forall|i: int|
            0 <= i < r@.len() ==> (#[trigger] r@[i])@ == expense_line_spec(
                i,
                records_view(records@)[i],
            ),
{
    let ghost rv = records_view(records@);
    let mut out: Vec<String> = Vec::new();
    let mut i: usize = 0;
    let n = records.len();
    while i < n
        invariant
            i <= n,
            n == records@.len(),
            rv == records_view(records@),
            out@.len() == i,
            forall|t: int| 0 <= t < i ==> (#[trigger] out@[t])@ == expense_line_spec(t, rv[t]),
        decreases n - i,
    {
        let rec = &records[i];
        proof {
            assert(rec@ == rv[i as int]);
        }
        let mut v: Vec<char> = Vec::new();
        push_all(&mut v, &str_to_chars("> "));
        let idx_chars = u64_to_chars(i as u64);
        push_all(&mut v, &idx_chars);
        push_all(&mut v, &str_to_chars(". "));
        let cat_chars = str_to_chars(rec.category().as_str());
        push_pad_right(&mut v, &cat_chars, 20);
        v.push(' ');
        let amount = cents_text(rec.amount() as u128);
        push_pad_left(&mut v, &amount, 8);
        v.push(' ');
        let dt = date_text(rec.logged_on());
        push_all(&mut v, &dt);
        proof {
            assert(v@ =~= expense_line_spec(i as int, rv[i as int]));
        }
        out.push(chars_to_string(&v));
        i = i + 1;
    }
    out
}

/// The listing lines of one category: its name, and its description
/// when it has one.
pub open spec fn category_entry_lines(c: crate::category::CategoryV) -> Seq<Seq<char>> {
    match c.description {
        None => seq![">  "@ + c.name],
        Some(d) => seq![">  "@ + c.name, "   "@ + d],
    }
}

/// The listing lines of a category list, in order.
pub open spec fn category_lines_spec(cs: Seq<crate::category::CategoryV>) -> Seq<Seq<char>>
    decreases cs.len(),
{
    if cs.len() == 0 {
        Seq::empty()
    } else {
        category_entry_lines(cs[0]) + category_lines_spec(cs.drop_first())
    }
}

/// Category lines distribute over appending one category.
pub proof fn lemma_category_lines_push(
    cs: Seq<crate::category::CategoryV>,
    c: crate::category::CategoryV,
)
    ensures
        category_lines_spec(cs.push(c)) == category_lines_spec(cs) + category_entry_lines(c),
    decreases cs.len(),
{
    if cs.len() == 0 {
        assert(cs.push(c)[0] == c);
        assert(cs.push(c).drop_first() =~= Seq::<crate::category::CategoryV>::empty());
        assert(category_lines_spec(cs.push(c)) == category_entry_lines(c) + category_lines_spec(
            Seq::<crate::category::CategoryV>::empty(),
        ));
        assert(category_entry_lines(c) + Seq::<Seq<char>>::empty() =~= category_entry_lines(c));
        assert(category_lines_spec(cs) + category_entry_lines(c) =~= category_entry_lines(c));
    } else {
        assert(cs.push(c)[0] == cs[0]);
        assert(cs.push(c).drop_first() =~= cs.drop_first().push(c));
        lemma_category_lines_push(cs.drop_first(), c);
        assert(category_entry_lines(cs[0]) + (category_lines_spec(cs.drop_first())
            + category_entry_lines(c)) =~= (category_entry_lines(cs[0]) + category_lines_spec(
            cs.drop_first(),
        )) + category_entry_lines(c));
    }
}

/// The listing lines of the categories, in presentation order.
pub fn category_lines(cats: &Vec<crate::category::ExpenseCategory>) -> (r: Vec<String>)
    ensures
        strs_view(r@) == category_lines_spec(crate::category::cats_view(cats@)),
{
    let ghost cv = crate::category::cats_view(cats@);
    let mut out: Vec<String> = Vec::new();
    let mut i: usize = 0;
    let n = cats.len();
    proof {
        assert(cv.take(0) =~= Seq::<crate::category::CategoryV>::empty());
        assert(strs_view(out@) =~= category_lines_spec(cv.take(0)));
    }
    while i < n
        invariant
            i <= n,
            n == cats@.len(),
            cv == crate::category::cats_view(cats@),
            strs_view(out@) == category_lines_spec(cv.take(i as int)),
        decreases n - i,
    {
        let c = &cats[i];
        proof {
            assert(c@ == cv[i as int]);
            lemma_category_lines_push(cv.take(i as int), cv[i as int]);
            assert(cv.take(i as int).push(cv[i as int]) =~= cv.take(i + 1 as int));
        }
        let ghost dv = strs_view(out@);
        let mut v: Vec<char> = Vec::new();
        push_all(&mut v, &str_to_chars(">  "));
        let name_chars = str_to_chars(c.name.as_str());
        push_all(&mut v, &name_chars);
        out.push(chars_to_string(&v));
        match &c.description {
            None => {
                proof {
                    assert(strs_view(out@) =~= dv.push(">  "@ + cv[i as int].name));
                    assert(dv.push(">  "@ + cv[i as int].name) =~= dv + category_entry_lines(
                        cv[i as int],
                    ));
                }
            },
            Some(d) => {
                let mut v2: Vec<char> = Vec::new();
                push_all(&mut v2, &str_to_chars("   "));
                let dchars = str_to_chars(d.as_str());
                push_all(&mut v2, &dchars);
                out.push(chars_to_string(&v2));
                proof {
                    assert(strs_view(out@) =~= dv.push(">  "@ + cv[i as int].name).push(
                        "   "@ + d@,
                    ));
                    assert(dv.push(">  "@ + cv[i as int].name).push("   "@ + d@) =~= dv
                        + category_entry_lines(cv[i as int]));
                }
            },
        }
        i = i + 1;
    }
    proof {
        assert(cv.take(n as int) =~= cv);
    }
    out
}

} // verus!
