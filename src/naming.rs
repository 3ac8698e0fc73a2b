//! Snapshot names: `<prefix><index><sep><date>`, parsed and written.
use vstd::prelude::*;

use crate::catalog::DataSetView;
use crate::text::{
    all_digits, digits_value, is_digit, lemma_digits_value_nonneg,
    lemma_padded_decimal, padded_decimal, parse_u64, push_padded_decimal,
};

verus! {

pub open spec fn is_sep(c: char) -> bool {
    c == '-' || c == '.'
}

pub open spec fn is_date_char(c: char) -> bool {
    is_digit(c) || is_sep(c)
}

/// `name` is `prefix`, then the digits `num`, then `-` or `.`, then `date`, a
/// non-empty run of digits, dashes and dots.
pub open spec fn snap_split(
    prefix: Seq<char>,
    name: Seq<char>,
    num: Seq<char>,
    date: Seq<char>,
) -> bool {
    let k = prefix.len() + num.len() as int;
    &&& num.len() > 0
    &&& all_digits(num)
    &&& date.len() > 0
    &&& forall|i: int| 0 <= i < date.len() ==> is_date_char(#[trigger] date[i])
    &&& name.len() == k + 1 + date.len()
    &&& name.subrange(0, prefix.len() as int) == prefix
    &&& name.subrange(prefix.len() as int, k) == num
    &&& is_sep(name[k])
    &&& name.subrange(k + 1, name.len() as int) == date
}

pub open spec fn snap_matches(prefix: Seq<char>, name: Seq<char>) -> bool {
    exists|num: Seq<char>, date: Seq<char>| snap_split(prefix, name, num, date)
}

/// The index that a snapshot name carries, when it has one that fits a `u32`.
pub open spec fn snap_index(prefix: Seq<char>, name: Seq<char>) -> Option<u32> {
    if snap_matches(prefix, name) {
        let (num, date) = choose|num: Seq<char>, date: Seq<char>|
            snap_split(prefix, name, num, date);
        if digits_value(num) <= u32::MAX {
            Some(digits_value(num) as u32)
        } else {
            None
        }
    } else {
        None
    }
}

/// The suffix of a new snapshot: `<prefix><index:05>-<month:02>-<day:02>`.
pub open spec fn snap_suffix(prefix: Seq<char>, index: nat, month: nat, day: nat) -> Seq<char> {
    prefix + padded_decimal(index, 5) + seq!['-'] + padded_decimal(month, 2) + seq!['-']
        + padded_decimal(day, 2)
}

/// The date part of a new snapshot's suffix.
pub open spec fn date_part(month: nat, day: nat) -> Seq<char> {
    padded_decimal(month, 2) + seq!['-'] + padded_decimal(day, 2)
}

/// The index of a snapshot name, or zero where it has none.
pub open spec fn index_or_zero(prefix: Seq<char>, name: Seq<char>) -> int {
    match snap_index(prefix, name) {
        Some(n) => n as int,
        None => 0,
    }
}

pub open spec fn max_int(a: int, b: int) -> int {
    if a >= b {
        a
    } else {
        b
    }
}

/// The highest index among some snapshot names (zero if none has one).
pub open spec fn max_index_snaps(prefix: Seq<char>, snaps: Seq<Seq<char>>) -> int
    decreases snaps.len(),
{
    if snaps.len() == 0 {
        0
    } else {
        max_int(max_index_snaps(prefix, snaps.drop_last()), index_or_zero(prefix, snaps.last()))
    }
}

/// The highest index among the snapshots of some datasets (zero if none has one).
pub open spec fn max_index_sets(prefix: Seq<char>, sets: Seq<DataSetView>) -> int
    decreases sets.len(),
{
    if sets.len() == 0 {
        0
    } else {
        max_int(max_index_sets(prefix, sets.drop_last()), max_index_snaps(prefix, sets.last().snaps))
    }
}

/// The index for the next snapshot: one past the highest, if that fits a `u32`.
pub open spec fn next_index(prefix: Seq<char>, sets: Seq<DataSetView>) -> Option<u32> {
    if max_index_sets(prefix, sets) < u32::MAX {
        Some((max_index_sets(prefix, sets) + 1) as u32)
    } else {
        None
    }
}

/// Relies on regex::escape, regex::RegexBuilder and regex::Regex::captures: the
/// pattern `^<escaped prefix>([0-9]+)[-.]([-.0-9]+)$` matches `name` exactly
/// when it is the prefix, digits, a dash or dot, and a run of digits, dashes
/// and dots; the two groups are the digits and that run. An escaped literal
/// always compiles once the size limit is lifted.
#[verifier::external_body]
fn snap_captures(prefix: &str, name: &str) -> (r: Option<(String, String)>)
    ensures
        match r {
            Some((num, date)) => snap_split(prefix@, name@, num@, date@),
            None => !snap_matches(prefix@, name@),
        },
{
    let pat = format!("^{}([0-9]+)[-.]([-.0-9]+)$", regex::escape(prefix));
    let re = regex::RegexBuilder::new(&pat).size_limit(usize::MAX).build().unwrap();
    re.captures(name).map(|c| (c[1].to_owned(), c[2].to_owned()))
}

/// A name splits in one way only: the digits run up to the first non-digit.
pub proof fn lemma_snap_split_unique(
    prefix: Seq<char>,
    name: Seq<char>,
    num: Seq<char>,
    date: Seq<char>,
    num2: Seq<char>,
    date2: Seq<char>,
)
    requires
        snap_split(prefix, name, num, date),
        snap_split(prefix, name, num2, date2),
    ensures
        num == num2,
        date == date2,
{
    let p = prefix.len() as int;
    if num.len() < num2.len() {
        let k = p + num.len();
        assert(name[k] == name.subrange(p, p + num2.len())[num.len() as int]);
        assert(is_digit(num2[num.len() as int]));
    } else if num2.len() < num.len() {
        let k = p + num2.len();
        assert(name[k] == name.subrange(p, p + num.len())[num2.len() as int]);
        assert(is_digit(num[num2.len() as int]));
    }
    assert(num =~= num2);
    assert(date =~= date2);
}

/// Reads the index of a snapshot name.
pub fn parse_index(prefix: &str, name: &str) -> (r: Option<u32>)
    ensures
        r == snap_index(prefix@, name@),
{
    match snap_captures(prefix, name) {
        None => None,
        Some((num, date)) => {
            let v = parse_u64(num.as_str());
            proof {
                let (n2, d2) = choose|n2: Seq<char>, d2: Seq<char>|
                    snap_split(prefix@, name@, n2, d2);
                lemma_snap_split_unique(prefix@, name@, num@, date@, n2, d2);
                lemma_digits_value_nonneg(num@);
            }
            match v {
                Some(n) => {
                    if n <= u32::MAX as u64 {
                        Some(n as u32)
                    } else {
                        None
                    }
                },
                None => None,
            }
        },
    }
}

/// Writes the suffix of a new snapshot.
pub fn format_suffix(prefix: &str, index: u32, month: u32, day: u32) -> (r: String)
    ensures
        r@ == snap_suffix(prefix@, index as nat, month as nat, day as nat),
{
    let mut s = prefix.to_owned();
    push_padded_decimal(&mut s, index as u64, 5);
    s.append("-");
    push_padded_decimal(&mut s, month as u64, 2);
    s.append("-");
    push_padded_decimal(&mut s, day as u64, 2);
    proof {
        reveal_strlit("-");
    }
    assert(s@ =~= snap_suffix(prefix@, index as nat, month as nat, day as nat));
    s
}

/// A written suffix reads back: its index and its date are the ones written.
pub proof fn lemma_suffix_round_trip(prefix: Seq<char>, index: u32, month: nat, day: nat)
    ensures
        snap_split(
            prefix,
            snap_suffix(prefix, index as nat, month, day),
            padded_decimal(index as nat, 5),
            date_part(month, day),
        ),
        snap_index(prefix, snap_suffix(prefix, index as nat, month, day)) == Some(index),
{
    let num = padded_decimal(index as nat, 5);
    let m = padded_decimal(month, 2);
    let d = padded_decimal(day, 2);
    let date = date_part(month, day);
    let name = snap_suffix(prefix, index as nat, month, day);
    lemma_padded_decimal(index as nat, 5);
    lemma_padded_decimal(month, 2);
    lemma_padded_decimal(day, 2);
    let p = prefix.len() as int;
    let k = p + num.len();
    assert(name =~= prefix + num + seq!['-'] + date);
    assert(name.subrange(0, p) =~= prefix);
    assert(name.subrange(p, k) =~= num);
    assert(name.subrange(k + 1, name.len() as int) =~= date);
    assert forall|i: int| 0 <= i < date.len() implies is_date_char(#[trigger] date[i]) by {
        if i < m.len() {
            assert(date[i] == m[i]);
        } else if i > m.len() {
            assert(date[i] == d[i - m.len() - 1]);
        }
    }
    assert(snap_split(prefix, name, num, date));
    let (n2, d2) = choose|n2: Seq<char>, d2: Seq<char>| snap_split(prefix, name, n2, d2);
    lemma_snap_split_unique(prefix, name, num, date, n2, d2);
}

} // verus!
