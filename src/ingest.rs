//! Turning one CSV row into a record: which column holds which attribute,
//! and how an integer column is read.
use csv::StringRecord;
use vstd::prelude::*;

use crate::record::LoanRecord;

verus! {

broadcast use vstd::string::group_string_axioms;

#[verifier::external_type_specification]
#[verifier::external_body]
pub struct ExStringRecord(csv::StringRecord);

/// The fields of a CSV row, in column order.
pub uninterp spec fn record_fields(r: StringRecord) -> Seq<Seq<char>>;

/// Relies on csv's `StringRecord::get`: the field at position `i` when the
/// row has one there, `None` past its last field.
pub assume_specification[ csv::StringRecord::get ](r: &csv::StringRecord, i: usize) -> (o: Option<
    &str,
>)
    ensures
        o is Some <==> i < record_fields(*r).len(),
        o matches Some(s) ==> s@ == record_fields(*r)[i as int],
;

/// The number of columns a row must have.
pub const FIELD_COUNT: usize = 14;

/// `s` is one or more ASCII decimal digits.
pub open spec fn is_digits(s: Seq<char>) -> bool {
    s.len() > 0 && forall|i: int| 0 <= i < s.len() ==> '0' <= #[trigger] s[i] <= '9'
}

/// The value of the decimal digits `s`, most significant first.
pub open spec fn digits_value(s: Seq<char>) -> nat
    decreases s.len(),
{
    if s.len() == 0 {
        0
    } else {
        digits_value(s.drop_last()) * 10 + (s.last() as nat - '0' as nat) as nat
    }
}

/// The value of `s` read as an unsigned decimal: an optional `+` and then
/// one or more digits, nothing else.
pub open spec fn unsigned_decimal(s: Seq<char>) -> Option<nat> {
    let t = if s.len() > 0 && s[0] == '+' {
        s.drop_first()
    } else {
        s
    };
    if is_digits(t) {
        Some(digits_value(t))
    } else {
        None
    }
}

/// `s` read as an unsigned decimal that is at most `max`.
pub open spec fn decimal_up_to(s: Seq<char>, max: nat) -> Option<nat> {
    match unsigned_decimal(s) {
        Some(v) => if v <= max {
            Some(v)
        } else {
            None
        },
        None => None,
    }
}

/// An integer column: its value when it reads as a decimal that fits in 32
/// bits, else absent.
pub open spec fn u32_column(s: Seq<char>) -> Option<u32> {
    match decimal_up_to(s, u32::MAX as nat) {
        Some(v) => Some(v as u32),
        None => None,
    }
}

/// A small integer column: its value when it reads as a decimal that fits
/// in 8 bits, else absent.
pub open spec fn u8_column(s: Seq<char>) -> Option<u8> {
    match decimal_up_to(s, u8::MAX as nat) {
        Some(v) => Some(v as u8),
        None => None,
    }
}

/// Relies on std's `u32::from_str`: an optional `+` followed by decimal
/// digits whose value fits, and an error otherwise.
#[verifier::external_body]
fn parse_u32(s: &str) -> (r: Option<u32>)
    ensures
        r == u32_column(s@),
{
    s.parse::<u32>().ok()
}

/// Relies on std's `u8::from_str`: an optional `+` followed by decimal
/// digits whose value fits, and an error otherwise.
#[verifier::external_body]
fn parse_u8(s: &str) -> (r: Option<u8>)
    ensures
        r == u8_column(s@),
{
    s.parse::<u8>().ok()
}

/// `l` is what the row `f` describes, column by column.
pub open spec fn record_of_row(l: LoanRecord, f: Seq<Seq<char>>) -> bool {
    &&& l.person_age == u32_column(f[0])
    &&& l.person_gender@ == f[1]
    &&& l.person_education@ == f[2]
    &&& l.person_home_ownership@ == f[5]
    &&& l.loan_intent@ == f[7]
    &&& l.cb_person_cred_hist_length == u32_column(f[10])
    &&& l.credit_score == u32_column(f[11])
    &&& l.previous_loan_defaults_on_file == u8_column(f[12])
    &&& l.loan_status == u8_column(f[13])
}

/// Reads a row into a record. A row with fewer than `FIELD_COUNT` columns is
/// malformed and gives `None`; an integer column that does not read as one
/// gives an absent value, not an error. Columns 3, 4, 6, 8 and 9 hold
/// amounts and rates that the record does not keep.
pub fn parse_record(record: &StringRecord) -> (r: Option<LoanRecord>)
    ensures
        r is Some <==> record_fields(*record).len() >= FIELD_COUNT,
        r matches Some(l) ==> record_of_row(l, record_fields(*record)),
{
    let age = parse_u32(record.get(0)?);
    let gender = record.get(1)?.to_string();
    let education = record.get(2)?.to_string();
    record.get(3)?;
    record.get(4)?;
    let home = record.get(5)?.to_string();
    record.get(6)?;
    let intent = record.get(7)?.to_string();
    record.get(8)?;
    record.get(9)?;
    let history = parse_u32(record.get(10)?);
    let score = parse_u32(record.get(11)?);
    let defaults = parse_u8(record.get(12)?);
    let status = parse_u8(record.get(13)?);
    Some(
        LoanRecord {
            person_age: age,
            person_gender: gender,
            person_education: education,
            person_home_ownership: home,
            loan_intent: intent,
            cb_person_cred_hist_length: history,
            credit_score: score,
            previous_loan_defaults_on_file: defaults,
            loan_status: status,
        },
    )
}

} // verus!
