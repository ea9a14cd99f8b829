//! The applicant record, as far as the graph reads it.
use vstd::prelude::*;

verus! {

/// One loan applicant. Its identity in a graph is its position in the input.
#[derive(Debug, Clone)]
pub struct LoanRecord {
    pub person_age: Option<u32>,
    pub person_gender: String,
    pub person_education: String,
    pub person_home_ownership: String,
    pub loan_intent: String,
    pub cb_person_cred_hist_length: Option<u32>,
    pub credit_score: Option<u32>,
    pub previous_loan_defaults_on_file: Option<u8>,
    pub loan_status: Option<u8>,
}

/// Two applicants are similar when their education categories are equal or
/// their loan-intent categories are equal (exact, case-sensitive).
pub open spec fn similar(a: LoanRecord, b: LoanRecord) -> bool {
    a.person_education@ == b.person_education@ || a.loan_intent@ == b.loan_intent@
}

/// Decides `similar` on two records.
pub fn is_similar(a: &LoanRecord, b: &LoanRecord) -> (r: bool)
    ensures
        r == similar(*a, *b),
{
    a.person_education == b.person_education || a.loan_intent == b.loan_intent
}

} // verus!
