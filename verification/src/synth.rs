//! Turns one bank record and its canonical payee token into balanced ledger
//! entries: a withdrawal debits an expense account, a deposit credits an
//! income account, and the asset account takes the opposite side.

use vstd::prelude::*;
use crate::model::{Amount, BankRecord, Entry, Posting, balanced, pow10, sum_is_zero};
use vstd::string::StringExecFns;

verus! {

/// The asset account every movement is booked against.
pub open spec fn checking_account() -> Seq<char> {
    "Assets:DNB:Checking"@
}

/// The expense account for a canonical payee token.
pub open spec fn expenses_account(canonical: Seq<char>) -> Seq<char> {
    "Expenses:"@ + canonical
}

/// The income account for a canonical payee token.
pub open spec fn income_account(canonical: Seq<char>) -> Seq<char> {
    "Income:"@ + canonical
}

/// `e` books the record's withdrawal: the expense account takes the amount and
/// the asset account the exact opposite.
pub open spec fn is_withdrawal_entry(e: Entry, r: BankRecord, canonical: Seq<char>) -> bool {
    &&& e.date == r.date
    &&& e.narration@ == r.description@
    &&& e.first.account@ == expenses_account(canonical)
    &&& e.first.amount == r.withdrawal->0
    &&& e.second.account@ == checking_account()
    &&& e.second.amount == r.withdrawal->0.spec_neg()
}

/// `e` books the record's deposit: the asset account takes the amount and the
/// income account the exact opposite.
pub open spec fn is_deposit_entry(e: Entry, r: BankRecord, canonical: Seq<char>) -> bool {
    &&& e.date == r.date
    &&& e.narration@ == r.description@
    &&& e.first.account@ == checking_account()
    &&& e.first.amount == r.deposit->0
    &&& e.second.account@ == income_account(canonical)
    &&& e.second.amount == r.deposit->0.spec_neg()
}

/// An amount and its negation sum to exactly zero.
pub proof fn lemma_neg_balances(a: Amount)
    requires
        a.valid(),
    ensures
        sum_is_zero(a, a.spec_neg()),
{
    let p = pow10(a.scale as nat);
    let m = a.mantissa as int;
    assert(m * p + (-m) * p == 0) by (nonlinear_arith);
}

/// Builds the entries for one record: one per present, positive movement, the
/// withdrawal entry first, each balanced to exactly zero.
pub fn synthesize(record: &BankRecord, canonical: &String) -> (entries: Vec<Entry>)
    requires
        record.wf(),
    ensures
        entries@.len() == record.entry_count(),
        record.has_withdrawal() ==> is_withdrawal_entry(entries@[0], *record, canonical@),
        record.has_deposit() ==> is_deposit_entry(
            entries@[record.entry_count() - 1],
            *record,
            canonical@,
        ),
        forall|i: int| 0 <= i < entries@.len() ==> balanced(#[trigger] entries@[i]),
{
    let mut entries: Vec<Entry> = Vec::new();
    if let Some(w) = &record.withdrawal {
        if w.mantissa > 0 {
            let expense = String::from_str("Expenses:").concat(canonical.as_str());
            let asset = String::from_str("Assets:DNB:Checking");
            let e = Entry {
                date: record.date,
                narration: record.description.clone(),
                first: Posting { account: expense, amount: *w },
                second: Posting {
                    account: asset,
                    amount: Amount { mantissa: -w.mantissa, scale: w.scale },
                },
            };
            proof {
                lemma_neg_balances(*w);
            }
            entries.push(e);
        }
    }
    if let Some(d) = &record.deposit {
        if d.mantissa > 0 {
            let asset = String::from_str("Assets:DNB:Checking");
            let income = String::from_str("Income:").concat(canonical.as_str());
            let e = Entry {
                date: record.date,
                narration: record.description.clone(),
                first: Posting { account: asset, amount: *d },
                second: Posting {
                    account: income,
                    amount: Amount { mantissa: -d.mantissa, scale: d.scale },
                },
            };
            proof {
                lemma_neg_balances(*d);
            }
            entries.push(e);
        }
    }
    entries
}

} // verus!
