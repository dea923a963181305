//! The data the pipeline works on: exact decimal amounts, calendar dates, bank
//! records, ledger postings and balanced entries, with their validity
//! predicates and the errors a batch can fail with.

use vstd::prelude::*;

verus! {

/// An exact decimal amount: `mantissa / 10^scale`.
#[derive(Clone, Copy, PartialEq, Eq, Structural, Debug)]
pub struct Amount {
    pub mantissa: i128,
    pub scale: u32,
}

/// 10 raised to `e`.
pub open spec fn pow10(e: nat) -> int
    decreases e,
{
    if e == 0 {
        1
    } else {
        10 * pow10((e - 1) as nat)
    }
}

impl Amount {
    /// Mantissas stay within 96 bits and scales within 28, the ranges the
    /// source decimals are drawn from; negation and addition then never
    /// overflow an `i128`.
    pub open spec fn valid(self) -> bool {
        -0x1000000000000000000000000 < self.mantissa < 0x1000000000000000000000000 && self.scale
            <= 28
    }

    /// The same amount with the opposite sign.
    pub open spec fn spec_neg(self) -> Amount {
        Amount { mantissa: (-(self.mantissa as int)) as i128, scale: self.scale }
    }
}

/// The two amounts sum to exactly zero, compared as exact decimals on a
/// common denominator.
pub open spec fn sum_is_zero(a: Amount, b: Amount) -> bool {
    a.mantissa * pow10(b.scale as nat) + b.mantissa * pow10(a.scale as nat) == 0
}

/// A calendar date, held as plain year, month and day numbers.
#[derive(Clone, Copy, PartialEq, Eq, Structural, Debug)]
pub struct Date {
    pub year: i32,
    pub month: u32,
    pub day: u32,
}

impl Date {
    /// Dates the renderer can print as `YYYY-MM-DD`.
    pub open spec fn valid(self) -> bool {
        0 <= self.year <= 9999 && 1 <= self.month <= 12 && 1 <= self.day <= 31
    }
}

/// One row of the bank export, after its fields have parsed.
pub struct BankRecord {
    pub date: Date,
    pub description: String,
    pub withdrawal: Option<Amount>,
    pub deposit: Option<Amount>,
}

impl BankRecord {
    /// A record as the source hands it over: a valid date and non-negative,
    /// valid amounts where present.
    pub open spec fn wf(self) -> bool {
        &&& self.date.valid()
        &&& self.description@.len() < usize::MAX
        &&& self.withdrawal matches Some(a) ==> a.valid() && a.mantissa >= 0
        &&& self.deposit matches Some(a) ==> a.valid() && a.mantissa >= 0
    }

    /// The record moves money out of the asset account.
    pub open spec fn has_withdrawal(self) -> bool {
        self.withdrawal matches Some(a) && a.mantissa > 0
    }

    /// The record moves money into the asset account.
    pub open spec fn has_deposit(self) -> bool {
        self.deposit matches Some(a) && a.mantissa > 0
    }

    /// How many entries the record synthesizes: one per present, positive
    /// movement.
    pub open spec fn entry_count(self) -> nat {
        (if self.has_withdrawal() {
            1nat
        } else {
            0nat
        }) + (if self.has_deposit() {
            1nat
        } else {
            0nat
        })
    }
}

/// One ledger line: an account name and a signed amount.
pub struct Posting {
    pub account: String,
    pub amount: Amount,
}

/// One economic event: exactly two postings whose amounts balance.
pub struct Entry {
    pub date: Date,
    pub narration: String,
    pub first: Posting,
    pub second: Posting,
}

/// The entry's two posting amounts sum to exactly zero.
pub open spec fn balanced(e: Entry) -> bool {
    sum_is_zero(e.first.amount, e.second.amount)
}

/// Why an import batch aborts.
#[derive(Debug)]
pub enum ImportError {
    /// A row's date or amount field did not parse; holds the offending field.
    RecordParse(String),
    /// The destination ledger document did not parse; holds the parser's
    /// message.
    LedgerRead(String),
}

impl ImportError {
    /// The text the error carries.
    pub open spec fn spec_detail(self) -> Seq<char> {
        match self {
            ImportError::RecordParse(s) => s@,
            ImportError::LedgerRead(s) => s@,
        }
    }

    /// The offending field or message, for diagnostics.
    pub fn detail(&self) -> (r: String)
        ensures
            r@ == self.spec_detail(),
    {
        match self {
            ImportError::RecordParse(s) => s.clone(),
            ImportError::LedgerRead(s) => s.clone(),
        }
    }
}

} // verus!
