//! Why a shard proof is refused.
use vstd::prelude::*;
use crate::text::{decimal, decimal_string, join};

verus! {

/// Why a shard proof was refused.
#[derive(Debug)]
pub enum BasefoldVerifyError {
    /// The number of public values is not the machine's.
    PublicValuesLengthMismatch {
        /// The machine's number.
        expected: usize,
        /// The proof's number.
        got: usize,
    },
    /// The number of chip openings is not the number of chips.
    ChipCountMismatch {
        /// The number of chips.
        expected: usize,
        /// The proof's number.
        got: usize,
    },
    /// The lookup argument does not verify.
    LogupGkr(String),
    /// The constraint argument does not verify.
    Zerocheck(String),
    /// The polynomial opening does not verify.
    JaggedPcs(String),
    /// A part of a proof that is not supported.
    Unimplemented(&'static str),
}

/// The mathematical content of a refusal.
pub enum ShardRefusal {
    PublicValuesLengthMismatch(int, int),
    ChipCountMismatch(int, int),
    LogupGkr(Seq<char>),
    Zerocheck(Seq<char>),
    JaggedPcs(Seq<char>),
    Unimplemented(Seq<char>),
}

impl View for BasefoldVerifyError {
    type V = ShardRefusal;

    open spec fn view(&self) -> ShardRefusal {
        match self {
            BasefoldVerifyError::PublicValuesLengthMismatch { expected, got } => {
                ShardRefusal::PublicValuesLengthMismatch(*expected as int, *got as int)
            },
            BasefoldVerifyError::ChipCountMismatch { expected, got } => {
                ShardRefusal::ChipCountMismatch(*expected as int, *got as int)
            },
            BasefoldVerifyError::LogupGkr(s) => ShardRefusal::LogupGkr(s@),
            BasefoldVerifyError::Zerocheck(s) => ShardRefusal::Zerocheck(s@),
            BasefoldVerifyError::JaggedPcs(s) => ShardRefusal::JaggedPcs(s@),
            BasefoldVerifyError::Unimplemented(s) => ShardRefusal::Unimplemented(s@),
        }
    }
}

/// The result of a check, with the content of its error.
pub open spec fn answer_val(r: Result<(), BasefoldVerifyError>) -> Result<(), ShardRefusal> {
    match r {
        Ok(_) => Ok(()),
        Err(e) => Err(e@),
    }
}

/// The text of a refusal.
pub open spec fn refusal_text(e: ShardRefusal) -> Seq<char> {
    match e {
        ShardRefusal::PublicValuesLengthMismatch(expected, got) => {
            text2(
                "public_values length mismatch: expected "@,
                expected as nat,
                ", got "@,
                got as nat,
                ""@,
            )
        },
        ShardRefusal::ChipCountMismatch(expected, got) => {
            text2("chip count mismatch: expected "@, expected as nat, ", got "@, got as nat, ""@)
        },
        ShardRefusal::LogupGkr(s) => "LogUp-GKR: "@ + s,
        ShardRefusal::Zerocheck(s) => "zerocheck: "@ + s,
        ShardRefusal::JaggedPcs(s) => "jagged-PCS: "@ + s,
        ShardRefusal::Unimplemented(s) => {
            ("host-side BasefoldShardVerifier: "@ + s) + " not yet implemented"@
        },
    }
}

/// Two decimal numbers between three pieces of text.
pub open spec fn text2(
    a: Seq<char>,
    x: nat,
    b: Seq<char>,
    y: nat,
    c: Seq<char>,
) -> Seq<char> {
    (((a + decimal(x)) + b) + decimal(y)) + c
}

/// One decimal number between two pieces of text.
pub open spec fn text1(a: Seq<char>, x: nat, b: Seq<char>) -> Seq<char> {
    (a + decimal(x)) + b
}

/// Two decimal numbers between three pieces of text.
pub fn message2(a: &str, x: usize, b: &str, y: usize, c: &str) -> (r: String)
    ensures
        r@ == text2(a@, x as nat, b@, y as nat, c@),
{
    let head = join(a.to_owned(), decimal_string(x).as_str());
    let middle = join(join(head, b), decimal_string(y).as_str());
    join(middle, c)
}

/// One decimal number between two pieces of text.
pub fn message1(a: &str, x: usize, b: &str) -> (r: String)
    ensures
        r@ == text1(a@, x as nat, b@),
{
    join(join(a.to_owned(), decimal_string(x).as_str()), b)
}

/// Three decimal numbers between four pieces of text.
pub open spec fn text3(
    a: Seq<char>,
    x: nat,
    b: Seq<char>,
    y: nat,
    c: Seq<char>,
    z: nat,
    d: Seq<char>,
) -> Seq<char> {
    (text2(a, x, b, y, c) + decimal(z)) + d
}

/// Three decimal numbers between four pieces of text.
pub fn message3(a: &str, x: usize, b: &str, y: usize, c: &str, z: usize, d: &str) -> (r: String)
    ensures
        r@ == text3(a@, x as nat, b@, y as nat, c@, z as nat, d@),
{
    join(join(message2(a, x, b, y, c), decimal_string(z).as_str()), d)
}

impl BasefoldVerifyError {
    /// The refusal in words.
    pub fn message(&self) -> (r: String)
        ensures
            r@ == refusal_text(self@),
    {
        match self {
            BasefoldVerifyError::PublicValuesLengthMismatch { expected, got } => {
                message2(
                    "public_values length mismatch: expected ",
                    *expected,
                    ", got ",
                    *got,
                    "",
                )
            },
            BasefoldVerifyError::ChipCountMismatch { expected, got } => {
                message2("chip count mismatch: expected ", *expected, ", got ", *got, "")
            },
            BasefoldVerifyError::LogupGkr(s) => join("LogUp-GKR: ".to_owned(), s.as_str()),
            BasefoldVerifyError::Zerocheck(s) => join("zerocheck: ".to_owned(), s.as_str()),
            BasefoldVerifyError::JaggedPcs(s) => join("jagged-PCS: ".to_owned(), s.as_str()),
            BasefoldVerifyError::Unimplemented(s) => {
                join(
                    join("host-side BasefoldShardVerifier: ".to_owned(), s),
                    " not yet implemented",
                )
            },
        }
    }
}

/// A refusal of the lookup argument.
pub fn gkr_error(what: &str) -> (r: BasefoldVerifyError)
    ensures
        r@ == ShardRefusal::LogupGkr(what@),
{
    BasefoldVerifyError::LogupGkr(what.to_owned())
}

/// A refusal of the constraint argument.
pub fn zerocheck_error(what: &str) -> (r: BasefoldVerifyError)
    ensures
        r@ == ShardRefusal::Zerocheck(what@),
{
    BasefoldVerifyError::Zerocheck(what.to_owned())
}

/// A refusal of the polynomial opening.
pub fn jagged_error(what: &str) -> (r: BasefoldVerifyError)
    ensures
        r@ == ShardRefusal::JaggedPcs(what@),
{
    BasefoldVerifyError::JaggedPcs(what.to_owned())
}

} // verus!
