//! The name of a pool's liquidity token, made from the names of its two
//! assets.

use vstd::prelude::*;
use vstd::string::StringExecFns;
use vstd::utf8::{decode_utf8, valid_utf8};
use crate::id::AlkaneId;

verus! {

/// The ten digits.
pub open spec fn digit(d: int) -> char {
    seq!['0', '1', '2', '3', '4', '5', '6', '7', '8', '9'][d]
}

/// The decimal notation of a number, without leading zeros.
pub open spec fn decimal_text(x: nat) -> Seq<char>
    decreases x,
{
    if x < 10 {
        seq![digit(x as int)]
    } else {
        decimal_text(x / 10).push(digit((x % 10) as int))
    }
}

/// The text that `String::from_utf8_lossy` of std makes of bytes: the text
/// that they encode, with U+FFFD in place of what is not valid UTF-8.
pub uninterp spec fn lossy_text(bytes: Seq<u8>) -> Seq<char>;

/// `String::from_utf8_lossy` of std. Of valid UTF-8 it is the text that the
/// bytes encode.
#[verifier::external_body]
fn from_utf8_lossy(bytes: &[u8]) -> (r: String)
    ensures
        r@ == lossy_text(bytes@),
        valid_utf8(bytes@) ==> r@ == decode_utf8(bytes@),
{
    String::from_utf8_lossy(bytes).to_string()
}

/// The decimal notation of a number, as std's `Display` for `u128` writes
/// it.
#[verifier::external_body]
fn decimal(x: u128) -> (r: String)
    ensures
        r@ == decimal_text(x as nat),
{
    format!("{}", x)
}

/// How an asset is called in the name of a pool: by the name that it gave
/// for itself, read leniently, or where it gave none, by the two parts of
/// its identifier in decimal with a comma between them.
pub open spec fn label_text(id: AlkaneId, answer: Option<Seq<u8>>) -> Seq<char> {
    if answer is Some && answer->0.len() > 0 {
        lossy_text(answer->0)
    } else {
        decimal_text(id.block as nat) + ","@ + decimal_text(id.tx as nat)
    }
}

/// The name of the liquidity token of a pool of two assets: the two labels
/// with ` / ` between them and ` LP` after them. The pools of the
/// fee-burning kind add ` (OYL)`.
pub open spec fn pool_name_text(label_a: Seq<char>, label_b: Seq<char>, oyl: bool) -> Seq<char> {
    let plain = label_a + " / "@ + label_b + " LP"@;
    if oyl {
        plain + " (OYL)"@
    } else {
        plain
    }
}

/// How an asset is called in the name of a pool. `answer` is what the asset
/// answered when asked for its name, or `None` where the call failed.
pub fn token_label(id: AlkaneId, answer: Option<&Vec<u8>>) -> (r: String)
    ensures
        r@ == label_text(
            id,
            match answer {
                Some(data) => Some(data@),
                None => None,
            },
        ),
{
    match answer {
        Some(data) => {
            if data.len() > 0 {
                return from_utf8_lossy(data.as_slice());
            }
        },
        None => {},
    }
    let tx = decimal(id.tx);
    decimal(id.block).concat(",").concat(tx.as_str())
}

/// The name of the liquidity token of a pool whose assets have the labels
/// given.
pub fn pool_name(label_a: &String, label_b: &String, oyl: bool) -> (r: String)
    ensures
        r@ == pool_name_text(label_a@, label_b@, oyl),
{
    let plain = label_a.clone().concat(" / ").concat(label_b.as_str()).concat(" LP");
    if oyl {
        plain.concat(" (OYL)")
    } else {
        plain
    }
}

} // verus!
