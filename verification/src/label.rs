//! Sequence labels for things a reader counts through: answer choices and
//! quiz variants are both presented as `A`, `B`, `C`, … and both have to cope
//! with running past `Z`.
use vstd::prelude::*;

use crate::text::{decimal, decimal_is_one_to_one, decimal_length, decimal_spec, string_from_chars};

verus! {

/// The label for the item at `index`: `A`..`Z`, then the 1-based number.
pub open spec fn label_spec(index: nat) -> Seq<char> {
    if index < 26 {
        seq![((index + 65) as u8) as char]
    } else {
        decimal_spec(index + 1)
    }
}

/// The label for the item at `index`: `A`..`Z`, then a 1-based number.
///
/// Past twenty-six the letters run out and numbering is clearer than `AA`:
/// a twenty-seventh answer choice reads `27`, not a second alphabet.
pub fn sequence(index: usize) -> (res: String)
    requires
        index < usize::MAX,
    ensures
        res@ == label_spec(index as nat),
{
    if index < 26 {
        let offset: u8 = index as u8;
        let mut chars: Vec<char> = Vec::new();
        chars.push((offset + 65) as char);
        string_from_chars(&chars)
    } else {
        decimal(index as u64 + 1)
    }
}

/// Every label is distinct, so two choices (or two variants) can never
/// share one.
pub proof fn labels_are_unique(i: nat, j: nat)
    requires
        i != j,
    ensures
        label_spec(i) != label_spec(j),
{
    decimal_length(i + 1);
    decimal_length(j + 1);
    if i < 26 && j < 26 {
        assert(label_spec(i)[0] != label_spec(j)[0]);
    } else if i >= 26 && j >= 26 {
        if label_spec(i) == label_spec(j) {
            decimal_is_one_to_one(i + 1, j + 1);
        }
    }
}

} // verus!
