//! Labels of the factors of a multi-factor regression.
use crate::text::{decimal, push_decimal};
use vstd::prelude::*;
use vstd::string::*;

verus! {

/// Factor names were given, but not one per fitted beta.
#[derive(Debug, Clone, Copy, PartialEq, Eq)]
pub struct FactorNamesMismatch {
    /// How many names were given.
    pub given: usize,
    /// How many betas the regression fitted.
    pub expected: usize,
}

impl FactorNamesMismatch {
    /// The message the error is reported with.
    pub fn message(&self) -> (r: String)
        ensures
            r@ == "factor_names has "@ + decimal(self.given as nat)
                + " entries but the regression fitted "@ + decimal(self.expected as nat)
                + " betas"@,
    {
        let mut out = String::from_str("factor_names has ");
        push_decimal(&mut out, self.given);
        out.append(" entries but the regression fitted ");
        push_decimal(&mut out, self.expected);
        out.append(" betas");
        out
    }
}

/// The default label of factor `i`: `factor_<i>`.
pub open spec fn default_factor_label(i: nat) -> Seq<char> {
    "factor_"@ + decimal(i)
}

/// The labels of the `n_betas` fitted factors, in the order of the betas:
/// the given names when there is one per beta, an error when their number
/// differs, and `factor_0`, `factor_1`, ... when none are given.
pub fn factor_labels(factor_names: Option<Vec<String>>, n_betas: usize) -> (r: Result<
    Vec<String>,
    FactorNamesMismatch,
>)
    ensures
        match factor_names {
            Some(names) => if names.len() == n_betas {
                r == Ok::<Vec<String>, FactorNamesMismatch>(names)
            } else {
                r == Err::<Vec<String>, FactorNamesMismatch>(
                    FactorNamesMismatch { given: names.len(), expected: n_betas },
                )
            },
            None => r matches Ok(labels) && labels.len() == n_betas && forall|i: int|
                0 <= i < n_betas ==> (#[trigger] labels@[i])@ == default_factor_label(i as nat),
        },
        factor_names is None ==> (r matches Ok(labels) && labels.len() == n_betas && forall|i: int|
            0 <= i < n_betas ==> (#[trigger] labels@[i])@ == "factor_"@ + decimal(i as nat)),
        r is Err <==> (factor_names matches Some(names) && names.len() != n_betas),
{
    match factor_names {
        Some(names) => {
            if names.len() != n_betas {
                Err(FactorNamesMismatch { given: names.len(), expected: n_betas })
            } else {
                Ok(names)
            }
        },
        None => {
            let mut labels: Vec<String> = Vec::new();
            let mut i: usize = 0;
            while i < n_betas
                invariant
                    i <= n_betas,
                    labels.len() == i,
                    forall|k: int|
                        0 <= k < i ==> (#[trigger] labels@[k])@ == default_factor_label(k as nat),
                decreases n_betas - i,
            {
                let mut label = String::from_str("factor_");
                push_decimal(&mut label, i);
                labels.push(label);
                i = i + 1;
            }
            Ok(labels)
        },
    }
}

} // verus!
