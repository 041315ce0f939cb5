//! The score factors that depend only on the graph and the symbol, in hundredths.

use vstd::prelude::*;

use crate::parse::types::{Symbol, SymbolKind};

verus! {

/// The reference factor in hundredths: 1.0 with no callers, 0.5 with one, 0 with more.
pub open spec fn ref_factor_spec(in_degree: usize) -> u32 {
    if in_degree == 0 {
        100
    } else if in_degree == 1 {
        50
    } else {
        0
    }
}

/// The scope factor in hundredths: 0.4 for exported symbols, 0.6 for methods, 1.0 otherwise.
pub open spec fn scope_factor_spec(symbol: Symbol) -> u32 {
    if symbol.is_exported {
        40
    } else if symbol.kind == SymbolKind::Method {
        60
    } else {
        100
    }
}

/// The churn factor in hundredths: 1.0 with no recent commits, 0.5 with one or two, 0 with more.
pub open spec fn churn_factor_spec(commits_90d: usize) -> u32 {
    if commits_90d == 0 {
        100
    } else if commits_90d <= 2 {
        50
    } else {
        0
    }
}

/// The reference factor of a symbol with `in_degree` callers, in hundredths.
pub fn ref_factor(in_degree: usize) -> (factor: u32)
    ensures
        factor == ref_factor_spec(in_degree),
{
    match in_degree {
        0 => 100,
        1 => 50,
        _ => 0,
    }
}

/// The scope factor of a symbol, in hundredths.
pub fn scope_factor(symbol: &Symbol) -> (factor: u32)
    ensures
        factor == scope_factor_spec(*symbol),
{
    if symbol.is_exported {
        40
    } else if symbol.kind == SymbolKind::Method {
        60
    } else {
        100
    }
}

/// The churn factor of a file touched by `commits_90d` commits in the last 90 days, in hundredths.
pub fn churn_factor(commits_90d: usize) -> (factor: u32)
    ensures
        factor == churn_factor_spec(commits_90d),
{
    match commits_90d {
        0 => 100,
        1 | 2 => 50,
        _ => 0,
    }
}

} // verus!
