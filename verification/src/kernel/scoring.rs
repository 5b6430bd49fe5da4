//! Routing strategies: how the provider of a request is chosen among the
//! candidates.

use vstd::prelude::*;
use crate::text::str_eq;

verus! {

/// How a provider is chosen among the candidates.
#[derive(Clone, Copy, PartialEq, Eq, Structural, Debug)]
pub enum RoutingStrategy {
    Adaptive,
    FirstAvailable,
    Cheapest,
    Fastest,
    LowestLatency,
    HighestSuccess,
    Balanced,
}

/// The configuration name of a strategy.
pub open spec fn strategy_name(s: RoutingStrategy) -> Seq<char> {
    match s {
        RoutingStrategy::Adaptive => "adaptive"@,
        RoutingStrategy::FirstAvailable => "first_available"@,
        RoutingStrategy::Cheapest => "cheapest"@,
        RoutingStrategy::Fastest => "fastest"@,
        RoutingStrategy::LowestLatency => "lowest_latency"@,
        RoutingStrategy::HighestSuccess => "highest_success"@,
        RoutingStrategy::Balanced => "balanced"@,
    }
}

/// The strategy a configuration name selects; unknown names select
/// `Adaptive`.
pub open spec fn strategy_from(raw: Seq<char>) -> RoutingStrategy {
    if raw == "first_available"@ {
        RoutingStrategy::FirstAvailable
    } else if raw == "cheapest"@ {
        RoutingStrategy::Cheapest
    } else if raw == "fastest"@ {
        RoutingStrategy::Fastest
    } else if raw == "lowest_latency"@ {
        RoutingStrategy::LowestLatency
    } else if raw == "highest_success"@ {
        RoutingStrategy::HighestSuccess
    } else if raw == "balanced"@ {
        RoutingStrategy::Balanced
    } else {
        RoutingStrategy::Adaptive
    }
}

impl Default for RoutingStrategy {
    fn default() -> (r: Self)
        ensures
            r == RoutingStrategy::Adaptive,
    {
        RoutingStrategy::Adaptive
    }
}

impl RoutingStrategy {
    /// Parses a configuration name; unknown names give `Adaptive`.
    pub fn from_str(raw: &str) -> (r: Self)
        ensures
            r == strategy_from(raw@),
    {
        if str_eq(raw, "first_available") {
            RoutingStrategy::FirstAvailable
        } else if str_eq(raw, "cheapest") {
            RoutingStrategy::Cheapest
        } else if str_eq(raw, "fastest") {
            RoutingStrategy::Fastest
        } else if str_eq(raw, "lowest_latency") {
            RoutingStrategy::LowestLatency
        } else if str_eq(raw, "highest_success") {
            RoutingStrategy::HighestSuccess
        } else if str_eq(raw, "balanced") {
            RoutingStrategy::Balanced
        } else {
            RoutingStrategy::Adaptive
        }
    }

    /// The configuration name of the strategy.
    pub fn as_str(self) -> (r: &'static str)
        ensures
            r@ == strategy_name(self),
    {
        match self {
            RoutingStrategy::Adaptive => "adaptive",
            RoutingStrategy::FirstAvailable => "first_available",
            RoutingStrategy::Cheapest => "cheapest",
            RoutingStrategy::Fastest => "fastest",
            RoutingStrategy::LowestLatency => "lowest_latency",
            RoutingStrategy::HighestSuccess => "highest_success",
            RoutingStrategy::Balanced => "balanced",
        }
    }
}

/// Parsing the name of a strategy gives the strategy back.
pub proof fn lemma_strategy_name_roundtrip(s: RoutingStrategy)
    ensures
        strategy_from(strategy_name(s)) == s,
{
    reveal_strlit("adaptive");
    reveal_strlit("first_available");
    reveal_strlit("cheapest");
    reveal_strlit("fastest");
    reveal_strlit("lowest_latency");
    reveal_strlit("highest_success");
    reveal_strlit("balanced");
    assert("adaptive"@ != "first_available"@) by { assert("adaptive"@.len() != "first_available"@.len()); }
    assert("adaptive"@ != "cheapest"@) by { assert("adaptive"@[0] != "cheapest"@[0]); }
    assert("adaptive"@ != "fastest"@) by { assert("adaptive"@[0] != "fastest"@[0]); }
    assert("adaptive"@ != "lowest_latency"@) by { assert("adaptive"@[0] != "lowest_latency"@[0]); }
    assert("adaptive"@ != "highest_success"@) by { assert("adaptive"@[0] != "highest_success"@[0]); }
    assert("adaptive"@ != "balanced"@) by { assert("adaptive"@[0] != "balanced"@[0]); }
    assert("first_available"@ != "cheapest"@) by { assert("first_available"@[0] != "cheapest"@[0]); }
    assert("first_available"@ != "fastest"@) by { assert("first_available"@[1] != "fastest"@[1]); }
    assert("first_available"@ != "lowest_latency"@) by { assert("first_available"@[0] != "lowest_latency"@[0]); }
    assert("first_available"@ != "highest_success"@) by { assert("first_available"@[0] != "highest_success"@[0]); }
    assert("first_available"@ != "balanced"@) by { assert("first_available"@[0] != "balanced"@[0]); }
    assert("cheapest"@ != "fastest"@) by { assert("cheapest"@[0] != "fastest"@[0]); }
    assert("cheapest"@ != "lowest_latency"@) by { assert("cheapest"@[0] != "lowest_latency"@[0]); }
    assert("cheapest"@ != "highest_success"@) by { assert("cheapest"@[0] != "highest_success"@[0]); }
    assert("cheapest"@ != "balanced"@) by { assert("cheapest"@[0] != "balanced"@[0]); }
    assert("fastest"@ != "lowest_latency"@) by { assert("fastest"@[0] != "lowest_latency"@[0]); }
    assert("fastest"@ != "highest_success"@) by { assert("fastest"@[0] != "highest_success"@[0]); }
    assert("fastest"@ != "balanced"@) by { assert("fastest"@[0] != "balanced"@[0]); }
    assert("lowest_latency"@ != "highest_success"@) by { assert("lowest_latency"@[0] != "highest_success"@[0]); }
    assert("lowest_latency"@ != "balanced"@) by { assert("lowest_latency"@[0] != "balanced"@[0]); }
    assert("highest_success"@ != "balanced"@) by { assert("highest_success"@[0] != "balanced"@[0]); }
}

} // verus!
