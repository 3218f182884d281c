//! Decoding of a Wolfram rule index into a next-state function over 3-cell
//! neighborhoods.

use vstd::prelude::*;

use vstd::arithmetic::power2::{lemma2_to64, pow2};

use crate::AutomatonError;

verus! {

/// A cell state is binary: 0 or 1, stored in a byte.
pub open spec fn is_bit(c: u8) -> bool {
    c == 0 || c == 1
}

/// The 3-bit neighborhood pattern, read most significant bit first as
/// `(left, center, right)`: a value in `[0, 7]`.
pub open spec fn pattern(left: u8, center: u8, right: u8) -> u8
    recommends
        is_bit(left),
        is_bit(center),
        is_bit(right),
{
    (left * 4 + center * 2 + right) as u8
}

/// Bit `p` of the 8-bit binary expansion of `rule`, counted with the least
/// significant bit as pattern value 0 (the conventional Wolfram numbering).
pub open spec fn rule_bit(rule: u8, p: u8) -> u8
    recommends
        p < 8,
{
    (rule >> p) & 1
}

/// Decoding law: for every rule and every pattern `p` in `[0, 7]`, the table
/// entry is digit `p` of the zero-padded 8-bit binary representation of the
/// rule, counted from the least significant digit — that is,
/// `(rule / 2^p) % 2`.
pub proof fn lemma_rule_bit_is_binary_digit(rule: u8, p: u8)
    requires
        p < 8,
    ensures
        rule_bit(rule, p) == ((rule as nat) / pow2(p as nat)) % 2,
{
    lemma2_to64();
    if p == 0 {
        assert((rule >> 0u8) & 1 == (rule / 1) % 2) by (bit_vector);
    } else if p == 1 {
        assert((rule >> 1u8) & 1 == (rule / 2) % 2) by (bit_vector);
    } else if p == 2 {
        assert((rule >> 2u8) & 1 == (rule / 4) % 2) by (bit_vector);
    } else if p == 3 {
        assert((rule >> 3u8) & 1 == (rule / 8) % 2) by (bit_vector);
    } else if p == 4 {
        assert((rule >> 4u8) & 1 == (rule / 16) % 2) by (bit_vector);
    } else if p == 5 {
        assert((rule >> 5u8) & 1 == (rule / 32) % 2) by (bit_vector);
    } else if p == 6 {
        assert((rule >> 6u8) & 1 == (rule / 64) % 2) by (bit_vector);
    } else {
        assert((rule >> 7u8) & 1 == (rule / 128) % 2) by (bit_vector);
    }
}

/// Table law: for every rule and every binary neighborhood `(l, c, r)`, the
/// table's entry is digit `l*4 + c*2 + r` of the zero-padded 8-bit binary
/// representation of the rule, counted from the least significant digit.
pub proof fn lemma_table_decodes_rule(rule: u8, left: u8, center: u8, right: u8)
    requires
        is_bit(left),
        is_bit(center),
        is_bit(right),
    ensures
        rule_bit(rule, pattern(left, center, right)) == ((rule as nat) / pow2(
            pattern(left, center, right) as nat,
        )) % 2,
{
    lemma_rule_bit_is_binary_digit(rule, pattern(left, center, right));
}

/// An immutable lookup table for one elementary rule: entry `k` gives the
/// next state for the 3-bit neighborhood pattern `k`.
#[derive(Clone, Copy, Debug)]
pub struct RuleTable {
    rule: u8,
}

impl RuleTable {
    /// The rule index this table decodes.
    pub closed spec fn rule_spec(&self) -> u8 {
        self.rule
    }

    /// Decodes `rule_index` into a table; indices outside `[0, 255]` are
    /// rejected.
    pub fn new(rule_index: i32) -> (result: Result<RuleTable, AutomatonError>)
        ensures
            result is Ok <==> 0 <= rule_index <= 255,
            result matches Ok(table) ==> table.rule_spec() == rule_index,
            result matches Err(e) ==> e == AutomatonError::InvalidRule,
    {
        if rule_index < 0 || rule_index > 255 {
            Err(AutomatonError::InvalidRule)
        } else {
            Ok(RuleTable { rule: rule_index as u8 })
        }
    }

    /// The next state of a cell whose neighborhood reads
    /// `(left, center, right)`.
    pub fn lookup(&self, left: u8, center: u8, right: u8) -> (next: u8)
        requires
            is_bit(left),
            is_bit(center),
            is_bit(right),
        ensures
            next == rule_bit(self.rule_spec(), pattern(left, center, right)),
            is_bit(next),
    {
        let p: u8 = left * 4 + center * 2 + right;
        let next: u8 = (self.rule >> p) & 1;
        proof {
            let rule = self.rule;
            assert((rule >> p) & 1 == 0 || (rule >> p) & 1 == 1) by (bit_vector);
        }
        next
    }

    /// The rule index, recovered from the table.
    pub fn rule_index(&self) -> (index: u8)
        ensures
            index == self.rule_spec(),
    {
        self.rule
    }
}

} // verus!
