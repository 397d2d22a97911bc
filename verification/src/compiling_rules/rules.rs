//! The lexing rules of a language.

use vstd::prelude::*;
use crate::compiling_rules::region::{
    Region,
    preorder,
    reference_resolves,
    references_resolve,
    same_region,
};

verus! {

/// What the lexer needs to know about a language: which characters stand
/// alone as symbols, which pairs of characters merge into one token, the
/// tree of regions, and the escape character.
#[derive(Debug, PartialEq)]
pub struct Rules {
    /// Characters that are tokens of their own, such as `(` or `+`.
    pub symbols: Vec<char>,
    /// The region tree; its root is the global context.
    pub region_tree: Region,
    /// The character that keeps the delimiter after it from matching.
    pub escape_symbol: char,
    /// Pairs of characters that are merged into a single token.
    pub compounds: Vec<(char, char)>,
}

/// Two sets of rules that say the same.
pub open spec fn same_rules(a: Rules, b: Rules) -> bool {
    &&& a.symbols@ == b.symbols@
    &&& a.compounds@ == b.compounds@
    &&& a.escape_symbol == b.escape_symbol
    &&& same_region(a.region_tree, b.region_tree)
}

impl Clone for Rules {
    fn clone(&self) -> (out: Rules)
        ensures
            same_rules(*self, out),
    {
        let mut symbols: Vec<char> = Vec::new();
        let mut i: usize = 0;
        while i < self.symbols.len()
            invariant
                i <= self.symbols@.len(),
                symbols@ == self.symbols@.take(i as int),
            decreases self.symbols@.len() - i,
        {
            symbols.push(self.symbols[i]);
            proof {
                assert(self.symbols@.take(i + 1) =~= self.symbols@.take(i as int).push(
                    self.symbols@[i as int],
                ));
            }
            i += 1;
        }
        let mut compounds: Vec<(char, char)> = Vec::new();
        let mut k: usize = 0;
        while k < self.compounds.len()
            invariant
                k <= self.compounds@.len(),
                compounds@ == self.compounds@.take(k as int),
            decreases self.compounds@.len() - k,
        {
            compounds.push(self.compounds[k]);
            proof {
                assert(self.compounds@.take(k + 1) =~= self.compounds@.take(k as int).push(
                    self.compounds@[k as int],
                ));
            }
            k += 1;
        }
        proof {
            assert(self.symbols@.take(self.symbols@.len() as int) =~= self.symbols@);
            assert(self.compounds@.take(self.compounds@.len() as int) =~= self.compounds@);
        }
        Rules {
            symbols,
            region_tree: self.region_tree.clone(),
            escape_symbol: self.escape_symbol,
            compounds,
        }
    }
}

impl Rules {
    /// Rules with the default escape character, the backslash.
    pub fn new(symbols: Vec<char>, compounds: Vec<(char, char)>, region_tree: Region) -> (rules:
        Rules)
        ensures
            rules.symbols == symbols,
            rules.compounds == compounds,
            rules.region_tree == region_tree,
            rules.escape_symbol == '\\',
    {
        Rules { symbols, compounds, region_tree, escape_symbol: '\\' }
    }

    /// The same rules with another escape character.
    pub fn set_escape(self, symbol: char) -> (rules: Rules)
        ensures
            rules.symbols == self.symbols,
            rules.compounds == self.compounds,
            rules.region_tree == self.region_tree,
            rules.escape_symbol == symbol,
    {
        let mut rules = self;
        rules.escape_symbol = symbol;
        rules
    }

    /// The root of the region tree is global and every `references` in the
    /// tree names a region of the tree.
    pub open spec fn well_formed(&self) -> bool {
        &&& self.region_tree.global
        &&& references_resolve(self.region_tree, preorder(self.region_tree))
    }

    /// Tests whether these rules are well formed.
    pub fn is_well_formed(&self) -> (ok: bool)
        ensures
            ok == self.well_formed(),
    {
        if !self.region_tree.global {
            return false;
        }
        let map = self.region_tree.generate_region_map();
        let mut i: usize = 0;
        while i < map.len()
            invariant
                i <= map@.len(),
                map@ == preorder(self.region_tree),
                forall|k: int| 0 <= k < i ==> reference_resolves(#[trigger] map@[k], map@),
            decreases map@.len() - i,
        {
            let region = map.entry(i);
            match &region.references {
                Some(id) => {
                    if map.get(id).is_none() {
                        return false;
                    }
                },
                None => {},
            }
            i += 1;
        }
        true
    }
}

} // verus!
