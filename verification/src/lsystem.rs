//! The grammar engine: a current symbol string and a substitution rule
//! table, expanded by repeated left-to-right rewrite passes.

use vstd::prelude::*;

use crate::interp::GState;
use crate::interp::InterpretError;
use crate::interp::consumed;
use crate::interp::init_state;
use crate::interp::interpret;
use crate::interp::known_symbol;
use crate::interp::run;
use crate::turtle::Turtle;

verus! {

/// The replacement for `c` under `rules`: the replacement sequence of the
/// first rule whose key is `c`, if any.
pub open spec fn spec_lookup(rules: Seq<(char, Seq<char>)>, c: char) -> Option<Seq<char>>
    decreases rules.len(),
{
    if rules.len() == 0 {
        None
    } else if rules[0].0 == c {
        Some(rules[0].1)
    } else {
        spec_lookup(rules.drop_first(), c)
    }
}

/// What one symbol becomes in a single rewrite pass: its replacement if it
/// has a rule, else the symbol itself.
pub open spec fn spec_apply(rules: Seq<(char, Seq<char>)>, c: char) -> Seq<char> {
    match spec_lookup(rules, c) {
        Some(replacement) => replacement,
        None => seq![c],
    }
}

/// One rewrite pass over a symbol string: every symbol is replaced
/// simultaneously by `spec_apply`.
pub open spec fn spec_rewrite(rules: Seq<(char, Seq<char>)>, s: Seq<char>) -> Seq<char>
    decreases s.len(),
{
    if s.len() == 0 {
        Seq::empty()
    } else {
        spec_apply(rules, s[0]) + spec_rewrite(rules, s.drop_first())
    }
}

/// The symbol string after `n` rewrite passes starting from `s`.
pub open spec fn spec_expand(rules: Seq<(char, Seq<char>)>, s: Seq<char>, n: nat) -> Seq<char>
    decreases n,
{
    if n == 0 {
        s
    } else {
        spec_rewrite(rules, spec_expand(rules, s, (n - 1) as nat))
    }
}

/// An L-system: the current symbol string and the immutable rule table.
pub struct LSystem {
    /// The current (or, before any expansion, the initial) symbol string.
    pub symbols: Vec<char>,
    rules: Vec<(char, Vec<char>)>,
}

impl LSystem {
    /// The rule table as a mathematical sequence of (key, replacement) pairs.
    pub closed spec fn rules_view(&self) -> Seq<(char, Seq<char>)> {
        self.rules@.map_values(|r: (char, Vec<char>)| (r.0, r.1@))
    }

    /// The current symbol string as a mathematical sequence.
    pub closed spec fn symbols_view(&self) -> Seq<char> {
        self.symbols@
    }

    /// Stores the symbol string and the rule table verbatim.
    pub fn new(symbols: Vec<char>, rules: Vec<(char, Vec<char>)>) -> (g: LSystem)
        ensures
            g.symbols_view() == symbols@,
            g.rules_view() == rules@.map_values(|r: (char, Vec<char>)| (r.0, r.1@)),
    {
        LSystem { symbols, rules }
    }

    /// The replacement for `c`, if `c` has a rule.
    fn find_rule(&self, c: char) -> (r: Option<&Vec<char>>)
        ensures
            match r {
                Some(replacement) => spec_lookup(self.rules_view(), c) == Some(replacement@),
                None => spec_lookup(self.rules_view(), c) is None,
            },
    {
        proof {
            assert(self.rules_view().skip(0) =~= self.rules_view());
        }
        let mut j: usize = 0;
        while j < self.rules.len()
            invariant
                j <= self.rules@.len(),
                spec_lookup(self.rules_view(), c) == spec_lookup(
                    self.rules_view().skip(j as int),
                    c,
                ),
            decreases self.rules@.len() - j,
        {
            if self.rules[j].0 == c {
                return Some(&self.rules[j].1);
            }
            proof {
                assert(self.rules_view().skip(j as int).drop_first() =~= self.rules_view().skip(
                    j + 1,
                ));
            }
            j += 1;
        }
        proof {
            assert(self.rules_view().skip(j as int) =~= Seq::<(char, Seq<char>)>::empty());
        }
        None
    }

    /// Performs `iterations` sequential rewrite passes over the symbol
    /// string. Each pass builds a new string by replacing every symbol at
    /// once; zero iterations leaves the string unchanged.
    pub fn iterate(&mut self, iterations: u32)
        ensures
            final(self).symbols_view() == spec_expand(
                old(self).rules_view(),
                old(self).symbols_view(),
                iterations as nat,
            ),
            final(self).rules_view() == old(self).rules_view(),
    {
        let ghost rules0 = self.rules_view();
        let ghost start0 = self.symbols@;
        let mut it: u32 = 0;
        while it < iterations
            invariant
                it <= iterations,
                self.rules_view() == rules0,
                self.symbols@ == spec_expand(rules0, start0, it as nat),
            decreases iterations - it,
        {
            let ghost cur = self.symbols@;
            let mut next: Vec<char> = Vec::new();
            let mut k: usize = 0;
            while k < self.symbols.len()
                invariant
                    k <= self.symbols@.len(),
                    self.rules_view() == rules0,
                    self.symbols@ == cur,
                    next@ == spec_rewrite(rules0, cur.take(k as int)),
                decreases self.symbols@.len() - k,
            {
                let c = self.symbols[k];
                let ghost before = next@;
                match self.find_rule(c) {
                    Some(replacement) => {
                        let mut m: usize = 0;
                        while m < replacement.len()
                            invariant
                                m <= replacement@.len(),
                                spec_lookup(rules0, c) == Some(replacement@),
                                next@ == before + replacement@.take(m as int),
                            decreases replacement@.len() - m,
                        {
                            next.push(replacement[m]);
                            proof {
                                assert(replacement@.take(m + 1) =~= replacement@.take(
                                    m as int,
                                ).push(replacement@[m as int]));
                            }
                            m += 1;
                        }
                        proof {
                            assert(replacement@.take(replacement@.len() as int) =~= replacement@);
                        }
                    },
                    None => {
                        next.push(c);
                        proof {
                            assert(next@ =~= before + seq![c]);
                        }
                    },
                }
                proof {
                    assert(next@ == before + spec_apply(rules0, c));
                    lemma_rewrite_snoc(rules0, cur.take(k as int), c);
                    assert(cur.take(k + 1) =~= cur.take(k as int).push(c));
                }
                k += 1;
            }
            proof {
                assert(cur.take(cur.len() as int) =~= cur);
            }
            self.symbols = next;
            it += 1;
        }
    }

    /// Interprets at most `progress` symbols of the current symbol string
    /// in order, driving `turtle` with a fresh, initially empty branch
    /// stack. Exactly one segment is recorded per forward-step symbol
    /// consumed. Stops early with an error naming the first symbol
    /// outside the alphabet, leaving the turtle as the symbols before it
    /// left it.
    pub fn draw(&self, turtle: &mut Turtle, progress: usize) -> (r: Result<(), InterpretError>)
        requires
            old(turtle).wf(),
            old(turtle)@.segments.len() + self.symbols_view().len() <= usize::MAX,
            old(turtle)@.pose.turns + self.symbols_view().len() <= i128::MAX,
            old(turtle)@.pose.turns - self.symbols_view().len() >= i128::MIN,
        ensures
            final(turtle).wf(),
            ({
                let pre = consumed(self.symbols_view(), progress as int);
                let st0 = init_state(old(turtle)@);
                match r {
                    Ok(_) => run(st0, pre) is Ok && final(turtle)@ == run(st0, pre)->Ok_0.turtle,
                    Err(e) => {
                        &&& run(st0, pre) == Err::<GState, int>(e.position as int)
                        &&& e.position < pre.len()
                        &&& e.symbol == pre[e.position as int]
                        &&& !known_symbol(e.symbol)
                        &&& run(st0, pre.take(e.position as int)) is Ok
                        &&& final(turtle)@ == run(st0, pre.take(e.position as int))->Ok_0.turtle
                    },
                }
            }),
    {
        interpret(&self.symbols, progress, turtle)
    }
}

/// A rewrite pass distributes over concatenation: the two halves of a
/// string are rewritten independently.
pub proof fn lemma_rewrite_app(rules: Seq<(char, Seq<char>)>, a: Seq<char>, b: Seq<char>)
    ensures
        spec_rewrite(rules, a + b) == spec_rewrite(rules, a) + spec_rewrite(rules, b),
    decreases a.len(),
{
    if a.len() == 0 {
        assert(a + b =~= b);
        assert(spec_rewrite(rules, a) + spec_rewrite(rules, b) =~= spec_rewrite(rules, b));
    } else {
        assert((a + b).drop_first() =~= a.drop_first() + b);
        lemma_rewrite_app(rules, a.drop_first(), b);
        assert((a + b)[0] == a[0]);
        assert(spec_apply(rules, a[0]) + (spec_rewrite(rules, a.drop_first()) + spec_rewrite(
            rules,
            b,
        )) =~= spec_rewrite(rules, a) + spec_rewrite(rules, b));
    }
}

/// Rewriting a string extended by one symbol appends that symbol's
/// replacement to the rewritten string.
pub proof fn lemma_rewrite_snoc(rules: Seq<(char, Seq<char>)>, s: Seq<char>, c: char)
    ensures
        spec_rewrite(rules, s.push(c)) == spec_rewrite(rules, s) + spec_apply(rules, c),
{
    assert(s.push(c) =~= s + seq![c]);
    lemma_rewrite_app(rules, s, seq![c]);
    assert(seq![c].len() == 1 && seq![c][0] == c);
    assert(seq![c].drop_first() =~= Seq::<char>::empty());
    assert(spec_rewrite(rules, seq![c]) == spec_apply(rules, c) + spec_rewrite(
        rules,
        Seq::<char>::empty(),
    ));
    assert(spec_apply(rules, c) + spec_rewrite(rules, Seq::<char>::empty()) =~= spec_apply(
        rules,
        c,
    ));
}

} // verus!
