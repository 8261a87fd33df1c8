//! Laws of the grammar engine and the turtle interpreter, stated over
//! the mathematical models and proved once and for all.

use vstd::prelude::*;

use crate::interp::GState;
use crate::interp::known_symbol;
use crate::interp::lemma_run_snoc;
use crate::interp::run;
use crate::interp::step;
use crate::lsystem::lemma_rewrite_app;
use crate::lsystem::spec_apply;
use crate::lsystem::spec_expand;
use crate::lsystem::spec_lookup;
use crate::lsystem::spec_rewrite;
use crate::turtle::turtle_forward;

verus! {

/// How many times symbol `c` occurs in `s`.
pub open spec fn count_sym(s: Seq<char>, c: char) -> int
    decreases s.len(),
{
    if s.len() == 0 {
        0
    } else {
        (if s[0] == c {
            1int
        } else {
            0int
        }) + count_sym(s.drop_first(), c)
    }
}

/// A well-formed symbol string: equal pushes and pops, properly nested
/// (no prefix closes more branches than it has opened).
pub open spec fn balanced(s: Seq<char>) -> bool {
    &&& count_sym(s, '[') == count_sym(s, ']')
    &&& forall|i: int|
        0 <= i <= s.len() ==> count_sym(#[trigger] s.take(i), ']') <= count_sym(s.take(i), '[')
}

/// A rule table in which every replacement has at least one symbol.
pub open spec fn productive(rules: Seq<(char, Seq<char>)>) -> bool {
    forall|i: int| 0 <= i < rules.len() ==> (#[trigger] rules[i]).1.len() >= 1
}

/// Expansion is deterministic: it depends on nothing but the rule table,
/// the starting string and the iteration count, so two expansions from
/// the same inputs yield identical strings.
pub proof fn lemma_expand_deterministic(
    rules1: Seq<(char, Seq<char>)>,
    rules2: Seq<(char, Seq<char>)>,
    s1: Seq<char>,
    s2: Seq<char>,
    n1: nat,
    n2: nat,
)
    requires
        rules1 == rules2,
        s1 == s2,
        n1 == n2,
    ensures
        spec_expand(rules1, s1, n1) == spec_expand(rules2, s2, n2),
{
}

/// In a rule table whose replacement under `c`, if any, is looked up,
/// a productive table never hands back an empty replacement.
proof fn lemma_lookup_productive(rules: Seq<(char, Seq<char>)>, c: char)
    requires
        productive(rules),
    ensures
        spec_lookup(rules, c) matches Some(r) ==> r.len() >= 1,
    decreases rules.len(),
{
    if rules.len() == 0 {
    } else if rules[0].0 == c {
        assert(rules[0].1.len() >= 1);
    } else {
        assert(productive(rules.drop_first())) by {
            assert forall|i: int| 0 <= i < rules.drop_first().len() implies (#[trigger] rules.drop_first()[i]).1.len() >= 1 by {
                assert(rules.drop_first()[i] == rules[i + 1]);
            }
        }
        lemma_lookup_productive(rules.drop_first(), c);
    }
}

/// Under a productive rule table, one rewrite pass never shortens the
/// string.
proof fn lemma_rewrite_len(rules: Seq<(char, Seq<char>)>, s: Seq<char>)
    requires
        productive(rules),
    ensures
        spec_rewrite(rules, s).len() >= s.len(),
    decreases s.len(),
{
    if s.len() != 0 {
        lemma_lookup_productive(rules, s[0]);
        lemma_rewrite_len(rules, s.drop_first());
    }
}

/// Length monotonicity: under a productive rule table (every replacement
/// has length at least 1), the expanded string's length is non-decreasing
/// in the iteration count.
pub proof fn lemma_length_monotone(rules: Seq<(char, Seq<char>)>, s: Seq<char>, m: nat, n: nat)
    requires
        productive(rules),
        m <= n,
    ensures
        spec_expand(rules, s, m).len() <= spec_expand(rules, s, n).len(),
    decreases n,
{
    if m < n {
        lemma_length_monotone(rules, s, m, (n - 1) as nat);
        lemma_rewrite_len(rules, spec_expand(rules, s, (n - 1) as nat));
    }
}

/// Expansion distributes over concatenation: the two halves of a string
/// expand independently.
pub proof fn lemma_expand_app(rules: Seq<(char, Seq<char>)>, a: Seq<char>, b: Seq<char>, n: nat)
    ensures
        spec_expand(rules, a + b, n) == spec_expand(rules, a, n) + spec_expand(rules, b, n),
    decreases n,
{
    if n != 0 {
        lemma_expand_app(rules, a, b, (n - 1) as nat);
        lemma_rewrite_app(
            rules,
            spec_expand(rules, a, (n - 1) as nat),
            spec_expand(rules, b, (n - 1) as nat),
        );
    }
}

/// A symbol with no rule expands to itself, for any iteration count.
proof fn lemma_expand_terminal(rules: Seq<(char, Seq<char>)>, c: char, n: nat)
    requires
        spec_lookup(rules, c) is None,
    ensures
        spec_expand(rules, seq![c], n) == seq![c],
    decreases n,
{
    if n != 0 {
        lemma_expand_terminal(rules, c, (n - 1) as nat);
        assert(seq![c].len() == 1 && seq![c][0] == c);
        assert(seq![c].drop_first() =~= Seq::<char>::empty());
        assert(spec_rewrite(rules, seq![c]) == spec_apply(rules, c) + spec_rewrite(
            rules,
            Seq::<char>::empty(),
        ));
        assert(spec_apply(rules, c) + spec_rewrite(rules, Seq::<char>::empty()) =~= seq![c]);
    }
}

/// Pass-through: a symbol absent from the rule table is never altered by
/// expansion — whatever stands around it, it reappears in place, for any
/// iteration count.
pub proof fn lemma_pass_through(
    rules: Seq<(char, Seq<char>)>,
    a: Seq<char>,
    c: char,
    b: Seq<char>,
    n: nat,
)
    requires
        spec_lookup(rules, c) is None,
    ensures
        spec_expand(rules, a + seq![c] + b, n) == spec_expand(rules, a, n) + seq![c] + spec_expand(
            rules,
            b,
            n,
        ),
{
    lemma_expand_app(rules, a + seq![c], b, n);
    lemma_expand_app(rules, a, seq![c], n);
    lemma_expand_terminal(rules, c, n);
}

/// With an empty rule table, every symbol reproduces itself: one rewrite
/// pass is the identity.
proof fn lemma_rewrite_no_rules(rules: Seq<(char, Seq<char>)>, s: Seq<char>)
    requires
        rules.len() == 0,
    ensures
        spec_rewrite(rules, s) == s,
    decreases s.len(),
{
    if s.len() == 0 {
        assert(spec_rewrite(rules, s) =~= s);
    } else {
        lemma_rewrite_no_rules(rules, s.drop_first());
        assert(spec_apply(rules, s[0]) + s.drop_first() =~= s);
    }
}

/// With an empty rule table, expansion is a no-op for any iteration
/// count.
pub proof fn lemma_empty_rules_no_op(rules: Seq<(char, Seq<char>)>, s: Seq<char>, n: nat)
    requires
        rules.len() == 0,
    ensures
        spec_expand(rules, s, n) == s,
    decreases n,
{
    if n != 0 {
        lemma_empty_rules_no_op(rules, s, (n - 1) as nat);
        lemma_rewrite_no_rules(rules, s);
    }
}

/// Splits a count over a one-symbol prefix: counting in `s.take(i + 1)`
/// is counting the first symbol, then counting in `s.drop_first().take(i)`.
proof fn lemma_count_cons(s: Seq<char>, c: char, i: int)
    requires
        s.len() > 0,
        0 <= i <= s.len() - 1,
    ensures
        count_sym(s.take(i + 1), c) == (if s[0] == c {
            1int
        } else {
            0int
        }) + count_sym(s.drop_first().take(i), c),
{
    assert(s.take(i + 1)[0] == s[0]);
    assert(s.take(i + 1).drop_first() =~= s.drop_first().take(i));
}

/// The frame of the branch stack under a run: if no prefix of `s` pops
/// more than `st.stack.len() - h` branches beyond those it opened, the
/// bottom `h` saved poses are never touched, and the final stack height
/// is the initial height plus the surplus of pushes over pops.
proof fn lemma_run_stack_frame(st: GState, s: Seq<char>, h: int)
    requires
        0 <= h <= st.stack.len(),
        run(st, s) is Ok,
        forall|i: int|
            0 <= i <= s.len() ==> count_sym(#[trigger] s.take(i), ']') <= count_sym(s.take(i), '[')
                + st.stack.len() - h,
    ensures
        run(st, s)->Ok_0.stack.len() == st.stack.len() + count_sym(s, '[') - count_sym(s, ']'),
        forall|j: int| 0 <= j < h ==> run(st, s)->Ok_0.stack[j] == st.stack[j],
    decreases s.len(),
{
    if s.len() == 0 {
    } else {
        let c = s[0];
        let rest = s.drop_first();
        let st1 = step(st, c)->Some_0;
        if c == ']' {
            assert(count_sym(s.take(1), ']') <= count_sym(s.take(1), '[') + st.stack.len() - h);
            lemma_count_cons(s, ']', 0);
            lemma_count_cons(s, '[', 0);
            assert(count_sym(rest.take(0), ']') == 0 && count_sym(rest.take(0), '[') == 0);
            assert(st.stack.len() - h >= 1);
        }
        assert forall|i: int|
            0 <= i <= rest.len() implies count_sym(#[trigger] rest.take(i), ']') <= count_sym(
            rest.take(i),
            '[',
        ) + st1.stack.len() - h by {
            lemma_count_cons(s, ']', i);
            lemma_count_cons(s, '[', i);
            assert(count_sym(s.take(i + 1), ']') <= count_sym(s.take(i + 1), '[') + st.stack.len()
                - h);
        }
        lemma_run_stack_frame(st1, rest, h);
        assert forall|j: int| 0 <= j < h implies run(st, s)->Ok_0.stack[j] == st.stack[j] by {
            assert(st1.stack[j] == st.stack[j]);
            assert(run(st1, rest)->Ok_0.stack[j] == st1.stack[j]);
        }
    }
}

/// Stack balance: a balanced (equal pushes and pops, properly nested)
/// symbol string leaves the branch stack exactly as it found it; begun
/// with an empty stack, a full pass over a well-formed string ends with
/// an empty stack.
pub proof fn lemma_stack_balance(st: GState, s: Seq<char>)
    requires
        balanced(s),
        run(st, s) is Ok,
    ensures
        run(st, s)->Ok_0.stack == st.stack,
{
    lemma_run_stack_frame(st, s, st.stack.len() as int);
    assert(run(st, s)->Ok_0.stack =~= st.stack);
}

/// Progress monotonicity: the segments drawn through `k` symbols are a
/// prefix of those drawn through `k + 1`; consuming the extra symbol
/// records exactly one more segment when it is a forward step and leaves
/// the drawn segments identical otherwise.
pub proof fn lemma_progress_monotone(st: GState, s: Seq<char>, k: int)
    requires
        0 <= k < s.len(),
        run(st, s.take(k + 1)) is Ok,
    ensures
        run(st, s.take(k)) is Ok,
        run(st, s.take(k))->Ok_0.turtle.segments.is_prefix_of(
            run(st, s.take(k + 1))->Ok_0.turtle.segments,
        ),
        s[k] == 'F' ==> run(st, s.take(k + 1))->Ok_0.turtle == turtle_forward(
            run(st, s.take(k))->Ok_0.turtle,
        ),
        s[k] != 'F' ==> run(st, s.take(k + 1))->Ok_0.turtle.segments == run(
            st,
            s.take(k),
        )->Ok_0.turtle.segments,
{
    lemma_run_snoc(st, s.take(k), s[k]);
    assert(s.take(k + 1) =~= s.take(k).push(s[k]));
    let segs_k = run(st, s.take(k))->Ok_0.turtle.segments;
    let segs_k1 = run(st, s.take(k + 1))->Ok_0.turtle.segments;
    assert(segs_k =~= segs_k1.subrange(0, segs_k.len() as int));
}

/// A run succeeds exactly when every consumed symbol is in the alphabet;
/// when it fails, it names the position of the first symbol outside it.
pub proof fn lemma_run_total(st: GState, s: Seq<char>)
    ensures
        run(st, s) is Ok <==> (forall|i: int| 0 <= i < s.len() ==> known_symbol(#[trigger] s[i])),
        run(st, s) is Err ==> ({
            let j = run(st, s)->Err_0;
            &&& 0 <= j < s.len()
            &&& !known_symbol(s[j])
            &&& forall|i: int| 0 <= i < j ==> known_symbol(#[trigger] s[i])
        }),
    decreases s.len(),
{
    if s.len() == 0 {
    } else {
        let rest = s.drop_first();
        assert(forall|i: int| 0 <= i < rest.len() ==> #[trigger] rest[i] == s[i + 1]);
        match step(st, s[0]) {
            Some(st1) => {
                lemma_run_total(st1, rest);
                if run(st1, rest) is Ok {
                    assert forall|i: int| 0 <= i < s.len() implies known_symbol(
                        #[trigger] s[i],
                    ) by {
                        if i > 0 {
                            assert(known_symbol(rest[i - 1]));
                        }
                    }
                } else {
                    let j = run(st1, rest)->Err_0;
                    assert(!known_symbol(s[j + 1]));
                    assert forall|i: int| 0 <= i < j + 1 implies known_symbol(#[trigger] s[i]) by {
                        if i > 0 {
                            assert(known_symbol(rest[i - 1]));
                        }
                    }
                }
            },
            None => {
                assert(!known_symbol(s[0]));
            },
        }
    }
}

/// Exactly one segment is recorded per forward-step symbol consumed, and
/// nothing else records one.
pub proof fn lemma_segments_per_forward(st: GState, s: Seq<char>)
    requires
        run(st, s) is Ok,
    ensures
        run(st, s)->Ok_0.turtle.segments.len() == st.turtle.segments.len() + count_sym(s, 'F'),
    decreases s.len(),
{
    if s.len() != 0 {
        lemma_segments_per_forward(step(st, s[0])->Some_0, s.drop_first());
    }
}

} // verus!
