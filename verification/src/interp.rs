//! The turtle interpreter: a deterministic sweep over a prefix of a
//! symbol string, driving a turtle and a branch stack of saved poses.
//!
//! The alphabet: `F` steps forward and records a segment, `+` turns
//! clockwise, `-` turns counter-clockwise, `[` saves the pose on the
//! branch stack, `]` restores the most recently saved pose (a no-op when
//! the stack is empty), and `X` is a non-drawing placeholder. Any other
//! symbol is an error that names the symbol and its position.

use vstd::prelude::*;

use crate::turtle::GPose;
use crate::turtle::GTurtle;
use crate::turtle::Pose;
use crate::turtle::Turtle;
use crate::turtle::turtle_forward;
use crate::turtle::turtle_turn;

verus! {

/// The interpreter state: the turtle and the branch stack of saved poses.
#[verifier::ext_equal]
pub ghost struct GState {
    pub turtle: GTurtle,
    pub stack: Seq<GPose>,
}

/// The recognized alphabet.
pub open spec fn known_symbol(c: char) -> bool {
    c == 'F' || c == '+' || c == '-' || c == '[' || c == ']' || c == 'X'
}

/// One transition of the interpreter state machine: the state after
/// consuming symbol `c`, or `None` when `c` is not in the alphabet.
pub open spec fn step(st: GState, c: char) -> Option<GState> {
    if c == 'F' {
        Some(GState { turtle: turtle_forward(st.turtle), stack: st.stack })
    } else if c == '+' {
        Some(GState { turtle: turtle_turn(st.turtle, -1), stack: st.stack })
    } else if c == '-' {
        Some(GState { turtle: turtle_turn(st.turtle, 1), stack: st.stack })
    } else if c == '[' {
        Some(GState { turtle: st.turtle, stack: st.stack.push(st.turtle.pose) })
    } else if c == ']' {
        if st.stack.len() == 0 {
            Some(st)
        } else {
            Some(
                GState {
                    turtle: GTurtle { pose: st.stack.last(), segments: st.turtle.segments },
                    stack: st.stack.drop_last(),
                },
            )
        }
    } else if c == 'X' {
        Some(st)
    } else {
        None
    }
}

/// The state after consuming all of `s` from `st`, or `Err(i)` where `i`
/// is the position within `s` of the first symbol outside the alphabet.
pub open spec fn run(st: GState, s: Seq<char>) -> Result<GState, int>
    decreases s.len(),
{
    if s.len() == 0 {
        Ok(st)
    } else {
        match step(st, s[0]) {
            Some(st1) => match run(st1, s.drop_first()) {
                Ok(stf) => Ok(stf),
                Err(j) => Err(j + 1),
            },
            None => Err(0),
        }
    }
}

/// The interpreter starts each pass with an empty branch stack.
pub open spec fn init_state(t: GTurtle) -> GState {
    GState { turtle: t, stack: Seq::empty() }
}

/// The prefix of `s` that a pass with progress cursor `progress`
/// consumes: the whole string once the cursor has reached its length.
pub open spec fn consumed(s: Seq<char>, progress: int) -> Seq<char> {
    if progress <= s.len() {
        s.take(progress)
    } else {
        s
    }
}

/// Consuming one more symbol after `s` takes one more transition from
/// the state `s` reached, and fails exactly where `s` failed, or at the
/// new symbol when it is outside the alphabet.
pub proof fn lemma_run_snoc(st: GState, s: Seq<char>, c: char)
    ensures
        run(st, s.push(c)) == (match run(st, s) {
            Ok(st1) => match step(st1, c) {
                Some(st2) => Ok::<GState, int>(st2),
                None => Err::<GState, int>(s.len() as int),
            },
            Err(j) => Err::<GState, int>(j),
        }),
    decreases s.len(),
{
    if s.len() == 0 {
        assert(s.push(c)[0] == c);
        assert(s.push(c).drop_first() =~= Seq::<char>::empty());
        assert(run(st, s) == Ok::<GState, int>(st));
        match step(st, c) {
            Some(st2) => {
                assert(run(st2, s.push(c).drop_first()) == Ok::<GState, int>(st2));
                assert(run(st, s.push(c)) == Ok::<GState, int>(st2));
            },
            None => {
                assert(run(st, s.push(c)) == Err::<GState, int>(0));
            },
        }
    } else {
        let rest = s.drop_first();
        assert(s.push(c)[0] == s[0]);
        assert(s.push(c).drop_first() =~= rest.push(c));
        match step(st, s[0]) {
            Some(st1) => {
                lemma_run_snoc(st1, rest, c);
                assert(run(st, s.push(c)) == (match run(st1, rest.push(c)) {
                    Ok(stf) => Ok::<GState, int>(stf),
                    Err(j) => Err::<GState, int>(j + 1),
                }));
                assert(run(st, s) == (match run(st1, rest) {
                    Ok(stf) => Ok::<GState, int>(stf),
                    Err(j) => Err::<GState, int>(j + 1),
                }));
            },
            None => {
                assert(run(st, s.push(c)) == Err::<GState, int>(0));
                assert(run(st, s) == Err::<GState, int>(0));
            },
        }
    }
}

/// Once a pass has failed on a prefix, consuming more symbols cannot
/// change the outcome: the failure and its position stand.
pub proof fn lemma_run_err_stable(st: GState, t: Seq<char>, k: int)
    requires
        0 <= k <= t.len(),
        run(st, t.take(k)) is Err,
    ensures
        run(st, t) == run(st, t.take(k)),
    decreases t.len() - k,
{
    if k == t.len() {
        assert(t.take(k) =~= t);
    } else {
        lemma_run_snoc(st, t.take(k), t[k]);
        assert(t.take(k + 1) =~= t.take(k).push(t[k]));
        lemma_run_err_stable(st, t, k + 1);
    }
}

/// The error returned when a symbol outside the alphabet is reached:
/// the symbol itself and its position in the symbol string.
#[derive(Clone, Copy, Debug, PartialEq, Eq, Structural)]
pub struct InterpretError {
    pub symbol: char,
    pub position: usize,
}

/// Interprets at most `progress` symbols of `symbols` in order, driving
/// `turtle` with a fresh, initially empty branch stack. Exactly one
/// segment is recorded per forward-step symbol consumed. Stops early
/// with an error naming the first symbol outside the alphabet, leaving
/// the turtle as the symbols before it left it.
pub fn interpret(symbols: &Vec<char>, progress: usize, turtle: &mut Turtle) -> (r: Result<
    (),
    InterpretError,
>)
    requires
        old(turtle).wf(),
        old(turtle)@.segments.len() + symbols@.len() <= usize::MAX,
        old(turtle)@.pose.turns + symbols@.len() <= i128::MAX,
        old(turtle)@.pose.turns - symbols@.len() >= i128::MIN,
    ensures
        final(turtle).wf(),
        ({
            let pre = consumed(symbols@, progress as int);
            let st0 = init_state(old(turtle)@);
            match r {
                Ok(_) => run(st0, pre) is Ok && final(turtle)@ == run(st0, pre)->Ok_0.turtle,
                Err(e) => {
                    &&& run(st0, pre) == Err::<GState, int>(e.position as int)
                    &&& e.position < pre.len()
                    &&& e.symbol == pre[e.position as int]
                    &&& !known_symbol(e.symbol)
                    &&& run(st0, pre.take(e.position as int)) is Ok
                    &&& final(turtle)@ == run(st0, pre.take(e.position as int))->Ok_0.turtle
                },
            }
        }),
{
    let ghost st0 = init_state(old(turtle)@);
    let n: usize = if progress <= symbols.len() {
        progress
    } else {
        symbols.len()
    };
    proof {
        if progress > symbols@.len() {
            assert(symbols@.take(symbols@.len() as int) =~= symbols@);
        }
        assert(symbols@.take(0) =~= Seq::<char>::empty());
        assert(Seq::<Pose>::empty().map_values(|p: Pose| p@) =~= Seq::<GPose>::empty());
        assert(GState { turtle: old(turtle)@, stack: Seq::<Pose>::empty().map_values(|p: Pose| p@) }
            =~= st0);
    }
    let mut stack: Vec<Pose> = Vec::new();
    let mut i: usize = 0;
    while i < n
        invariant
            i <= n,
            n <= symbols@.len(),
            symbols@.take(n as int) == consumed(symbols@, progress as int),
            turtle.wf(),
            st0 == init_state(old(turtle)@),
            run(st0, symbols@.take(i as int)) == Ok::<GState, int>(
                GState { turtle: turtle@, stack: stack@.map_values(|p: Pose| p@) },
            ),
            turtle@.segments.len() <= st0.turtle.segments.len() + i,
            st0.turtle.pose.turns - i <= turtle@.pose.turns <= st0.turtle.pose.turns + i,
            forall|q: int|
                0 <= q < stack@.len() ==> {
                    &&& (#[trigger] stack@[q])@.point <= turtle@.segments.len()
                    &&& st0.turtle.pose.turns - i <= stack@[q]@.turns <= st0.turtle.pose.turns + i
                },
            st0.turtle.segments.len() + symbols@.len() <= usize::MAX,
            st0.turtle.pose.turns + symbols@.len() <= i128::MAX,
            st0.turtle.pose.turns - symbols@.len() >= i128::MIN,
        decreases n - i,
    {
        let c = symbols[i];
        let ghost cur = GState { turtle: turtle@, stack: stack@.map_values(|p: Pose| p@) };
        proof {
            lemma_run_snoc(st0, symbols@.take(i as int), c);
            assert(symbols@.take(i + 1) =~= symbols@.take(i as int).push(c));
        }
        if c == 'F' {
            turtle.forward();
            proof {
                assert(GState { turtle: turtle@, stack: stack@.map_values(|p: Pose| p@) } =~= step(
                    cur,
                    c,
                )->Some_0);
            }
        } else if c == '+' {
            turtle.right();
            proof {
                assert(GState { turtle: turtle@, stack: stack@.map_values(|p: Pose| p@) } =~= step(
                    cur,
                    c,
                )->Some_0);
            }
        } else if c == '-' {
            turtle.left();
            proof {
                assert(GState { turtle: turtle@, stack: stack@.map_values(|p: Pose| p@) } =~= step(
                    cur,
                    c,
                )->Some_0);
            }
        } else if c == '[' {
            let saved = turtle.get_state();
            stack.push(saved);
            proof {
                assert(stack@.map_values(|p: Pose| p@) =~= cur.stack.push(saved@));
                assert(GState { turtle: turtle@, stack: stack@.map_values(|p: Pose| p@) } =~= step(
                    cur,
                    c,
                )->Some_0);
            }
        } else if c == ']' {
            match stack.pop() {
                Some(saved) => {
                    proof {
                        assert(cur.stack[cur.stack.len() - 1] == saved@);
                        assert(saved@.point <= turtle@.segments.len());
                    }
                    turtle.set_state(saved);
                    proof {
                        assert(stack@.map_values(|p: Pose| p@) =~= cur.stack.drop_last());
                        assert(GState { turtle: turtle@, stack: stack@.map_values(|p: Pose| p@) }
                            =~= step(cur, c)->Some_0);
                    }
                },
                None => {
                    proof {
                        assert(cur.stack.len() == 0);
                        assert(GState { turtle: turtle@, stack: stack@.map_values(|p: Pose| p@) }
                            =~= step(cur, c)->Some_0);
                    }
                },
            }
        } else if c == 'X' {
            proof {
                assert(GState { turtle: turtle@, stack: stack@.map_values(|p: Pose| p@) } =~= step(
                    cur,
                    c,
                )->Some_0);
            }
        } else {
            proof {
                assert(run(st0, symbols@.take(i + 1)) == Err::<GState, int>(i as int));
                assert(symbols@.take(n as int).take(i + 1) =~= symbols@.take(i + 1));
                lemma_run_err_stable(st0, symbols@.take(n as int), i + 1);
                assert(consumed(symbols@, progress as int).take(i as int) =~= symbols@.take(
                    i as int,
                ));
            }
            return Err(InterpretError { symbol: c, position: i });
        }
        i += 1;
    }
    proof {
        assert(consumed(symbols@, progress as int) == symbols@.take(n as int));
    }
    Ok(())
}

} // verus!
