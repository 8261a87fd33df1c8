//! An L-system engine with a turtle-graphics interpreter.
//!
//! The grammar engine rewrites a seed string by repeated symbol
//! substitution; the turtle interpreter walks a prefix of the expanded
//! string, maintaining a pose (point, heading) and a branch stack, and
//! records one line segment per forward step. Geometry is kept exact:
//! headings are net turn counts and positions are numbered points, so a
//! renderer can replay the recorded segments with whatever turn angle,
//! step distance and origin it draws with.

mod color;
mod interp;
mod laws;
mod lsystem;
mod turtle;

pub use color::parse_color;
pub use color::parse_color_tuple;
pub use color::parse_u8;
pub use color::spec_parse_color;
pub use color::spec_parse_color_tuple;
pub use color::spec_parse_u8;
pub use laws::balanced;
pub use laws::count_sym;
pub use laws::lemma_empty_rules_no_op;
pub use laws::lemma_expand_app;
pub use laws::lemma_expand_deterministic;
pub use laws::lemma_length_monotone;
pub use laws::lemma_pass_through;
pub use laws::lemma_progress_monotone;
pub use laws::lemma_run_total;
pub use laws::lemma_segments_per_forward;
pub use laws::lemma_stack_balance;
pub use laws::productive;

pub use interp::GState;
pub use interp::InterpretError;
pub use interp::consumed;
pub use interp::init_state;
pub use interp::interpret;
pub use interp::known_symbol;
pub use interp::lemma_run_err_stable;
pub use interp::lemma_run_snoc;
pub use interp::run;
pub use interp::step;
pub use lsystem::LSystem;
pub use lsystem::lemma_rewrite_app;
pub use lsystem::lemma_rewrite_snoc;
pub use lsystem::spec_apply;
pub use lsystem::spec_expand;
pub use lsystem::spec_lookup;
pub use lsystem::spec_rewrite;
pub use turtle::GPose;
pub use turtle::GSeg;
pub use turtle::GTurtle;
pub use turtle::Pose;
pub use turtle::Segment;
pub use turtle::Turtle;
pub use turtle::turtle_forward;
pub use turtle::turtle_turn;
