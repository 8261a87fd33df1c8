use lsystem_tree::LSystem;
use lsystem_tree::Segment;
use lsystem_tree::Turtle;
use lsystem_tree::interpret;

fn chars(s: &str) -> Vec<char> {
    s.chars().collect()
}

fn seg(from: usize, to: usize, heading: i128) -> Segment {
    Segment { from, to, heading }
}

/// Replays recorded segments as coordinates, the way a renderer would:
/// point 0 is `origin`, and each segment steps `distance` from its start
/// point at `90 + heading * angle` degrees.
fn replay(
    segments: &[Segment],
    angle: f64,
    distance: f64,
    origin: (f64, f64),
) -> Vec<((f64, f64), (f64, f64))> {
    let mut points: Vec<(f64, f64)> = vec![origin];
    let mut lines = Vec::new();
    for segment in segments {
        let heading = (90.0 + segment.heading as f64 * angle).to_radians();
        let from = points[segment.from];
        let to = (from.0 + distance * heading.cos(), from.1 + distance * heading.sin());
        assert_eq!(segment.to, points.len());
        points.push(to);
        lines.push((from, to));
    }
    lines
}

fn close(a: (f64, f64), b: (f64, f64)) -> bool {
    (a.0 - b.0).abs() < 1e-9 && (a.1 - b.1).abs() < 1e-9
}

#[test]
fn fresh_turtle_state() {
    let turtle = Turtle::new();
    let pose = turtle.get_state();
    assert_eq!(pose.position, 0);
    assert_eq!(pose.turns, 0);
    assert_eq!(turtle.segments().len(), 0);
}

#[test]
fn forward_records_one_segment() {
    let mut turtle = Turtle::new();
    turtle.forward();
    assert_eq!(*turtle.segments(), vec![seg(0, 1, 0)]);
    let pose = turtle.get_state();
    assert_eq!(pose.position, 1);
    assert_eq!(pose.turns, 0);
}

#[test]
fn turns_change_heading_only() {
    let mut turtle = Turtle::new();
    turtle.right();
    assert_eq!(turtle.get_state().turns, -1);
    turtle.left();
    turtle.left();
    assert_eq!(turtle.get_state().turns, 1);
    assert_eq!(turtle.get_state().position, 0);
    assert_eq!(turtle.segments().len(), 0);
}

#[test]
fn get_set_state_round_trip() {
    let mut turtle = Turtle::new();
    turtle.forward();
    turtle.right();
    let saved = turtle.get_state();
    turtle.forward();
    turtle.left();
    turtle.set_state(saved);
    assert_eq!(turtle.get_state(), saved);
}

#[test]
fn interpret_branching_scenario() {
    let symbols = chars("F[+F]F");
    let mut turtle = Turtle::new();
    let outcome = interpret(&symbols, symbols.len(), &mut turtle);
    assert!(outcome.is_ok());
    assert_eq!(*turtle.segments(), vec![seg(0, 1, 0), seg(1, 2, -1), seg(1, 3, 0)]);
    // With a 90-degree angle and unit steps from the origin: up, then a
    // branch to the right, then up again from the branch point.
    let lines = replay(turtle.segments(), 90.0, 1.0, (0.0, 0.0));
    assert_eq!(lines.len(), 3);
    assert!(close(lines[0].0, (0.0, 0.0)) && close(lines[0].1, (0.0, 1.0)));
    assert!(close(lines[1].0, (0.0, 1.0)) && close(lines[1].1, (1.0, 1.0)));
    assert!(close(lines[2].0, (0.0, 1.0)) && close(lines[2].1, (0.0, 2.0)));
    // The closing pop restored the pose saved at the branch point.
    let pose = turtle.get_state();
    assert_eq!(pose.position, 3);
    assert_eq!(pose.turns, 0);
}

#[test]
fn unmatched_pop_is_tolerated() {
    let symbols = chars("]F");
    let mut turtle = Turtle::new();
    let outcome = interpret(&symbols, symbols.len(), &mut turtle);
    assert!(outcome.is_ok());
    // The pop on an empty stack was a no-op: the step still starts from
    // the untouched origin pose.
    assert_eq!(*turtle.segments(), vec![seg(0, 1, 0)]);
}

#[test]
fn unknown_symbol_is_an_error_with_its_position() {
    let symbols = chars("F?F");
    let mut turtle = Turtle::new();
    let outcome = interpret(&symbols, symbols.len(), &mut turtle);
    let error = outcome.unwrap_err();
    assert_eq!(error.symbol, '?');
    assert_eq!(error.position, 1);
    // The symbols before the offending one were interpreted.
    assert_eq!(*turtle.segments(), vec![seg(0, 1, 0)]);
}

#[test]
fn unknown_symbol_past_the_progress_limit_is_not_reached() {
    let symbols = chars("F?F");
    let mut turtle = Turtle::new();
    let outcome = interpret(&symbols, 1, &mut turtle);
    assert!(outcome.is_ok());
    assert_eq!(turtle.segments().len(), 1);
}

#[test]
fn progress_draws_a_prefix_of_the_segments() {
    let symbols = chars("F+F[F]-F");
    let mut all = Turtle::new();
    interpret(&symbols, symbols.len(), &mut all).unwrap();
    let mut previous: Vec<Segment> = Vec::new();
    for k in 0..=symbols.len() {
        let mut turtle = Turtle::new();
        interpret(&symbols, k, &mut turtle).unwrap();
        let drawn = turtle.segments().clone();
        // Monotone: everything drawn through k symbols stays drawn.
        assert_eq!(previous, drawn[..previous.len()].to_vec());
        // One new segment exactly when the next symbol steps forward.
        if k > 0 && symbols[k - 1] == 'F' {
            assert_eq!(drawn.len(), previous.len() + 1);
        } else {
            assert_eq!(drawn.len(), previous.len());
        }
        previous = drawn;
    }
    assert_eq!(previous, *all.segments());
}

#[test]
fn progress_beyond_the_length_means_the_whole_string() {
    let symbols = chars("FF");
    let mut turtle = Turtle::new();
    let outcome = interpret(&symbols, 1000, &mut turtle);
    assert!(outcome.is_ok());
    assert_eq!(turtle.segments().len(), 2);
}

#[test]
fn balanced_string_restores_the_pose() {
    let symbols = chars("[[+F]F]");
    let mut turtle = Turtle::new();
    interpret(&symbols, symbols.len(), &mut turtle).unwrap();
    assert_eq!(turtle.segments().len(), 2);
    // Both branches closed: the turtle is back at the origin pose.
    let pose = turtle.get_state();
    assert_eq!(pose.position, 0);
    assert_eq!(pose.turns, 0);
}

#[test]
fn placeholder_symbols_do_nothing() {
    let symbols = chars("XXX");
    let mut turtle = Turtle::new();
    interpret(&symbols, symbols.len(), &mut turtle).unwrap();
    assert_eq!(turtle.segments().len(), 0);
    assert_eq!(turtle.get_state().position, 0);
    assert_eq!(turtle.get_state().turns, 0);
}

#[test]
fn draw_interprets_the_expanded_string() {
    let mut sys = LSystem::new(chars("X"), vec![('X', chars("F[+X][-X]FX")), ('F', chars("FF"))]);
    sys.iterate(1);
    let mut turtle = Turtle::new();
    let outcome = sys.draw(&mut turtle, sys.symbols.len());
    assert!(outcome.is_ok());
    // "F[+X][-X]FX" has two forward steps, both at the initial heading.
    assert_eq!(turtle.segments().len(), 2);
    assert_eq!(*turtle.segments(), vec![seg(0, 1, 0), seg(1, 2, 0)]);
}

#[test]
fn draw_on_empty_string() {
    let sys = LSystem::new(chars(""), vec![]);
    let mut turtle = Turtle::new();
    assert!(sys.draw(&mut turtle, 10).is_ok());
    assert_eq!(turtle.segments().len(), 0);
}
