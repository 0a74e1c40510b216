//! Two wires laid out on a grid as chains of straight lines, and the points
//! at which they cross.

use crate::text::{
    contents, numeral_of, parse_signed, signed_value, split, split_on, trim, trimmed,
    write_number, COMMA, LINE_FEED,
};
use itertools::Itertools;
use vstd::prelude::*;
use vstd::slice::slice_subrange;
use vstd::string::{StringExecFns, StringSliceAdditionalSpecFns};

verus! {

/// A point of the grid.
pub type Vector2D = (i32, i32);

/// The letter `R`, for a step to the right.
pub const RIGHT: u8 = 0x52;

/// The letter `D`, for a step down.
pub const DOWN: u8 = 0x44;

/// The letter `L`, for a step to the left.
pub const LEFT: u8 = 0x4c;

/// The letter `U`, for a step up.
pub const UP: u8 = 0x55;

/// The direction in which a line runs.
#[derive(Clone, Copy, Debug, PartialEq, Eq, Structural)]
pub enum Orientation {
    Vertical,
    Horizontal,
}

/// A piece of wire between two points. `start` and `end` are its two
/// ends in ascending order along its orientation; `real_start` is the end
/// at which the wire enters it.
#[derive(Clone, Copy, Debug, PartialEq, Eq)]
pub struct Line {
    pub start: Vector2D,
    pub end: Vector2D,
    pub real_start: Vector2D,
    pub orientation: Orientation,
}

impl Orientation {
    /// The word for the orientation.
    pub open spec fn name_of(self) -> Seq<char> {
        match self {
            Orientation::Vertical => "Vertical"@,
            Orientation::Horizontal => "Horizontal"@,
        }
    }

    /// The word for the orientation.
    pub fn name(&self) -> (text: &'static str)
        ensures
            text@ == self.name_of(),
    {
        match self {
            Orientation::Vertical => "Vertical",
            Orientation::Horizontal => "Horizontal",
        }
    }
}

/// The distance between `a` and `b` on one axis.
pub open spec fn span(a: int, b: int) -> int {
    if a >= b {
        a - b
    } else {
        b - a
    }
}

/// The distance between two points along the grid.
pub open spec fn manhattan(p: Vector2D, q: Vector2D) -> int {
    span(p.0 as int, q.0 as int) + span(p.1 as int, q.1 as int)
}

/// The line that a wire draws when it moves from `start` to `end`: vertical
/// where the two share their first coordinate, horizontal otherwise, with
/// the ends put in ascending order of the coordinate that changes.
pub open spec fn line_between(start: Vector2D, end: Vector2D) -> Line {
    if start.0 == end.0 {
        if start.1 > end.1 {
            Line { start: end, end: start, real_start: start, orientation: Orientation::Vertical }
        } else {
            Line { start, end, real_start: start, orientation: Orientation::Vertical }
        }
    } else {
        if start.0 > end.0 {
            Line {
                start: end,
                end: start,
                real_start: start,
                orientation: Orientation::Horizontal,
            }
        } else {
            Line { start, end, real_start: start, orientation: Orientation::Horizontal }
        }
    }
}

/// Where a horizontal and a vertical line cross: the point that has the
/// vertical line's first coordinate and the horizontal line's second, if
/// each of the two lies within the other line's extent.
pub open spec fn crossing_of(horizontal: Line, vertical: Line) -> Option<Vector2D> {
    if vertical.start.0 < horizontal.start.0 || vertical.start.0 > horizontal.end.0 {
        None
    } else if horizontal.start.1 < vertical.start.1 || horizontal.start.1 > vertical.end.1 {
        None
    } else {
        Some((vertical.start.0, horizontal.start.1))
    }
}

impl Line {
    /// The line runs along one axis, from `start` up to `end`.
    pub open spec fn is_straight(self) -> bool {
        match self.orientation {
            Orientation::Vertical => self.start.0 == self.end.0 && self.start.1 <= self.end.1,
            Orientation::Horizontal => self.start.1 == self.end.1 && self.start.0 <= self.end.0,
        }
    }

    /// `point` lies in the rectangle that `start` and `end` span.
    pub open spec fn covers(self, point: Vector2D) -> bool {
        &&& self.start.0 <= point.0 <= self.end.0
        &&& self.start.1 <= point.1 <= self.end.1
    }

    /// The point at which this line and `other` cross. Lines of the same
    /// orientation never cross.
    pub open spec fn crossing(self, other: Line) -> Option<Vector2D> {
        if self.orientation == other.orientation {
            None
        } else if self.orientation == Orientation::Horizontal {
            crossing_of(self, other)
        } else {
            crossing_of(other, self)
        }
    }

    /// The length of the line along the grid.
    pub open spec fn length(self) -> int {
        manhattan(self.start, self.end)
    }

    /// The line in words: its two ends in ascending order, each as its two
    /// coordinates with an `x` between them, and its orientation.
    pub open spec fn text_of(self) -> Seq<char> {
        "Line "@ + numeral_of(self.start.0 as int) + "x"@ + numeral_of(self.start.1 as int)
            + " -> "@ + numeral_of(self.end.0 as int) + "x"@ + numeral_of(self.end.1 as int)
            + " ("@ + self.orientation.name_of() + ")"@
    }

    /// The line in words, such as `Line 3x5 -> 8x5 (Horizontal)`.
    pub fn describe(&self) -> (text: String)
        ensures
            text@ == self.text_of(),
    {
        let mut text = String::from_str("Line ");
        write_number(&mut text, self.start.0);
        text.append("x");
        write_number(&mut text, self.start.1);
        text.append(" -> ");
        write_number(&mut text, self.end.0);
        text.append("x");
        write_number(&mut text, self.end.1);
        text.append(" (");
        text.append(self.orientation.name());
        text.append(")");
        text
    }

    /// Makes the line from `start` to `end`.
    pub fn new(start: Vector2D, end: Vector2D) -> (line: Line)
        ensures
            line == line_between(start, end),
    {
        let orientation = if start.0 == end.0 {
            Orientation::Vertical
        } else {
            Orientation::Horizontal
        };
        let real_start = start;
        let (start, end) = match orientation {
            Orientation::Vertical => {
                if start.1 > end.1 {
                    (end, start)
                } else {
                    (start, end)
                }
            },
            Orientation::Horizontal => {
                if start.0 > end.0 {
                    (end, start)
                } else {
                    (start, end)
                }
            },
        };
        Line { start, end, real_start, orientation }
    }

    /// The point at which this line and `other` cross, if they do.
    pub fn intersect(&self, other: &Line) -> (point: Option<Vector2D>)
        ensures
            point == self.crossing(*other),
    {
        if self.orientation == other.orientation {
            return None;
        }
        let (horizontal_line, vertical_line) = match self.orientation {
            Orientation::Horizontal => (self, other),
            Orientation::Vertical => (other, self),
        };
        if vertical_line.start.0 < horizontal_line.start.0 || vertical_line.start.0
            > horizontal_line.end.0 {
            return None;
        }
        if horizontal_line.start.1 < vertical_line.start.1 || horizontal_line.start.1
            > vertical_line.end.1 {
            return None;
        }
        Some((vertical_line.start.0, horizontal_line.start.1))
    }

    /// Tells whether `point` lies on the line.
    pub fn contains_point(&self, point: Vector2D) -> (yes: bool)
        ensures
            yes == self.covers(point),
    {
        point.0 >= self.start.0 && point.0 <= self.end.0 && point.1 >= self.start.1 && point.1
            <= self.end.1
    }

    /// The number of grid steps from one end of the line to the other.
    pub fn steps(&self) -> (count: i32)
        requires
            self.length() <= i32::MAX,
        ensures
            count == self.length(),
    {
        manhatten_distance(self.start, self.end)
    }
}

/// Every line between two points that share a coordinate is straight.
pub proof fn lemma_line_between_is_straight(start: Vector2D, end: Vector2D)
    requires
        start.0 == end.0 || start.1 == end.1,
    ensures
        line_between(start, end).is_straight(),
        line_between(start, end).covers(start),
        line_between(start, end).covers(end),
        line_between(start, end).length() == manhattan(start, end),
{
}

/// Two straight lines of different orientation cross exactly where they
/// share a point: the crossing lies on both, and a point that lies on both
/// is the crossing.
pub proof fn lemma_crossing_is_shared_point(a: Line, b: Line, point: Vector2D)
    requires
        a.is_straight(),
        b.is_straight(),
        a.orientation != b.orientation,
    ensures
        a.crossing(b) == Some(point) <==> a.covers(point) && b.covers(point),
        a.crossing(b) == b.crossing(a),
{
}

/// The distance between two points along the grid.
pub fn manhatten_distance(point1: Vector2D, point2: Vector2D) -> (distance: i32)
    requires
        manhattan(point1, point2) <= i32::MAX,
    ensures
        distance == manhattan(point1, point2),
{
    let dx: i32 = point1.0 - point2.0;
    let dy: i32 = point1.1 - point2.1;
    let across: i32 = if dx < 0 {
        -dx
    } else {
        dx
    };
    let along: i32 = if dy < 0 {
        -dy
    } else {
        dy
    };
    across + along
}

/// The distance between two points along the grid, in a type wide enough
/// for any pair of points.
pub fn wide_distance(point1: Vector2D, point2: Vector2D) -> (distance: i64)
    ensures
        distance == manhattan(point1, point2),
{
    let dx: i64 = point1.0 as i64 - point2.0 as i64;
    let dy: i64 = point1.1 as i64 - point2.1 as i64;
    let across: i64 = if dx < 0 {
        -dx
    } else {
        dx
    };
    let along: i64 = if dy < 0 {
        -dy
    } else {
        dy
    };
    across + along
}

/// The number of grid steps along the wire `lines` up to `point`: the
/// whole length of each line before the first one that covers the point,
/// and on that line the distance from where the wire enters it. Where no
/// line covers the point, the length of the whole wire.
pub open spec fn walk_length(lines: Seq<Line>, point: Vector2D) -> int
    decreases lines.len(),
{
    if lines.len() == 0 {
        0
    } else if lines[0].covers(point) {
        manhattan(lines[0].real_start, point)
    } else {
        lines[0].length() + walk_length(lines.skip(1), point)
    }
}

/// A walk is never shorter than nothing.
pub proof fn lemma_walk_length_nonnegative(lines: Seq<Line>, point: Vector2D)
    ensures
        walk_length(lines, point) >= 0,
    decreases lines.len(),
{
    if lines.len() > 0 && !lines[0].covers(point) {
        lemma_walk_length_nonnegative(lines.skip(1), point);
    }
}

/// The number of grid steps along the wire `lines` up to `point`, or
/// `None` where that number is too large for the result's type.
pub fn steps_to_point(lines: &Vec<Line>, point: Vector2D) -> (steps: Option<i32>)
    ensures
        steps == if walk_length(lines@, point) <= i32::MAX {
            Some(walk_length(lines@, point) as i32)
        } else {
            None
        },
{
    let mut steps: i64 = 0;
    let mut index: usize = 0;
    proof {
        lemma_walk_length_nonnegative(lines@, point);
        assert(lines@.skip(0) =~= lines@);
    }
    while index < lines.len()
        invariant
            index <= lines.len(),
            0 <= steps <= i32::MAX,
            steps + walk_length(lines@.skip(index as int), point) == walk_length(lines@, point),
        decreases lines.len() - index,
    {
        let line = &lines[index];
        proof {
            assert(lines@.skip(index as int).skip(1) =~= lines@.skip(index + 1));
            lemma_walk_length_nonnegative(lines@.skip(index + 1), point);
        }
        if line.contains_point(point) {
            steps = steps + wide_distance(line.real_start, point);
            if steps > i32::MAX as i64 {
                return None;
            }
            return Some(steps as i32);
        }
        steps = steps + wide_distance(line.start, line.end);
        if steps > i32::MAX as i64 {
            return None;
        }
        index = index + 1;
    }
    Some(steps as i32)
}

/// The point that the step `step` leads to from `from`: a letter for the
/// direction (`R`, `D`, `L` or `U`) and a signed number of grid steps.
/// There is none where the step is not of that form or leads off the grid.
pub open spec fn step_target(from: Vector2D, step: Seq<u8>) -> Option<Vector2D> {
    if step.len() == 0 {
        None
    } else {
        match signed_value(step.skip(1)) {
            None => None,
            Some(amount) => {
                let target: (int, int) = if step[0] == RIGHT {
                    (from.0 + amount, from.1 as int)
                } else if step[0] == DOWN {
                    (from.0 as int, from.1 - amount)
                } else if step[0] == LEFT {
                    (from.0 - amount, from.1 as int)
                } else {
                    (from.0 as int, from.1 + amount)
                };
                if (step[0] == RIGHT || step[0] == DOWN || step[0] == LEFT || step[0] == UP)
                    && i32::MIN <= target.0 <= i32::MAX && i32::MIN <= target.1 <= i32::MAX {
                    Some((target.0 as i32, target.1 as i32))
                } else {
                    None
                }
            },
        }
    }
}

/// The lines that the steps `steps` draw one after another from `from`.
pub open spec fn path_from(from: Vector2D, steps: Seq<Seq<u8>>) -> Option<Seq<Line>>
    decreases steps.len(),
{
    if steps.len() == 0 {
        Some(Seq::empty())
    } else {
        match step_target(from, steps[0]) {
            None => None,
            Some(next) => match path_from(next, steps.skip(1)) {
                None => None,
                Some(rest) => Some(seq![line_between(from, next)] + rest),
            },
        }
    }
}

/// A wire drawn from steps has one line for each step. Every line is
/// straight, the first begins at the point the wire was drawn from, and each
/// later one begins on the line before it.
pub proof fn lemma_path_is_connected(from: Vector2D, steps: Seq<Seq<u8>>, i: int)
    requires
        path_from(from, steps) is Some,
        0 <= i < steps.len(),
    ensures
        path_from(from, steps).unwrap().len() == steps.len(),
        path_from(from, steps).unwrap()[i].is_straight(),
        path_from(from, steps).unwrap()[0].real_start == from,
        i > 0 ==> path_from(from, steps).unwrap()[i - 1].covers(
            path_from(from, steps).unwrap()[i].real_start,
        ),
    decreases steps.len(),
{
    let next = step_target(from, steps[0]).unwrap();
    let rest = path_from(next, steps.skip(1)).unwrap();
    let lines = path_from(from, steps).unwrap();
    assert(lines == seq![line_between(from, next)] + rest);
    lemma_line_between_is_straight(from, next);
    if steps.len() > 1 {
        lemma_path_is_connected(next, steps.skip(1), 0);
    }
    if i > 0 {
        lemma_path_is_connected(next, steps.skip(1), i - 1);
        assert(lines[i] == rest[i - 1]);
        if i > 1 {
            assert(lines[i - 1] == rest[i - 2]);
        }
    }
}

/// The wire that `text` describes: steps divided by commas, drawn from the
/// origin.
pub open spec fn path_of(text: Seq<u8>) -> Option<Seq<Line>> {
    path_from((0, 0), split_on(text, COMMA))
}

/// Follows one step from `from`.
fn follow(from: Vector2D, step: &[u8]) -> (target: Option<Vector2D>)
    ensures
        target == step_target(from, step@),
{
    if step.len() == 0 {
        return None;
    }
    let direction = step[0];
    let digits = slice_subrange(step, 1, step.len());
    assert(digits@ =~= step@.skip(1));
    let amount: i64 = match parse_signed(digits) {
        Some(amount) => amount as i64,
        None => {
            return None;
        },
    };
    let x: i64 = from.0 as i64;
    let y: i64 = from.1 as i64;
    let (x, y) = if direction == RIGHT {
        (x + amount, y)
    } else if direction == DOWN {
        (x, y - amount)
    } else if direction == LEFT {
        (x - amount, y)
    } else if direction == UP {
        (x, y + amount)
    } else {
        return None;
    };
    if x < i32::MIN as i64 || x > i32::MAX as i64 || y < i32::MIN as i64 || y > i32::MAX as i64 {
        return None;
    }
    Some((x as i32, y as i32))
}

/// Reads the description of a wire: steps such as `R8` or `U5`, divided by
/// commas. The result is `None` where a step is malformed or leaves the
/// grid.
pub fn parse_path(path_str: &str) -> (path: Option<Vec<Line>>)
    ensures
        match path {
            Some(lines) => path_of(path_str.spec_bytes()) == Some(lines@),
            None => path_of(path_str.spec_bytes()) is None,
        },
{
    parse_path_bytes(path_str.as_bytes())
}

/// Reads the description of a wire from bytes.
pub fn parse_path_bytes(text: &[u8]) -> (path: Option<Vec<Line>>)
    ensures
        match path {
            Some(lines) => path_of(text@) == Some(lines@),
            None => path_of(text@) is None,
        },
{
    let steps = split(text, COMMA);
    let mut lines: Vec<Line> = Vec::new();
    let mut last_point: Vector2D = (0, 0);
    let mut index: usize = 0;
    proof {
        assert(contents(steps@).skip(0) =~= contents(steps@));
    }
    while index < steps.len()
        invariant
            index <= steps.len(),
            contents(steps@) == split_on(text@, COMMA),
            path_of(text@) == match path_from(last_point, contents(steps@).skip(index as int)) {
                None => None::<Seq<Line>>,
                Some(rest) => Some(lines@ + rest),
            },
        decreases steps.len() - index,
    {
        proof {
            assert(contents(steps@).skip(index as int).skip(1) =~= contents(steps@).skip(
                index + 1,
            ));
            assert(contents(steps@).skip(index as int)[0] == steps@[index as int]@);
        }
        let new_point = match follow(last_point, steps[index]) {
            Some(point) => point,
            None => {
                return None;
            },
        };
        let ghost before = lines@;
        lines.push(Line::new(last_point, new_point));
        proof {
            let rest = path_from(new_point, contents(steps@).skip(index + 1));
            if rest is Some {
                assert(before + (seq![line_between(last_point, new_point)] + rest.unwrap())
                    =~= lines@ + rest.unwrap());
            }
        }
        last_point = new_point;
        index = index + 1;
    }
    proof {
        let rest = path_from(last_point, contents(steps@).skip(index as int));
        assert(lines@ + rest.unwrap() =~= lines@);
    }
    Some(lines)
}

/// Every pairing of a line of `first` with a line of `second`: the lines
/// of `first` in order, each with all the lines of `second` in order.
pub open spec fn pairs_of(first: Seq<Line>, second: Seq<Line>) -> Seq<(Line, Line)> {
    Seq::new(
        first.len() * second.len(),
        |k: int| (first[k / (second.len() as int)], second[k % (second.len() as int)]),
    )
}

/// The points other than the origin at which the pairs of `pairs` cross, in
/// the order of the pairs.
pub open spec fn crossings_in(pairs: Seq<(Line, Line)>) -> Seq<Vector2D>
    decreases pairs.len(),
{
    if pairs.len() == 0 {
        Seq::empty()
    } else {
        let rest = crossings_in(pairs.drop_last());
        match pairs.last().0.crossing(pairs.last().1) {
            Some(point) => if point != (0i32, 0i32) {
                rest.push(point)
            } else {
                rest
            },
            None => rest,
        }
    }
}

/// A point is among the crossings of `pairs` exactly if it is not the
/// origin and some pair crosses at it.
pub proof fn lemma_crossings_are_the_crossing_points(pairs: Seq<(Line, Line)>, point: Vector2D)
    ensures
        crossings_in(pairs).contains(point) <==> point != (0i32, 0i32) && exists|k: int|
            0 <= k < pairs.len() && (#[trigger] pairs[k]).0.crossing(pairs[k].1) == Some(point),
    decreases pairs.len(),
{
    if pairs.len() > 0 {
        let front = pairs.drop_last();
        let rest = crossings_in(front);
        lemma_crossings_are_the_crossing_points(front, point);
        let last = pairs.last();
        if rest.contains(point) {
            let k = choose|k: int|
                0 <= k < front.len() && (#[trigger] front[k]).0.crossing(front[k].1) == Some(point);
            assert(pairs[k] == front[k]);
            let at = choose|i: int| 0 <= i < rest.len() && rest[i] == point;
            assert(crossings_in(pairs)[at] == point);
        }
        if last.0.crossing(last.1) == Some(point) && point != (0i32, 0i32) {
            assert(rest.push(point)[rest.len() as int] == point);
            assert(pairs[pairs.len() - 1] == last);
        }
        if crossings_in(pairs).contains(point) && !rest.contains(point) {
            let at = choose|i: int| 0 <= i < crossings_in(pairs).len() && crossings_in(pairs)[i] == point;
            assert(at == rest.len());
            assert(pairs[pairs.len() - 1] == last);
        }
        if exists|k: int|
            0 <= k < pairs.len() && (#[trigger] pairs[k]).0.crossing(pairs[k].1) == Some(point) {
            let k = choose|k: int|
                0 <= k < pairs.len() && (#[trigger] pairs[k]).0.crossing(pairs[k].1) == Some(point);
            if k < front.len() {
                assert(front[k] == pairs[k]);
            }
        }
    }
}

/// `Itertools::cartesian_product` on the two wires: it pairs each line of
/// `first`, in order, with every line of `second`, in order. The pairs are
/// collected, so their number has to fit the index type.
#[verifier::external_body]
fn line_pairs(first: &Vec<Line>, second: &Vec<Line>) -> (pairs: Vec<(Line, Line)>)
    requires
        first@.len() * second@.len() <= usize::MAX,
    ensures
        pairs@ == pairs_of(first@, second@),
{
    first.iter().cartesian_product(second.iter()).map(|(a, b)| (*a, *b)).collect()
}

/// The points at which a line of `first` crosses a line of `second`, the
/// origin left out.
pub fn intersections(first: &Vec<Line>, second: &Vec<Line>) -> (points: Vec<Vector2D>)
    requires
        first@.len() * second@.len() <= usize::MAX,
    ensures
        points@ == crossings_in(pairs_of(first@, second@)),
{
    let pairs = line_pairs(first, second);
    let mut points: Vec<Vector2D> = Vec::new();
    let mut index: usize = 0;
    while index < pairs.len()
        invariant
            index <= pairs.len(),
            points@ == crossings_in(pairs@.take(index as int)),
        decreases pairs.len() - index,
    {
        assert(pairs@.take(index + 1).drop_last() =~= pairs@.take(index as int));
        let (line1, line2) = pairs[index];
        match line1.intersect(&line2) {
            Some(point) => {
                if point.0 != 0 || point.1 != 0 {
                    points.push(point);
                }
            },
            None => {},
        }
        index = index + 1;
    }
    assert(pairs@.take(index as int) =~= pairs@);
    points
}

/// The distance from the origin to the nearest of `points`. There is none
/// where `points` is empty or the distance is too large for the result's
/// type.
pub fn closest_distance(points: &Vec<Vector2D>) -> (nearest: Option<i32>)
    ensures
        match nearest {
            Some(distance) => {
                &&& exists|i: int|
                    0 <= i < points.len() && manhattan(#[trigger] points[i], (0, 0)) == distance
                &&& forall|j: int|
                    0 <= j < points.len() ==> manhattan(#[trigger] points[j], (0, 0)) >= distance
            },
            None => forall|j: int|
                0 <= j < points.len() ==> manhattan(#[trigger] points[j], (0, 0)) > i32::MAX,
        },
{
    let mut nearest: Option<i32> = None;
    let mut index: usize = 0;
    while index < points.len()
        invariant
            index <= points.len(),
            match nearest {
                Some(distance) => {
                    &&& exists|i: int|
                        0 <= i < index && manhattan(#[trigger] points[i], (0, 0)) == distance
                    &&& forall|j: int|
                        0 <= j < index ==> manhattan(#[trigger] points[j], (0, 0)) >= distance
                },
                None => forall|j: int|
                    0 <= j < index ==> manhattan(#[trigger] points[j], (0, 0)) > i32::MAX,
            },
        decreases points.len() - index,
    {
        let distance = wide_distance(points[index], (0, 0));
        if distance <= i32::MAX as i64 {
            let better = match nearest {
                Some(known) => distance < known as i64,
                None => true,
            };
            if better {
                nearest = Some(distance as i32);
            }
        }
        index = index + 1;
    }
    nearest
}

/// The steps that both wires take together to reach `point`.
pub open spec fn combined_steps(first: Seq<Line>, second: Seq<Line>, point: Vector2D) -> int {
    walk_length(first, point) + walk_length(second, point)
}

/// The fewest steps that the two wires take together to reach one of
/// `points`. There is none where `points` is empty or the number is too
/// large for the result's type.
pub fn fewest_steps(first: &Vec<Line>, second: &Vec<Line>, points: &Vec<Vector2D>) -> (fewest:
    Option<i32>)
    ensures
        match fewest {
            Some(steps) => {
                &&& exists|i: int|
                    0 <= i < points.len() && combined_steps(first@, second@, #[trigger] points[i])
                        == steps
                &&& forall|j: int|
                    0 <= j < points.len() ==> combined_steps(first@, second@, #[trigger] points[j])
                        >= steps
            },
            None => forall|j: int|
                0 <= j < points.len() ==> combined_steps(first@, second@, #[trigger] points[j])
                    > i32::MAX,
        },
{
    let mut fewest: Option<i32> = None;
    let mut index: usize = 0;
    while index < points.len()
        invariant
            index <= points.len(),
            match fewest {
                Some(steps) => {
                    &&& exists|i: int|
                        0 <= i < index && combined_steps(first@, second@, #[trigger] points[i])
                            == steps
                    &&& forall|j: int|
                        0 <= j < index ==> combined_steps(first@, second@, #[trigger] points[j])
                            >= steps
                },
                None => forall|j: int|
                    0 <= j < index ==> combined_steps(first@, second@, #[trigger] points[j])
                        > i32::MAX,
            },
        decreases points.len() - index,
    {
        let point = points[index];
        proof {
            lemma_walk_length_nonnegative(first@, point);
            lemma_walk_length_nonnegative(second@, point);
        }
        match (steps_to_point(first, point), steps_to_point(second, point)) {
            (Some(a), Some(b)) => {
                let together: i64 = a as i64 + b as i64;
                if together <= i32::MAX as i64 {
                    let better = match fewest {
                        Some(known) => together < known as i64,
                        None => true,
                    };
                    if better {
                        fewest = Some(together as i32);
                    }
                }
            },
            _ => {},
        }
        index = index + 1;
    }
    fewest
}

/// The wires that `text` describes, one on each line, spaces around the
/// whole text left out.
pub open spec fn paths_of(text: Seq<u8>) -> Option<Seq<Seq<Line>>> {
    let rows = split_on(trimmed(text), LINE_FEED);
    if forall|i: int| 0 <= i < rows.len() ==> path_of(#[trigger] rows[i]) is Some {
        Some(Seq::new(rows.len(), |i: int| path_of(rows[i]).unwrap()))
    } else {
        None
    }
}

/// The contents of each wire of `paths`.
pub open spec fn wires_of(paths: Seq<Vec<Line>>) -> Seq<Seq<Line>> {
    Seq::new(paths.len(), |i: int| paths[i]@)
}

/// Reads the descriptions of several wires, one on each line. The result
/// is `None` where one of them is malformed.
pub fn parse_paths(input: &str) -> (paths: Option<Vec<Vec<Line>>>)
    ensures
        match paths {
            Some(wires) => paths_of(input.spec_bytes()) == Some(wires_of(wires@)),
            None => paths_of(input.spec_bytes()) is None,
        },
{
    let rows = split(trim(input.as_bytes()), LINE_FEED);
    let ghost texts = split_on(trimmed(input.spec_bytes()), LINE_FEED);
    let mut wires: Vec<Vec<Line>> = Vec::new();
    let mut index: usize = 0;
    while index < rows.len()
        invariant
            index <= rows.len(),
            texts == split_on(trimmed(input.spec_bytes()), LINE_FEED),
            contents(rows@) == texts,
            wires.len() == index,
            forall|i: int| 0 <= i < index ==> path_of(#[trigger] texts[i]) == Some(wires@[i]@),
        decreases rows.len() - index,
    {
        assert(texts[index as int] == rows@[index as int]@);
        match parse_path_bytes(rows[index]) {
            Some(lines) => {
                wires.push(lines);
            },
            None => {
                assert(path_of(texts[index as int]) is None);
                return None;
            },
        }
        index = index + 1;
    }
    assert(texts.len() == rows.len());
    assert(wires_of(wires@) =~= Seq::new(texts.len(), |i: int| path_of(texts[i]).unwrap()));
    Some(wires)
}

} // verus!
