use puzzles::wires::{
    closest_distance, fewest_steps, intersections, manhatten_distance, parse_path, parse_paths,
    steps_to_point, wide_distance, Line, Orientation,
};

fn wire(text: &str) -> Vec<Line> {
    parse_path(text).unwrap()
}

#[test]
fn line_to_the_right_is_horizontal() {
    let line = Line::new((0, 0), (8, 0));
    assert_eq!(line.orientation, Orientation::Horizontal);
    assert_eq!(line.start, (0, 0));
    assert_eq!(line.end, (8, 0));
    assert_eq!(line.real_start, (0, 0));
}

#[test]
fn line_to_the_left_is_turned_round() {
    let line = Line::new((8, 5), (3, 5));
    assert_eq!(line.orientation, Orientation::Horizontal);
    assert_eq!(line.start, (3, 5));
    assert_eq!(line.end, (8, 5));
    assert_eq!(line.real_start, (8, 5));
}

#[test]
fn line_down_is_vertical_and_turned_round() {
    let line = Line::new((3, 5), (3, 2));
    assert_eq!(line.orientation, Orientation::Vertical);
    assert_eq!(line.start, (3, 2));
    assert_eq!(line.end, (3, 5));
    assert_eq!(line.real_start, (3, 5));
}

#[test]
fn line_up_keeps_its_ends() {
    let line = Line::new((3, 2), (3, 5));
    assert_eq!(line.orientation, Orientation::Vertical);
    assert_eq!(line.start, (3, 2));
    assert_eq!(line.end, (3, 5));
    assert_eq!(line.real_start, (3, 2));
}

#[test]
fn line_of_one_point_is_vertical() {
    let line = Line::new((4, 4), (4, 4));
    assert_eq!(line.orientation, Orientation::Vertical);
    assert_eq!(line.start, (4, 4));
    assert_eq!(line.end, (4, 4));
}

#[test]
fn slanted_line_counts_as_horizontal() {
    let line = Line::new((2, 0), (0, 3));
    assert_eq!(line.orientation, Orientation::Horizontal);
    assert_eq!(line.start, (0, 3));
    assert_eq!(line.end, (2, 0));
    assert_eq!(line.real_start, (2, 0));
}

#[test]
fn crossing_lines_meet_in_one_point() {
    let across = Line::new((3, 5), (8, 5));
    let up = Line::new((6, 7), (6, 3));
    assert_eq!(across.intersect(&up), Some((6, 5)));
    assert_eq!(up.intersect(&across), Some((6, 5)));
}

#[test]
fn lines_that_touch_at_an_end_meet() {
    let across = Line::new((0, 0), (8, 0));
    let up = Line::new((8, 0), (8, 5));
    assert_eq!(across.intersect(&up), Some((8, 0)));
    let other = Line::new((0, 0), (0, 7));
    assert_eq!(across.intersect(&other), Some((0, 0)));
}

#[test]
fn lines_apart_do_not_meet() {
    let across = Line::new((0, 0), (8, 0));
    assert_eq!(across.intersect(&Line::new((9, -1), (9, 1))), None);
    assert_eq!(across.intersect(&Line::new((-1, -1), (-1, 1))), None);
    assert_eq!(across.intersect(&Line::new((4, 1), (4, 5))), None);
    assert_eq!(across.intersect(&Line::new((4, -5), (4, -1))), None);
}

#[test]
fn lines_of_one_orientation_never_meet() {
    let across = Line::new((0, 0), (8, 0));
    assert_eq!(across.intersect(&Line::new((2, 0), (6, 0))), None);
    assert_eq!(across.intersect(&across), None);
    let up = Line::new((0, 0), (0, 8));
    assert_eq!(up.intersect(&Line::new((0, 2), (0, 6))), None);
}

#[test]
fn contains_point_takes_both_ends() {
    let line = Line::new((8, 5), (3, 5));
    assert!(line.contains_point((3, 5)));
    assert!(line.contains_point((8, 5)));
    assert!(line.contains_point((6, 5)));
    assert!(!line.contains_point((2, 5)));
    assert!(!line.contains_point((9, 5)));
    assert!(!line.contains_point((6, 4)));
    assert!(!line.contains_point((6, 6)));
}

#[test]
fn steps_is_the_length_of_the_line() {
    assert_eq!(Line::new((8, 5), (3, 5)).steps(), 5);
    assert_eq!(Line::new((3, 5), (3, 2)).steps(), 3);
    assert_eq!(Line::new((4, 4), (4, 4)).steps(), 0);
    assert_eq!(Line::new((0, 0), (i32::MAX, 0)).steps(), i32::MAX);
}

#[test]
fn distance_adds_both_axes() {
    assert_eq!(manhatten_distance((1, 2), (4, -2)), 7);
    assert_eq!(manhatten_distance((4, -2), (1, 2)), 7);
    assert_eq!(manhatten_distance((0, 0), (0, 0)), 0);
    assert_eq!(manhatten_distance((-3, -4), (0, 0)), 7);
    assert_eq!(manhatten_distance((i32::MAX, 0), (0, 0)), i32::MAX);
}

#[test]
fn wide_distance_holds_any_pair() {
    assert_eq!(wide_distance((1, 2), (4, -2)), 7);
    assert_eq!(wide_distance((i32::MIN, i32::MIN), (i32::MAX, i32::MAX)), 2 * 4294967295);
    assert_eq!(wide_distance((i32::MIN, 0), (0, 0)), 2147483648);
}

#[test]
fn parse_path_draws_from_the_origin() {
    let lines = wire("R8,U5,L5,D3");
    assert_eq!(
        lines,
        vec![
            Line::new((0, 0), (8, 0)),
            Line::new((8, 0), (8, 5)),
            Line::new((8, 5), (3, 5)),
            Line::new((3, 5), (3, 2)),
        ]
    );
    assert_eq!(lines[2].real_start, (8, 5));
    assert_eq!(lines[2].start, (3, 5));
    assert_eq!(lines[3].orientation, Orientation::Vertical);
}

#[test]
fn parse_path_takes_signed_amounts() {
    assert_eq!(wire("R-5"), vec![Line::new((0, 0), (-5, 0))]);
    assert_eq!(wire("D+5"), vec![Line::new((0, 0), (0, -5))]);
    assert_eq!(wire("U0"), vec![Line::new((0, 0), (0, 0))]);
    assert_eq!(wire("L07,U1"), vec![Line::new((0, 0), (-7, 0)), Line::new((-7, 0), (-7, 1))]);
}

#[test]
fn parse_path_rejects_malformed_steps() {
    assert_eq!(parse_path(""), None);
    assert_eq!(parse_path("R"), None);
    assert_eq!(parse_path("8"), None);
    assert_eq!(parse_path("X8"), None);
    assert_eq!(parse_path("r8"), None);
    assert_eq!(parse_path("R8,"), None);
    assert_eq!(parse_path("R8,,U5"), None);
    assert_eq!(parse_path("R8, U5"), None);
    assert_eq!(parse_path("R8\n"), None);
    assert_eq!(parse_path("R8x"), None);
    assert_eq!(parse_path("R99999999999"), None);
    assert_eq!(parse_path("\u{e9}8"), None);
}

#[test]
fn parse_path_rejects_steps_off_the_grid() {
    assert_eq!(parse_path("R2147483647,R1"), None);
    assert_eq!(parse_path("D2147483647,D2"), None);
    assert_eq!(parse_path("L-2147483648"), None);
    assert_eq!(
        wire("R2147483647,L2147483647,L2147483647,L1"),
        vec![
            Line::new((0, 0), (i32::MAX, 0)),
            Line::new((i32::MAX, 0), (0, 0)),
            Line::new((0, 0), (-i32::MAX, 0)),
            Line::new((-i32::MAX, 0), (i32::MIN, 0)),
        ]
    );
}

#[test]
fn parse_paths_reads_one_wire_from_each_line() {
    let wires = parse_paths("R8,U5,L5,D3\nU7,R6,D4,L4\n").unwrap();
    assert_eq!(wires.len(), 2);
    assert_eq!(wires[0], wire("R8,U5,L5,D3"));
    assert_eq!(wires[1], wire("U7,R6,D4,L4"));
    assert_eq!(parse_paths("  R1 ").unwrap(), vec![wire("R1")]);
}

#[test]
fn parse_paths_rejects_a_malformed_wire() {
    assert_eq!(parse_paths(""), None);
    assert_eq!(parse_paths("R8\n\nU7"), None);
    assert_eq!(parse_paths("R8\r\nU7"), None);
    assert_eq!(parse_paths("R8\nQ7"), None);
}

#[test]
fn steps_to_point_stops_on_the_first_line_that_covers_it() {
    let first = wire("R8,U5,L5,D3");
    assert_eq!(steps_to_point(&first, (6, 5)), Some(15));
    assert_eq!(steps_to_point(&first, (3, 3)), Some(20));
    assert_eq!(steps_to_point(&first, (0, 0)), Some(0));
    assert_eq!(steps_to_point(&first, (8, 0)), Some(8));
    assert_eq!(steps_to_point(&first, (8, 5)), Some(13));
}

#[test]
fn steps_to_a_point_off_the_wire_is_its_whole_length() {
    let first = wire("R8,U5,L5,D3");
    assert_eq!(steps_to_point(&first, (100, 100)), Some(21));
    assert_eq!(steps_to_point(&Vec::new(), (1, 1)), Some(0));
}

#[test]
fn steps_beyond_the_type_are_none() {
    let long = wire("R2147483647,L2147483647");
    assert_eq!(steps_to_point(&long, (7, 0)), Some(7));
    assert_eq!(steps_to_point(&long, (7, 7)), None);
    let just = wire("R2147483647");
    assert_eq!(steps_to_point(&just, (7, 7)), Some(i32::MAX));
}

#[test]
fn intersections_come_in_the_order_of_the_pairs() {
    let first = wire("R8,U5,L5,D3");
    let second = wire("U7,R6,D4,L4");
    assert_eq!(intersections(&first, &second), vec![(6, 5), (3, 3)]);
    assert_eq!(intersections(&second, &first), vec![(6, 5), (3, 3)]);
    let third = wire("U3,R9");
    let fourth = wire("R2,U9,R2,D9");
    assert_eq!(intersections(&third, &fourth), vec![(2, 3), (4, 3)]);
    assert_eq!(intersections(&fourth, &third), vec![(2, 3), (4, 3)]);
    let fifth = wire("R4,U9,L2,D9");
    assert_eq!(intersections(&third, &fifth), vec![(4, 3), (2, 3)]);
}

#[test]
fn intersections_leave_the_origin_out() {
    let first = wire("R8");
    let second = wire("U7");
    assert_eq!(intersections(&first, &second), Vec::<(i32, i32)>::new());
}

#[test]
fn intersections_of_an_empty_wire_are_none() {
    let first = wire("R8,U5");
    assert_eq!(intersections(&first, &Vec::new()), Vec::<(i32, i32)>::new());
    assert_eq!(intersections(&Vec::new(), &first), Vec::<(i32, i32)>::new());
}

#[test]
fn intersections_pair_every_line_with_every_line() {
    let first = wire("U1,R10,D2");
    let second = wire("R1,U10,R3,D20");
    assert_eq!(intersections(&first, &second), vec![(1, 1), (4, 1)]);
    let third = wire("R5,U5,L2,D10");
    assert_eq!(intersections(&third, &wire("U2,R9")), vec![(5, 2), (3, 2)]);
}

#[test]
fn closest_distance_is_the_least() {
    assert_eq!(closest_distance(&vec![(6, 5), (3, 3)]), Some(6));
    assert_eq!(closest_distance(&vec![(3, 3), (6, 5)]), Some(6));
    assert_eq!(closest_distance(&vec![(-2, 1)]), Some(3));
    assert_eq!(closest_distance(&vec![(0, 0), (5, 5)]), Some(0));
}

#[test]
fn closest_distance_of_nothing_is_none() {
    assert_eq!(closest_distance(&Vec::new()), None);
}

#[test]
fn closest_distance_beyond_the_type_is_none() {
    assert_eq!(closest_distance(&vec![(i32::MIN, 0)]), None);
    assert_eq!(closest_distance(&vec![(i32::MAX, 1)]), None);
    assert_eq!(closest_distance(&vec![(i32::MAX, 0)]), Some(i32::MAX));
    assert_eq!(closest_distance(&vec![(i32::MIN, 0), (4, 4)]), Some(8));
}

#[test]
fn fewest_steps_adds_both_wires() {
    let first = wire("R8,U5,L5,D3");
    let second = wire("U7,R6,D4,L4");
    let points = intersections(&first, &second);
    assert_eq!(fewest_steps(&first, &second, &points), Some(30));
    assert_eq!(fewest_steps(&first, &second, &vec![(3, 3)]), Some(40));
    assert_eq!(fewest_steps(&first, &second, &Vec::new()), None);
}

#[test]
fn fewest_steps_beyond_the_type_is_none() {
    let first = wire("R2147483647");
    let second = wire("U2147483647");
    assert_eq!(fewest_steps(&first, &second, &vec![(5, 5)]), None);
    assert_eq!(fewest_steps(&first, &second, &vec![(5, 5), (5, 0)]), None);
    assert_eq!(fewest_steps(&first, &second, &vec![(0, 0)]), Some(0));
}

#[test]
fn first_example_wires() {
    let first = wire("R75,D30,R83,U83,L12,D49,R71,U7,L72");
    let second = wire("U62,R66,U55,R34,D71,R55,D58,R83");
    let points = intersections(&first, &second);
    assert_eq!(points, vec![(158, -12), (146, 46), (155, 4), (155, 11)]);
    assert_eq!(closest_distance(&points), Some(159));
    assert_eq!(fewest_steps(&first, &second, &points), Some(610));
}

#[test]
fn second_example_wires() {
    let first = wire("R98,U47,R26,D63,R33,U87,L62,D20,R33,U53,R51");
    let second = wire("U98,R91,D20,R16,D67,R40,U7,L15,U6,R7");
    let points = intersections(&first, &second);
    assert_eq!(points, vec![(107, 47), (124, 11), (107, 71), (107, 51)]);
    assert_eq!(closest_distance(&points), Some(135));
    assert_eq!(fewest_steps(&first, &second, &points), Some(410));
}

#[test]
fn orientation_has_a_name() {
    assert_eq!(Orientation::Vertical.name(), "Vertical");
    assert_eq!(Orientation::Horizontal.name(), "Horizontal");
}

#[test]
fn describe_shows_ends_in_ascending_order() {
    assert_eq!(Line::new((8, 5), (3, 5)).describe(), "Line 3x5 -> 8x5 (Horizontal)");
    assert_eq!(Line::new((3, 5), (3, 2)).describe(), "Line 3x2 -> 3x5 (Vertical)");
    assert_eq!(Line::new((0, 0), (0, 0)).describe(), "Line 0x0 -> 0x0 (Vertical)");
}

#[test]
fn describe_shows_negative_coordinates() {
    assert_eq!(Line::new((0, 0), (-5, 0)).describe(), "Line -5x0 -> 0x0 (Horizontal)");
    assert_eq!(
        Line::new((7, i32::MIN), (7, i32::MAX)).describe(),
        "Line 7x-2147483648 -> 7x2147483647 (Vertical)"
    );
}

#[test]
fn parsed_wire_is_connected() {
    let lines = wire("R75,D30,R83,U83,L12,D49,R71,U7,L72");
    assert_eq!(lines.len(), 9);
    assert_eq!(lines[0].real_start, (0, 0));
    for i in 1..lines.len() {
        assert!(lines[i - 1].contains_point(lines[i].real_start));
    }
    for line in &lines {
        match line.orientation {
            Orientation::Vertical => assert!(line.start.0 == line.end.0 && line.start.1 <= line.end.1),
            Orientation::Horizontal => assert!(line.start.1 == line.end.1 && line.start.0 <= line.end.0),
        }
    }
}
