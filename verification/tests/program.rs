use std::collections::HashSet;

use piet::Color::Black as B;
use piet::Color::White as W;
use piet::{Color, Error, Hue, Lightness, Program};

fn blank() -> Program {
    Program::new((5, 5), vec![W; 25]).unwrap()
}

fn set_of(coords: Vec<(usize, usize)>) -> HashSet<(usize, usize)> {
    coords.into_iter().collect()
}

#[test]
fn test_program_coords_to_index() {
    let program = blank();
    assert_eq!(program.coords_to_index((0, 0)), Some(0));
    assert_eq!(program.coords_to_index((2, 0)), Some(2));
    assert_eq!(program.coords_to_index((0, 2)), Some(10));
    assert_eq!(program.coords_to_index((2, 2)), Some(12));
    assert_eq!(program.coords_to_index((4, 4)), Some(24));
    assert_eq!(program.coords_to_index((5, 5)), None);
}

#[test]
fn test_program_index_to_coords() {
    let program = blank();
    assert_eq!(program.index_to_coords(0), Some((0, 0)));
    assert_eq!(program.index_to_coords(2), Some((2, 0)));
    assert_eq!(program.index_to_coords(10), Some((0, 2)));
    assert_eq!(program.index_to_coords(12), Some((2, 2)));
    assert_eq!(program.index_to_coords(24), Some((4, 4)));
    assert_eq!(program.index_to_coords(25), None);
}

#[test]
fn test_program_check_coords() {
    let program = blank();
    assert!(program.check_coords((0, 0)).is_some());
    assert!(program.check_coords((4, 0)).is_some());
    assert!(program.check_coords((0, 4)).is_some());
    assert!(program.check_coords((4, 4)).is_some());
    assert!(program.check_coords((5, 4)).is_none());
    assert!(program.check_coords((4, 5)).is_none());
    assert!(program.check_coords((5, 5)).is_none());
}

#[test]
fn test_program_color_block() {
    let program = Program::new((5, 5),
                               vec![W, W, W, W, W,
                                    W, W, W, W, W,
                                    W, W, B, W, W,
                                    W, W, W, W, W,
                                    W, W, W, W, W]).unwrap();
    assert_eq!(set_of(program.color_block((2, 2))), set_of(vec![(2, 2)]));

    let program = Program::new((5, 5),
                               vec![B, W, W, W, W,
                                    W, W, W, W, W,
                                    W, W, W, W, W,
                                    W, W, W, W, W,
                                    W, W, W, W, W]).unwrap();
    assert_eq!(set_of(program.color_block((0, 0))), set_of(vec![(0, 0)]));

    let program = Program::new((5, 5),
                               vec![W, W, W, W, W,
                                    W, B, B, B, W,
                                    W, B, B, B, W,
                                    W, B, B, B, W,
                                    W, W, W, W, W]).unwrap();
    assert_eq!(set_of(program.color_block((2, 2))), set_of(vec![(1, 1), (2, 1), (3, 1),
                                                                (1, 2), (2, 2), (3, 2),
                                                                (1, 3), (2, 3), (3, 3)]));

    let program = Program::new((5, 5),
                               vec![W, W, W, W, W,
                                    W, B, B, B, W,
                                    W, B, W, B, W,
                                    W, B, W, B, W,
                                    W, W, W, W, W]).unwrap();
    assert_eq!(set_of(program.color_block((1, 1))), set_of(vec![(1, 1), (2, 1), (3, 1),
                                                                (1, 2),         (3, 2),
                                                                (1, 3),         (3, 3)]));

    let program = Program::new((5, 5),
                               vec![W, W, W, W, W,
                                    W, B, W, B, W,
                                    W, B, W, B, W,
                                    W, B, W, B, W,
                                    W, W, W, W, W]).unwrap();
    assert_eq!(set_of(program.color_block((1, 1))), set_of(vec![(1, 1),
                                                                (1, 2),
                                                                (1, 3)]));
}

#[test]
fn new_rejects_a_grid_without_codels() {
    assert_eq!(Program::new((0, 3), vec![]).err(), Some(Error::ZeroDimensions));
    assert_eq!(Program::new((3, 0), vec![]).err(), Some(Error::ZeroDimensions));
    assert_eq!(Program::new((0, 0), vec![W]).err(), Some(Error::ZeroDimensions));
}

#[test]
fn new_rejects_an_image_of_another_length() {
    assert_eq!(Program::new((5, 5), vec![]).err(), Some(Error::LengthMismatch));
    assert_eq!(Program::new((2, 2), vec![W; 5]).err(), Some(Error::LengthMismatch));
    assert_eq!(Program::new((usize::MAX, 2), vec![W; 2]).err(), Some(Error::LengthMismatch));
    assert!(Program::new((2, 3), vec![W; 6]).is_ok());
}

#[test]
fn get_reads_row_by_row() {
    let red = Color::Composite(Hue::Red, Lightness::Normal);
    let program = Program::new((3, 2), vec![W, B, red, B, W, W]).unwrap();
    assert_eq!(program.size(), (3, 2));
    assert_eq!(program.get((0, 0)), Some(W));
    assert_eq!(program.get((1, 0)), Some(B));
    assert_eq!(program.get((2, 0)), Some(red));
    assert_eq!(program.get((0, 1)), Some(B));
    assert_eq!(program.get((2, 1)), Some(W));
    assert_eq!(program.get((3, 0)), None);
    assert_eq!(program.get((0, 2)), None);
}

#[test]
fn neighbors_come_right_left_below_above() {
    let program = Program::new((3, 3), vec![W; 9]).unwrap();
    assert_eq!(
        program.neighbors((1, 1)),
        [Some((2, 1)), Some((0, 1)), Some((1, 2)), Some((1, 0))]
    );
    assert_eq!(program.neighbors((0, 0)), [Some((1, 0)), None, Some((0, 1)), None]);
    assert_eq!(program.neighbors((2, 2)), [None, Some((1, 2)), None, Some((2, 1))]);
    assert_eq!(program.neighbors((usize::MAX, usize::MAX)), [None, None, None, None]);
}

#[test]
fn color_block_lists_each_codel_once_from_the_start() {
    let program = Program::new((4, 3), vec![W, W, B, W,
                                            B, W, B, W,
                                            W, W, W, W]).unwrap();
    let block = program.color_block((3, 0));
    assert_eq!(block[0], (3, 0));
    assert_eq!(block.len(), 9);
    assert_eq!(set_of(block.clone()).len(), 9);
    assert_eq!(set_of(program.color_block((2, 0))), set_of(vec![(2, 0), (2, 1)]));
}

#[test]
fn color_block_is_the_same_from_each_of_its_codels() {
    let red = Color::Composite(Hue::Red, Lightness::Normal);
    let program = Program::new((4, 4), vec![red, red, W, red,
                                            W, red, W, red,
                                            red, red, B, red,
                                            red, W, W, B]).unwrap();
    for y in 0..4 {
        for x in 0..4 {
            let block = program.color_block((x, y));
            let members = set_of(block.clone());
            for q in block {
                assert_eq!(program.get(q), program.get((x, y)));
                assert_eq!(set_of(program.color_block(q)), members);
            }
        }
    }
    assert_eq!(program.color_block((0, 0)).len(), 6);
    assert_eq!(program.color_block((3, 0)).len(), 3);
    assert_eq!(program.color_block((3, 3)).len(), 1);
}

#[test]
fn large_block_is_found_without_deep_recursion() {
    let program = Program::new((300, 300), vec![W; 90000]).unwrap();
    assert_eq!(program.color_block((150, 150)).len(), 90000);
}
