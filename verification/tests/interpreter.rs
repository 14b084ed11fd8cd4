use piet::navigation::exit_codel;
use piet::Color::Black as K;
use piet::Color::White as W;
use piet::{Action, CodelChooser, Color, Command, DirectionPointer, Error, Hue, Interpreter,
           Lightness, Program};

const LR: Color = Color::Composite(Hue::Red, Lightness::Light);
const NR: Color = Color::Composite(Hue::Red, Lightness::Normal);
const DR: Color = Color::Composite(Hue::Red, Lightness::Dark);
const DY: Color = Color::Composite(Hue::Yellow, Lightness::Dark);
const LM: Color = Color::Composite(Hue::Magenta, Lightness::Light);

fn interpreter(size: (usize, usize), image: Vec<Color>) -> Interpreter {
    Interpreter::new(Program::new(size, image).unwrap())
}

fn with_stack(values: &[i64]) -> Interpreter {
    let mut machine = interpreter((1, 1), vec![NR]);
    for v in values {
        machine.accept_input(Some(*v));
    }
    machine
}

fn after(values: &[i64], command: Command) -> Vec<i64> {
    let mut machine = with_stack(values);
    assert_eq!(machine.execute_command(&command), Action::Idle);
    machine.stack().to_vec()
}

#[test]
fn starts_top_left_heading_right() {
    let machine = interpreter((2, 2), vec![NR; 4]);
    assert_eq!(machine.position(), (0, 0));
    assert_eq!(machine.direction(), DirectionPointer::Right);
    assert_eq!(machine.chooser(), CodelChooser::Left);
    assert_eq!(machine.stack().len(), 0);
    assert!(!machine.halted());
}

#[test]
fn solid_white_grid_ends_with_an_empty_stack() {
    let mut machine = interpreter((3, 3), vec![W; 9]);
    assert_eq!(machine.run(Some(1000)), Ok(None));
    assert!(machine.halted());
    assert_eq!(machine.stack().len(), 0);
    assert_eq!(machine.step(), None);
}

#[test]
fn white_strip_slides_to_the_wall_and_ends() {
    let mut machine = interpreter((5, 1), vec![W; 5]);
    for x in 1..5 {
        assert_eq!(machine.step(), Some(Ok(Action::Idle)));
        assert_eq!(machine.position(), (x, 0));
        assert_eq!(machine.direction(), DirectionPointer::Right);
    }
    assert_eq!(machine.step(), Some(Ok(Action::Idle)));
    assert_eq!(machine.position(), (4, 0));
    assert_eq!(machine.chooser(), CodelChooser::Right);
    assert_eq!(machine.step(), Some(Ok(Action::Idle)));
    assert_eq!(machine.direction(), DirectionPointer::Down);
    assert_eq!(machine.run(Some(1000)), Ok(None));
    assert_eq!(machine.stack().len(), 0);
}

#[test]
fn push_then_out_char_writes_the_block_size() {
    let mut machine = interpreter((4, 2), vec![LR, LR, NR, LM,
                                               K, K, LM, LM]);
    assert_eq!(machine.step(), Some(Ok(Action::Idle)));
    assert_eq!(machine.stack().to_vec(), vec![2]);
    assert_eq!(machine.position(), (2, 0));
    assert_eq!(machine.run(Some(1000)), Ok(Some(Action::WriteChar(2))));
    assert_eq!(machine.stack().len(), 0);
    assert_eq!(machine.position(), (3, 0));
    assert_eq!(machine.run(Some(1000)), Ok(None));
    assert!(machine.halted());
}

#[test]
fn pushes_three_and_five_and_adds_them() {
    let mut machine = interpreter((10, 2), vec![LR, LR, LR, NR, NR, NR, NR, NR, DR, DY,
                                                K, K, K, K, K, K, K, K, DY, DY]);
    assert_eq!(machine.step(), Some(Ok(Action::Idle)));
    assert_eq!(machine.stack().to_vec(), vec![3]);
    assert_eq!(machine.step(), Some(Ok(Action::Idle)));
    assert_eq!(machine.stack().to_vec(), vec![3, 5]);
    assert_eq!(machine.step(), Some(Ok(Action::Idle)));
    assert_eq!(machine.stack().peek(), Some(&8));
    assert_eq!(machine.stack().to_vec(), vec![8]);
    assert_eq!(machine.run(Some(1000)), Ok(None));
    assert_eq!(machine.stack().to_vec(), vec![8]);
}

#[test]
fn division_by_zero_leaves_the_stack() {
    let mut machine = with_stack(&[5, 0]);
    assert_eq!(machine.execute_command(&Command::Divide), Action::Idle);
    assert_eq!(machine.stack().to_vec(), vec![5, 0]);
    assert_eq!(machine.execute_command(&Command::Mod), Action::Idle);
    assert_eq!(machine.stack().to_vec(), vec![5, 0]);
    assert_eq!(machine.execute_command(&Command::Pop), Action::Idle);
    assert_eq!(machine.stack().to_vec(), vec![5]);
}

#[test]
fn pointer_turns_the_direction() {
    let mut machine = with_stack(&[1]);
    assert_eq!(machine.direction(), DirectionPointer::Right);
    assert_eq!(machine.execute_command(&Command::Pointer), Action::Idle);
    assert_eq!(machine.direction(), DirectionPointer::Down);
    assert_eq!(machine.stack().len(), 0);

    let mut machine = with_stack(&[-1]);
    machine.execute_command(&Command::Pointer);
    assert_eq!(machine.direction(), DirectionPointer::Up);

    let mut machine = with_stack(&[6]);
    machine.execute_command(&Command::Pointer);
    assert_eq!(machine.direction(), DirectionPointer::Left);

    let mut machine = with_stack(&[i64::MIN]);
    machine.execute_command(&Command::Pointer);
    assert_eq!(machine.direction(), DirectionPointer::Right);

    let mut machine = with_stack(&[]);
    machine.execute_command(&Command::Pointer);
    assert_eq!(machine.direction(), DirectionPointer::Right);
}

#[test]
fn roll_command_takes_times_then_depth() {
    assert_eq!(after(&[1, 2, 3, 4, 3, 1], Command::Roll), vec![1, 4, 2, 3]);
    assert_eq!(after(&[1, 2, 3, 4, 3, -1], Command::Roll), vec![1, 3, 4, 2]);
}

#[test]
fn roll_command_with_a_bad_depth_drops_its_operands() {
    assert_eq!(after(&[1, 2, 3, 4, 5, 1], Command::Roll), vec![1, 2, 3, 4]);
    assert_eq!(after(&[1, 2, 3, 4, -1, 1], Command::Roll), vec![1, 2, 3, 4]);
    assert_eq!(after(&[1, 2, 3, 4, 0, 1], Command::Roll), vec![1, 2, 3, 4]);
    assert_eq!(after(&[7], Command::Roll), vec![7]);
    assert_eq!(after(&[], Command::Roll), Vec::<i64>::new());
}

#[test]
fn arithmetic_takes_the_second_value_first() {
    assert_eq!(after(&[9, 3, 5], Command::Add), vec![9, 8]);
    assert_eq!(after(&[9, 3, 5], Command::Subtract), vec![9, -2]);
    assert_eq!(after(&[9, 3, 5], Command::Multiply), vec![9, 15]);
    assert_eq!(after(&[9, 17, 5], Command::Divide), vec![9, 3]);
    assert_eq!(after(&[9, 17, 5], Command::Mod), vec![9, 2]);
    assert_eq!(after(&[9, 5, 3], Command::Greater), vec![9, 1]);
    assert_eq!(after(&[9, 3, 5], Command::Greater), vec![9, 0]);
    assert_eq!(after(&[9, 3, 3], Command::Greater), vec![9, 0]);
}

#[test]
fn division_and_remainder_are_floored() {
    assert_eq!(after(&[8, 3], Command::Divide), vec![2]);
    assert_eq!(after(&[8, -3], Command::Divide), vec![-3]);
    assert_eq!(after(&[-8, 3], Command::Divide), vec![-3]);
    assert_eq!(after(&[-8, -3], Command::Divide), vec![2]);
    assert_eq!(after(&[8, 3], Command::Mod), vec![2]);
    assert_eq!(after(&[8, -3], Command::Mod), vec![-1]);
    assert_eq!(after(&[-8, 3], Command::Mod), vec![1]);
    assert_eq!(after(&[-8, -3], Command::Mod), vec![-2]);
    assert_eq!(after(&[i64::MIN, -1], Command::Divide), vec![i64::MIN]);
    assert_eq!(after(&[i64::MIN, -1], Command::Mod), vec![0]);
}

#[test]
fn sums_differences_and_products_wrap() {
    assert_eq!(after(&[i64::MAX, 1], Command::Add), vec![i64::MIN]);
    assert_eq!(after(&[i64::MIN, 1], Command::Subtract), vec![i64::MAX]);
    assert_eq!(after(&[i64::MAX, 2], Command::Multiply), vec![-2]);
}

#[test]
fn commands_without_operands_change_nothing() {
    for command in [Command::Add, Command::Subtract, Command::Multiply, Command::Divide,
                    Command::Mod, Command::Greater, Command::Roll] {
        assert_eq!(after(&[4], command), vec![4]);
        assert_eq!(after(&[], command), Vec::<i64>::new());
    }
    for command in [Command::Pop, Command::Not, Command::Pointer, Command::Switch,
                    Command::Duplicate, Command::IntOut, Command::CharOut, Command::NoOp] {
        assert_eq!(after(&[], command), Vec::<i64>::new());
    }
}

#[test]
fn not_duplicate_and_switch() {
    assert_eq!(after(&[3, 0], Command::Not), vec![3, 1]);
    assert_eq!(after(&[3, 7], Command::Not), vec![3, 0]);
    assert_eq!(after(&[3, 7], Command::Duplicate), vec![3, 7, 7]);
    assert_eq!(after(&[3, 7], Command::NoOp), vec![3, 7]);

    let mut machine = with_stack(&[3]);
    machine.execute_command(&Command::Switch);
    assert_eq!(machine.chooser(), CodelChooser::Right);
    let mut machine = with_stack(&[-3]);
    machine.execute_command(&Command::Switch);
    assert_eq!(machine.chooser(), CodelChooser::Right);
    let mut machine = with_stack(&[4]);
    machine.execute_command(&Command::Switch);
    assert_eq!(machine.chooser(), CodelChooser::Left);
    assert_eq!(machine.stack().len(), 0);
}

#[test]
fn input_and_output_are_left_to_the_host() {
    let mut machine = with_stack(&[65]);
    assert_eq!(machine.execute_command(&Command::IntIn), Action::ReadNumber);
    assert_eq!(machine.stack().to_vec(), vec![65]);
    machine.accept_input(None);
    assert_eq!(machine.stack().to_vec(), vec![65]);
    assert_eq!(machine.execute_command(&Command::CharIn), Action::ReadChar);
    machine.accept_input(Some(10));
    assert_eq!(machine.stack().to_vec(), vec![65, 10]);
    assert_eq!(machine.execute_command(&Command::IntOut), Action::WriteNumber(10));
    assert_eq!(machine.execute_command(&Command::CharOut), Action::WriteChar(65));
    assert_eq!(machine.execute_command(&Command::IntOut), Action::Idle);
    assert_eq!(machine.execute_command(&Command::CharOut), Action::Idle);
}

#[test]
fn a_program_that_cannot_move_ends_at_the_eighth_step() {
    for image in [vec![NR], vec![W]] {
        let mut machine = interpreter((1, 1), image);
        let headings = [
            (DirectionPointer::Right, CodelChooser::Right),
            (DirectionPointer::Down, CodelChooser::Right),
            (DirectionPointer::Down, CodelChooser::Left),
            (DirectionPointer::Left, CodelChooser::Left),
            (DirectionPointer::Left, CodelChooser::Right),
            (DirectionPointer::Up, CodelChooser::Right),
            (DirectionPointer::Up, CodelChooser::Left),
        ];
        for (dp, cc) in headings {
            assert_eq!(machine.step(), Some(Ok(Action::Idle)));
            assert_eq!((machine.direction(), machine.chooser()), (dp, cc));
            assert!(!machine.halted());
        }
        assert_eq!(machine.step(), None);
        assert!(machine.halted());
        assert_eq!(machine.direction(), DirectionPointer::Right);
        assert_eq!(machine.chooser(), CodelChooser::Left);
        assert_eq!(machine.position(), (0, 0));
        assert_eq!(machine.step(), None);
    }
}

#[test]
fn a_blocked_block_surrounded_by_black_ends_too() {
    let mut machine = interpreter((2, 2), vec![NR, K,
                                               K, W]);
    assert_eq!(machine.run(Some(7)), Err(Error::StepLimitExceeded));
    assert!(!machine.halted());
    assert_eq!(machine.steps(), 7);
    assert_eq!(machine.run(Some(7)), Err(Error::StepLimitExceeded));
    assert_eq!(machine.steps(), 7);
    assert_eq!(machine.run(Some(8)), Ok(None));
    assert_eq!(machine.steps(), 8);
    assert_eq!(machine.run(Some(8)), Ok(None));
    let mut machine = interpreter((2, 2), vec![NR, K,
                                               K, W]);
    assert_eq!(machine.run(Some(8)), Ok(None));
}

#[test]
fn a_black_start_is_an_error() {
    let mut machine = interpreter((2, 1), vec![K, NR]);
    assert_eq!(machine.step(), Some(Err(Error::InvalidStart)));
    assert_eq!(machine.run(Some(10)), Err(Error::InvalidStart));
}

#[test]
fn the_step_limit_stops_a_program_that_goes_round() {
    let mut machine = interpreter((2, 1), vec![NR, DR]);
    assert_eq!(machine.run(Some(50)), Err(Error::StepLimitExceeded));
    assert_eq!(machine.steps(), 50);
    let (position, direction, stack) =
        (machine.position(), machine.direction(), machine.stack().to_vec());
    assert_eq!(machine.run(Some(0)), Err(Error::StepLimitExceeded));
    assert_eq!(machine.run(Some(50)), Err(Error::StepLimitExceeded));
    assert_eq!(machine.steps(), 50);
    assert_eq!(machine.position(), position);
    assert_eq!(machine.direction(), direction);
    assert_eq!(machine.stack().to_vec(), stack);
}

#[test]
fn a_run_without_a_limit_goes_to_the_end() {
    let mut machine = interpreter((10, 2), vec![LR, LR, LR, NR, NR, NR, NR, NR, DR, DY,
                                                K, K, K, K, K, K, K, K, DY, DY]);
    assert_eq!(machine.run(None), Ok(None));
    assert_eq!(machine.stack().to_vec(), vec![8]);
    assert_eq!(machine.steps(), 11);
    assert_eq!(machine.step(), None);
    assert_eq!(machine.steps(), 11);
}

#[test]
fn a_success_resets_the_blocked_attempts() {
    // Two codels side by side: right to the second, then three blocked
    // attempts before the way back is found.
    let mut machine = interpreter((2, 1), vec![NR, DR]);
    assert_eq!(machine.step(), Some(Ok(Action::Idle)));
    assert_eq!(machine.position(), (1, 0));
    assert_eq!(machine.stack().to_vec(), vec![1]);
    for _ in 0..4 {
        assert_eq!(machine.step(), Some(Ok(Action::Idle)));
        assert_eq!(machine.position(), (1, 0));
    }
    assert_eq!(machine.direction(), DirectionPointer::Left);
    assert_eq!(machine.step(), Some(Ok(Action::Idle)));
    assert_eq!(machine.position(), (0, 0));
    assert_eq!(machine.stack().to_vec(), vec![]);
}

#[test]
fn entering_colour_from_white_runs_no_command() {
    let mut machine = interpreter((4, 1), vec![LR, W, W, NR]);
    assert_eq!(machine.step(), Some(Ok(Action::Idle)));
    assert_eq!(machine.position(), (1, 0));
    assert_eq!(machine.step(), Some(Ok(Action::Idle)));
    assert_eq!(machine.position(), (2, 0));
    assert_eq!(machine.step(), Some(Ok(Action::Idle)));
    assert_eq!(machine.position(), (3, 0));
    assert_eq!(machine.stack().len(), 0);
}

#[test]
fn exit_codel_follows_direction_and_chooser() {
    let block = vec![(1, 1), (2, 1), (3, 1), (1, 2), (3, 2), (1, 3), (2, 3), (3, 3)];
    let cases = [
        (DirectionPointer::Right, CodelChooser::Left, (3, 3)),
        (DirectionPointer::Right, CodelChooser::Right, (3, 1)),
        (DirectionPointer::Down, CodelChooser::Left, (1, 3)),
        (DirectionPointer::Down, CodelChooser::Right, (3, 3)),
        (DirectionPointer::Left, CodelChooser::Left, (1, 1)),
        (DirectionPointer::Left, CodelChooser::Right, (1, 3)),
        (DirectionPointer::Up, CodelChooser::Left, (3, 1)),
        (DirectionPointer::Up, CodelChooser::Right, (1, 1)),
    ];
    for (dp, cc, exit) in cases {
        assert_eq!(exit_codel(&block, dp, cc), exit);
    }
    assert_eq!(exit_codel(&vec![(4, 7)], DirectionPointer::Up, CodelChooser::Left), (4, 7));
}

#[test]
fn next_coords_is_the_exit_of_the_current_block() {
    let mut machine = interpreter((3, 2), vec![NR, NR, W,
                                               K, NR, W]);
    assert_eq!(machine.current_block().len(), 3);
    assert_eq!(machine.next_coords(), (1, 1));
    machine.switch(1);
    assert_eq!(machine.next_coords(), (1, 0));
    machine.pointer(1);
    assert_eq!(machine.direction(), DirectionPointer::Down);
    assert_eq!(machine.next_coords(), (1, 1));
}

#[test]
fn direction_pointer_and_chooser_turn() {
    let mut dp = DirectionPointer::Up;
    dp.rotate_clockwise();
    assert_eq!(dp, DirectionPointer::Right);
    dp.rotate_clockwise();
    assert_eq!(dp, DirectionPointer::Down);
    dp.rotate_clockwise();
    assert_eq!(dp, DirectionPointer::Left);
    dp.rotate_clockwise();
    assert_eq!(dp, DirectionPointer::Up);
    dp.rotate_counterclockwise();
    assert_eq!(dp, DirectionPointer::Left);
    dp.rotate_counterclockwise();
    assert_eq!(dp, DirectionPointer::Down);
    assert_eq!(dp.rotated(-3), DirectionPointer::Left);
    assert_eq!(dp.rotated(5), DirectionPointer::Left);
    let mut cc = CodelChooser::Left;
    cc.switch();
    assert_eq!(cc, CodelChooser::Right);
    cc.switch();
    assert_eq!(cc, CodelChooser::Left);
}

#[test]
fn push_puts_the_size_of_the_block_that_was_left() {
    let mut machine = interpreter((3, 3), vec![LR, LR, NR,
                                               LR, LR, K,
                                               LR, K, K]);
    // The exit lies on the right edge of the block of five; the codel chooser
    // on the left picks its lowest codel, which is blocked, so that the first
    // attempt only switches the chooser.
    assert_eq!(machine.step(), Some(Ok(Action::Idle)));
    assert_eq!(machine.position(), (0, 0));
    assert_eq!(machine.chooser(), CodelChooser::Right);
    assert_eq!(machine.step(), Some(Ok(Action::Idle)));
    assert_eq!(machine.position(), (2, 0));
    assert_eq!(machine.stack().to_vec(), vec![5]);
}

#[test]
fn a_run_pauses_for_input_and_output() {
    let dark_blue = Color::Composite(Hue::Blue, Lightness::Dark);
    let dark_green = Color::Composite(Hue::Green, Lightness::Dark);
    let cyan = Color::Composite(Hue::Cyan, Lightness::Normal);
    // Read a number, duplicate it, multiply, write the square.
    let mut machine = interpreter((5, 2), vec![LR, dark_blue, dark_green, cyan, dark_green,
                                               K, K, K, dark_green, dark_green]);
    assert_eq!(machine.run(None), Ok(Some(Action::ReadNumber)));
    assert_eq!(machine.position(), (1, 0));
    assert_eq!(machine.steps(), 1);
    machine.accept_input(Some(7));
    assert_eq!(machine.run(None), Ok(Some(Action::WriteNumber(49))));
    assert_eq!(machine.position(), (4, 0));
    assert_eq!(machine.steps(), 4);
    assert_eq!(machine.stack().len(), 0);
    assert_eq!(machine.run(None), Ok(None));
    assert_eq!(machine.steps(), 12);

    // At the end of the input nothing is pushed, and the commands that
    // follow find no operands.
    let mut machine = interpreter((5, 2), vec![LR, dark_blue, dark_green, cyan, dark_green,
                                               K, K, K, dark_green, dark_green]);
    assert_eq!(machine.run(None), Ok(Some(Action::ReadNumber)));
    machine.accept_input(None);
    assert_eq!(machine.run(None), Ok(None));
    assert_eq!(machine.stack().len(), 0);
}
